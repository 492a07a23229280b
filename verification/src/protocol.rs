//! Collaboration relay protocol: the messages exchanged with the relay and the
//! base64 form in which document bytes travel.

use vstd::prelude::*;
use base64::Engine;
use vstd::utf8::encode_utf8;
use vstd::std_specs::cmp::PartialEqSpecImpl;
use vstd::string::StringSliceAdditionalSpecFns;
use crate::text::{str_trim, trimmed, opt_bytes, is_unicode_whitespace, lemma_trimmed_unchanged};

verus! {

/// Messages sent to the server.
#[derive(Debug, Clone, PartialEq)]
pub enum ClientMessage {
    /// Join a room
    Join { room: String },
    /// Leave current room
    Leave,
    /// Incremental document update (base64)
    Sync { data: String },
    /// Full document snapshot (base64): join bootstrap / compaction
    SyncSnapshot { data: String },
    /// Request the server's persisted room snapshot
    RequestSnapshot,
    /// Awareness update (cursor position, selection, etc.)
    Awareness { peer_id: u64, state: AwarenessState },
}

/// Messages received from the server.
#[derive(Debug, Clone, PartialEq)]
pub enum ServerMessage {
    /// Confirm room join with current state
    Joined { room: String, peer_count: usize, initial_sync: Option<String> },
    PeerJoined { peer_id: String },
    PeerLeft { peer_id: String },
    /// Incremental or snapshot sync from another peer (document bytes, base64)
    Sync { from: String, data: String },
    /// Full room snapshot from server (recovery / request_snapshot)
    RoomSnapshot { data: Option<String> },
    Awareness { from: String, peer_id: u64, state: AwarenessState },
    Error { message: String },
}

/// What a peer shares about itself: where its cursor is and who it is.
#[derive(Debug, Clone, Default, PartialEq)]
pub struct AwarenessState {
    pub cursor: Option<CursorPosition>,
    pub user: Option<UserInfo>,
}

/// A cursor position; each coordinate is held as the bit pattern of its IEEE-754
/// double, so that it travels through the relay unchanged.
#[derive(Debug, Clone, Copy)]
pub struct CursorPosition {
    pub x_bits: u64,
    pub y_bits: u64,
}

/// Whether the bits are those of a NaN double: all exponent bits set and a
/// non-zero fraction.
pub open spec fn f64_bits_is_nan(b: u64) -> bool {
    (b & 0x7ff0_0000_0000_0000u64) == 0x7ff0_0000_0000_0000u64 && (b & 0x000f_ffff_ffff_ffffu64)
        != 0
}

/// Whether the bits are those of a zero double, `+0.0` or `-0.0`.
pub open spec fn f64_bits_is_zero(b: u64) -> bool {
    (b & 0x7fff_ffff_ffff_ffffu64) == 0
}

/// IEEE-754 equality of two doubles given by their bits: a NaN equals nothing,
/// the two zeros are equal, and otherwise equal values have equal bits.
pub open spec fn f64_bits_eq(a: u64, b: u64) -> bool {
    !f64_bits_is_nan(a) && !f64_bits_is_nan(b) && (a == b || (f64_bits_is_zero(a)
        && f64_bits_is_zero(b)))
}

/// Compares two doubles given by their bits as `==` on `f64` does.
pub fn f64_bits_equal(a: u64, b: u64) -> (r: bool)
    ensures
        r == f64_bits_eq(a, b),
{
    let a_nan = (a & 0x7ff0_0000_0000_0000u64) == 0x7ff0_0000_0000_0000u64 && (a
        & 0x000f_ffff_ffff_ffffu64) != 0;
    let b_nan = (b & 0x7ff0_0000_0000_0000u64) == 0x7ff0_0000_0000_0000u64 && (b
        & 0x000f_ffff_ffff_ffffu64) != 0;
    let both_zero = (a & 0x7fff_ffff_ffff_ffffu64) == 0 && (b & 0x7fff_ffff_ffff_ffffu64) == 0;
    !a_nan && !b_nan && (a == b || both_zero)
}

/// Cursor positions are equal when both coordinates are, compared as doubles.
impl PartialEq for CursorPosition {
    fn eq(&self, other: &Self) -> (r: bool) {
        f64_bits_equal(self.x_bits, other.x_bits) && f64_bits_equal(self.y_bits, other.y_bits)
    }
}

impl PartialEqSpecImpl for CursorPosition {
    open spec fn obeys_eq_spec() -> bool {
        true
    }

    open spec fn eq_spec(&self, other: &Self) -> bool {
        f64_bits_eq(self.x_bits, other.x_bits) && f64_bits_eq(self.y_bits, other.y_bits)
    }
}

/// A peer's display name and color.
#[derive(Debug, Clone, PartialEq)]
pub struct UserInfo {
    pub name: String,
    pub color: String,
}

/// The symbol of the standard base64 alphabet for a six-bit value:
/// `A`-`Z`, `a`-`z`, `0`-`9`, `+`, `/`.
pub open spec fn base64_symbol(v: int) -> char {
    if v < 26 {
        (65 + v) as char
    } else if v < 52 {
        (97 + (v - 26)) as char
    } else if v < 62 {
        (48 + (v - 52)) as char
    } else if v == 62 {
        '+'
    } else {
        '/'
    }
}

/// Standard base64 (RFC 4648, with `=` padding) of bytes: each group of three
/// bytes becomes four symbols of six bits each; a last group of one or two
/// bytes becomes two or three symbols, its unused low bits zero, padded with `=`
/// to four.
pub open spec fn base64_of(d: Seq<u8>) -> Seq<char>
    decreases d.len(),
{
    if d.len() == 0 {
        Seq::empty()
    } else if d.len() == 1 {
        seq![base64_symbol((d[0] as int) / 4), base64_symbol(((d[0] as int) % 4) * 16), '=', '=']
    } else if d.len() == 2 {
        seq![
            base64_symbol((d[0] as int) / 4),
            base64_symbol(((d[0] as int) % 4) * 16 + (d[1] as int) / 16),
            base64_symbol(((d[1] as int) % 16) * 4),
            '=',
        ]
    } else {
        seq![
            base64_symbol((d[0] as int) / 4),
            base64_symbol(((d[0] as int) % 4) * 16 + (d[1] as int) / 16),
            base64_symbol(((d[1] as int) % 16) * 4 + (d[2] as int) / 64),
            base64_symbol((d[2] as int) % 64),
        ] + base64_of(d.skip(3))
    }
}

/// The bytes whose standard base64 is `text`, if there are any (there is at
/// most one such byte sequence: see [`lemma_base64_of_injective`]).
pub open spec fn base64_decoded(text: Seq<char>) -> Option<Seq<u8>> {
    if exists|b: Seq<u8>| base64_of(b) == text {
        Some(choose|b: Seq<u8>| base64_of(b) == text)
    } else {
        None
    }
}

/// A character of the standard base64 alphabet, or the padding `=`.
pub open spec fn is_base64_char(c: char) -> bool {
    ('A' <= c <= 'Z') || ('a' <= c <= 'z') || ('0' <= c <= '9') || c == '+' || c == '/' || c == '='
}

proof fn lemma_base64_symbol(v: int)
    requires
        0 <= v < 64,
    ensures
        is_base64_char(base64_symbol(v)),
        base64_symbol(v) != '=',
{
}

proof fn lemma_base64_symbol_injective(x: int, y: int)
    requires
        0 <= x < 64,
        0 <= y < 64,
        base64_symbol(x) == base64_symbol(y),
    ensures
        x == y,
{
}

/// Law: standard base64 text is made of the base64 alphabet and `=`.
pub proof fn lemma_base64_of_chars(d: Seq<u8>)
    ensures
        forall|i: int| 0 <= i < base64_of(d).len() ==> is_base64_char(#[trigger] base64_of(d)[i]),
    decreases d.len(),
{
    if d.len() >= 1 {
        lemma_base64_symbol((d[0] as int) / 4);
        lemma_base64_symbol(((d[0] as int) % 4) * 16);
    }
    if d.len() >= 2 {
        lemma_base64_symbol(((d[0] as int) % 4) * 16 + (d[1] as int) / 16);
        lemma_base64_symbol(((d[1] as int) % 16) * 4);
    }
    if d.len() >= 3 {
        lemma_base64_symbol(((d[1] as int) % 16) * 4 + (d[2] as int) / 64);
        lemma_base64_symbol((d[2] as int) % 64);
        lemma_base64_of_chars(d.skip(3));
        let head = seq![
            base64_symbol((d[0] as int) / 4),
            base64_symbol(((d[0] as int) % 4) * 16 + (d[1] as int) / 16),
            base64_symbol(((d[1] as int) % 16) * 4 + (d[2] as int) / 64),
            base64_symbol((d[2] as int) % 64),
        ];
        assert forall|i: int| 0 <= i < base64_of(d).len() implies is_base64_char(
            #[trigger] base64_of(d)[i],
        ) by {
            if i >= 4 {
                assert(base64_of(d)[i] == base64_of(d.skip(3))[i - 4]);
            } else {
                assert(base64_of(d)[i] == head[i]);
            }
        }
    }
}

proof fn lemma_base64_of_head(d: Seq<u8>)
    requires
        d.len() > 0,
    ensures
        base64_of(d).len() >= 4,
        base64_of(d)[0] == base64_symbol((d[0] as int) / 4),
        d.len() == 1 ==> base64_of(d)[1] == base64_symbol(((d[0] as int) % 4) * 16),
        d.len() >= 2 ==> base64_of(d)[1] == base64_symbol(
            ((d[0] as int) % 4) * 16 + (d[1] as int) / 16,
        ),
        d.len() == 1 ==> base64_of(d)[2] == '=',
        d.len() == 2 ==> base64_of(d)[2] == base64_symbol(((d[1] as int) % 16) * 4),
        d.len() >= 3 ==> base64_of(d)[2] == base64_symbol(
            ((d[1] as int) % 16) * 4 + (d[2] as int) / 64,
        ),
        d.len() <= 2 ==> base64_of(d)[3] == '=' && base64_of(d).len() == 4,
        d.len() >= 3 ==> base64_of(d)[3] == base64_symbol((d[2] as int) % 64)
            && base64_of(d).skip(4) =~= base64_of(d.skip(3)),
{
}

/// Law: different bytes have different standard base64, so decoding is
/// well defined.
pub proof fn lemma_base64_of_injective(a: Seq<u8>, b: Seq<u8>)
    requires
        base64_of(a) == base64_of(b),
    ensures
        a == b,
    decreases a.len(),
{
    if a.len() == 0 || b.len() == 0 {
        if a.len() > 0 {
            lemma_base64_of_head(a);
        }
        if b.len() > 0 {
            lemma_base64_of_head(b);
        }
        assert(a =~= b);
        return;
    }
    lemma_base64_of_head(a);
    lemma_base64_of_head(b);
    let t = base64_of(a);
    let a0 = a[0] as int;
    let b0 = b[0] as int;
    lemma_base64_symbol(a0 / 4);
    lemma_base64_symbol(b0 / 4);
    lemma_base64_symbol_injective(a0 / 4, b0 / 4);
    if a.len() >= 2 {
        lemma_base64_symbol((a0 % 4) * 16 + (a[1] as int) / 16);
        lemma_base64_symbol(((a[1] as int) % 16) * 4);
    }
    if b.len() >= 2 {
        lemma_base64_symbol((b0 % 4) * 16 + (b[1] as int) / 16);
        lemma_base64_symbol(((b[1] as int) % 16) * 4);
    }
    if a.len() >= 3 {
        lemma_base64_symbol(((a[1] as int) % 16) * 4 + (a[2] as int) / 64);
        lemma_base64_symbol((a[2] as int) % 64);
    }
    if b.len() >= 3 {
        lemma_base64_symbol(((b[1] as int) % 16) * 4 + (b[2] as int) / 64);
        lemma_base64_symbol((b[2] as int) % 64);
    }
    // the padding tells the length of the last group
    assert(a.len() == 1 <==> b.len() == 1);
    assert(a.len() == 2 <==> b.len() == 2);
    if a.len() == 1 {
        lemma_base64_symbol_injective((a0 % 4) * 16, (b0 % 4) * 16);
        assert(a =~= b);
    } else if a.len() == 2 {
        let a1 = a[1] as int;
        let b1 = b[1] as int;
        lemma_base64_symbol_injective((a0 % 4) * 16 + a1 / 16, (b0 % 4) * 16 + b1 / 16);
        lemma_base64_symbol_injective((a1 % 16) * 4, (b1 % 16) * 4);
        assert(a =~= b);
    } else {
        let a1 = a[1] as int;
        let b1 = b[1] as int;
        let a2 = a[2] as int;
        let b2 = b[2] as int;
        lemma_base64_symbol_injective((a0 % 4) * 16 + a1 / 16, (b0 % 4) * 16 + b1 / 16);
        lemma_base64_symbol_injective((a1 % 16) * 4 + a2 / 64, (b1 % 16) * 4 + b2 / 64);
        lemma_base64_symbol_injective(a2 % 64, b2 % 64);
        assert(a0 == b0 && a1 == b1 && a2 == b2);
        lemma_base64_of_injective(a.skip(3), b.skip(3));
        assert forall|i: int| 0 <= i < a.len() implies a[i] == b[i] by {
            if i >= 3 {
                assert(a[i] == a.skip(3)[i - 3]);
                assert(b[i] == b.skip(3)[i - 3]);
            }
        }
        assert(a =~= b);
    }
}

/// Law: the standard base64 of some bytes decodes to exactly those bytes.
pub proof fn lemma_base64_decoded_of(d: Seq<u8>)
    ensures
        base64_decoded(base64_of(d)) == Some(d),
{
    let t = base64_of(d);
    assert(exists|b: Seq<u8>| base64_of(b) == t) by {
        assert(base64_of(d) == t);
    }
    let c = choose|b: Seq<u8>| base64_of(b) == t;
    lemma_base64_of_injective(c, d);
}

/// The error type of the `base64` crate's decoder.
#[verifier::external_type_specification]
#[verifier::external_body]
pub struct ExDecodeError(base64::DecodeError);

/// `STANDARD.encode` of the `base64` crate: the standard base64 of `data`.
#[verifier::external_body]
fn standard_encode(data: &[u8]) -> (s: String)
    ensures
        s@ == base64_of(data@),
{
    base64::engine::general_purpose::STANDARD.encode(data)
}

/// `STANDARD.decode` of the `base64` crate on the bytes of `input`: `Ok` with
/// the bytes whose standard base64 `input` is (padding and unused bits
/// canonical), and an error when `input` is no such text.
#[verifier::external_body]
fn standard_decode(input: &str) -> (r: Result<Vec<u8>, base64::DecodeError>)
    ensures
        match r {
            Ok(v) => base64_of(v@) == input@,
            Err(_) => forall|b: Seq<u8>| base64_of(b) != input@,
        },
{
    base64::engine::general_purpose::STANDARD.decode(input)
}

/// Base64 (standard alphabet, padded) text of `data`; [`base64_decode`] reads
/// it back to `data`.
pub fn base64_encode(data: &[u8]) -> (s: String)
    ensures
        s@ == base64_of(data@),
        base64_text_decoded(s@) == Some(data@),
{
    let s = standard_encode(data);
    proof {
        lemma_base64_of_chars(data@);
        assert forall|i: int| 0 <= i < s@.len() implies !is_unicode_whitespace(#[trigger] s@[i]) by {
            assert(is_base64_char(s@[i]));
        }
        lemma_trimmed_unchanged(s@);
        lemma_base64_decoded_of(data@);
    }
    s
}

/// The bytes that base64 text `input` stands for, ignoring leading and trailing
/// whitespace; `None` when it is not valid standard base64.
pub open spec fn base64_text_decoded(input: Seq<char>) -> Option<Seq<u8>> {
    base64_decoded(trimmed(input))
}

/// Decodes base64 text after trimming surrounding whitespace; `None` when the
/// decoder rejects it.
pub fn base64_decode(input: &str) -> (r: Option<Vec<u8>>)
    ensures
        opt_bytes(r) == base64_text_decoded(input@),
{
    let t = str_trim(input);
    match standard_decode(t) {
        Ok(v) => {
            proof {
                lemma_base64_decoded_of(v@);
            }
            Some(v)
        },
        Err(_) => None,
    }
}

} // verus!
