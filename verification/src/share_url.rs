//! Share links: `?room=<id>&server=<host>` query strings.

use vstd::prelude::*;
use crate::text::{latin1, opt_view, is_ascii_bytes};
use vstd::string::StringSliceAdditionalSpecFns;
use vstd::utf8::{encode_utf8, encode_scalar, is_ascii_chars, is_ascii_chars_encode_utf8};

verus! {

/// Bytes that a share link keeps as they are: `A-Z a-z 0-9 - _ . ~`.
pub open spec fn is_unreserved(b: u8) -> bool {
    (0x41 <= b <= 0x5a) || (0x61 <= b <= 0x7a) || (0x30 <= b <= 0x39)
        || b == 0x2d || b == 0x5f || b == 0x2e || b == 0x7e
}

/// Upper-case hex digit of a value below 16, as a byte.
pub open spec fn hex_digit_upper(n: u8) -> u8 {
    if n < 10 { (0x30 + n) as u8 } else { (0x41 + n - 10) as u8 }
}

/// Bytes written for one input byte: itself, or `%` and two upper-case hex digits.
pub open spec fn encode_byte(b: u8) -> Seq<u8> {
    if is_unreserved(b) {
        seq![b]
    } else {
        seq![0x25u8, hex_digit_upper(b / 16), hex_digit_upper(b % 16)]
    }
}

/// Percent-encoding of a byte sequence.
pub open spec fn url_encoded(bytes: Seq<u8>) -> Seq<u8>
    decreases bytes.len(),
{
    if bytes.len() == 0 {
        Seq::empty()
    } else {
        encode_byte(bytes[0]) + url_encoded(bytes.drop_first())
    }
}

proof fn lemma_url_encoded_concat(a: Seq<u8>, b: Seq<u8>)
    ensures
        url_encoded(a + b) == url_encoded(a) + url_encoded(b),
    decreases a.len(),
{
    if a.len() == 0 {
        assert(a + b =~= b);
    } else {
        assert((a + b).drop_first() =~= a.drop_first() + b);
        lemma_url_encoded_concat(a.drop_first(), b);
    }
}

proof fn lemma_url_encoded_push(a: Seq<u8>, x: u8)
    ensures
        url_encoded(a.push(x)) == url_encoded(a) + encode_byte(x),
{
    lemma_url_encoded_concat(a, seq![x]);
    assert(a.push(x) =~= a + seq![x]);
    assert(seq![x].drop_first() =~= Seq::<u8>::empty());
    assert(url_encoded(Seq::<u8>::empty()) =~= Seq::<u8>::empty());
    assert(url_encoded(seq![x]) =~= encode_byte(x) + url_encoded(seq![x].drop_first()));
}

fn hex_upper(n: u8) -> (c: char)
    requires
        n < 16,
    ensures
        c == (hex_digit_upper(n) as char),
{
    if n < 10 {
        (0x30u8 + n) as char
    } else {
        (0x41u8 + n - 10) as char
    }
}

/// Appends the percent-encoding of the UTF-8 bytes of `s` to `out`.
fn push_url_encoded(out: &mut String, s: &str)
    ensures
        final(out)@ == old(out)@ + latin1(url_encoded(s.spec_bytes())),
{
    let bytes = s.as_bytes();
    let ghost start = out@;
    let mut i: usize = 0;
    proof {
        assert(latin1(url_encoded(bytes@.take(0))) =~= Seq::<char>::empty());
        assert(out@ =~= start + Seq::<char>::empty());
    }
    while i < bytes.len()
        invariant
            i <= bytes@.len(),
            bytes@ == s.spec_bytes(),
            out@ == start + latin1(url_encoded(bytes@.take(i as int))),
        decreases bytes@.len() - i,
    {
        let b = bytes[i];
        proof {
            assert(bytes@.take(i + 1) =~= bytes@.take(i as int).push(b));
            lemma_url_encoded_push(bytes@.take(i as int), b);
            lemma_latin1_concat(url_encoded(bytes@.take(i as int)), encode_byte(b));
        }
        if (0x41 <= b && b <= 0x5a) || (0x61 <= b && b <= 0x7a) || (0x30 <= b && b <= 0x39)
            || b == 0x2d || b == 0x5f || b == 0x2e || b == 0x7e {
            out.push(b as char);
            assert(latin1(encode_byte(b)) =~= seq![b as char]);
        } else {
            out.push('%');
            out.push(hex_upper(b / 16));
            out.push(hex_upper(b % 16));
            assert(latin1(encode_byte(b)) =~= seq![
                '%',
                hex_digit_upper(b / 16) as char,
                hex_digit_upper(b % 16) as char,
            ]);
        }
        i = i + 1;
    }
    proof {
        assert(bytes@.take(bytes@.len() as int) =~= bytes@);
    }
}

/// Percent-encodes the UTF-8 bytes of `s`: unreserved bytes stay, every other
/// byte becomes `%XX` with upper-case hex digits.
pub fn url_encode(s: &str) -> (out: String)
    ensures
        out@ == latin1(url_encoded(s.spec_bytes())),
{
    let mut out = String::new();
    push_url_encoded(&mut out, s);
    assert(out@ =~= latin1(url_encoded(s.spec_bytes())));
    out
}

/// Value of a hex digit byte (`0-9 a-f A-F`).
pub open spec fn hex_value(b: u8) -> Option<u8> {
    if 0x30 <= b <= 0x39 {
        Some((b - 0x30) as u8)
    } else if 0x41 <= b <= 0x46 {
        Some((b - 0x41 + 10) as u8)
    } else if 0x61 <= b <= 0x66 {
        Some((b - 0x61 + 10) as u8)
    } else {
        None
    }
}

/// The byte that two bytes after a `%` stand for, read as base-16 text the way
/// `u8::from_str_radix` reads it: two hex digits, or `+` and one hex digit.
pub open spec fn hex_pair(a: u8, c: u8) -> Option<u8> {
    if hex_value(a) is Some && hex_value(c) is Some {
        Some((16 * hex_value(a).unwrap() + hex_value(c).unwrap()) as u8)
    } else if a == 0x2b && hex_value(c) is Some {
        hex_value(c)
    } else {
        None
    }
}

/// Percent-decoding of a byte sequence: `%` followed by two more bytes that
/// [`hex_pair`] reads becomes that byte; every other byte stays.
pub open spec fn percent_decoded(b: Seq<u8>) -> Seq<u8>
    decreases b.len(),
{
    if b.len() == 0 {
        Seq::empty()
    } else if b[0] == 0x25 && b.len() > 2 && hex_pair(b[1], b[2]) is Some {
        seq![hex_pair(b[1], b[2]).unwrap()] + percent_decoded(b.skip(3))
    } else {
        seq![b[0]] + percent_decoded(b.skip(1))
    }
}

proof fn lemma_latin1_concat(a: Seq<u8>, b: Seq<u8>)
    ensures
        latin1(a + b) == latin1(a) + latin1(b),
{
    assert(latin1(a + b) =~= latin1(a) + latin1(b));
}

fn hex_val(b: u8) -> (r: Option<u8>)
    ensures
        r == hex_value(b),
{
    if 0x30 <= b && b <= 0x39 {
        Some(b - 0x30)
    } else if 0x41 <= b && b <= 0x46 {
        Some(b - 0x41 + 10)
    } else if 0x61 <= b && b <= 0x66 {
        Some(b - 0x61 + 10)
    } else {
        None
    }
}

fn decode_hex_pair(a: u8, c: u8) -> (r: Option<u8>)
    ensures
        r == hex_pair(a, c),
{
    match (hex_val(a), hex_val(c)) {
        (Some(h), Some(l)) => Some(16 * h + l),
        (_, Some(l)) => if a == 0x2b { Some(l) } else { None },
        _ => None,
    }
}

/// Percent-decodes `bytes[from..to]`; each resulting byte becomes one `char`.
fn percent_decode_range(bytes: &[u8], from: usize, to: usize) -> (out: String)
    requires
        from <= to <= bytes@.len(),
    ensures
        out@ == latin1(percent_decoded(bytes@.subrange(from as int, to as int))),
{
    let ghost whole = bytes@.subrange(from as int, to as int);
    let mut out = String::new();
    let mut i = from;
    assert(whole =~= bytes@.subrange(i as int, to as int));
    while i < to
        invariant
            from <= i <= to <= bytes@.len(),
            whole == bytes@.subrange(from as int, to as int),
            latin1(percent_decoded(whole)) == out@ + latin1(
                percent_decoded(bytes@.subrange(i as int, to as int)),
            ),
        decreases to - i,
    {
        let ghost rest = bytes@.subrange(i as int, to as int);
        let b = bytes[i];
        let mut decoded: Option<u8> = None;
        if b == 0x25 && to - i > 2 {
            decoded = decode_hex_pair(bytes[i + 1], bytes[i + 2]);
        }
        match decoded {
            Some(v) => {
                proof {
                    assert(rest[0] == b && rest[1] == bytes@[i + 1] && rest[2] == bytes@[i + 2]);
                    assert(rest.skip(3) =~= bytes@.subrange(i + 3, to as int));
                    lemma_latin1_concat(seq![v], percent_decoded(rest.skip(3)));
                    assert(latin1(seq![v]) =~= seq![v as char]);
                }
                out.push(v as char);
                i = i + 3;
            },
            None => {
                proof {
                    assert(rest[0] == b);
                    if b == 0x25 && rest.len() > 2 {
                        assert(rest[1] == bytes@[i + 1] && rest[2] == bytes@[i + 2]);
                    }
                    assert(rest.skip(1) =~= bytes@.subrange(i + 1, to as int));
                    lemma_latin1_concat(seq![b], percent_decoded(rest.skip(1)));
                    assert(latin1(seq![b]) =~= seq![b as char]);
                }
                out.push(b as char);
                i = i + 1;
            },
        }
    }
    proof {
        assert(bytes@.subrange(i as int, to as int) =~= Seq::<u8>::empty());
        assert(latin1(Seq::<u8>::empty()) =~= Seq::<char>::empty());
        assert(out@ + Seq::<char>::empty() =~= out@);
    }
    out
}

/// Percent-decodes the UTF-8 bytes of `s`; each resulting byte becomes one
/// `char` (so decoded bytes are not re-assembled into UTF-8 characters).
pub fn percent_decode(s: &str) -> (out: String)
    ensures
        out@ == latin1(percent_decoded(s.spec_bytes())),
{
    let bytes = s.as_bytes();
    proof {
        assert(bytes@.subrange(0, bytes@.len() as int) =~= bytes@);
    }
    percent_decode_range(bytes, 0, bytes.len())
}


/// Parsed collaboration URL parameters.
#[derive(Debug, Clone, Default, PartialEq, Eq)]
pub struct UrlParams {
    pub room: Option<String>,
    pub server: Option<String>,
}

impl UrlParams {
    /// The parameters as character sequences: `(room, server)`.
    pub open spec fn spec_pair(&self) -> (Option<Seq<char>>, Option<Seq<char>>) {
        (opt_view(self.room), opt_view(self.server))
    }
}

/// Index of the first `x` in `b`, or `b.len()` when there is none.
pub open spec fn first_index(b: Seq<u8>, x: u8) -> nat
    decreases b.len(),
{
    if b.len() == 0 {
        0
    } else if b[0] == x {
        0
    } else {
        1 + first_index(b.drop_first(), x)
    }
}

/// `b` without its leading `?` and `#` bytes.
pub open spec fn strip_marks(b: Seq<u8>) -> Seq<u8>
    decreases b.len(),
{
    if b.len() > 0 && (b[0] == 0x3f || b[0] == 0x23) {
        strip_marks(b.drop_first())
    } else {
        b
    }
}

/// The bytes of `room`.
pub open spec fn room_key() -> Seq<u8> {
    seq![0x72u8, 0x6f, 0x6f, 0x6d]
}

/// The bytes of `server`.
pub open spec fn server_key() -> Seq<u8> {
    seq![0x73u8, 0x65, 0x72, 0x76, 0x65, 0x72]
}

/// The parameters after reading one `key=value` pair: a pair without `=`, with
/// an empty value or with another key changes nothing; otherwise the decoded
/// value replaces the room or the server.
pub open spec fn apply_pair(
    pair: Seq<u8>,
    p: (Option<Seq<char>>, Option<Seq<char>>),
) -> (Option<Seq<char>>, Option<Seq<char>>) {
    let eq = first_index(pair, 0x3d);
    if eq >= pair.len() {
        p
    } else {
        let key = pair.take(eq as int);
        let raw = pair.skip(eq + 1int);
        if raw.len() == 0 {
            p
        } else if key == room_key() {
            (Some(latin1(percent_decoded(raw))), p.1)
        } else if key == server_key() {
            (p.0, Some(latin1(percent_decoded(raw))))
        } else {
            p
        }
    }
}

/// The parameters after reading every `&`-separated pair of `b`, left to right.
pub open spec fn apply_pairs(
    b: Seq<u8>,
    p: (Option<Seq<char>>, Option<Seq<char>>),
) -> (Option<Seq<char>>, Option<Seq<char>>)
    decreases b.len(),
{
    let amp = first_index(b, 0x26);
    let next = apply_pair(b.take(amp as int), p);
    if amp >= b.len() {
        next
    } else {
        apply_pairs(b.skip(amp + 1int), next)
    }
}

/// `(room, server)` read from the bytes of a query string or hash fragment.
pub open spec fn query_params(b: Seq<u8>) -> (Option<Seq<char>>, Option<Seq<char>>) {
    apply_pairs(strip_marks(b), (None, None))
}

proof fn lemma_first_index(b: Seq<u8>, x: u8, k: int)
    requires
        0 <= k <= b.len(),
        forall|j: int| 0 <= j < k ==> b[j] != x,
        k == b.len() || b[k] == x,
    ensures
        first_index(b, x) == k,
        first_index(b, x) <= b.len(),
    decreases b.len(),
{
    if b.len() > 0 && k > 0 {
        assert(b[0] != x);
        assert forall|j: int| 0 <= j < k - 1 implies b.drop_first()[j] != x by {
            assert(b.drop_first()[j] == b[j + 1]);
        }
        lemma_first_index(b.drop_first(), x, k - 1);
    }
}

proof fn lemma_strip_marks(b: Seq<u8>, k: int)
    requires
        0 <= k <= b.len(),
        forall|j: int| 0 <= j < k ==> (b[j] == 0x3f || b[j] == 0x23),
        k == b.len() || !(b[k] == 0x3f || b[k] == 0x23),
    ensures
        strip_marks(b) == b.skip(k),
    decreases b.len(),
{
    if k == 0 {
        assert(b.skip(0) =~= b);
    } else {
        assert forall|j: int| 0 <= j < k - 1 implies (b.drop_first()[j] == 0x3f
            || b.drop_first()[j] == 0x23) by {
            assert(b.drop_first()[j] == b[j + 1]);
        }
        if k < b.len() {
            assert(b.drop_first()[k - 1] == b[k]);
        }
        lemma_strip_marks(b.drop_first(), k - 1);
        assert(b.drop_first().skip(k - 1) =~= b.skip(k));
    }
}

/// Position of the first `x` in `bytes[from..to]`, or `to`.
fn find_byte(bytes: &[u8], from: usize, to: usize, x: u8) -> (k: usize)
    requires
        from <= to <= bytes@.len(),
    ensures
        from <= k <= to,
        k == from + first_index(bytes@.subrange(from as int, to as int), x),
{
    let mut k = from;
    while k < to && bytes[k] != x
        invariant
            from <= k <= to <= bytes@.len(),
            forall|j: int| from <= j < k ==> bytes@[j] != x,
        decreases to - k,
    {
        k = k + 1;
    }
    proof {
        let sub = bytes@.subrange(from as int, to as int);
        assert forall|j: int| 0 <= j < k - from implies sub[j] != x by {
            assert(sub[j] == bytes@[from + j]);
        }
        if k < to {
            assert(sub[k - from] == bytes@[k as int]);
        }
        lemma_first_index(sub, x, k - from);
    }
    k
}

fn key_is_room(bytes: &[u8], from: usize, to: usize) -> (r: bool)
    requires
        from <= to <= bytes@.len(),
    ensures
        r == (bytes@.subrange(from as int, to as int) == room_key()),
{
    let r = to - from == 4 && bytes[from] == 0x72 && bytes[from + 1] == 0x6f
        && bytes[from + 2] == 0x6f && bytes[from + 3] == 0x6d;
    proof {
        let sub = bytes@.subrange(from as int, to as int);
        if r {
            assert(sub =~= room_key());
        }
        if sub == room_key() {
            assert(sub.len() == 4);
            assert(sub[0] == bytes@[from as int] && sub[1] == bytes@[from + 1]);
            assert(sub[2] == bytes@[from + 2] && sub[3] == bytes@[from + 3]);
        }
    }
    r
}

fn key_is_server(bytes: &[u8], from: usize, to: usize) -> (r: bool)
    requires
        from <= to <= bytes@.len(),
    ensures
        r == (bytes@.subrange(from as int, to as int) == server_key()),
{
    let r = to - from == 6 && bytes[from] == 0x73 && bytes[from + 1] == 0x65
        && bytes[from + 2] == 0x72 && bytes[from + 3] == 0x76 && bytes[from + 4] == 0x65
        && bytes[from + 5] == 0x72;
    proof {
        let sub = bytes@.subrange(from as int, to as int);
        if r {
            assert(sub =~= server_key());
        }
        if sub == server_key() {
            assert(sub.len() == 6);
            assert(sub[0] == bytes@[from as int] && sub[1] == bytes@[from + 1]);
            assert(sub[2] == bytes@[from + 2] && sub[3] == bytes@[from + 3]);
            assert(sub[4] == bytes@[from + 4] && sub[5] == bytes@[from + 5]);
        }
    }
    r
}

/// Parse `?room=` and `?server=` from a query or hash fragment.
///
/// Leading `?` and `#` are skipped; pairs are separated by `&`; a pair counts
/// only with a `=` and a non-empty value, which is percent-decoded; a later
/// pair replaces an earlier one with the same key; other keys are ignored.
pub fn parse_params(s: &str) -> (p: UrlParams)
    ensures
        p.spec_pair() == query_params(s.spec_bytes()),
{
    let bytes = s.as_bytes();
    let n = bytes.len();
    let mut st: usize = 0;
    while st < n && (bytes[st] == 0x3f || bytes[st] == 0x23)
        invariant
            st <= n == bytes@.len(),
            forall|j: int| 0 <= j < st ==> (bytes@[j] == 0x3f || bytes@[j] == 0x23),
        decreases n - st,
    {
        st = st + 1;
    }
    proof {
        lemma_strip_marks(bytes@, st as int);
        assert(bytes@.skip(st as int) =~= bytes@.subrange(st as int, n as int));
    }
    let ghost target = query_params(bytes@);
    let mut room: Option<String> = None;
    let mut server: Option<String> = None;
    let mut i = st;
    loop
        invariant_except_break
            i <= n == bytes@.len(),
            target == apply_pairs(bytes@.subrange(i as int, n as int), (opt_view(room), opt_view(server))),
        ensures
            target == (opt_view(room), opt_view(server)),
        decreases n - i,
    {
        let ghost rest = bytes@.subrange(i as int, n as int);
        let ghost before = (opt_view(room), opt_view(server));
        let k = find_byte(bytes, i, n, 0x26);
        let ghost pair = bytes@.subrange(i as int, k as int);
        assert(rest.take(k - i) =~= pair);
        let e = find_byte(bytes, i, k, 0x3d);
        if e < k && e + 1 < k {
            proof {
                assert(pair.take(e - i) =~= bytes@.subrange(i as int, e as int));
                assert(pair.skip(e - i + 1) =~= bytes@.subrange(e + 1, k as int));
            }
            if key_is_room(bytes, i, e) {
                room = Some(percent_decode_range(bytes, e + 1, k));
            } else if key_is_server(bytes, i, e) {
                server = Some(percent_decode_range(bytes, e + 1, k));
            }
        }
        assert((opt_view(room), opt_view(server)) == apply_pair(pair, before));
        if k >= n {
            break;
        }
        assert(rest.skip(k - i + 1) =~= bytes@.subrange(k + 1, n as int));
        i = k + 1;
    }
    UrlParams { room, server }
}


/// The bytes of an optional string.
pub open spec fn opt_str_bytes(o: Option<&str>) -> Option<Seq<u8>> {
    match o {
        Some(s) => Some(s.spec_bytes()),
        None => None,
    }
}

/// The bytes of `?room=`.
pub open spec fn room_prefix() -> Seq<u8> {
    seq![0x3fu8, 0x72, 0x6f, 0x6f, 0x6d, 0x3d]
}

/// The bytes of `&server=`.
pub open spec fn server_prefix() -> Seq<u8> {
    seq![0x26u8, 0x73, 0x65, 0x72, 0x76, 0x65, 0x72, 0x3d]
}

/// The share query for a room: `?room=<room>`, followed by `&server=<server>`
/// when the server is to be included and is a non-empty string; both values
/// percent-encoded.
pub open spec fn share_query(room: Seq<u8>, server: Option<Seq<u8>>, include_server: bool) -> Seq<
    u8,
> {
    let base = room_prefix() + url_encoded(room);
    if include_server && server is Some && server.unwrap().len() > 0 {
        base + server_prefix() + url_encoded(server.unwrap())
    } else {
        base
    }
}

fn push_ascii(out: &mut String, b: u8)
    ensures
        final(out)@ == old(out)@ + latin1(seq![b]),
{
    out.push(b as char);
    assert(latin1(seq![b]) =~= seq![b as char]);
}

proof fn lemma_encode_utf8_empty(chars: Seq<char>)
    ensures
        (encode_utf8(chars).len() == 0) == (chars.len() == 0),
{
    if chars.len() > 0 {
        assert(encode_utf8(chars) == encode_scalar(chars[0] as u32) + encode_utf8(
            chars.drop_first(),
        ));
        assert(encode_scalar(chars[0] as u32).len() > 0);
    }
}

/// Build a share path+query string for the current page.
///
/// The room is always present; the server follows only when `include_server`
/// holds and the server is a non-empty string.
pub fn build_share_query(room: &str, server: Option<&str>, include_server: bool) -> (q: String)
    ensures
        q@ == latin1(share_query(room.spec_bytes(), opt_str_bytes(server), include_server)),
{
    let mut q = String::new();
    push_ascii(&mut q, 0x3f);
    push_ascii(&mut q, 0x72);
    push_ascii(&mut q, 0x6f);
    push_ascii(&mut q, 0x6f);
    push_ascii(&mut q, 0x6d);
    push_ascii(&mut q, 0x3d);
    proof {
        assert(latin1(seq![0x3fu8]) + latin1(seq![0x72u8]) + latin1(seq![0x6fu8]) + latin1(
            seq![0x6fu8],
        ) + latin1(seq![0x6du8]) + latin1(seq![0x3du8]) =~= latin1(room_prefix()));
        assert(q@ =~= latin1(room_prefix()));
    }
    push_url_encoded(&mut q, room);
    proof {
        lemma_latin1_concat(room_prefix(), url_encoded(room.spec_bytes()));
    }
    if include_server {
        if let Some(server) = server {
            proof {
                lemma_encode_utf8_empty(server@);
            }
            if !server.is_empty() {
                let ghost before = q@;
                push_ascii(&mut q, 0x26);
                push_ascii(&mut q, 0x73);
                push_ascii(&mut q, 0x65);
                push_ascii(&mut q, 0x72);
                push_ascii(&mut q, 0x76);
                push_ascii(&mut q, 0x65);
                push_ascii(&mut q, 0x72);
                push_ascii(&mut q, 0x3d);
                let ghost mid = q@;
                push_url_encoded(&mut q, server);
                proof {
                    let base = room_prefix() + url_encoded(room.spec_bytes());
                    assert(latin1(seq![0x26u8]) + latin1(seq![0x73u8]) + latin1(seq![0x65u8])
                        + latin1(seq![0x72u8]) + latin1(seq![0x76u8]) + latin1(seq![0x65u8])
                        + latin1(seq![0x72u8]) + latin1(seq![0x3du8]) =~= latin1(
                        server_prefix(),
                    ));
                    assert(mid =~= before + latin1(server_prefix()));
                    lemma_latin1_concat(base, server_prefix());
                    lemma_latin1_concat(base + server_prefix(), url_encoded(server.spec_bytes()));
                }
            }
        }
    }
    q
}


/// A byte that percent-encoding can produce: an unreserved byte, `%`, or an
/// upper-case hex digit.
pub open spec fn is_encoded_byte(b: u8) -> bool {
    is_unreserved(b) || b == 0x25
}

proof fn lemma_hex_digit_upper(n: u8)
    requires
        n < 16,
    ensures
        hex_value(hex_digit_upper(n)) == Some(n),
        is_unreserved(hex_digit_upper(n)),
{
}

proof fn lemma_url_encoded_bytes(x: Seq<u8>)
    ensures
        forall|i: int| 0 <= i < url_encoded(x).len() ==> is_encoded_byte(#[trigger] url_encoded(x)[i]),
        (url_encoded(x).len() == 0) == (x.len() == 0),
    decreases x.len(),
{
    if x.len() > 0 {
        lemma_url_encoded_bytes(x.drop_first());
        let e = encode_byte(x[0]);
        let rest = url_encoded(x.drop_first());
        if !is_unreserved(x[0]) {
            lemma_hex_digit_upper(x[0] / 16);
            lemma_hex_digit_upper(x[0] % 16);
        }
        assert forall|i: int| 0 <= i < url_encoded(x).len() implies is_encoded_byte(
            #[trigger] url_encoded(x)[i],
        ) by {
            if i < e.len() {
                assert(url_encoded(x)[i] == e[i]);
            } else {
                assert(url_encoded(x)[i] == rest[i - e.len()]);
            }
        }
    }
}

/// A byte with an ASCII upper-case letter turned to lower case.
pub open spec fn lower_byte(b: u8) -> u8 {
    if 0x41 <= b <= 0x5a {
        (b + 0x20) as u8
    } else {
        b
    }
}

/// Law: a `%` escape decodes to the byte its two hex digits name, whether the
/// digits are written in upper or lower case: for values `hi` and `lo` below
/// sixteen, `%` followed by the digit of `hi` and the digit of `lo` (`0-9`,
/// `A-F`, or `a-f`) decodes to the single byte `16 * hi + lo`, and decoding
/// goes on after it.
pub proof fn escapes_decode_in_either_case(
    hi: u8,
    lo: u8,
    lower_hi: bool,
    lower_lo: bool,
    rest: Seq<u8>,
)
    requires
        hi < 16,
        lo < 16,
    ensures
        ({
            let h = if hi < 10 {
                (0x30 + hi) as u8
            } else if lower_hi {
                (0x61 + hi - 10) as u8
            } else {
                (0x41 + hi - 10) as u8
            };
            let l = if lo < 10 {
                (0x30 + lo) as u8
            } else if lower_lo {
                (0x61 + lo - 10) as u8
            } else {
                (0x41 + lo - 10) as u8
            };
            percent_decoded(seq![0x25u8, h, l] + rest) == seq![(16 * hi + lo) as u8]
                + percent_decoded(rest)
        }),
{
    let h = if hi < 10 {
        (0x30 + hi) as u8
    } else if lower_hi {
        (0x61 + hi - 10) as u8
    } else {
        (0x41 + hi - 10) as u8
    };
    let l = if lo < 10 {
        (0x30 + lo) as u8
    } else if lower_lo {
        (0x61 + lo - 10) as u8
    } else {
        (0x41 + lo - 10) as u8
    };
    let b = seq![0x25u8, h, l] + rest;
    assert(b[0] == 0x25 && b[1] == h && b[2] == l);
    assert(hex_value(h) == Some(hi));
    assert(hex_value(l) == Some(lo));
    assert(b.skip(3) =~= rest);
}

/// Law: a byte other than `%` is kept as it is by percent-decoding, and
/// decoding goes on after it.
pub proof fn plain_bytes_decode_to_themselves(b: u8, rest: Seq<u8>)
    requires
        b != 0x25,
    ensures
        percent_decoded(seq![b] + rest) == seq![b] + percent_decoded(rest),
{
    assert((seq![b] + rest).skip(1) =~= rest);
}

/// Law: a query `?room=<v>` (with `v` non-empty and holding no `&`) reads as
/// the room `v` percent-decoded and no server; `?server=<v>` likewise reads as
/// that server and no room.
pub proof fn single_parameter_queries(v: Seq<u8>)
    requires
        v.len() > 0,
        forall|j: int| 0 <= j < v.len() ==> v[j] != 0x26,
    ensures
        query_params(seq![0x3fu8, 0x72, 0x6f, 0x6f, 0x6d, 0x3d] + v) == (
            Some(latin1(percent_decoded(v))),
            None::<Seq<char>>,
        ),
        query_params(seq![0x3fu8, 0x73, 0x65, 0x72, 0x76, 0x65, 0x72, 0x3d] + v) == (
            None::<Seq<char>>,
            Some(latin1(percent_decoded(v))),
        ),
{
    let q = seq![0x3fu8, 0x72, 0x6f, 0x6f, 0x6d, 0x3d] + v;
    lemma_strip_marks(q, 1);
    let r = q.skip(1);
    assert(r =~= seq![0x72u8, 0x6f, 0x6f, 0x6d, 0x3d] + v);
    assert forall|j: int| 0 <= j < r.len() implies r[j] != 0x26 by {
        if j >= 5 {
            assert(r[j] == v[j - 5]);
        }
    }
    lemma_first_index(r, 0x26, r.len() as int);
    assert(r.take(r.len() as int) =~= r);
    assert forall|j: int| 0 <= j < 4 implies r[j] != 0x3d by {}
    lemma_first_index(r, 0x3d, 4);
    assert(r.take(4) =~= room_key());
    assert(r.skip(5) =~= v);

    let q2 = seq![0x3fu8, 0x73, 0x65, 0x72, 0x76, 0x65, 0x72, 0x3d] + v;
    lemma_strip_marks(q2, 1);
    let r2 = q2.skip(1);
    assert(r2 =~= seq![0x73u8, 0x65, 0x72, 0x76, 0x65, 0x72, 0x3d] + v);
    assert forall|j: int| 0 <= j < r2.len() implies r2[j] != 0x26 by {
        if j >= 7 {
            assert(r2[j] == v[j - 7]);
        }
    }
    lemma_first_index(r2, 0x26, r2.len() as int);
    assert(r2.take(r2.len() as int) =~= r2);
    assert forall|j: int| 0 <= j < 6 implies r2[j] != 0x3d by {}
    lemma_first_index(r2, 0x3d, 6);
    assert(r2.take(6) =~= server_key());
    assert(r2.take(6) != room_key());
    assert(r2.skip(7) =~= v);
}

/// Law: a share query is `?room=` and the encoded room, followed by
/// `&server=` and the encoded server exactly when the server is to be
/// included and is non-empty.
pub proof fn share_query_layout(room: Seq<u8>, server: Option<Seq<u8>>, include_server: bool)
    ensures
        share_query(room, server, include_server) == seq![0x3fu8, 0x72, 0x6f, 0x6f, 0x6d, 0x3d]
            + url_encoded(room) + (if include_server && server is Some && server.unwrap().len()
            > 0 {
            seq![0x26u8, 0x73, 0x65, 0x72, 0x76, 0x65, 0x72, 0x3d] + url_encoded(server.unwrap())
        } else {
            Seq::<u8>::empty()
        }),
{
    let base = room_prefix() + url_encoded(room);
    assert(base + Seq::<u8>::empty() =~= base);
    if include_server && server is Some && server.unwrap().len() > 0 {
        let t = server_prefix() + url_encoded(server.unwrap());
        assert(base + server_prefix() + url_encoded(server.unwrap()) =~= base + t);
    }
}

/// Law: percent-encoding leaves exactly the bytes `A-Z a-z 0-9 - _ . ~` as
/// they are and writes every other byte as `%` and two upper-case hex digits
/// naming it; so an encoded value holds only those bytes and `%`, and never
/// `#`, `?`, `&`, `=`, `+` or a space.
pub proof fn encoding_escapes_all_other_bytes(x: Seq<u8>)
    ensures
        forall|b: u8|
            #![trigger encode_byte(b)]
            ((0x41 <= b <= 0x5a) || (0x61 <= b <= 0x7a) || (0x30 <= b <= 0x39) || b == 0x2d || b
                == 0x5f || b == 0x2e || b == 0x7e) ==> encode_byte(b) == seq![b],
        forall|b: u8|
            #![trigger encode_byte(b)]
            !((0x41 <= b <= 0x5a) || (0x61 <= b <= 0x7a) || (0x30 <= b <= 0x39) || b == 0x2d || b
                == 0x5f || b == 0x2e || b == 0x7e) ==> {
                let e = encode_byte(b);
                &&& e.len() == 3
                &&& e[0] == 0x25
                &&& ((0x30 <= e[1] <= 0x39) || (0x41 <= e[1] <= 0x46))
                &&& ((0x30 <= e[2] <= 0x39) || (0x41 <= e[2] <= 0x46))
                &&& b == 16 * (if e[1] <= 0x39 { e[1] - 0x30 } else { e[1] - 0x41 + 10 }) + (
                if e[2] <= 0x39 {
                    e[2] - 0x30
                } else {
                    e[2] - 0x41 + 10
                })
            },
        forall|i: int|
            0 <= i < url_encoded(x).len() ==> {
                let c = #[trigger] url_encoded(x)[i];
                (0x41 <= c <= 0x5a) || (0x61 <= c <= 0x7a) || (0x30 <= c <= 0x39) || c == 0x2d || c
                    == 0x5f || c == 0x2e || c == 0x7e || c == 0x25
            },
{
    lemma_url_encoded_bytes(x);
}

/// Law: percent-decoding undoes percent-encoding, for every byte sequence.
pub proof fn lemma_percent_round_trip(x: Seq<u8>)
    ensures
        percent_decoded(url_encoded(x)) == x,
    decreases x.len(),
{
    if x.len() == 0 {
        assert(url_encoded(x) =~= Seq::<u8>::empty());
    } else {
        let b = x[0];
        let e = encode_byte(b);
        let rest = url_encoded(x.drop_first());
        let all = url_encoded(x);
        lemma_percent_round_trip(x.drop_first());
        if is_unreserved(b) {
            assert(all[0] == b);
            assert(all.skip(1) =~= rest);
        } else {
            lemma_hex_digit_upper(b / 16);
            lemma_hex_digit_upper(b % 16);
            assert(all[0] == 0x25 && all[1] == hex_digit_upper(b / 16) && all[2]
                == hex_digit_upper(b % 16));
            assert(hex_pair(all[1], all[2]) == Some(b));
            assert(all.skip(3) =~= rest);
        }
        assert(x =~= seq![b] + x.drop_first());
    }
}

proof fn lemma_ascii_latin1_utf8(b: Seq<u8>)
    requires
        is_ascii_bytes(b),
    ensures
        encode_utf8(latin1(b)) == b,
{
    let chars = latin1(b);
    assert forall|i: int| 0 <= i < chars.len() implies '\0' <= #[trigger] chars[i] <= '\u{7f}' by {
        assert(chars[i] == (b[i] as char));
        assert(b[i] < 0x80);
    }
    assert(is_ascii_chars(chars));
    is_ascii_chars_encode_utf8(chars);
    assert forall|i: int| 0 <= i < b.len() implies #[trigger] encode_utf8(chars)[i] == b[i] by {
        assert(chars[i] as u8 == encode_utf8(chars)[i]);
        let c = b[i];
        assert(((c as char) as u8) == c);
    }
    assert(encode_utf8(chars) =~= b);
}

/// Law: a share link reads back as what it was built from.
///
/// Parsing the query built for a room (and optionally a server) gives the room
/// when it is non-empty, and the server exactly when it was included and is
/// non-empty; each value comes back as its bytes, one `char` per byte, which
/// for ASCII text is the text itself.
pub proof fn share_link_round_trip(room: Seq<u8>, server: Option<Seq<u8>>, include_server: bool)
    ensures
        query_params(encode_utf8(latin1(share_query(room, server, include_server)))) == (
            if room.len() > 0 {
                Some(latin1(room))
            } else {
                None::<Seq<char>>
            },
            if include_server && server is Some && server.unwrap().len() > 0 {
                Some(latin1(server.unwrap()))
            } else {
                None::<Seq<char>>
            },
        ),
{
    let e1 = url_encoded(room);
    lemma_url_encoded_bytes(room);
    lemma_percent_round_trip(room);
    let with_server = include_server && server is Some && server.unwrap().len() > 0;
    let e2 = if with_server { url_encoded(server.unwrap()) } else { Seq::<u8>::empty() };
    let tail = if with_server { server_prefix() + e2 } else { Seq::<u8>::empty() };
    if with_server {
        lemma_url_encoded_bytes(server.unwrap());
        lemma_percent_round_trip(server.unwrap());
    }
    let q = share_query(room, server, include_server);
    assert(q =~= room_prefix() + e1 + tail);
    // the query is ASCII, so its UTF-8 bytes are the bytes themselves
    assert forall|i: int| 0 <= i < q.len() implies #[trigger] q[i] < 0x80 by {
        if i < 6 {
        } else if i < 6 + e1.len() {
            assert(q[i] == e1[i - 6]);
            assert(is_encoded_byte(e1[i - 6]));
        } else if i < 6 + e1.len() + 8 {
        } else {
            assert(q[i] == e2[i - 14 - e1.len()]);
            assert(is_encoded_byte(e2[i - 14 - e1.len()]));
        }
    }
    lemma_ascii_latin1_utf8(q);
    // leading '?' goes
    lemma_strip_marks(q, 1);
    let r = q.skip(1);
    assert(r =~= seq![0x72u8, 0x6f, 0x6f, 0x6d, 0x3d] + e1 + tail);
    // the first pair ends at the '&' of the server part, or at the end
    let k = 5 + e1.len() + (if with_server { 0int } else { 0int });
    assert forall|j: int| 0 <= j < k implies r[j] != 0x26 by {
        if j >= 5 {
            assert(r[j] == e1[j - 5]);
            assert(is_encoded_byte(e1[j - 5]));
        }
    }
    if with_server {
        assert(r[k] == 0x26);
    } else {
        assert(r.len() == k);
    }
    lemma_first_index(r, 0x26, k);
    let pair = r.take(k);
    assert(pair =~= seq![0x72u8, 0x6f, 0x6f, 0x6d, 0x3d] + e1);
    assert forall|j: int| 0 <= j < 4 implies pair[j] != 0x3d by {}
    lemma_first_index(pair, 0x3d, 4);
    assert(pair.take(4) =~= room_key());
    assert(pair.skip(5) =~= e1);
    let first = apply_pair(pair, (None, None));
    assert(first == (
        if room.len() > 0 {
            Some(latin1(room))
        } else {
            None::<Seq<char>>
        },
        None::<Seq<char>>,
    ));
    assert(query_params(q) == apply_pairs(r, (None, None)));
    if !with_server {
        assert(apply_pairs(r, (None, None)) == first);
    }
    if with_server {
        let srv = r.skip(k + 1);
        assert(srv =~= seq![0x73u8, 0x65, 0x72, 0x76, 0x65, 0x72, 0x3d] + e2);
        assert forall|j: int| 0 <= j < srv.len() implies srv[j] != 0x26 by {
            if j >= 7 {
                assert(srv[j] == e2[j - 7]);
                assert(is_encoded_byte(e2[j - 7]));
            }
        }
        lemma_first_index(srv, 0x26, srv.len() as int);
        assert(srv.take(srv.len() as int) =~= srv);
        assert forall|j: int| 0 <= j < 6 implies srv[j] != 0x3d by {}
        lemma_first_index(srv, 0x3d, 6);
        assert(srv.take(6) =~= server_key());
        assert(srv.skip(7) =~= e2);
        assert(room_key() != server_key()) by {
            assert(room_key().len() != server_key().len());
        }
        assert(apply_pairs(r, (None, None)) == apply_pairs(srv, first));
        assert(apply_pairs(srv, first) == apply_pair(srv, first));
        assert(apply_pair(srv, first) == (first.0, Some(latin1(server.unwrap()))));
    }
}


/// Parameters from the page location: values from the query string win over
/// those from the hash fragment; a part that could not be read is `None`.
pub fn url_params_from_location(search: Option<&str>, hash: Option<&str>) -> (p: UrlParams)
    ensures
        p.spec_pair() == ({
            let s = match search {
                Some(q) => query_params(q.spec_bytes()),
                None => (None::<Seq<char>>, None::<Seq<char>>),
            };
            let h = match hash {
                Some(q) => query_params(q.spec_bytes()),
                None => (None::<Seq<char>>, None::<Seq<char>>),
            };
            (
                if s.0 is Some { s.0 } else { h.0 },
                if s.1 is Some { s.1 } else { h.1 },
            )
        }),
{
    let mut params = UrlParams { room: None, server: None };
    if let Some(search) = search {
        let p = parse_params(search);
        if params.room.is_none() {
            params.room = p.room;
        }
        if params.server.is_none() {
            params.server = p.server;
        }
    }
    if let Some(hash) = hash {
        let p = parse_params(hash);
        if params.room.is_none() {
            params.room = p.room;
        }
        if params.server.is_none() {
            params.server = p.server;
        }
    }
    params
}

} // verus!
