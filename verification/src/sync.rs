//! Client side of collaboration: the events a client sees, how relay messages
//! turn into them, and the connection state that they drive.

use vstd::prelude::*;
use vstd::string::StringExecFns;
use crate::protocol::{AwarenessState, ServerMessage, base64_decode, base64_text_decoded, base64_of};
use crate::text::{opt_bytes, str_equals, trimmed};

verus! {

/// Connection state.
#[derive(Debug, Clone, Copy, PartialEq, Eq, Structural)]
pub enum ConnectionState {
    Disconnected,
    Connecting,
    Connected,
    Error,
}

/// Events from the WebSocket client.
#[derive(Debug, Clone, PartialEq)]
pub enum SyncEvent {
    /// Connected to server
    Connected,
    /// Disconnected from server
    Disconnected,
    /// Joined a room
    JoinedRoom { room: String, peer_count: usize, initial_sync: Option<Vec<u8>> },
    /// A peer joined the room
    PeerJoined { peer_id: String },
    /// A peer left the room
    PeerLeft { peer_id: String },
    /// Received sync data from a peer
    SyncReceived { from: String, data: Vec<u8> },
    /// Received awareness update from a peer
    AwarenessReceived { from: String, peer_id: u64, state: AwarenessState },
    /// Error occurred
    Error { message: String },
    /// Server sent full room snapshot (recovery)
    RoomSnapshot { data: Option<Vec<u8>> },
}

/// The bytes that optional base64 text decodes to; `None` when there is no text
/// or it does not decode.
pub open spec fn opt_text_decoded(o: Option<String>) -> Option<Seq<u8>> {
    match o {
        Some(s) => base64_text_decoded(s@),
        None => None,
    }
}

/// Whether `ev` is the client event for relay message `msg`: the same variant
/// carrying the same fields, with base64 payloads decoded; a `Sync` whose data
/// does not decode has no event.
pub open spec fn is_event_for(msg: ServerMessage, ev: Option<SyncEvent>) -> bool {
    match msg {
        ServerMessage::Joined { room, peer_count, initial_sync } => ev matches Some(
            SyncEvent::JoinedRoom { room: r, peer_count: c, initial_sync: d },
        ) && r == room && c == peer_count && opt_bytes(d) == opt_text_decoded(initial_sync),
        ServerMessage::PeerJoined { peer_id } => ev matches Some(SyncEvent::PeerJoined { peer_id: p })
            && p == peer_id,
        ServerMessage::PeerLeft { peer_id } => ev matches Some(SyncEvent::PeerLeft { peer_id: p })
            && p == peer_id,
        ServerMessage::Sync { from, data } => match base64_text_decoded(data@) {
            Some(bytes) => ev matches Some(SyncEvent::SyncReceived { from: f, data: d }) && f
                == from && d@ == bytes,
            None => ev is None,
        },
        ServerMessage::Awareness { from, peer_id, state } => ev matches Some(
            SyncEvent::AwarenessReceived { from: f, peer_id: p, state: s },
        ) && f == from && p == peer_id && s == state,
        ServerMessage::RoomSnapshot { data } => ev matches Some(SyncEvent::RoomSnapshot { data: d })
            && opt_bytes(d) == opt_text_decoded(data),
        ServerMessage::Error { message } => ev matches Some(SyncEvent::Error { message: m }) && m
            == message,
    }
}

fn decode_opt(o: Option<String>) -> (r: Option<Vec<u8>>)
    ensures
        opt_bytes(r) == opt_text_decoded(o),
{
    match o {
        Some(s) => base64_decode(s.as_str()),
        None => None,
    }
}

/// The client event for a message from the relay (see [`is_event_for`]).
pub fn sync_event_from_server_message(msg: ServerMessage) -> (ev: Option<SyncEvent>)
    ensures
        is_event_for(msg, ev),
{
    match msg {
        ServerMessage::Joined { room, peer_count, initial_sync } => {
            let data = decode_opt(initial_sync);
            Some(SyncEvent::JoinedRoom { room, peer_count, initial_sync: data })
        },
        ServerMessage::PeerJoined { peer_id } => Some(SyncEvent::PeerJoined { peer_id }),
        ServerMessage::PeerLeft { peer_id } => Some(SyncEvent::PeerLeft { peer_id }),
        ServerMessage::Sync { from, data } => {
            match base64_decode(data.as_str()) {
                Some(bytes) => Some(SyncEvent::SyncReceived { from, data: bytes }),
                None => None,
            }
        },
        ServerMessage::Awareness { from, peer_id, state } => Some(
            SyncEvent::AwarenessReceived { from, peer_id, state },
        ),
        ServerMessage::RoomSnapshot { data } => {
            let bytes = decode_opt(data);
            Some(SyncEvent::RoomSnapshot { data: bytes })
        },
        ServerMessage::Error { message } => Some(SyncEvent::Error { message }),
    }
}

/// Whether `bytes` is what optional base64 text stands for: with text, the
/// bytes whose standard base64 is the text (surrounding whitespace aside), or
/// nothing exactly when no bytes have that base64; without text, nothing.
pub open spec fn carries_decoded(text: Option<String>, bytes: Option<Vec<u8>>) -> bool {
    match text {
        Some(t) => match bytes {
            Some(v) => base64_of(v@) == trimmed(t@),
            None => forall|b: Seq<u8>| base64_of(b) != trimmed(t@),
        },
        None => bytes is None,
    }
}

proof fn lemma_text_decoded(t: Seq<char>, d: Option<Seq<u8>>)
    requires
        d == base64_text_decoded(t),
    ensures
        d matches Some(v) ==> base64_of(v) == trimmed(t),
        d is None ==> forall|b: Seq<u8>| base64_of(b) != trimmed(t),
{
}

/// Law: the payloads of relay messages reach the client decoded: a room
/// snapshot or join snapshot in valid base64 arrives as the bytes it encodes,
/// and is dropped only when there is none or it does not decode; a sync
/// update arrives as the bytes it encodes, from the same sender, and has no
/// event only when its data does not decode.
pub proof fn payloads_arrive_decoded(msg: ServerMessage, ev: Option<SyncEvent>)
    requires
        is_event_for(msg, ev),
    ensures
        msg is RoomSnapshot ==> (ev matches Some(SyncEvent::RoomSnapshot { data: d })
            && carries_decoded(msg->RoomSnapshot_data, d)),
        msg is Joined ==> (ev matches Some(
            SyncEvent::JoinedRoom { room: r, peer_count: c, initial_sync: d },
        ) && r == msg->room && c == msg->peer_count && carries_decoded(msg->initial_sync, d)),
        msg is Sync ==> match ev {
            Some(SyncEvent::SyncReceived { from: f, data: d }) => f == msg->Sync_from && base64_of(
                d@,
            ) == trimmed(msg->Sync_data@),
            None => forall|b: Seq<u8>| base64_of(b) != trimmed(msg->Sync_data@),
            _ => false,
        },
{
    match msg {
        ServerMessage::RoomSnapshot { data } => {
            if let Some(t) = data {
                lemma_text_decoded(t@, opt_text_decoded(data));
            }
        },
        ServerMessage::Joined { initial_sync, .. } => {
            if let Some(t) = initial_sync {
                lemma_text_decoded(t@, opt_text_decoded(initial_sync));
            }
        },
        ServerMessage::Sync { data, .. } => {
            lemma_text_decoded(data@, base64_text_decoded(data@));
        },
        _ => {},
    }
}

/// Law: the relay messages without payloads reach the client as the event of
/// the same kind with the same fields: a peer joining or leaving, an awareness
/// update, and an error.
pub proof fn plain_messages_arrive_unchanged(msg: ServerMessage, ev: Option<SyncEvent>)
    requires
        is_event_for(msg, ev),
    ensures
        msg is PeerJoined ==> ev == Some(
            SyncEvent::PeerJoined { peer_id: msg->PeerJoined_peer_id },
        ),
        msg is PeerLeft ==> ev == Some(SyncEvent::PeerLeft { peer_id: msg->PeerLeft_peer_id }),
        msg is Awareness ==> ev == Some(
            SyncEvent::AwarenessReceived {
                from: msg->Awareness_from,
                peer_id: msg->Awareness_peer_id,
                state: msg->state,
            },
        ),
        msg is Error ==> ev == Some(SyncEvent::Error { message: msg->message }),
{
}

/// The connection state after an event: connected, disconnected and error
/// events set it; every other event leaves it.
pub open spec fn state_after_event(s: ConnectionState, e: SyncEvent) -> ConnectionState {
    match e {
        SyncEvent::Connected => ConnectionState::Connected,
        SyncEvent::Disconnected => ConnectionState::Disconnected,
        SyncEvent::Error { .. } => ConnectionState::Error,
        _ => s,
    }
}

/// The connection state after a sequence of events, in order.
pub open spec fn state_after_events(s: ConnectionState, es: Seq<SyncEvent>) -> ConnectionState
    decreases es.len(),
{
    if es.len() == 0 {
        s
    } else {
        state_after_event(state_after_events(s, es.drop_last()), es.last())
    }
}

/// Whether an event sets the connection state.
pub open spec fn is_status_event(e: SyncEvent) -> bool {
    e is Connected || e is Disconnected || e is Error
}

/// Law: the state after two batches of events is the state after the first
/// batch, carried through the second.
pub proof fn state_after_events_concat(s: ConnectionState, a: Seq<SyncEvent>, b: Seq<SyncEvent>)
    ensures
        state_after_events(s, a + b) == state_after_events(state_after_events(s, a), b),
    decreases b.len(),
{
    if b.len() == 0 {
        assert(a + b =~= a);
    } else {
        assert((a + b).drop_last() =~= a + b.drop_last());
        assert((a + b).last() == b.last());
        state_after_events_concat(s, a, b.drop_last());
    }
}

/// Law: events that set no state leave the state as it was; otherwise the last
/// such event decides it.
pub proof fn state_after_events_last_status(s: ConnectionState, es: Seq<SyncEvent>)
    ensures
        (forall|i: int| 0 <= i < es.len() ==> !is_status_event(#[trigger] es[i]))
            ==> state_after_events(s, es) == s,
        forall|k: int|
            0 <= k < es.len() && is_status_event(#[trigger] es[k]) && (forall|j: int|
                k < j < es.len() ==> !is_status_event(#[trigger] es[j])) ==> state_after_events(
                s,
                es,
            ) == state_after_event(s, es[k]),
    decreases es.len(),
{
    if es.len() > 0 {
        let init = es.drop_last();
        state_after_events_last_status(s, init);
        assert forall|i: int| 0 <= i < init.len() implies init[i] == es[i] by {}
        assert forall|k: int|
            0 <= k < es.len() && is_status_event(#[trigger] es[k]) && (forall|j: int|
                k < j < es.len() ==> !is_status_event(#[trigger] es[j])) implies state_after_events(
            s,
            es,
        ) == state_after_event(s, es[k]) by {
            if k < es.len() - 1 {
                assert(!is_status_event(es[es.len() - 1]));
                assert(init[k] == es[k]);
                assert forall|j: int| k < j < init.len() implies !is_status_event(
                    #[trigger] init[j],
                ) by {
                    assert(init[j] == es[j]);
                }
            }
        }
        if forall|i: int| 0 <= i < es.len() ==> !is_status_event(#[trigger] es[i]) {
            assert(!is_status_event(es[es.len() - 1]));
            assert forall|i: int| 0 <= i < init.len() implies !is_status_event(#[trigger] init[i]) by {
                assert(init[i] == es[i]);
            }
        }
    }
}

/// Law: after a batch of events, the connection state is fixed by the last
/// event that reports the connection: `Connected` leaves it connected,
/// `Disconnected` disconnected, and an `Error` in error; a batch with no such
/// event leaves the state as it was.
pub proof fn last_status_event_decides(s: ConnectionState, es: Seq<SyncEvent>)
    ensures
        (forall|i: int|
            0 <= i < es.len() ==> !(#[trigger] es[i] is Connected) && !(es[i] is Disconnected)
                && !(es[i] is Error)) ==> state_after_events(s, es) == s,
        forall|k: int|
            0 <= k < es.len() && (forall|j: int|
                k < j < es.len() ==> !(#[trigger] es[j] is Connected) && !(es[j] is Disconnected)
                    && !(es[j] is Error)) ==> {
                &&& #[trigger] es[k] is Connected ==> state_after_events(s, es)
                    == ConnectionState::Connected
                &&& es[k] is Disconnected ==> state_after_events(s, es)
                    == ConnectionState::Disconnected
                &&& es[k] is Error ==> state_after_events(s, es) == ConnectionState::Error
            },
    decreases es.len(),
{
    if es.len() > 0 {
        let init = es.drop_last();
        last_status_event_decides(s, init);
        assert forall|i: int| 0 <= i < init.len() implies init[i] == es[i] by {}
        let last = es[es.len() - 1];
        assert(state_after_events(s, es) == state_after_event(state_after_events(s, init), last));
        assert forall|k: int|
            0 <= k < es.len() && (forall|j: int|
                k < j < es.len() ==> !(#[trigger] es[j] is Connected) && !(es[j] is Disconnected)
                    && !(es[j] is Error)) implies {
                &&& #[trigger] es[k] is Connected ==> state_after_events(s, es)
                    == ConnectionState::Connected
                &&& es[k] is Disconnected ==> state_after_events(s, es)
                    == ConnectionState::Disconnected
                &&& es[k] is Error ==> state_after_events(s, es) == ConnectionState::Error
            } by {
            if k < es.len() - 1 {
                let lk = es.len() - 1;
                assert(!(es[lk] is Connected) && !(es[lk] is Disconnected) && !(es[lk] is Error));
                assert(init[k] == es[k]);
                assert forall|j: int| k < j < init.len() implies !(#[trigger] init[j] is Connected)
                    && !(init[j] is Disconnected) && !(init[j] is Error) by {
                    assert(init[j] == es[j]);
                }
            }
        }
        if forall|i: int|
            0 <= i < es.len() ==> !(#[trigger] es[i] is Connected) && !(es[i] is Disconnected)
                && !(es[i] is Error) {
            let lk = es.len() - 1;
            assert(!(es[lk] is Connected) && !(es[lk] is Disconnected) && !(es[lk] is Error));
            assert forall|i: int| 0 <= i < init.len() implies !(#[trigger] init[i] is Connected)
                && !(init[i] is Disconnected) && !(init[i] is Error) by {
                assert(init[i] == es[i]);
            }
        }
    }
}

/// What the client's socket reader got from the connection.
#[derive(Debug, Clone, PartialEq)]
pub enum SocketRead {
    /// A text frame, with the relay message it parsed to (`None` when it did not parse).
    Text { message: Option<ServerMessage> },
    /// A ping with its payload.
    Ping { data: Vec<u8> },
    /// A close frame.
    Close,
    /// Any other frame (binary data, pong).
    Other,
    /// The read timed out before anything arrived.
    Idle,
    /// The read failed.
    Failed,
}

/// What the client's socket reader does next.
#[derive(Debug, Clone, PartialEq)]
pub enum SocketStep {
    /// Hand the event to the client and keep reading.
    Deliver(SyncEvent),
    /// Answer with a pong carrying this payload and keep reading.
    Pong(Vec<u8>),
    /// Keep reading.
    Continue,
    /// Stop reading; the connection is over.
    Stop,
}

/// Whether `step` is the reader's step for `read` (see [`socket_step`]).
pub open spec fn is_socket_step(read: SocketRead, step: SocketStep) -> bool {
    match read {
        SocketRead::Text { message: Some(msg) } => exists|ev: Option<SyncEvent>|
            is_event_for(msg, ev) && match ev {
                Some(e) => step == SocketStep::Deliver(e),
                None => step == SocketStep::Continue,
            },
        SocketRead::Text { message: None } => step == SocketStep::Continue,
        SocketRead::Ping { data } => step == SocketStep::Pong(data),
        SocketRead::Close => step == SocketStep::Stop,
        SocketRead::Other => step == SocketStep::Continue,
        SocketRead::Idle => step == SocketStep::Continue,
        SocketRead::Failed => step == SocketStep::Stop,
    }
}

/// The reader's next step: a parsed relay message is delivered as its client
/// event (see [`is_event_for`]; a message without an event, or text that did
/// not parse, is skipped), a ping is answered, a close frame or a failed read
/// ends the connection, and anything else is skipped.
pub fn socket_step(read: SocketRead) -> (step: SocketStep)
    ensures
        is_socket_step(read, step),
{
    match read {
        SocketRead::Text { message: Some(msg) } => {
            let ev = sync_event_from_server_message(msg);
            match ev {
                Some(e) => SocketStep::Deliver(e),
                None => SocketStep::Continue,
            }
        },
        SocketRead::Text { message: None } => SocketStep::Continue,
        SocketRead::Ping { data } => SocketStep::Pong(data),
        SocketRead::Close => SocketStep::Stop,
        SocketRead::Other => SocketStep::Continue,
        SocketRead::Idle => SocketStep::Continue,
        SocketRead::Failed => SocketStep::Stop,
    }
}

/// Law: the reader answers a ping with a pong carrying the same payload,
/// stops on a close frame or a failed read, and otherwise goes on reading,
/// handing on the event of each relay message that has one.
pub proof fn reader_steps(read: SocketRead, step: SocketStep)
    requires
        is_socket_step(read, step),
    ensures
        read matches SocketRead::Ping { data } ==> step == SocketStep::Pong(data),
        read is Close ==> step is Stop,
        read is Failed ==> step is Stop,
        read is Idle || read is Other || read == (SocketRead::Text { message: None }) ==> step
            is Continue,
        read matches SocketRead::Text { message: Some(msg) } ==> match step {
            SocketStep::Deliver(e) => is_event_for(msg, Some(e)),
            SocketStep::Continue => is_event_for(msg, None),
            _ => false,
        },
{
}

/// What the client's socket writer got from the client.
#[derive(Debug, Clone, PartialEq)]
pub enum SocketCommand {
    /// Text to send to the relay.
    Send { text: String },
    /// The client asked to close the connection.
    Close,
    /// The client is gone (its command channel closed).
    Detached,
    /// Nothing is waiting.
    Nothing,
}

/// What the client's socket writer does next.
#[derive(Debug, Clone, PartialEq)]
pub enum CommandStep {
    /// Send this text; a failed send ends the connection.
    SendText(String),
    /// Close the socket and stop.
    CloseAndStop,
    /// Stop without closing.
    Stop,
    /// Go on to reading.
    Continue,
}

/// The writer's next step: text is sent, a close request closes the socket
/// and ends the connection, a vanished client ends it, and with nothing
/// waiting the reader goes on.
pub fn command_step(cmd: SocketCommand) -> (step: CommandStep)
    ensures
        match cmd {
            SocketCommand::Send { text } => step == CommandStep::SendText(text),
            SocketCommand::Close => step == CommandStep::CloseAndStop,
            SocketCommand::Detached => step == CommandStep::Stop,
            SocketCommand::Nothing => step == CommandStep::Continue,
        },
{
    match cmd {
        SocketCommand::Send { text } => CommandStep::SendText(text),
        SocketCommand::Close => CommandStep::CloseAndStop,
        SocketCommand::Detached => CommandStep::Stop,
        SocketCommand::Nothing => CommandStep::Continue,
    }
}

/// Whether `ev` is the first event of a connection attempt with this
/// outcome: `Connected`, or an `Error` with message `Connection failed: <reason>`.
pub open spec fn is_connection_event(outcome: Result<(), String>, ev: SyncEvent) -> bool {
    match outcome {
        Ok(()) => ev == SyncEvent::Connected,
        Err(reason) => ev matches SyncEvent::Error { message } && message@ == "Connection failed: "@
            + reason@,
    }
}

proof fn lemma_delivered_is_not_status(read: SocketRead, e: SyncEvent)
    requires
        is_socket_step(read, SocketStep::Deliver(e)),
    ensures
        !(e is Connected),
        !(e is Disconnected),
{
    if let SocketRead::Text { message: Some(msg) } = read {
        let ev = choose|ev: Option<SyncEvent>|
            is_event_for(msg, ev) && match ev {
                Some(x) => SocketStep::Deliver(e) == SocketStep::Deliver(x),
                None => SocketStep::Deliver(e) == SocketStep::Continue,
            };
        assert(ev == Some(e));
    }
}

/// Law: a successful attempt is announced as `Connected`, and a failed one
/// as an `Error` whose message is `Connection failed: ` and the reason.
pub proof fn connection_outcomes(reason: String, ev: SyncEvent)
    ensures
        is_connection_event(Ok(()), ev) <==> ev == SyncEvent::Connected,
        is_connection_event(Err(reason), ev) ==> (ev matches SyncEvent::Error { message }
            && message@ == "Connection failed: "@ + reason@),
{
}

/// The first event of a connection attempt: `Connected`, or an `Error` with
/// message `Connection failed: <reason>`. The socket's last event, once it has
/// connected and its reader stops, is `Disconnected`.
pub fn connection_event(outcome: Result<(), String>) -> (ev: SyncEvent)
    ensures
        is_connection_event(outcome, ev),
{
    match outcome {
        Ok(()) => SyncEvent::Connected,
        Err(reason) => {
            let mut message = "Connection failed: ".to_owned();
            message.append(reason.as_str());
            SyncEvent::Error { message }
        },
    }
}

/// Whether the events a socket hands to the client, in order, have the shape
/// of one connection: nothing yet; or a single `Error` whose message starts
/// with `Connection failed: `; or `Connected` first, then events none of which
/// is `Connected`, with `Disconnected` at most once and only as the last event.
pub open spec fn is_connection_trace(es: Seq<SyncEvent>) -> bool {
    ||| es.len() == 0
    ||| (es.len() == 1 && (es[0] matches SyncEvent::Error { message } && message@.len()
        >= "Connection failed: "@.len() && message@.take("Connection failed: "@.len() as int)
        == "Connection failed: "@))
    ||| (es[0] == SyncEvent::Connected && forall|i: int|
        1 <= i < es.len() ==> !(#[trigger] es[i] is Connected) && (es[i] is Disconnected ==> i
            == es.len() - 1))
}

/// Where a socket's connection stands.
#[derive(Debug, Clone, Copy, PartialEq, Eq, Structural)]
pub enum SocketPhase {
    /// Not yet tried.
    Starting,
    /// Connected; frames are being read.
    Open,
    /// Over: the attempt failed, or the connection ended.
    Closed,
}

/// The decisions of one socket's reader over its whole life: the connection
/// outcome, each frame read, and the end. It keeps the events handed to the
/// client, which always have the shape of [`is_connection_trace`].
pub struct SocketSession {
    phase: SocketPhase,
    sent: Ghost<Seq<SyncEvent>>,
}

impl SocketSession {
    #[verifier::type_invariant]
    spec fn consistent(self) -> bool {
        &&& is_connection_trace(self.sent@)
        &&& (self.phase == SocketPhase::Starting <==> self.sent@.len() == 0)
        &&& (self.phase == SocketPhase::Open ==> self.sent@[0] == SyncEvent::Connected && !(
        self.sent@.last() is Disconnected))
        &&& (self.sent@.len() > 0 && self.sent@[0] is Error ==> self.phase == SocketPhase::Closed)
    }

    /// The events handed to the client so far, in order.
    pub closed spec fn events(&self) -> Seq<SyncEvent> {
        self.sent@
    }

    /// Where the connection stands.
    pub closed spec fn spec_phase(&self) -> SocketPhase {
        self.phase
    }

    /// A socket about to connect.
    pub fn new() -> (s: SocketSession)
        ensures
            s.spec_phase() == SocketPhase::Starting,
            s.events() == Seq::<SyncEvent>::empty(),
    {
        SocketSession { phase: SocketPhase::Starting, sent: Ghost(Seq::empty()) }
    }

    /// Where the connection stands.
    pub fn phase(&self) -> (p: SocketPhase)
        ensures
            p == self.spec_phase(),
    {
        self.phase
    }

    /// The outcome of the connection attempt: before the attempt, the event of
    /// [`connection_event`], after which the socket is open (on success) or
    /// closed (on failure); at any later time nothing.
    pub fn connected(&mut self, outcome: Result<(), String>) -> (ev: Option<SyncEvent>)
        ensures
            old(self).spec_phase() == SocketPhase::Starting ==> (ev matches Some(e)
                && is_connection_event(outcome, e)),
            old(self).spec_phase() == SocketPhase::Starting ==> final(self).spec_phase() == (
            if outcome is Ok {
                SocketPhase::Open
            } else {
                SocketPhase::Closed
            }),
            old(self).spec_phase() != SocketPhase::Starting ==> ev is None && *final(self) == *old(self),
            final(self).events() == old(self).events() + opt_seq(ev),
            is_connection_trace(final(self).events()),
    {
        proof {
            use_type_invariant(&*self);
        }
        if self.phase != SocketPhase::Starting {
            return None;
        }
        let ok = outcome.is_ok();
        let e = connection_event(outcome);
        let ghost sent = seq![e];
        proof {
            reveal_strlit("Connection failed: ");
            if e is Error {
                assert(e->message@.take("Connection failed: "@.len() as int)
                    =~= "Connection failed: "@);
            }
        }
        let phase = if ok {
            SocketPhase::Open
        } else {
            SocketPhase::Closed
        };
        *self = SocketSession { phase, sent: Ghost(sent) };
        proof {
            assert(old(self).events() + opt_seq(Some(e)) =~= sent);
        }
        Some(e)
    }

    /// A frame read while open: the reader's step is [`socket_step`]'s, and
    /// an event it delivers is handed to the client; a stop ends the
    /// connection, and the `Disconnected` that comes with it (the second part
    /// of the answer) is handed to the client too. When not open the reader
    /// stops and nothing is handed out.
    pub fn read(&mut self, frame: SocketRead) -> (r: (SocketStep, Option<SyncEvent>))
        ensures
            old(self).spec_phase() == SocketPhase::Open ==> match r.0 {
                SocketStep::Stop => r.1 == Some(SyncEvent::Disconnected)
                    && final(self).spec_phase() == SocketPhase::Closed,
                _ => r.1 is None,
            },
            old(self).spec_phase() == SocketPhase::Open && !(r.0 is Stop) ==> final(self).spec_phase() == SocketPhase::Open,
            old(self).spec_phase() == SocketPhase::Open ==> is_socket_step(frame, r.0),
            old(self).spec_phase() != SocketPhase::Open ==> r == (SocketStep::Stop, None::<SyncEvent>)
                && *final(self) == *old(self),
            final(self).events() == old(self).events() + handed_out(r.0, r.1),
            is_connection_trace(final(self).events()),
    {
        proof {
            use_type_invariant(&*self);
        }
        if self.phase != SocketPhase::Open {
            proof {
                assert(old(self).events() + handed_out(SocketStep::Stop, None) =~= old(self).events());
            }
            return (SocketStep::Stop, None);
        }
        let step = socket_step(frame);
        match step {
            SocketStep::Deliver(e) => {
                let ghost before = self.sent@;
                proof {
                    lemma_delivered_is_not_status(frame, e);
                }
                let ghost after = before.push(e);
                *self = SocketSession { phase: SocketPhase::Open, sent: Ghost(after) };
                proof {
                    assert(old(self).events() + handed_out(SocketStep::Deliver(e), None) =~= after);
                    assert(after[0] == before[0]);
                    assert forall|i: int| 1 <= i < after.len() implies !(
                    #[trigger] after[i] is Connected) && (after[i] is Disconnected ==> i
                        == after.len() - 1) by {
                        if i < before.len() {
                            assert(after[i] == before[i]);
                            if i == before.len() - 1 {
                                assert(before[i] == before.last());
                            }
                        }
                    }
                }
                (SocketStep::Deliver(e), None)
            },
            SocketStep::Stop => {
                let e = self.finish_events();
                (SocketStep::Stop, Some(e))
            },
            other => {
                proof {
                    assert(old(self).events() + handed_out(other, None) =~= old(self).events());
                }
                (other, None)
            },
        }
    }

    /// The connection ends (the client asked to close it, went away, or a send
    /// failed): while open, `Disconnected` is handed to the client and the
    /// socket is closed; otherwise nothing happens.
    pub fn finish(&mut self) -> (ev: Option<SyncEvent>)
        ensures
            old(self).spec_phase() == SocketPhase::Open ==> ev == Some(SyncEvent::Disconnected)
                && final(self).spec_phase() == SocketPhase::Closed,
            old(self).spec_phase() != SocketPhase::Open ==> ev is None && *final(self) == *old(self),
            final(self).events() == old(self).events() + opt_seq(ev),
            is_connection_trace(final(self).events()),
    {
        proof {
            use_type_invariant(&*self);
        }
        if self.phase != SocketPhase::Open {
            proof {
                assert(old(self).events() + opt_seq(None::<SyncEvent>) =~= old(self).events());
            }
            return None;
        }
        Some(self.finish_events())
    }

    fn finish_events(&mut self) -> (e: SyncEvent)
        requires
            old(self).spec_phase() == SocketPhase::Open,
        ensures
            e == SyncEvent::Disconnected,
            final(self).spec_phase() == SocketPhase::Closed,
            final(self).events() == old(self).events() + opt_seq(Some(e)),
            is_connection_trace(final(self).events()),
    {
        proof {
            use_type_invariant(&*self);
        }
        let ghost before = self.sent@;
        let ghost after = before.push(SyncEvent::Disconnected);
        *self = SocketSession { phase: SocketPhase::Closed, sent: Ghost(after) };
        proof {
            assert(old(self).events() + opt_seq(Some(SyncEvent::Disconnected)) =~= after);
            assert(after[0] == before[0]);
            assert forall|i: int| 1 <= i < after.len() implies !(#[trigger] after[i] is Connected)
                && (after[i] is Disconnected ==> i == after.len() - 1) by {
                if i < before.len() {
                    assert(after[i] == before[i]);
                    if i == before.len() - 1 {
                        assert(before[i] == before.last());
                    }
                }
            }
        }
        SyncEvent::Disconnected
    }
}

/// The events a reader's answer hands to the client: the delivered event,
/// or the closing event that comes with a stop.
pub open spec fn handed_out(step: SocketStep, closing: Option<SyncEvent>) -> Seq<SyncEvent> {
    match step {
        SocketStep::Deliver(e) => seq![e],
        _ => opt_seq(closing),
    }
}

/// An optional event as a sequence of none or one.
pub open spec fn opt_seq(e: Option<SyncEvent>) -> Seq<SyncEvent> {
    match e {
        Some(x) => seq![x],
        None => Seq::empty(),
    }
}

/// What the `url` crate's parser gives for a text: the parsed URL's scheme, or
/// the `Display` text of the parse error.
pub uninterp spec fn url_parse(input: Seq<char>) -> Result<Seq<char>, Seq<char>>;

/// The texts that the `url` crate shows for its parse errors.
pub open spec fn is_url_error_text(t: Seq<char>) -> bool {
    ||| t == "empty host"@
    ||| t == "invalid international domain name"@
    ||| t == "invalid port number"@
    ||| t == "invalid IPv4 address"@
    ||| t == "invalid IPv6 address"@
    ||| t == "invalid domain character"@
    ||| t == "relative URL without a base"@
    ||| t == "relative URL with a cannot-be-a-base base"@
    ||| t == "a cannot-be-a-base URL doesn’t have a host to set"@
    ||| t == "URLs more than 4 GB are not supported"@
}

/// A parse outcome, by the views of its texts.
pub open spec fn parsed_view(parsed: Result<String, String>) -> Result<Seq<char>, Seq<char>> {
    match parsed {
        Ok(s) => Ok(s@),
        Err(t) => Err(t@),
    }
}

/// An answer that is `Ok` or an error message, by the view of its message.
pub open spec fn verdict_view(r: Result<(), String>) -> Result<(), Seq<char>> {
    match r {
        Ok(()) => Ok(()),
        Err(m) => Err(m@),
    }
}

/// `url::Url::parse`, taking the scheme of the parsed URL, or the error's
/// `Display` text: the named parse of `url`; an error text is one of the
/// parser's error messages.
#[verifier::external_body]
fn parse_url_scheme(url: &str) -> (r: Result<String, String>)
    ensures
        parsed_view(r) == url_parse(url@),
        r matches Err(t) ==> is_url_error_text(t@),
{
    match url::Url::parse(url) {
        Ok(u) => Ok(u.scheme().to_string()),
        Err(e) => Err(e.to_string()),
    }
}

/// What a WebSocket URL is answered, given what parsing it gave: a parse error
/// `t` gives `Invalid URL: t`; a scheme other than `ws` or `wss` gives
/// `Invalid WebSocket URL scheme: <scheme>`; `ws` and `wss` are accepted.
pub open spec fn websocket_url_verdict(parsed: Result<Seq<char>, Seq<char>>) -> Result<(), Seq<char>> {
    match parsed {
        Err(t) => Err("Invalid URL: "@ + t),
        Ok(scheme) => if scheme == "ws"@ || scheme == "wss"@ {
            Ok(())
        } else {
            Err("Invalid WebSocket URL scheme: "@ + scheme)
        },
    }
}

/// Law: a URL that parses is accepted exactly when its scheme is `ws` or
/// `wss`, and refused otherwise with a message naming the scheme; a URL that
/// does not parse is refused with `Invalid URL: ` and the parser's text.
pub proof fn websocket_urls(scheme: Seq<char>, error: Seq<char>)
    ensures
        websocket_url_verdict(Ok(scheme)) is Ok <==> (scheme == "ws"@ || scheme == "wss"@),
        !(scheme == "ws"@ || scheme == "wss"@) ==> websocket_url_verdict(Ok(scheme)) == Err::<
            (),
            Seq<char>,
        >("Invalid WebSocket URL scheme: "@ + scheme),
        websocket_url_verdict(Err(error)) == Err::<(), Seq<char>>("Invalid URL: "@ + error),
{
}

/// Decides a WebSocket URL from what parsing it gave (see
/// [`websocket_url_verdict`]).
pub fn websocket_url_check(parsed: Result<String, String>) -> (r: Result<(), String>)
    ensures
        verdict_view(r) == websocket_url_verdict(parsed_view(parsed)),
{
    match parsed {
        Err(text) => {
            let mut m = "Invalid URL: ".to_owned();
            m.append(text.as_str());
            Err(m)
        },
        Ok(scheme) => {
            if !str_equals(scheme.as_str(), "ws") && !str_equals(scheme.as_str(), "wss") {
                let mut m = "Invalid WebSocket URL scheme: ".to_owned();
                m.append(scheme.as_str());
                Err(m)
            } else {
                Ok(())
            }
        },
    }
}

/// The non-I/O part of a client connection: whether a socket is open and the
/// connection state that the socket's events drive.
pub struct ClientConnection {
    state: ConnectionState,
    open: bool,
}

impl ClientConnection {
    /// The current connection state.
    pub closed spec fn spec_state(&self) -> ConnectionState {
        self.state
    }

    /// Whether a socket is open (a connection was started and not torn down).
    pub closed spec fn is_open(&self) -> bool {
        self.open
    }

    /// Create a new disconnected client.
    pub fn new() -> (c: ClientConnection)
        ensures
            c.spec_state() == ConnectionState::Disconnected,
            !c.is_open(),
    {
        ClientConnection { state: ConnectionState::Disconnected, open: false }
    }

    /// Starts connecting to `url`: refused while a socket is open, and
    /// otherwise answered as [`websocket_url_verdict`] says of the URL's parse;
    /// when accepted, the state becomes `Connecting` and the socket counts as
    /// open.
    pub fn connect(&mut self, url: &str) -> (r: Result<(), String>)
        ensures
            old(self).is_open() ==> (r matches Err(m) && m@ == "Already connected"@ && *final(self)
                == *old(self)),
            !old(self).is_open() ==> verdict_view(r) == websocket_url_verdict(url_parse(url@)),
            !old(self).is_open() && r is Ok ==> final(self).spec_state()
                == ConnectionState::Connecting && final(self).is_open(),
            r is Err ==> *final(self) == *old(self),
    {
        if self.open {
            return Err("Already connected".to_owned());
        }
        let parsed = parse_url_scheme(url);
        let verdict = websocket_url_check(parsed);
        if verdict.is_ok() {
            self.state = ConnectionState::Connecting;
            self.open = true;
        }
        verdict
    }

    /// Disconnect from the server.
    pub fn disconnect(&mut self)
        ensures
            final(self).spec_state() == ConnectionState::Disconnected,
            !final(self).is_open(),
    {
        self.open = false;
        self.state = ConnectionState::Disconnected;
    }

    /// Whether a message may be handed to the socket: `Err("Not connected")`
    /// when no socket is open.
    pub fn ensure_connected(&self) -> (r: Result<(), String>)
        ensures
            self.is_open() ==> r is Ok,
            !self.is_open() ==> (r matches Err(m) && m@ == "Not connected"@),
    {
        if self.open {
            Ok(())
        } else {
            Err("Not connected".to_owned())
        }
    }

    /// Takes the pending events, updating the state from each in order, and
    /// returns them unchanged.
    pub fn poll_events(&mut self, pending: Vec<SyncEvent>) -> (events: Vec<SyncEvent>)
        ensures
            events == pending,
            final(self).spec_state() == state_after_events(old(self).spec_state(), pending@),
            final(self).is_open() == old(self).is_open(),
    {
        let mut i: usize = 0;
        while i < pending.len()
            invariant
                i <= pending@.len(),
                self.open == old(self).open,
                self.state == state_after_events(old(self).state, pending@.take(i as int)),
            decreases pending@.len() - i,
        {
            proof {
                assert(pending@.take(i + 1).drop_last() =~= pending@.take(i as int));
            }
            match &pending[i] {
                SyncEvent::Connected => self.state = ConnectionState::Connected,
                SyncEvent::Disconnected => self.state = ConnectionState::Disconnected,
                SyncEvent::Error { .. } => self.state = ConnectionState::Error,
                _ => {},
            }
            i = i + 1;
        }
        assert(pending@.take(pending@.len() as int) =~= pending@);
        pending
    }

    /// Get current connection state.
    pub fn state(&self) -> (s: ConnectionState)
        ensures
            s == self.spec_state(),
    {
        self.state
    }

    /// Check if connected.
    pub fn is_connected(&self) -> (b: bool)
        ensures
            b == (self.spec_state() == ConnectionState::Connected),
    {
        self.state == ConnectionState::Connected
    }
}

} // verus!
