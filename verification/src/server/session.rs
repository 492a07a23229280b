//! One client connection to the relay: what the relay does for each thing that
//! happens on the connection.

use vstd::prelude::*;
use vstd::string::StringSliceAdditionalSpecFns;
use vstd::string::StringExecFns;
use crate::protocol::{AwarenessState, ClientMessage, ServerMessage, base64_encode, base64_of};
use crate::text::str_equals;

verus! {

/// Something the relay does for a connection. The actions of one step are
/// carried out in order; when sending `Joined`, a relayed message or a room
/// snapshot to this peer fails, the connection ends and the rest is dropped.
#[derive(Debug, Clone, PartialEq)]
pub enum SessionAction {
    /// Take this peer out of the room.
    LeaveRoom { room: String },
    /// Put this peer into the room, subscribe to its broadcasts, and send the
    /// peer `Joined` with the room's peer count and stored snapshot.
    JoinRoom { room: String },
    /// Send a message to the other peers of the room.
    Broadcast { room: String, message: ServerMessage },
    /// Store a snapshot of the room.
    Persist { room: String, data: String },
    /// Send this peer the room's stored snapshot as `RoomSnapshot`.
    SendRoomSnapshot { room: String },
    /// Send a message to this peer.
    Send { message: ServerMessage },
    /// Stop receiving the room's broadcasts.
    Unsubscribe,
}

/// What a room's broadcast channel delivers to a connection.
#[derive(Debug, Clone, PartialEq)]
pub enum RoomEvent {
    /// A message broadcast by peer `from`.
    Message { from: String, message: ServerMessage },
    /// This connection fell behind and missed `skipped` messages.
    Lagged { skipped: u64 },
    /// The channel closed.
    Closed,
}

/// What leaving the current room (if any) takes: leave it and tell its peers.
pub open spec fn leave_actions(peer: String, room: Option<String>) -> Seq<SessionAction> {
    match room {
        Some(cur) => seq![
            SessionAction::LeaveRoom { room: cur },
            SessionAction::Broadcast {
                room: cur,
                message: ServerMessage::PeerLeft { peer_id: peer },
            },
        ],
        None => Seq::empty(),
    }
}

/// The actions for a message from the client, given its peer id and current room:
/// - `Join` leaves the current room, joins the new one and announces the peer;
/// - `Leave` leaves the current room and stops its broadcasts;
/// - `Sync` relays the update to the room;
/// - `SyncSnapshot` stores the snapshot and relays it to the room as a sync;
/// - `RequestSnapshot` sends the stored snapshot back;
/// - `Awareness` relays the state to the room;
/// outside a room, only `Join` and `Leave` do anything.
pub open spec fn message_actions(peer: String, room: Option<String>, msg: ClientMessage) -> Seq<
    SessionAction,
> {
    match msg {
        ClientMessage::Join { room: r } => leave_actions(peer, room) + seq![
            SessionAction::JoinRoom { room: r },
            SessionAction::Broadcast {
                room: r,
                message: ServerMessage::PeerJoined { peer_id: peer },
            },
        ],
        ClientMessage::Leave => leave_actions(peer, room) + seq![SessionAction::Unsubscribe],
        ClientMessage::Sync { data } => match room {
            Some(cur) => seq![
                SessionAction::Broadcast {
                    room: cur,
                    message: ServerMessage::Sync { from: peer, data },
                },
            ],
            None => Seq::empty(),
        },
        ClientMessage::SyncSnapshot { data } => match room {
            Some(cur) => seq![
                SessionAction::Persist { room: cur, data },
                SessionAction::Broadcast {
                    room: cur,
                    message: ServerMessage::Sync { from: peer, data },
                },
            ],
            None => Seq::empty(),
        },
        ClientMessage::RequestSnapshot => match room {
            Some(cur) => seq![SessionAction::SendRoomSnapshot { room: cur }],
            None => Seq::empty(),
        },
        ClientMessage::Awareness { peer_id, state } => match room {
            Some(cur) => seq![
                SessionAction::Broadcast {
                    room: cur,
                    message: ServerMessage::Awareness { from: peer, peer_id, state },
                },
            ],
            None => Seq::empty(),
        },
    }
}

/// The room a connection is in after a message from the client.
pub open spec fn room_after_message(room: Option<String>, msg: ClientMessage) -> Option<String> {
    match msg {
        ClientMessage::Join { room: r } => Some(r),
        ClientMessage::Leave => None,
        _ => room,
    }
}

/// The state of one client connection.
pub struct Session {
    peer_id: String,
    current_room: Option<String>,
    pending_room_snapshot: bool,
    max_message_bytes: usize,
}

impl Session {
    /// This connection's peer id.
    pub closed spec fn spec_peer(&self) -> String {
        self.peer_id
    }

    /// The room this connection is in.
    pub closed spec fn spec_room(&self) -> Option<String> {
        self.current_room
    }

    /// Whether a room snapshot is owed after missed broadcasts.
    pub closed spec fn spec_pending_snapshot(&self) -> bool {
        self.pending_room_snapshot
    }

    /// The largest message accepted, in bytes.
    pub closed spec fn spec_max_message_bytes(&self) -> usize {
        self.max_message_bytes
    }

    /// A new connection, in no room.
    pub fn new(peer_id: String, max_message_bytes: usize) -> (s: Session)
        ensures
            s.spec_peer() == peer_id,
            s.spec_room() is None,
            !s.spec_pending_snapshot(),
            s.spec_max_message_bytes() == max_message_bytes,
    {
        Session { peer_id, current_room: None, pending_room_snapshot: false, max_message_bytes }
    }

    /// This connection's peer id.
    pub fn peer_id(&self) -> (p: &str)
        ensures
            p@ == self.spec_peer()@,
    {
        self.peer_id.as_str()
    }

    /// The room this connection is in.
    pub fn current_room(&self) -> (r: Option<&String>)
        ensures
            match r {
                Some(x) => self.spec_room() == Some(*x),
                None => self.spec_room() is None,
            },
    {
        match &self.current_room {
            Some(r) => Some(r),
            None => None,
        }
    }

    /// Whether a frame of `len` bytes is accepted; a larger one ends the connection.
    pub fn accepts_frame(&self, len: usize) -> (ok: bool)
        ensures
            ok == (len <= self.spec_max_message_bytes()),
    {
        len <= self.max_message_bytes
    }

    fn leave_current(&self, acts: &mut Vec<SessionAction>)
        ensures
            final(acts)@ == old(acts)@ + leave_actions(self.spec_peer(), self.spec_room()),
    {
        if let Some(cur) = &self.current_room {
            acts.push(SessionAction::LeaveRoom { room: cur.clone() });
            acts.push(
                SessionAction::Broadcast {
                    room: cur.clone(),
                    message: ServerMessage::PeerLeft { peer_id: self.peer_id.clone() },
                },
            );
        }
        assert(acts@ =~= old(acts)@ + leave_actions(self.spec_peer(), self.spec_room()));
    }

    /// The actions for a message from the client (see [`message_actions`]), and
    /// the room the connection is in afterwards (see [`room_after_message`]).
    pub fn handle_client_message(&mut self, msg: ClientMessage) -> (acts: Vec<SessionAction>)
        ensures
            acts@ == message_actions(old(self).spec_peer(), old(self).spec_room(), msg),
            final(self).spec_room() == room_after_message(old(self).spec_room(), msg),
            final(self).spec_peer() == old(self).spec_peer(),
            final(self).spec_pending_snapshot() == old(self).spec_pending_snapshot(),
            final(self).spec_max_message_bytes() == old(self).spec_max_message_bytes(),
    {
        let ghost msg0 = msg;
        let mut acts: Vec<SessionAction> = Vec::new();
        match msg {
            ClientMessage::Join { room } => {
                self.leave_current(&mut acts);
                acts.push(SessionAction::JoinRoom { room: room.clone() });
                acts.push(
                    SessionAction::Broadcast {
                        room: room.clone(),
                        message: ServerMessage::PeerJoined { peer_id: self.peer_id.clone() },
                    },
                );
                self.current_room = Some(room);
            },
            ClientMessage::Leave => {
                self.leave_current(&mut acts);
                acts.push(SessionAction::Unsubscribe);
                self.current_room = None;
            },
            ClientMessage::Sync { data } => {
                if let Some(cur) = &self.current_room {
                    acts.push(
                        SessionAction::Broadcast {
                            room: cur.clone(),
                            message: ServerMessage::Sync { from: self.peer_id.clone(), data },
                        },
                    );
                }
            },
            ClientMessage::SyncSnapshot { data } => {
                if let Some(cur) = &self.current_room {
                    acts.push(SessionAction::Persist { room: cur.clone(), data: data.clone() });
                    acts.push(
                        SessionAction::Broadcast {
                            room: cur.clone(),
                            message: ServerMessage::Sync { from: self.peer_id.clone(), data },
                        },
                    );
                }
            },
            ClientMessage::RequestSnapshot => {
                if let Some(cur) = &self.current_room {
                    acts.push(SessionAction::SendRoomSnapshot { room: cur.clone() });
                }
            },
            ClientMessage::Awareness { peer_id, state } => {
                if let Some(cur) = &self.current_room {
                    acts.push(
                        SessionAction::Broadcast {
                            room: cur.clone(),
                            message: ServerMessage::Awareness {
                                from: self.peer_id.clone(),
                                peer_id,
                                state,
                            },
                        },
                    );
                }
            },
        }
        assert(acts@ =~= message_actions(old(self).spec_peer(), old(self).spec_room(), msg0));
        acts
    }

    /// The reply to a text message that did not parse: an `Error` message
    /// `Invalid message: <reason>` to this peer, sent on a best-effort basis
    /// (a failed send of it does not end the connection).
    pub fn handle_invalid_message(&self, reason: &str) -> (acts: Vec<SessionAction>)
        ensures
            acts@.len() == 1,
            acts@[0] matches SessionAction::Send { message: ServerMessage::Error { message } }
                && message@ == "Invalid message: "@ + reason@,
    {
        let mut message = "Invalid message: ".to_owned();
        message.append(reason);
        let mut acts: Vec<SessionAction> = Vec::new();
        acts.push(SessionAction::Send { message: ServerMessage::Error { message } });
        acts
    }

    /// The actions for a binary frame (raw document bytes): inside a room, store
    /// its base64 text as the room's snapshot and relay it as a sync; outside a
    /// room, nothing.
    pub fn handle_binary(&self, data: &[u8]) -> (acts: Vec<SessionAction>)
        ensures
            match self.spec_room() {
                Some(cur) => acts@.len() == 2 && (acts@[0] matches SessionAction::Persist {
                    room,
                    data: text,
                } && room == cur && text@ == base64_of(data@)) && (
                acts@[1] matches SessionAction::Broadcast {
                    room,
                    message: ServerMessage::Sync { from, data: text },
                } && room == cur && from == self.spec_peer() && text@ == base64_of(
                    data@,
                )),
                None => acts@.len() == 0,
            },
    {
        let mut acts: Vec<SessionAction> = Vec::new();
        if let Some(cur) = &self.current_room {
            let text = base64_encode(data);
            acts.push(SessionAction::Persist { room: cur.clone(), data: text.clone() });
            acts.push(
                SessionAction::Broadcast {
                    room: cur.clone(),
                    message: ServerMessage::Sync { from: self.peer_id.clone(), data: text },
                },
            );
        }
        acts
    }

    /// The actions for what the room's broadcast channel delivers: a message
    /// from another peer is sent on to this peer (one from this peer is not);
    /// falling behind makes a room snapshot owed, and an owed snapshot is sent
    /// (inside a room) and then no longer owed.
    pub fn handle_room_event(&mut self, event: RoomEvent) -> (acts: Vec<SessionAction>)
        ensures
            ({
                let relayed = match event {
                    RoomEvent::Message { from, message } => if from@ != old(self).spec_peer()@ {
                        seq![SessionAction::Send { message }]
                    } else {
                        Seq::empty()
                    },
                    _ => Seq::empty(),
                };
                let owed = old(self).spec_pending_snapshot() || event is Lagged;
                let snapshot = if owed && old(self).spec_room() is Some {
                    seq![SessionAction::SendRoomSnapshot { room: old(self).spec_room().unwrap() }]
                } else {
                    Seq::empty()
                };
                acts@ == relayed + snapshot
            }),
            !final(self).spec_pending_snapshot(),
            final(self).spec_room() == old(self).spec_room(),
            final(self).spec_peer() == old(self).spec_peer(),
            final(self).spec_max_message_bytes() == old(self).spec_max_message_bytes(),
    {
        let ghost ev0 = event;
        let mut acts: Vec<SessionAction> = Vec::new();
        match event {
            RoomEvent::Message { from, message } => {
                if !str_equals(from.as_str(), self.peer_id.as_str()) {
                    acts.push(SessionAction::Send { message });
                }
            },
            RoomEvent::Lagged { .. } => {
                self.pending_room_snapshot = true;
            },
            RoomEvent::Closed => {},
        }
        if self.pending_room_snapshot {
            if let Some(cur) = &self.current_room {
                acts.push(SessionAction::SendRoomSnapshot { room: cur.clone() });
            }
            self.pending_room_snapshot = false;
        }
        proof {
            let relayed = match ev0 {
                RoomEvent::Message { from, message } => if from@ != old(self).spec_peer()@ {
                    seq![SessionAction::Send { message }]
                } else {
                    Seq::empty()
                },
                _ => Seq::empty(),
            };
            let owed = old(self).spec_pending_snapshot() || ev0 is Lagged;
            let snapshot = if owed && old(self).spec_room() is Some {
                seq![SessionAction::SendRoomSnapshot { room: old(self).spec_room().unwrap() }]
            } else {
                Seq::empty()
            };
            assert(acts@ =~= relayed + snapshot);
        }
        acts
    }

    /// The actions when the connection ends: leave the current room, if any,
    /// and tell its peers.
    pub fn finish(&self) -> (acts: Vec<SessionAction>)
        ensures
            acts@ == leave_actions(self.spec_peer(), self.spec_room()),
    {
        let mut acts: Vec<SessionAction> = Vec::new();
        self.leave_current(&mut acts);
        assert(acts@ =~= leave_actions(self.spec_peer(), self.spec_room()));
        acts
    }
}

/// Law: a connection that joins a room and then leaves it is in no room, and
/// its leaving tells the room that it left and stops the room's broadcasts.
pub proof fn join_then_leave(peer: String, room: Option<String>, target: String)
    ensures
        room_after_message(
            room_after_message(room, ClientMessage::Join { room: target }),
            ClientMessage::Leave,
        ) is None,
        message_actions(
            peer,
            room_after_message(room, ClientMessage::Join { room: target }),
            ClientMessage::Leave,
        ) == seq![
            SessionAction::LeaveRoom { room: target },
            SessionAction::Broadcast {
                room: target,
                message: ServerMessage::PeerLeft { peer_id: peer },
            },
            SessionAction::Unsubscribe,
        ],
{
    assert(message_actions(
        peer,
        room_after_message(room, ClientMessage::Join { room: target }),
        ClientMessage::Leave,
    ) =~= seq![
        SessionAction::LeaveRoom { room: target },
        SessionAction::Broadcast {
            room: target,
            message: ServerMessage::PeerLeft { peer_id: peer },
        },
        SessionAction::Unsubscribe,
    ]);
}

/// Law: outside a room, a client message other than `Join` and `Leave` makes
/// the relay do nothing, and every message the relay sends to a room names
/// this peer as its sender.
pub proof fn messages_stay_in_the_room(peer: String, room: Option<String>, msg: ClientMessage)
    ensures
        room is None && !(msg is Join) && !(msg is Leave) ==> message_actions(peer, room, msg).len()
            == 0,
        forall|i: int|
            0 <= i < message_actions(peer, room, msg).len() ==> match #[trigger] message_actions(
                peer,
                room,
                msg,
            )[i] {
                SessionAction::Broadcast { room: r, message } => match message {
                    ServerMessage::PeerLeft { peer_id } => peer_id == peer && Some(r) == room,
                    ServerMessage::PeerJoined { peer_id } => peer_id == peer,
                    ServerMessage::Sync { from, .. } => from == peer && Some(r) == room,
                    ServerMessage::Awareness { from, .. } => from == peer && Some(r) == room,
                    _ => false,
                },
                _ => true,
            },
{
}

/// Law: inside a room, each update from the client reaches the room with its
/// content unchanged and this peer named as its sender: a `Sync` is relayed
/// as one `Sync` broadcast; a `SyncSnapshot` is stored and relayed; an
/// `Awareness` is relayed as one `Awareness` broadcast; a `RequestSnapshot`
/// sends the room's stored snapshot back. None of them changes the room.
pub proof fn room_updates_are_relayed(
    peer: String,
    room: String,
    data: String,
    peer_id: u64,
    state: AwarenessState,
)
    ensures
        message_actions(peer, Some(room), ClientMessage::Sync { data }) == seq![
            SessionAction::Broadcast {
                room: room,
                message: ServerMessage::Sync { from: peer, data: data },
            },
        ],
        message_actions(peer, Some(room), ClientMessage::SyncSnapshot { data }) == seq![
            SessionAction::Persist { room: room, data: data },
            SessionAction::Broadcast {
                room: room,
                message: ServerMessage::Sync { from: peer, data: data },
            },
        ],
        message_actions(peer, Some(room), ClientMessage::Awareness { peer_id, state }) == seq![
            SessionAction::Broadcast {
                room: room,
                message: ServerMessage::Awareness { from: peer, peer_id: peer_id, state: state },
            },
        ],
        message_actions(peer, Some(room), ClientMessage::RequestSnapshot) == seq![
            SessionAction::SendRoomSnapshot { room: room },
        ],
        room_after_message(Some(room), ClientMessage::Sync { data }) == Some(room),
        room_after_message(Some(room), ClientMessage::SyncSnapshot { data }) == Some(room),
        room_after_message(Some(room), ClientMessage::Awareness { peer_id, state }) == Some(room),
        room_after_message(Some(room), ClientMessage::RequestSnapshot) == Some(room),
{
}

/// Law: joining a room from any room (or none) leaves the old room first,
/// then joins the new one and announces this peer there, and the connection
/// is then in the new room.
pub proof fn join_moves_to_the_room(peer: String, room: Option<String>, target: String)
    ensures
        message_actions(peer, room, ClientMessage::Join { room: target }) == leave_actions(
            peer,
            room,
        ) + seq![
            SessionAction::JoinRoom { room: target },
            SessionAction::Broadcast {
                room: target,
                message: ServerMessage::PeerJoined { peer_id: peer },
            },
        ],
        room is None ==> leave_actions(peer, room).len() == 0,
        room matches Some(cur) ==> leave_actions(peer, room) == seq![
            SessionAction::LeaveRoom { room: cur },
            SessionAction::Broadcast {
                room: cur,
                message: ServerMessage::PeerLeft { peer_id: peer },
            },
        ],
        room_after_message(room, ClientMessage::Join { room: target }) == Some(target),
{
}

/// Law: leaving takes the connection out of its room, tells the room's
/// peers that this peer left, and stops the room's broadcasts; outside a room
/// it only stops them.
pub proof fn leave_leaves_the_room(peer: String, room: Option<String>)
    ensures
        room_after_message(room, ClientMessage::Leave) is None,
        room matches Some(cur) ==> message_actions(peer, room, ClientMessage::Leave) == seq![
            SessionAction::LeaveRoom { room: cur },
            SessionAction::Broadcast {
                room: cur,
                message: ServerMessage::PeerLeft { peer_id: peer },
            },
            SessionAction::Unsubscribe,
        ],
        room is None ==> message_actions(peer, room, ClientMessage::Leave) == seq![
            SessionAction::Unsubscribe,
        ],
{
    assert(Seq::<SessionAction>::empty() + seq![SessionAction::Unsubscribe] =~= seq![
        SessionAction::Unsubscribe,
    ]);
}

} // verus!
