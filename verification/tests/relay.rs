use drafftink::protocol::{AwarenessState, ClientMessage, ServerMessage};
use drafftink::server::rooms::RoomRegistry;
use drafftink::server::session::{RoomEvent, Session, SessionAction};
use drafftink::server::store::{MemoryRoomStore, RedisRoomStore};

fn s(x: &str) -> String {
    x.to_string()
}

#[test]
fn join_leave_and_relay() {
    let mut session = Session::new(s("me"), 16);
    let acts = session.handle_client_message(ClientMessage::Sync { data: s("d") });
    assert!(acts.is_empty());
    let acts = session.handle_client_message(ClientMessage::Join { room: s("r1") });
    assert_eq!(
        acts,
        vec![
            SessionAction::JoinRoom { room: s("r1") },
            SessionAction::Broadcast { room: s("r1"), message: ServerMessage::PeerJoined { peer_id: s("me") } },
        ]
    );
    assert_eq!(session.current_room().map(|r| r.as_str()), Some("r1"));
    let acts = session.handle_client_message(ClientMessage::Join { room: s("r2") });
    assert_eq!(
        acts,
        vec![
            SessionAction::LeaveRoom { room: s("r1") },
            SessionAction::Broadcast { room: s("r1"), message: ServerMessage::PeerLeft { peer_id: s("me") } },
            SessionAction::JoinRoom { room: s("r2") },
            SessionAction::Broadcast { room: s("r2"), message: ServerMessage::PeerJoined { peer_id: s("me") } },
        ]
    );
    let acts = session.handle_client_message(ClientMessage::SyncSnapshot { data: s("YWJj") });
    assert_eq!(
        acts,
        vec![
            SessionAction::Persist { room: s("r2"), data: s("YWJj") },
            SessionAction::Broadcast { room: s("r2"), message: ServerMessage::Sync { from: s("me"), data: s("YWJj") } },
        ]
    );
    let acts = session.handle_client_message(ClientMessage::Awareness { peer_id: 9, state: AwarenessState::default() });
    assert_eq!(
        acts,
        vec![SessionAction::Broadcast {
            room: s("r2"),
            message: ServerMessage::Awareness { from: s("me"), peer_id: 9, state: AwarenessState::default() },
        }]
    );
    let acts = session.handle_client_message(ClientMessage::RequestSnapshot);
    assert_eq!(acts, vec![SessionAction::SendRoomSnapshot { room: s("r2") }]);
    let acts = session.handle_client_message(ClientMessage::Leave);
    assert_eq!(
        acts,
        vec![
            SessionAction::LeaveRoom { room: s("r2") },
            SessionAction::Broadcast { room: s("r2"), message: ServerMessage::PeerLeft { peer_id: s("me") } },
            SessionAction::Unsubscribe,
        ]
    );
    assert!(session.current_room().is_none());
    assert!(session.finish().is_empty());
}

#[test]
fn binary_frames_and_limits() {
    let mut session = Session::new(s("me"), 4);
    assert!(session.accepts_frame(4));
    assert!(!session.accepts_frame(5));
    assert!(session.handle_binary(b"abc").is_empty());
    session.handle_client_message(ClientMessage::Join { room: s("r") });
    assert_eq!(
        session.handle_binary(b"abc"),
        vec![
            SessionAction::Persist { room: s("r"), data: s("YWJj") },
            SessionAction::Broadcast { room: s("r"), message: ServerMessage::Sync { from: s("me"), data: s("YWJj") } },
        ]
    );
    assert_eq!(
        session.finish(),
        vec![
            SessionAction::LeaveRoom { room: s("r") },
            SessionAction::Broadcast { room: s("r"), message: ServerMessage::PeerLeft { peer_id: s("me") } },
        ]
    );
}

#[test]
fn invalid_message_reply() {
    let session = Session::new(s("me"), 4);
    assert_eq!(
        session.handle_invalid_message("expected value"),
        vec![SessionAction::Send { message: ServerMessage::Error { message: s("Invalid message: expected value") } }]
    );
}

#[test]
fn room_events_skip_own_messages_and_recover_from_lag() {
    let mut session = Session::new(s("me"), 16);
    session.handle_client_message(ClientMessage::Join { room: s("r") });
    let own = RoomEvent::Message { from: s("me"), message: ServerMessage::PeerJoined { peer_id: s("me") } };
    assert!(session.handle_room_event(own).is_empty());
    let other = RoomEvent::Message { from: s("you"), message: ServerMessage::PeerJoined { peer_id: s("you") } };
    assert_eq!(
        session.handle_room_event(other),
        vec![SessionAction::Send { message: ServerMessage::PeerJoined { peer_id: s("you") } }]
    );
    assert_eq!(
        session.handle_room_event(RoomEvent::Lagged { skipped: 3 }),
        vec![SessionAction::SendRoomSnapshot { room: s("r") }]
    );
    assert!(session.handle_room_event(RoomEvent::Closed).is_empty());
}

#[test]
fn registry_counts_and_removes_rooms() {
    let mut reg = RoomRegistry::new();
    assert_eq!(reg.join("r", "a"), 1);
    assert_eq!(reg.join("r", "b"), 2);
    assert_eq!(reg.join("r", "b"), 2);
    assert_eq!(reg.join("q", "a"), 1);
    reg.leave("r", "a");
    assert!(reg.has_room("r"));
    reg.leave("r", "zzz");
    assert!(reg.has_room("r"));
    reg.leave("r", "b");
    assert!(!reg.has_room("r"));
    assert!(reg.has_room("q"));
    reg.leave("missing", "a");
    assert_eq!(reg.join("r", "c"), 1);
}

#[test]
fn memory_store_reads_back_writes() {
    let mut store = MemoryRoomStore::new();
    assert_eq!(store.load_snapshot("r"), None);
    assert!(store.save_snapshot("r", "one"));
    assert!(store.save_snapshot("q", "other"));
    assert!(store.save_snapshot("r", "two"));
    assert_eq!(store.load_snapshot("r").as_deref(), Some("two"));
    assert_eq!(store.load_snapshot("q").as_deref(), Some("other"));
}

#[test]
fn redis_keys() {
    assert_eq!(RedisRoomStore::snapshot_key("abc"), "drafftink:room:abc:snapshot");
    assert_eq!(RedisRoomStore::events_channel("abc"), "drafftink:room:abc:events");
}

/// Carries out the storage part of the session's actions against a memory store.
fn store_actions(store: &mut MemoryRoomStore, acts: &[SessionAction]) {
    for act in acts {
        if let SessionAction::Persist { room, data } = act {
            assert!(store.save_snapshot(room, data));
        }
    }
}

#[test]
fn snapshot_persisted_for_next_joiner() {
    let mut store = MemoryRoomStore::new();
    let mut first = Session::new(s("p1"), 1 << 20);
    store_actions(&mut store, &first.handle_client_message(ClientMessage::Join { room: s("persist-room") }));
    store_actions(&mut store, &first.handle_client_message(ClientMessage::SyncSnapshot { data: s("dGVzdA==") }));
    store_actions(&mut store, &first.finish());

    let mut second = Session::new(s("p2"), 1 << 20);
    let acts = second.handle_client_message(ClientMessage::Join { room: s("persist-room") });
    assert_eq!(acts[0], SessionAction::JoinRoom { room: s("persist-room") });
    assert_eq!(store.load_snapshot("persist-room").as_deref(), Some("dGVzdA=="));
}

#[test]
fn requested_snapshot_is_the_stored_one() {
    let mut store = MemoryRoomStore::new();
    store.save_snapshot("snap-room", "YWJj");
    let mut session = Session::new(s("p"), 1 << 20);
    session.handle_client_message(ClientMessage::Join { room: s("snap-room") });
    let acts = session.handle_client_message(ClientMessage::RequestSnapshot);
    assert_eq!(acts, vec![SessionAction::SendRoomSnapshot { room: s("snap-room") }]);
    assert_eq!(store.load_snapshot("snap-room").as_deref(), Some("YWJj"));
}

#[test]
fn subscriptions_last_while_the_room_has_peers() {
    let mut reg = RoomRegistry::new();
    assert!(!reg.mark_subscribed("r"));
    reg.join("r", "a");
    assert!(reg.mark_subscribed("r"));
    assert!(!reg.mark_subscribed("r"));
    reg.join("r", "b");
    reg.leave("r", "a");
    assert!(!reg.mark_subscribed("r"));
    reg.leave("r", "b");
    reg.join("r", "c");
    assert!(reg.mark_subscribed("r"));
}
