use drafftink::protocol::{AwarenessState, ServerMessage, UserInfo};
use drafftink::sync::{
    command_step, connection_event, socket_step, sync_event_from_server_message, websocket_url_check,
    ClientConnection, SocketPhase, SocketSession,
    CommandStep, ConnectionState, SocketCommand, SocketRead, SocketStep, SyncEvent,
};

#[test]
fn joined_with_snapshot_is_decoded() {
    let ev = sync_event_from_server_message(ServerMessage::Joined {
        room: "test".to_string(),
        peer_count: 2,
        initial_sync: Some("YWJj".to_string()),
    });
    assert_eq!(
        ev,
        Some(SyncEvent::JoinedRoom {
            room: "test".to_string(),
            peer_count: 2,
            initial_sync: Some(b"abc".to_vec()),
        })
    );
}

#[test]
fn bad_sync_data_is_dropped_but_bad_snapshot_is_kept_as_none() {
    let ev = sync_event_from_server_message(ServerMessage::Sync {
        from: "p".to_string(),
        data: "***".to_string(),
    });
    assert_eq!(ev, None);
    let ev = sync_event_from_server_message(ServerMessage::RoomSnapshot { data: Some("***".to_string()) });
    assert_eq!(ev, Some(SyncEvent::RoomSnapshot { data: None }));
    let ev = sync_event_from_server_message(ServerMessage::Sync {
        from: "p".to_string(),
        data: "YQ==".to_string(),
    });
    assert_eq!(ev, Some(SyncEvent::SyncReceived { from: "p".to_string(), data: b"a".to_vec() }));
}

#[test]
fn other_messages_carry_their_fields() {
    let state = AwarenessState {
        cursor: None,
        user: Some(UserInfo { name: "Ann".to_string(), color: "#f00".to_string() }),
    };
    let ev = sync_event_from_server_message(ServerMessage::Awareness {
        from: "p".to_string(),
        peer_id: 7,
        state: state.clone(),
    });
    assert_eq!(ev, Some(SyncEvent::AwarenessReceived { from: "p".to_string(), peer_id: 7, state }));
    let ev = sync_event_from_server_message(ServerMessage::Error { message: "x".to_string() });
    assert_eq!(ev, Some(SyncEvent::Error { message: "x".to_string() }));
    let ev = sync_event_from_server_message(ServerMessage::PeerLeft { peer_id: "q".to_string() });
    assert_eq!(ev, Some(SyncEvent::PeerLeft { peer_id: "q".to_string() }));
}

#[test]
fn connect_checks_url_and_state() {
    let mut c = ClientConnection::new();
    assert_eq!(c.state(), ConnectionState::Disconnected);
    assert_eq!(c.ensure_connected(), Err("Not connected".to_string()));
    assert_eq!(
        c.connect("not a url"),
        Err("Invalid URL: relative URL without a base".to_string())
    );
    assert_eq!(c.connect("ws://:80/"), Err("Invalid URL: empty host".to_string()));
    assert_eq!(
        c.connect("http://example.com/ws"),
        Err("Invalid WebSocket URL scheme: http".to_string())
    );
    assert_eq!(c.connect("ws://localhost:3030/ws"), Ok(()));
    assert_eq!(c.state(), ConnectionState::Connecting);
    assert_eq!(c.connect("wss://example.com/ws"), Err("Already connected".to_string()));
    assert_eq!(c.ensure_connected(), Ok(()));
    c.disconnect();
    assert_eq!(c.state(), ConnectionState::Disconnected);
    assert_eq!(c.connect("wss://example.com/ws"), Ok(()));
}

#[test]
fn poll_updates_state_from_last_status_event() {
    let mut c = ClientConnection::new();
    c.connect("ws://h/ws").unwrap();
    let events = vec![
        SyncEvent::Connected,
        SyncEvent::PeerJoined { peer_id: "p".to_string() },
    ];
    let out = c.poll_events(events.clone());
    assert_eq!(out, events);
    assert!(c.is_connected());
    c.poll_events(vec![SyncEvent::Error { message: "e".to_string() }, SyncEvent::PeerLeft { peer_id: "p".to_string() }]);
    assert_eq!(c.state(), ConnectionState::Error);
    assert!(!c.is_connected());
    c.poll_events(vec![]);
    assert_eq!(c.state(), ConnectionState::Error);
}

#[test]
fn socket_steps() {
    assert_eq!(
        socket_step(SocketRead::Text { message: Some(ServerMessage::PeerJoined { peer_id: "p".to_string() }) }),
        SocketStep::Deliver(SyncEvent::PeerJoined { peer_id: "p".to_string() })
    );
    assert_eq!(
        socket_step(SocketRead::Text {
            message: Some(ServerMessage::Sync { from: "p".to_string(), data: "%%".to_string() })
        }),
        SocketStep::Continue
    );
    assert_eq!(socket_step(SocketRead::Text { message: None }), SocketStep::Continue);
    assert_eq!(socket_step(SocketRead::Ping { data: vec![1, 2] }), SocketStep::Pong(vec![1, 2]));
    assert_eq!(socket_step(SocketRead::Close), SocketStep::Stop);
    assert_eq!(socket_step(SocketRead::Other), SocketStep::Continue);
    assert_eq!(socket_step(SocketRead::Idle), SocketStep::Continue);
    assert_eq!(socket_step(SocketRead::Failed), SocketStep::Stop);
}

#[test]
fn command_steps_and_connection_events() {
    assert_eq!(command_step(SocketCommand::Send { text: "hi".to_string() }), CommandStep::SendText("hi".to_string()));
    assert_eq!(command_step(SocketCommand::Close), CommandStep::CloseAndStop);
    assert_eq!(command_step(SocketCommand::Detached), CommandStep::Stop);
    assert_eq!(command_step(SocketCommand::Nothing), CommandStep::Continue);
    assert_eq!(connection_event(Ok(())), SyncEvent::Connected);
    assert_eq!(
        connection_event(Err("refused".to_string())),
        SyncEvent::Error { message: "Connection failed: refused".to_string() }
    );
}

#[test]
fn websocket_url_check_answers_each_parse() {
    assert_eq!(
        websocket_url_check(Err("invalid port number".to_string())),
        Err("Invalid URL: invalid port number".to_string())
    );
    assert_eq!(
        websocket_url_check(Ok("https".to_string())),
        Err("Invalid WebSocket URL scheme: https".to_string())
    );
    assert_eq!(websocket_url_check(Ok("ws".to_string())), Ok(()));
    assert_eq!(websocket_url_check(Ok("wss".to_string())), Ok(()));
}

#[test]
fn socket_session_hands_out_one_connection() {
    let mut s = SocketSession::new();
    assert_eq!(s.phase(), SocketPhase::Starting);
    assert_eq!(s.read(SocketRead::Idle), (SocketStep::Stop, None));
    assert_eq!(s.finish(), None);
    assert_eq!(s.connected(Ok(())), Some(SyncEvent::Connected));
    assert_eq!(s.phase(), SocketPhase::Open);
    assert_eq!(s.connected(Ok(())), None);
    assert_eq!(
        s.read(SocketRead::Text { message: Some(ServerMessage::PeerLeft { peer_id: "p".to_string() }) }),
        (SocketStep::Deliver(SyncEvent::PeerLeft { peer_id: "p".to_string() }), None)
    );
    assert_eq!(s.read(SocketRead::Ping { data: vec![7] }), (SocketStep::Pong(vec![7]), None));
    assert_eq!(s.read(SocketRead::Close), (SocketStep::Stop, Some(SyncEvent::Disconnected)));
    assert_eq!(s.phase(), SocketPhase::Closed);
    assert_eq!(s.finish(), None);
    assert_eq!(s.read(SocketRead::Idle), (SocketStep::Stop, None));
}

#[test]
fn socket_session_failed_attempt_ends_it() {
    let mut s = SocketSession::new();
    assert_eq!(
        s.connected(Err("refused".to_string())),
        Some(SyncEvent::Error { message: "Connection failed: refused".to_string() })
    );
    assert_eq!(s.phase(), SocketPhase::Closed);
    assert_eq!(s.finish(), None);
    assert_eq!(s.connected(Ok(())), None);
}

#[test]
fn socket_session_finish_after_close_request() {
    let mut s = SocketSession::new();
    s.connected(Ok(()));
    assert_eq!(s.finish(), Some(SyncEvent::Disconnected));
    assert_eq!(s.finish(), None);
}
