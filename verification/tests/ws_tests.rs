use group_chat::messages::WsMessage;
use group_chat::ws::{ConnAction, ConnEvent, ConnState, WsConn};

#[test]
fn handshake_registers_once_and_activates() {
    let mut conn = WsConn::new(44, 7);
    assert!(matches!(conn.state(), ConnState::Handshaking));
    assert_eq!(conn.id(), 7);
    assert_eq!(conn.room_id(), 44);

    let act = conn.handshake();
    assert!(matches!(act, ConnAction::RegisterLobby));
    assert!(matches!(conn.state(), ConnState::Active));
}

#[test]
fn inbound_text_becomes_an_envelope_for_own_room() {
    let mut conn = WsConn::new(44, 7);
    conn.handshake();

    let act = conn.step(ConnEvent::Text(String::from("hello room")));
    match act {
        ConnAction::RouteLine(env) => {
            assert_eq!(env.id, 7);
            assert_eq!(env.room_id, 44);
            assert_eq!(env.msg, "hello room");
        },
        _ => panic!("expected a routed line"),
    }
    assert!(matches!(conn.state(), ConnState::Active));
}

#[test]
fn liveness_probe_is_echoed_not_routed() {
    let mut conn = WsConn::new(1, 2);
    conn.handshake();

    let act = conn.step(ConnEvent::Probe(String::from("beat")));
    match act {
        ConnAction::ProbeReply(p) => assert_eq!(p, "beat"),
        _ => panic!("expected an in-protocol probe reply"),
    }
}

#[test]
fn drained_frames_are_written_through_in_order() {
    let mut conn = WsConn::new(1, 2);
    conn.handshake();

    let act = conn.step(ConnEvent::OutFrame(WsMessage(String::from("line one"))));
    match act {
        ConnAction::WriteFrame(f) => assert_eq!(f.0, "line one"),
        _ => panic!("expected a transport write"),
    }
}

#[test]
fn transport_error_deregisters_exactly_once() {
    let mut conn = WsConn::new(1, 2);
    conn.handshake();

    let act = conn.step(ConnEvent::TransportError);
    assert!(matches!(act, ConnAction::DeregisterLobby));
    assert!(matches!(conn.state(), ConnState::Closing));

    // nothing further is asked of the broker
    let act = conn.step(ConnEvent::Text(String::from("late")));
    assert!(matches!(act, ConnAction::Ignore));
    assert!(matches!(conn.state(), ConnState::Closed));
    let act = conn.step(ConnEvent::TransportError);
    assert!(matches!(act, ConnAction::Ignore));
    assert!(matches!(conn.state(), ConnState::Closed));
}

#[test]
fn close_frame_and_channel_loss_both_close() {
    let mut conn = WsConn::new(1, 2);
    conn.handshake();
    assert!(matches!(conn.step(ConnEvent::CloseRequest), ConnAction::DeregisterLobby));
    assert!(matches!(conn.state(), ConnState::Closing));

    let mut conn2 = WsConn::new(1, 3);
    conn2.handshake();
    assert!(matches!(conn2.step(ConnEvent::ChannelClosed), ConnAction::DeregisterLobby));
    assert!(matches!(conn2.state(), ConnState::Closing));
}
