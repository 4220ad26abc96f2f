use group_chat::lobby::{Lobby, OutboundChannel};
use group_chat::messages::Envelope;

fn text_frames(lobby: &mut Lobby, conn: u128) -> Vec<String> {
    let mut out = Vec::new();
    for frame in lobby.drain_frames(conn) {
        out.push(frame.0);
    }
    out
}

#[test]
fn scenario_register_broadcast_leave() {
    let mut lobby = Lobby::new();
    let a: u128 = 1;
    let b: u128 = 2;
    let r1: u128 = 100;

    lobby.register(a, r1, String::from("alice"), OutboundChannel::new());
    lobby.register(b, r1, String::from("bob"), OutboundChannel::new());

    let fa = text_frames(&mut lobby, a);
    assert_eq!(fa, vec![String::from("Welcome alice!"), String::from("bob just joined!")]);
    let fb = text_frames(&mut lobby, b);
    assert_eq!(fb, vec![String::from("Welcome bob!")]);

    lobby.route(&Envelope { id: a, msg: String::from("hi"), room_id: r1 });
    let fa = text_frames(&mut lobby, a);
    assert!(fa.iter().any(|t| t.contains("hi")));
    assert_eq!(fa, vec![String::from("hi")]);
    let fb = text_frames(&mut lobby, b);
    assert!(fb.iter().any(|t| t.contains("hi")));
    assert_eq!(fb, vec![String::from("hi")]);

    lobby.deregister(a, r1);
    let fb = text_frames(&mut lobby, b);
    assert_eq!(fb, vec![String::from("alice disconnected.")]);
    assert_eq!(lobby.room_members(r1), vec![b]);

    lobby.deregister(b, r1);
    assert_eq!(lobby.room_members(r1).len(), 0);
}

#[test]
fn deregister_unknown_is_noop() {
    let mut lobby = Lobby::new();
    let a: u128 = 7;
    let r: u128 = 40;
    lobby.register(a, r, String::from("alice"), OutboundChannel::new());
    lobby.drain_frames(a);

    lobby.deregister(99, r);

    assert!(lobby.is_registered(a));
    assert!(!lobby.is_registered(99));
    assert_eq!(lobby.room_members(r), vec![a]);
    // no notice reached the remaining member
    assert_eq!(text_frames(&mut lobby, a).len(), 0);
}

#[test]
fn last_member_leaving_removes_room() {
    let mut lobby = Lobby::new();
    let a: u128 = 5;
    let r: u128 = 9;
    lobby.register(a, r, String::from("alice"), OutboundChannel::new());
    lobby.deregister(a, r);
    assert_eq!(lobby.room_members(r).len(), 0);

    // a broadcast to the removed room has zero recipients and no effect
    lobby.route(&Envelope { id: a, msg: String::from("anyone?"), room_id: r });
    assert_eq!(lobby.room_members(r).len(), 0);
    assert!(!lobby.is_registered(a));
}

#[test]
fn join_notice_arrives_before_later_broadcasts() {
    let mut lobby = Lobby::new();
    let a: u128 = 1;
    let b: u128 = 2;
    let r: u128 = 3;
    lobby.register(a, r, String::from("alice"), OutboundChannel::new());
    lobby.drain_frames(a);

    lobby.register(b, r, String::from("bob"), OutboundChannel::new());
    lobby.route(&Envelope { id: b, msg: String::from("first line"), room_id: r });

    let fa = text_frames(&mut lobby, a);
    assert_eq!(fa, vec![String::from("bob just joined!"), String::from("first line")]);
}

#[test]
fn broadcast_echoes_back_to_sender() {
    let mut lobby = Lobby::new();
    let a: u128 = 11;
    let b: u128 = 12;
    let c: u128 = 13;
    let r: u128 = 1;
    let other: u128 = 2;
    lobby.register(a, r, String::from("alice"), OutboundChannel::new());
    lobby.register(b, r, String::from("bob"), OutboundChannel::new());
    lobby.register(c, other, String::from("carol"), OutboundChannel::new());
    lobby.drain_frames(a);
    lobby.drain_frames(b);
    lobby.drain_frames(c);

    lobby.route(&Envelope { id: a, msg: String::from("to everyone"), room_id: r });

    assert_eq!(text_frames(&mut lobby, a), vec![String::from("to everyone")]);
    assert_eq!(text_frames(&mut lobby, b), vec![String::from("to everyone")]);
    // a member of another room receives nothing
    assert_eq!(text_frames(&mut lobby, c).len(), 0);
}

#[test]
fn direct_message_reaches_only_its_target() {
    let mut lobby = Lobby::new();
    let b_uuid = uuid::Uuid::parse_str("a1a2a3a4-b1b2-c1c2-d1d2-d3d4d5d6d7d8").unwrap();
    let a: u128 = 1;
    let b: u128 = b_uuid.as_u128();
    let c: u128 = 3;
    let r: u128 = 77;
    lobby.register(a, r, String::from("alice"), OutboundChannel::new());
    lobby.register(b, r, String::from("bob"), OutboundChannel::new());
    lobby.register(c, r, String::from("carol"), OutboundChannel::new());
    lobby.drain_frames(a);
    lobby.drain_frames(b);
    lobby.drain_frames(c);

    let line = String::from("\\w a1a2a3a4-b1b2-c1c2-d1d2-d3d4d5d6d7d8 hello");
    lobby.route(&Envelope { id: a, msg: line.clone(), room_id: r });

    assert_eq!(text_frames(&mut lobby, b), vec![line]);
    assert_eq!(text_frames(&mut lobby, a).len(), 0);
    assert_eq!(text_frames(&mut lobby, c).len(), 0);
}

#[test]
fn unroutable_direct_message_is_dropped() {
    let mut lobby = Lobby::new();
    let a: u128 = 1;
    let r: u128 = 2;
    lobby.register(a, r, String::from("alice"), OutboundChannel::new());
    lobby.drain_frames(a);

    // malformed target token
    lobby.route(&Envelope { id: a, msg: String::from("\\w not-a-uuid hi"), room_id: r });
    // no target token at all
    lobby.route(&Envelope { id: a, msg: String::from("\\w"), room_id: r });
    // well-formed target that is not registered
    lobby.route(&Envelope {
        id: a,
        msg: String::from("\\w 00000000-0000-0000-0000-0000000000ff hi"),
        room_id: r,
    });

    assert_eq!(text_frames(&mut lobby, a).len(), 0);
}

#[test]
fn push_to_closed_channel_is_dropped() {
    let mut lobby = Lobby::new();
    let a: u128 = 1;
    let b: u128 = 2;
    let r: u128 = 5;
    let mut gone = OutboundChannel::new();
    gone.close();
    lobby.register(a, r, String::from("alice"), OutboundChannel::new());
    lobby.register(b, r, String::from("bob"), gone);
    lobby.drain_frames(a);

    lobby.route(&Envelope { id: a, msg: String::from("hi"), room_id: r });

    // the closed channel swallowed its welcome and the broadcast ...
    assert_eq!(text_frames(&mut lobby, b).len(), 0);
    // ... without affecting delivery to the open one
    assert_eq!(text_frames(&mut lobby, a), vec![String::from("hi")]);
}

#[test]
fn reregistration_supersedes_old_entry() {
    let mut lobby = Lobby::new();
    let a: u128 = 1;
    let b: u128 = 2;
    let r1: u128 = 10;
    let r2: u128 = 20;
    lobby.register(a, r1, String::from("alice"), OutboundChannel::new());
    lobby.register(b, r1, String::from("bob"), OutboundChannel::new());
    lobby.drain_frames(a);
    lobby.drain_frames(b);

    // alice reconnects into another room: the old entry goes away silently
    lobby.register(a, r2, String::from("alice"), OutboundChannel::new());

    assert_eq!(lobby.room_members(r1), vec![b]);
    assert_eq!(lobby.room_members(r2), vec![a]);
    assert_eq!(text_frames(&mut lobby, a), vec![String::from("Welcome alice!")]);
    assert_eq!(text_frames(&mut lobby, b).len(), 0);
}

#[test]
fn default_lobby_is_empty() {
    let lobby = Lobby::default();
    assert_eq!(lobby.room_members(1).len(), 0);
    assert!(!lobby.is_registered(1));
}
