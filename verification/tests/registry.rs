use roomcast::protocol::ConnState;
use roomcast::registry::RoomManager;

fn msg(s: &str) -> Vec<u8> {
    s.as_bytes().to_vec()
}

#[test]
fn create_is_idempotent() {
    let mut mgr = RoomManager::new(16, 16, 8);
    let a = mgr.create(b"room1");
    let b = mgr.create(b"room1");
    assert_eq!(a, b);
    assert_eq!(mgr.room_count(), 1);
    // many more resolutions of the same tag never make a second room
    for _ in 0..10 {
        assert_eq!(mgr.create(b"room1"), a);
    }
    assert_eq!(mgr.room_count(), 1);
}

#[test]
fn distinct_tags_get_distinct_rooms() {
    let mut mgr = RoomManager::new(16, 16, 8);
    let a = mgr.create(b"alpha");
    let b = mgr.create(b"beta");
    let c = mgr.create(b"gamma");
    assert_ne!(a, b);
    assert_ne!(b, c);
    assert_ne!(a, c);
    assert_eq!(mgr.room_count(), 3);
    assert_eq!(mgr.create(b"beta"), b);
}

#[test]
fn rooms_are_isolated() {
    let mut mgr = RoomManager::new(16, 16, 8);
    let a = mgr.create(b"a");
    let b = mgr.create(b"b");
    mgr.join_subscriber(b);
    // a publish into room a delivers nothing to room b's subscriber ...
    let batch = mgr.publish(a, msg("for-a"));
    assert!(batch.is_empty());
    // ... and room b's next delivery carries only room b's message
    let batch = mgr.publish(b, msg("for-b"));
    assert_eq!(batch, vec![msg("for-b")]);
    // room b's history never saw room a's message
    let room_b = mgr.room(b);
    assert_eq!(room_b.history().len(), 1);
    assert_eq!(room_b.history().get(0).clone(), msg("for-b"));
}

#[test]
fn manager_publish_and_prune() {
    let mut mgr = RoomManager::new(16, 16, 8);
    let r = mgr.create(b"room");
    let s = mgr.join_subscriber(r);
    assert_eq!(mgr.publish(r, msg("x")), vec![msg("x")]);
    mgr.prune(r, s);
    assert!(!mgr.room(r).is_live(s));
    assert!(mgr.publish(r, msg("y")).is_empty());
}

#[test]
fn negotiate_publisher_then_subscriber() {
    let mut mgr = RoomManager::new(16, 16, 8);
    let st = mgr.negotiate(b"pub room1\r\n");
    assert_eq!(st, ConnState::Publishing { room: 0 });
    let st = mgr.negotiate(b"sub room1\r\n");
    assert_eq!(st, ConnState::Subscribing { room: 0, sub: 0 });
    let st = mgr.negotiate(b"sub room2\r\n");
    assert_eq!(st, ConnState::Subscribing { room: 1, sub: 0 });
    assert_eq!(mgr.room_count(), 2);
}

#[test]
fn negotiate_ignores_malformed_lines() {
    let mut mgr = RoomManager::new(16, 16, 8);
    assert_eq!(mgr.negotiate(b"hello\r\n"), ConnState::Negotiating);
    assert_eq!(mgr.negotiate(b"pub\r\n"), ConnState::Negotiating);
    assert_eq!(mgr.negotiate(b""), ConnState::Negotiating);
    assert_eq!(mgr.room_count(), 0);
}

#[test]
fn end_to_end_scenario() {
    // The broker-side walk of one whole session, channels elided:
    // C1 negotiates as publisher, sends "hello" while nobody subscribes;
    // C2 then negotiates as subscriber; C1 sends "world".
    let mut mgr = RoomManager::new(1024, 1024, 1024);
    let c1 = mgr.negotiate(b"pub room1\r\n");
    let room = match c1 {
        ConnState::Publishing { room } => room,
        _ => panic!("C1 should be publishing"),
    };
    let batch = mgr.publish(room, msg("hello"));
    // nobody is subscribed: "hello" is held, nothing goes out
    assert!(batch.is_empty());

    let c2 = mgr.negotiate(b"sub room1\r\n");
    assert_eq!(c2, ConnState::Subscribing { room, sub: 0 });

    // C2 is the first subscriber the room ever had, so the held "hello" is
    // flushed to it ahead of "world": one delivery of both, in publish order.
    // A subscriber joining only after this flush would receive "world" alone.
    let batch = mgr.publish(room, msg("world"));
    assert_eq!(batch, vec![msg("hello"), msg("world")]);

    let c3 = mgr.negotiate(b"sub room1\r\n");
    assert_eq!(c3, ConnState::Subscribing { room, sub: 1 });
    let batch = mgr.publish(room, msg("again"));
    assert_eq!(batch, vec![msg("again")]);
}
