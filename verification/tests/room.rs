use roomcast::room::Room;

fn msg(s: &str) -> Vec<u8> {
    s.as_bytes().to_vec()
}

#[test]
fn fresh_room_is_empty() {
    let room = Room::new(16, 16, 8);
    assert_eq!(room.subscriber_count(), 0);
    assert_eq!(room.pending_len(), 0);
    assert!(!room.any_live());
    assert_eq!(room.history().len(), 0);
    assert_eq!(room.intake_capacity(), 16);
    assert_eq!(room.sub_capacity(), 16);
}

#[test]
fn publish_without_subscribers_holds_messages() {
    let mut room = Room::new(16, 16, 8);
    let batch = room.publish(msg("m1"));
    assert!(batch.is_empty());
    let batch = room.publish(msg("m2"));
    assert!(batch.is_empty());
    assert_eq!(room.pending_len(), 2);
    // held messages are still recorded in the history
    assert_eq!(room.history().len(), 2);
}

#[test]
fn pending_queue_flushes_to_first_subscriber() {
    // publish m1, m2 with zero subscribers, join, publish m3:
    // the subscriber receives m1, m2, m3 in that order and nothing before m1
    let mut room = Room::new(16, 16, 8);
    assert!(room.publish(msg("m1")).is_empty());
    assert!(room.publish(msg("m2")).is_empty());
    let id = room.join_subscriber();
    assert_eq!(id, 0);
    let batch = room.publish(msg("m3"));
    assert_eq!(batch, vec![msg("m1"), msg("m2"), msg("m3")]);
    assert_eq!(room.pending_len(), 0);
}

#[test]
fn pending_queue_flushes_only_once() {
    let mut room = Room::new(16, 16, 8);
    assert!(room.publish(msg("early")).is_empty());
    room.join_subscriber();
    assert_eq!(room.publish(msg("a")), vec![msg("early"), msg("a")]);
    // the queue was cleared by the flush: later deliveries carry only the
    // newly published message
    assert_eq!(room.publish(msg("b")), vec![msg("b")]);
}

#[test]
fn delivery_preserves_publish_order() {
    let mut room = Room::new(16, 16, 8);
    room.join_subscriber();
    let mut seen: Vec<Vec<u8>> = Vec::new();
    for s in ["m1", "m2", "m3", "m4"] {
        let batch = room.publish(msg(s));
        seen.extend(batch);
    }
    assert_eq!(seen, vec![msg("m1"), msg("m2"), msg("m3"), msg("m4")]);
}

#[test]
fn fanout_reaches_every_live_subscriber() {
    let mut room = Room::new(16, 16, 8);
    let s1 = room.join_subscriber();
    let s2 = room.join_subscriber();
    let s3 = room.join_subscriber();
    assert_eq!((s1, s2, s3), (0, 1, 2));
    assert!(room.is_live(s1) && room.is_live(s2) && room.is_live(s3));
    // one identical batch goes to each live subscriber
    let batch = room.publish(msg("m"));
    assert_eq!(batch, vec![msg("m")]);
}

#[test]
fn pruned_subscriber_is_skipped() {
    let mut room = Room::new(16, 16, 8);
    let s1 = room.join_subscriber();
    let s2 = room.join_subscriber();
    room.prune(s1);
    assert!(!room.is_live(s1));
    assert!(room.is_live(s2));
    // the room still broadcasts to the remaining live subscriber
    assert!(room.any_live());
    assert_eq!(room.publish(msg("m")), vec![msg("m")]);
    // pruning the last live subscriber sends the room back to holding
    room.prune(s2);
    assert!(!room.any_live());
    assert!(room.publish(msg("held")).is_empty());
    assert_eq!(room.pending_len(), 1);
}

#[test]
fn history_keeps_most_recent_at_capacity() {
    // capacity 3, five messages published: exactly the most recent three
    // remain, oldest first
    let mut room = Room::new(16, 16, 3);
    for s in ["m1", "m2", "m3", "m4", "m5"] {
        room.publish(msg(s));
    }
    let h = room.history();
    assert_eq!(h.len(), 3);
    assert_eq!(h.get(0).clone(), msg("m3"));
    assert_eq!(h.get(1).clone(), msg("m4"));
    assert_eq!(h.get(2).clone(), msg("m5"));
}

#[test]
fn history_below_capacity_keeps_everything() {
    let mut room = Room::new(16, 16, 8);
    room.publish(msg("m1"));
    room.join_subscriber();
    room.publish(msg("m2"));
    let h = room.history();
    assert_eq!(h.len(), 2);
    assert_eq!(h.get(0).clone(), msg("m1"));
    assert_eq!(h.get(1).clone(), msg("m2"));
}

#[test]
fn history_capacity_zero_records_nothing() {
    let mut room = Room::new(16, 16, 0);
    room.publish(msg("m1"));
    room.publish(msg("m2"));
    assert_eq!(room.history().len(), 0);
}

#[test]
fn empty_message_is_delivered() {
    let mut room = Room::new(16, 16, 8);
    room.join_subscriber();
    let batch = room.publish(Vec::new());
    assert_eq!(batch, vec![Vec::<u8>::new()]);
}
