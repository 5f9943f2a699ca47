use bitmesh::message::{Message, MessageType};
use bitmesh::router::MessageRouter;

const SELF_ID: [u8; 6] = [9, 9, 9, 9, 9, 9];
const OTHER_ID: [u8; 6] = [1, 2, 3, 4, 5, 6];

fn message_from(sender: [u8; 6], sequence: u16, msg_type: MessageType, ttl: u8) -> Message {
    let mut message = Message::new(msg_type, sender, sequence, b"payload").expect("fits");
    message.header.ttl = ttl;
    message
}

#[test]
fn relays_foreign_message_once() {
    let mut router = MessageRouter::new(SELF_ID);
    let message = message_from(OTHER_ID, 7, MessageType::Text, 3);
    assert!(router.should_relay(&message));
    // a repeat of the same key is refused afterwards
    assert!(!router.should_relay(&message));
}

#[test]
fn never_relays_own_traffic() {
    let mut router = MessageRouter::new(SELF_ID);
    let message = message_from(SELF_ID, 7, MessageType::Text, 3);
    assert!(!router.should_relay(&message));
}

#[test]
fn never_relays_exhausted_ttl() {
    let mut router = MessageRouter::new(SELF_ID);
    let message = message_from(OTHER_ID, 7, MessageType::Text, 0);
    assert!(!router.should_relay(&message));
}

#[test]
fn never_relays_acks() {
    let mut router = MessageRouter::new(SELF_ID);
    let message = message_from(OTHER_ID, 7, MessageType::Ack, 3);
    assert!(!router.should_relay(&message));
}

#[test]
fn never_relays_when_disabled() {
    let mut router = MessageRouter::new(SELF_ID);
    router.set_relay_enabled(false);
    let message = message_from(OTHER_ID, 7, MessageType::Text, 3);
    assert!(!router.should_relay(&message));
    router.set_relay_enabled(true);
    assert!(router.should_relay(&message));
}

#[test]
fn refused_decision_records_nothing() {
    let mut router = MessageRouter::new(SELF_ID);
    router.set_relay_enabled(false);
    let message = message_from(OTHER_ID, 7, MessageType::Text, 3);
    assert!(!router.should_relay(&message));
    // the refusal above did not record the key, so enabling relay lets the
    // same message through
    router.set_relay_enabled(true);
    assert!(router.should_relay(&message));
}

#[test]
fn relay_window_evicts_oldest() {
    let mut router = MessageRouter::new(SELF_ID);
    for seq in 0u16..16 {
        assert!(router.should_relay(&message_from(OTHER_ID, seq, MessageType::Text, 3)));
    }
    // one more evicts the record of sequence 0
    assert!(router.should_relay(&message_from(OTHER_ID, 16, MessageType::Text, 3)));
    assert!(router.should_relay(&message_from(OTHER_ID, 0, MessageType::Text, 3)));
    // a still-recorded key stays refused
    assert!(!router.should_relay(&message_from(OTHER_ID, 10, MessageType::Text, 3)));
}

#[test]
fn prepare_decrements_ttl_by_one() {
    let router = MessageRouter::new(SELF_ID);
    let mut message = message_from(OTHER_ID, 7, MessageType::Text, 3);
    router.prepare_for_relay(&mut message);
    assert_eq!(message.header.ttl, 2);
    router.prepare_for_relay(&mut message);
    assert_eq!(message.header.ttl, 1);
    router.prepare_for_relay(&mut message);
    assert_eq!(message.header.ttl, 0);
    // never below zero
    router.prepare_for_relay(&mut message);
    assert_eq!(message.header.ttl, 0);
}

#[test]
fn prepare_sets_relayed_flag_and_keeps_the_rest() {
    let router = MessageRouter::new(SELF_ID);
    let mut message = message_from(OTHER_ID, 7, MessageType::Text, 3);
    message.header.flags = 0x80;
    router.prepare_for_relay(&mut message);
    assert_eq!(message.header.flags, 0x81);
    assert_eq!(message.header.sequence, 7);
    assert_eq!(message.header.sender_id, OTHER_ID);
    assert_eq!(message.payload, b"payload");
}

#[test]
fn every_message_is_for_us() {
    let router = MessageRouter::new(SELF_ID);
    for msg_type in [
        MessageType::Text,
        MessageType::Ack,
        MessageType::Announce,
        MessageType::Relay,
    ] {
        let message = message_from(OTHER_ID, 7, msg_type, 3);
        assert!(router.is_for_us(&message));
    }
}
