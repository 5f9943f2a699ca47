use bitmesh::message::{MessageType, MAX_MESSAGE_SIZE};
use bitmesh::text::TextMessage;

#[test]
fn create_and_parse_text() {
    let message = TextMessage::create([1, 2, 3, 4, 5, 6], 7, "hello mesh").expect("fits");
    assert_eq!(message.header.msg_type, MessageType::Text);
    assert_eq!(message.header.sequence, 7);
    assert_eq!(message.payload, b"hello mesh");
    let text = TextMessage::parse(&message.payload).expect("parses");
    assert_eq!(text, "hello mesh");
}

#[test]
fn create_rejects_oversized_text() {
    let long = "a".repeat(MAX_MESSAGE_SIZE + 1);
    assert!(TextMessage::create([1, 2, 3, 4, 5, 6], 7, &long).is_err());
    let exact = "a".repeat(MAX_MESSAGE_SIZE);
    assert!(TextMessage::create([1, 2, 3, 4, 5, 6], 7, &exact).is_ok());
}

#[test]
fn parse_keeps_valid_prefix_of_malformed_input() {
    // 0xFF can never appear in UTF-8: everything after it is dropped
    let text = TextMessage::parse(b"gracious\xFFtail").expect("never fails on malformed bytes");
    assert_eq!(text, "gracious");
}

#[test]
fn parse_truncated_multibyte_sequence() {
    // "é" is 0xC3 0xA9; cutting the second byte truncates the character away
    let text = TextMessage::parse(b"caf\xC3").expect("parses");
    assert_eq!(text, "caf");
}

#[test]
fn parse_multibyte_text() {
    let message = TextMessage::create([1, 2, 3, 4, 5, 6], 7, "héllo wörld ✓").expect("fits");
    let text = TextMessage::parse(&message.payload).expect("parses");
    assert_eq!(text, "héllo wörld ✓");
}

#[test]
fn parse_empty_payload() {
    assert_eq!(TextMessage::parse(b"").expect("parses"), "");
}

#[test]
fn announce_carries_device_name() {
    let message = TextMessage::create_announce([1, 2, 3, 4, 5, 6], 7, "node-a").expect("fits");
    assert_eq!(message.header.msg_type, MessageType::Announce);
    assert_eq!(message.payload, b"node-a");
}

#[test]
fn announce_defaults_for_empty_name() {
    let message = TextMessage::create_announce([1, 2, 3, 4, 5, 6], 7, "").expect("fits");
    assert_eq!(message.payload, b"device online");
}
