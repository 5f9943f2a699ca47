use bitmesh::handler::{HandlerError, MessageHandler};
use bitmesh::message::{Message, MessageType, HEADER_SIZE, MAX_MESSAGE_SIZE};

fn frame_for(payload: &[u8], sequence: u16) -> Vec<u8> {
    let message =
        Message::new(MessageType::Text, [1, 2, 3, 4, 5, 6], sequence, payload).expect("fits");
    message.get_fragment(0).expect("single fragment")
}

#[test]
fn same_frame_twice_yields_some_then_none() {
    let mut handler = MessageHandler::new([9, 9, 9, 9, 9, 9]);
    let frame = frame_for(b"hello mesh", 7);

    let first = handler.process_incoming(&frame).expect("no error");
    let message = first.expect("first delivery yields the message");
    assert_eq!(message.payload, b"hello mesh");
    assert_eq!(message.header.sequence, 7);

    let second = handler.process_incoming(&frame).expect("no error");
    assert!(second.is_none(), "duplicate must be dropped silently");
}

#[test]
fn too_short_frame_is_invalid() {
    let mut handler = MessageHandler::new([9, 9, 9, 9, 9, 9]);
    let r = handler.process_incoming(&[1u8; HEADER_SIZE - 1]);
    assert_eq!(r.unwrap_err(), HandlerError::InvalidMessage);
}

#[test]
fn bad_version_is_invalid() {
    let mut handler = MessageHandler::new([9, 9, 9, 9, 9, 9]);
    let mut frame = frame_for(b"hello", 7);
    frame[0] = 2;
    assert_eq!(handler.process_incoming(&frame).unwrap_err(), HandlerError::InvalidMessage);
}

#[test]
fn unknown_type_is_invalid() {
    let mut handler = MessageHandler::new([9, 9, 9, 9, 9, 9]);
    let mut frame = frame_for(b"hello", 7);
    frame[1] = 9;
    assert_eq!(handler.process_incoming(&frame).unwrap_err(), HandlerError::InvalidMessage);
}

#[test]
fn corrupted_frame_is_checksum_error_and_not_recorded() {
    let mut handler = MessageHandler::new([9, 9, 9, 9, 9, 9]);
    let frame = frame_for(b"hello mesh", 7);

    let mut corrupted = frame.clone();
    let last = corrupted.len() - 1;
    corrupted[last] ^= 0x80;
    assert_eq!(handler.process_incoming(&corrupted).unwrap_err(), HandlerError::ChecksumError);

    // the corrupted frame was not recorded as seen: a clean retransmission of
    // the same sequence still succeeds
    let retry = handler.process_incoming(&frame).expect("no error");
    assert!(retry.is_some(), "legitimate retransmission must still be delivered");
}

#[test]
fn fragment_error_surfaces() {
    let mut handler = MessageHandler::new([9, 9, 9, 9, 9, 9]);
    let mut frame = frame_for(b"hello", 7);
    // claim fragment 3 of 2: index out of bounds for the reassembly buffer
    frame[10] = 3;
    frame[11] = 2;
    // fix up the checksum so the frame reaches the fragmentation step
    let crc = bitmesh::checksum::calculate_crc16(&frame[0..14], &frame[16..]);
    frame[14] = (crc >> 8) as u8;
    frame[15] = (crc & 0xFF) as u8;
    assert_eq!(handler.process_incoming(&frame).unwrap_err(), HandlerError::FragmentationError);
}

#[test]
fn oversized_single_fragment_is_invalid() {
    let mut handler = MessageHandler::new([9, 9, 9, 9, 9, 9]);
    // hand-build a frame whose payload exceeds the message size limit
    let mut frame = frame_for(b"hello", 7);
    frame.truncate(HEADER_SIZE);
    frame.extend(std::iter::repeat(0xAAu8).take(MAX_MESSAGE_SIZE + 1));
    let crc = bitmesh::checksum::calculate_crc16(&frame[0..14], &frame[16..]);
    frame[14] = (crc >> 8) as u8;
    frame[15] = (crc & 0xFF) as u8;
    assert_eq!(handler.process_incoming(&frame).unwrap_err(), HandlerError::InvalidMessage);
}

#[test]
fn sequence_counter_increments_and_wraps() {
    let mut handler = MessageHandler::new([9, 9, 9, 9, 9, 9]);
    assert_eq!(handler.get_next_sequence(), 0);
    assert_eq!(handler.get_next_sequence(), 1);
    assert_eq!(handler.get_next_sequence(), 2);

    let mut late = MessageHandler::new([9, 9, 9, 9, 9, 9]);
    for _ in 0..65535 {
        late.get_next_sequence();
    }
    assert_eq!(late.get_next_sequence(), 65535);
    assert_eq!(late.get_next_sequence(), 0, "the counter wraps on overflow");
}

#[test]
fn dedup_window_evicts_oldest() {
    let mut handler = MessageHandler::new([9, 9, 9, 9, 9, 9]);
    // fill the 32-entry window
    for seq in 0u16..32 {
        let frame = frame_for(b"x", seq);
        assert!(handler.process_incoming(&frame).expect("no error").is_some());
    }
    // one more evicts the oldest recorded key (sequence 0)
    let frame = frame_for(b"x", 32);
    assert!(handler.process_incoming(&frame).expect("no error").is_some());
    let replay = frame_for(b"x", 0);
    assert!(
        handler.process_incoming(&replay).expect("no error").is_some(),
        "evicted key is no longer suppressed"
    );
    // while a still-recorded key is
    let replay = frame_for(b"x", 20);
    assert!(handler.process_incoming(&replay).expect("no error").is_none());
}

#[test]
fn handle_message_produces_no_response() {
    let mut handler = MessageHandler::new([9, 9, 9, 9, 9, 9]);
    for msg_type in [
        MessageType::Text,
        MessageType::Ack,
        MessageType::Announce,
        MessageType::Relay,
    ] {
        let message = Message::new(msg_type, [1, 2, 3, 4, 5, 6], 7, b"payload").expect("fits");
        let response = handler.handle_message(&message).expect("no error");
        assert!(response.is_none());
    }
}
