use bitmesh::checksum::calculate_crc16;
use bitmesh::message::{Message, MessageHeader, MessageType, HEADER_SIZE};

fn sample_header() -> MessageHeader {
    let mut h = MessageHeader::new(MessageType::Text, [0x10, 0x20, 0x30, 0x40, 0x50, 0x60], 0xABCD);
    h.fragment_index = 2;
    h.total_fragments = 5;
    h.ttl = 2;
    h.flags = 0x01;
    h.checksum = 0xBEEF;
    h
}

#[test]
fn header_serialize_layout() {
    let h = sample_header();
    let bytes = h.serialize();
    assert_eq!(bytes.len(), HEADER_SIZE);
    assert_eq!(bytes[0], 1); // version
    assert_eq!(bytes[1], 1); // Text
    assert_eq!(&bytes[2..8], &[0x10, 0x20, 0x30, 0x40, 0x50, 0x60]);
    assert_eq!(bytes[8], 0xAB); // sequence, big-endian
    assert_eq!(bytes[9], 0xCD);
    assert_eq!(bytes[10], 2); // fragment_index
    assert_eq!(bytes[11], 5); // total_fragments
    assert_eq!(bytes[12], 2); // ttl
    assert_eq!(bytes[13], 0x01); // flags
    assert_eq!(bytes[14], 0xBE); // checksum, big-endian
    assert_eq!(bytes[15], 0xEF);
}

#[test]
fn header_round_trip() {
    for msg_type in [
        MessageType::Text,
        MessageType::Ack,
        MessageType::Announce,
        MessageType::Relay,
    ] {
        let mut h = MessageHeader::new(msg_type, [9, 8, 7, 6, 5, 4], 0xFFFF);
        h.fragment_index = 7;
        h.total_fragments = 8;
        h.ttl = 0;
        h.flags = 0xFF;
        h.checksum = 0x1234;
        let bytes = h.serialize();
        let h2 = MessageHeader::deserialize(&bytes).expect("round trip parses");
        assert_eq!(h2.version, h.version);
        assert_eq!(h2.msg_type, h.msg_type);
        assert_eq!(h2.sender_id, h.sender_id);
        assert_eq!(h2.sequence, h.sequence);
        assert_eq!(h2.fragment_index, h.fragment_index);
        assert_eq!(h2.total_fragments, h.total_fragments);
        assert_eq!(h2.ttl, h.ttl);
        assert_eq!(h2.flags, h.flags);
        assert_eq!(h2.checksum, h.checksum);
    }
}

#[test]
fn deserialize_rejects_short_input() {
    let bytes = [1u8; 15];
    assert!(MessageHeader::deserialize(&bytes).is_err());
}

#[test]
fn deserialize_rejects_bad_version() {
    let mut bytes = sample_header().serialize();
    bytes[0] = 2;
    assert!(MessageHeader::deserialize(&bytes).is_err());
}

#[test]
fn deserialize_rejects_unknown_type() {
    let mut bytes = sample_header().serialize();
    bytes[1] = 5;
    assert!(MessageHeader::deserialize(&bytes).is_err());
    bytes[1] = 0;
    assert!(MessageHeader::deserialize(&bytes).is_err());
}

#[test]
fn message_new_rejects_oversized_payload() {
    let too_big = vec![0u8; 1025];
    assert!(Message::new(MessageType::Text, [1, 2, 3, 4, 5, 6], 1, &too_big).is_err());
    let exact = vec![0u8; 1024];
    assert!(Message::new(MessageType::Text, [1, 2, 3, 4, 5, 6], 1, &exact).is_ok());
}

#[test]
fn crc16_known_vector() {
    // CRC-16/CCITT-FALSE of "123456789" is 0x29B1
    assert_eq!(calculate_crc16(b"123456789", b""), 0x29B1);
    // split across the two arguments: same concatenated input, same checksum
    assert_eq!(calculate_crc16(b"1234", b"56789"), 0x29B1);
}

#[test]
fn crc16_empty_input() {
    assert_eq!(calculate_crc16(b"", b""), 0xFFFF);
}

#[test]
fn single_bit_flip_fails_verification() {
    let message =
        Message::new(MessageType::Text, [1, 2, 3, 4, 5, 6], 42, b"integrity check payload")
            .expect("fits");
    let frame = message.get_fragment(0).expect("index 0 exists");

    let verifies = |bytes: &[u8]| -> bool {
        let stored = ((bytes[14] as u16) << 8) | (bytes[15] as u16);
        calculate_crc16(&bytes[0..14], &bytes[16..]) == stored
    };
    assert!(verifies(&frame));

    for byte_index in 0..frame.len() {
        for bit in 0..8 {
            let mut corrupted = frame.clone();
            corrupted[byte_index] ^= 1u8 << bit;
            assert!(
                !verifies(&corrupted),
                "flip of bit {} in byte {} went undetected",
                bit,
                byte_index
            );
        }
    }
}
