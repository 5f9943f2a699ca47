use bitmesh::packet::{BitchatPacket, Flags, PacketType, MAX_PACKET_SIZE};

const SENDER: [u8; 8] = [1, 2, 3, 4, 5, 6, 7, 8];

#[test]
fn envelope_encode_layout() {
    let mut packet = BitchatPacket::new(PacketType::Text, SENDER, b"hi").expect("fits");
    packet.timestamp = 0x0102030405060708;
    packet.ttl = 5;
    let data = packet.encode().expect("fits on the wire");
    assert_eq!(data[0], 1); // version
    assert_eq!(data[1], 1); // Text
    assert_eq!(data[2], 5); // ttl
    assert_eq!(&data[3..11], &[1, 2, 3, 4, 5, 6, 7, 8]); // timestamp, big-endian
    assert_eq!(data[11], 0); // flags: no optional fields
    assert_eq!(&data[12..14], &[0, 2]); // payload length, big-endian
    assert_eq!(&data[14..22], &SENDER);
    assert_eq!(&data[22..], b"hi");
}

#[test]
fn envelope_round_trip_minimal() {
    let mut packet = BitchatPacket::new(PacketType::Announce, SENDER, b"announce me").expect("fits");
    packet.timestamp = 123456789;
    let data = packet.encode().expect("fits");
    let decoded = BitchatPacket::decode(&data).expect("decodes");
    assert_eq!(decoded.version, 1);
    assert_eq!(decoded.packet_type, PacketType::Announce);
    assert_eq!(decoded.ttl, 3);
    assert_eq!(decoded.timestamp, 123456789);
    assert_eq!(decoded.sender_id, SENDER);
    assert!(decoded.recipient_id.is_none());
    assert_eq!(decoded.payload, b"announce me");
    assert!(decoded.signature.is_none());
}

#[test]
fn envelope_round_trip_with_optional_fields() {
    let mut packet = BitchatPacket::new(PacketType::Text, SENDER, b"private").expect("fits");
    packet.recipient_id = Some([8, 7, 6, 5, 4, 3, 2, 1]);
    packet.signature = Some([0xAB; 64]);
    let data = packet.encode().expect("fits");
    // the wire flags carry the presence bits
    assert_eq!(data[11], Flags::HAS_RECIPIENT | Flags::HAS_SIGNATURE);

    let decoded = BitchatPacket::decode(&data).expect("decodes");
    assert_eq!(decoded.recipient_id, Some([8, 7, 6, 5, 4, 3, 2, 1]));
    assert_eq!(decoded.payload, b"private");
    assert_eq!(decoded.signature, Some([0xAB; 64]));
}

#[test]
fn envelope_encode_rejects_overflow() {
    let mut packet = BitchatPacket::new(PacketType::Text, SENDER, &[0u8; 200]).expect("fits");
    // 22 header-and-sender bytes + 200 payload + 64 signature > 244
    packet.signature = Some([0; 64]);
    assert!(packet.encode().is_err());
    packet.signature = None;
    assert!(packet.encode().is_ok());
}

#[test]
fn envelope_new_rejects_oversized_payload() {
    assert!(BitchatPacket::new(PacketType::Text, SENDER, &[0u8; MAX_PACKET_SIZE + 1]).is_err());
    assert!(BitchatPacket::new(PacketType::Text, SENDER, &[0u8; MAX_PACKET_SIZE]).is_ok());
}

#[test]
fn envelope_decode_rejects_short_input() {
    assert!(BitchatPacket::decode(&[1u8; 21]).is_err());
}

#[test]
fn envelope_decode_rejects_bad_version() {
    let packet = BitchatPacket::new(PacketType::Text, SENDER, b"x").expect("fits");
    let mut data = packet.encode().expect("fits");
    data[0] = 9;
    assert!(BitchatPacket::decode(&data).is_err());
}

#[test]
fn envelope_decode_rejects_incomplete_payload() {
    let packet = BitchatPacket::new(PacketType::Text, SENDER, b"full payload").expect("fits");
    let mut data = packet.encode().expect("fits");
    data.truncate(data.len() - 4);
    assert!(BitchatPacket::decode(&data).is_err());
}

#[test]
fn envelope_decode_rejects_incomplete_recipient() {
    let mut packet = BitchatPacket::new(PacketType::Text, SENDER, b"").expect("fits");
    packet.recipient_id = Some([8, 7, 6, 5, 4, 3, 2, 1]);
    let mut data = packet.encode().expect("fits");
    data.truncate(25);
    assert!(BitchatPacket::decode(&data).is_err());
}

#[test]
fn envelope_decode_rejects_incomplete_signature() {
    let mut packet = BitchatPacket::new(PacketType::Text, SENDER, b"signed").expect("fits");
    packet.signature = Some([0x55; 64]);
    let mut data = packet.encode().expect("fits");
    data.truncate(data.len() - 1);
    assert!(BitchatPacket::decode(&data).is_err());
}

#[test]
fn envelope_decode_unknown_type_reads_as_text() {
    let packet = BitchatPacket::new(PacketType::Text, SENDER, b"x").expect("fits");
    let mut data = packet.encode().expect("fits");
    data[1] = 200;
    let decoded = BitchatPacket::decode(&data).expect("decodes");
    assert_eq!(decoded.packet_type, PacketType::Text);
}

#[test]
fn create_text_and_announce_set_type() {
    let text = BitchatPacket::create_text(SENDER, b"hello").expect("fits");
    assert_eq!(text.packet_type, PacketType::Text);
    assert_eq!(text.payload, b"hello");

    let announce = BitchatPacket::create_announce(SENDER, b"here").expect("fits");
    assert_eq!(announce.packet_type, PacketType::Announce);
    assert_eq!(announce.payload, b"here");
}

#[test]
fn envelope_ttl_decrement_floors_at_zero() {
    let mut packet = BitchatPacket::new(PacketType::Text, SENDER, b"x").expect("fits");
    assert_eq!(packet.ttl, 3);
    assert!(packet.decrement_ttl());
    assert!(packet.decrement_ttl());
    assert!(packet.decrement_ttl());
    assert_eq!(packet.ttl, 0);
    assert!(!packet.decrement_ttl());
    assert_eq!(packet.ttl, 0);
}
