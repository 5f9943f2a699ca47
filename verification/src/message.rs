//! Message model and frame codec.
//!
//! A frame is a fixed 16-byte big-endian header followed by a payload of at
//! most 228 bytes. A complete message carries up to 1024 payload bytes and is
//! split into up to 8 fragments for transmission.

use vstd::prelude::*;

use crate::checksum::{calculate_crc16, crc16_of};

verus! {

pub const PROTOCOL_VERSION: u8 = 1;

pub const HEADER_SIZE: usize = 16;

/// Payload bytes carried by one frame: the 244-byte transport unit minus the header.
pub const MAX_PAYLOAD_SIZE: usize = 228;

/// Maximum size of a complete (reassembled) message payload.
pub const MAX_MESSAGE_SIZE: usize = 1024;

#[derive(Clone, Copy, Debug, PartialEq, Eq, Structural)]
pub enum MessageType {
    Text,
    Ack,
    Announce,
    Relay,
}

impl MessageType {
    /// The byte that encodes this message type on the wire.
    pub open spec fn spec_byte(self) -> u8 {
        match self {
            MessageType::Text => 1,
            MessageType::Ack => 2,
            MessageType::Announce => 3,
            MessageType::Relay => 4,
        }
    }

    #[verifier::when_used_as_spec(spec_byte)]
    pub fn as_byte(self) -> (b: u8)
        ensures
            b == self.spec_byte(),
    {
        match self {
            MessageType::Text => 1,
            MessageType::Ack => 2,
            MessageType::Announce => 3,
            MessageType::Relay => 4,
        }
    }

    /// The message type encoded by a wire byte, if any.
    pub open spec fn spec_from_byte(value: u8) -> Result<MessageType, ()> {
        match value {
            1u8 => Ok(MessageType::Text),
            2u8 => Ok(MessageType::Ack),
            3u8 => Ok(MessageType::Announce),
            4u8 => Ok(MessageType::Relay),
            _ => Err(()),
        }
    }

    pub fn from_byte(value: u8) -> (r: Result<MessageType, ()>)
        ensures
            r == MessageType::spec_from_byte(value),
    {
        match value {
            1u8 => Ok(MessageType::Text),
            2u8 => Ok(MessageType::Ack),
            3u8 => Ok(MessageType::Announce),
            4u8 => Ok(MessageType::Relay),
            _ => Err(()),
        }
    }
}

/// Fixed 16-byte frame header.
#[derive(Clone, Copy, Debug)]
pub struct MessageHeader {
    pub version: u8,
    pub msg_type: MessageType,
    pub sender_id: [u8; 6],
    pub sequence: u16,
    pub fragment_index: u8,
    pub total_fragments: u8,
    pub ttl: u8,
    pub flags: u8,
    pub checksum: u16,
}

/// The header a fresh outbound message starts from: version 1, a single
/// fragment, the default hop budget, and a zero checksum.
pub open spec fn spec_new_header(msg_type: MessageType, sender_id: [u8; 6], sequence: u16) -> MessageHeader {
    MessageHeader {
        version: PROTOCOL_VERSION,
        msg_type,
        sender_id,
        sequence,
        fragment_index: 0,
        total_fragments: 1,
        ttl: 3,
        flags: 0,
        checksum: 0,
    }
}

/// The 16 header bytes in wire order: version | type | sender | sequence (BE)
/// | fragment index | total fragments | ttl | flags | checksum (BE).
pub open spec fn spec_serialize(h: MessageHeader) -> Seq<u8> {
    seq![
        h.version,
        h.msg_type.spec_byte(),
        h.sender_id@[0],
        h.sender_id@[1],
        h.sender_id@[2],
        h.sender_id@[3],
        h.sender_id@[4],
        h.sender_id@[5],
        (h.sequence >> 8) as u8,
        (h.sequence & 0xFF) as u8,
        h.fragment_index,
        h.total_fragments,
        h.ttl,
        h.flags,
        (h.checksum >> 8) as u8,
        (h.checksum & 0xFF) as u8,
    ]
}

/// The sequence number encoded in a frame's header bytes.
pub open spec fn parsed_sequence(bytes: Seq<u8>) -> u16 {
    ((bytes[8] as u16) << 8) | (bytes[9] as u16)
}

/// The sender identifier encoded in a frame's header bytes.
pub open spec fn parsed_sender(bytes: Seq<u8>) -> Seq<u8> {
    bytes.subrange(2, 8)
}

/// The stored checksum encoded in a frame's header bytes.
pub open spec fn parsed_checksum(bytes: Seq<u8>) -> u16 {
    ((bytes[14] as u16) << 8) | (bytes[15] as u16)
}

/// The total-fragments count encoded in a frame's header bytes.
pub open spec fn parsed_total_fragments(bytes: Seq<u8>) -> u8 {
    bytes[11]
}

/// Whether header parsing accepts these bytes: enough of them, a supported
/// version, and a known message type.
pub open spec fn header_parse_ok(bytes: Seq<u8>) -> bool {
    &&& bytes.len() >= HEADER_SIZE
    &&& bytes[0] == PROTOCOL_VERSION
    &&& MessageType::spec_from_byte(bytes[1]) is Ok
}

/// Relates a parsed header to the bytes it was parsed from. Given the bytes,
/// every field of the header is determined.
pub open spec fn decodes_to(bytes: Seq<u8>, h: MessageHeader) -> bool {
    &&& h.version == bytes[0]
    &&& MessageType::spec_from_byte(bytes[1]) == Ok::<MessageType, ()>(h.msg_type)
    &&& h.sender_id@ == parsed_sender(bytes)
    &&& h.sequence == parsed_sequence(bytes)
    &&& h.fragment_index == bytes[10]
    &&& h.total_fragments == bytes[11]
    &&& h.ttl == bytes[12]
    &&& h.flags == bytes[13]
    &&& h.checksum == parsed_checksum(bytes)
}

impl MessageHeader {
    pub fn new(msg_type: MessageType, sender_id: [u8; 6], sequence: u16) -> (h: MessageHeader)
        ensures
            h == spec_new_header(msg_type, sender_id, sequence),
    {
        MessageHeader {
            version: PROTOCOL_VERSION,
            msg_type,
            sender_id,
            sequence,
            fragment_index: 0,
            total_fragments: 1,
            ttl: 3,
            flags: 0,
            checksum: 0,
        }
    }

    pub fn serialize(&self) -> (bytes: [u8; 16])
        ensures
            bytes@ == spec_serialize(*self),
    {
        let bytes: [u8; 16] = [
            self.version,
            self.msg_type.as_byte(),
            self.sender_id[0],
            self.sender_id[1],
            self.sender_id[2],
            self.sender_id[3],
            self.sender_id[4],
            self.sender_id[5],
            (self.sequence >> 8) as u8,
            (self.sequence & 0xFF) as u8,
            self.fragment_index,
            self.total_fragments,
            self.ttl,
            self.flags,
            (self.checksum >> 8) as u8,
            (self.checksum & 0xFF) as u8,
        ];
        proof {
            assert(bytes@ =~= spec_serialize(*self));
        }
        bytes
    }

    pub fn deserialize(bytes: &[u8]) -> (r: Result<MessageHeader, ()>)
        ensures
            r is Ok <==> header_parse_ok(bytes@),
            r matches Ok(h) ==> decodes_to(bytes@, h),
    {
        if bytes.len() < HEADER_SIZE {
            return Err(());
        }
        let version = bytes[0];
        if version != PROTOCOL_VERSION {
            return Err(());
        }
        let msg_type = match MessageType::from_byte(bytes[1]) {
            Ok(t) => t,
            Err(_) => {
                return Err(());
            },
        };
        let sender_id: [u8; 6] = [bytes[2], bytes[3], bytes[4], bytes[5], bytes[6], bytes[7]];
        let sequence = ((bytes[8] as u16) << 8) | (bytes[9] as u16);
        let checksum = ((bytes[14] as u16) << 8) | (bytes[15] as u16);
        let h = MessageHeader {
            version,
            msg_type,
            sender_id,
            sequence,
            fragment_index: bytes[10],
            total_fragments: bytes[11],
            ttl: bytes[12],
            flags: bytes[13],
            checksum,
        };
        proof {
            assert(h.sender_id@ =~= parsed_sender(bytes@));
        }
        Ok(h)
    }
}

/// Serializing and then parsing a header gives the header back: its bytes
/// parse successfully, and the only header those bytes can decode to is the
/// original one.
pub proof fn lemma_header_round_trip(h: MessageHeader)
    requires
        h.version == PROTOCOL_VERSION,
    ensures
        header_parse_ok(spec_serialize(h)),
        decodes_to(spec_serialize(h), h),
        forall|h2: MessageHeader| decodes_to(spec_serialize(h), h2) ==> h2 == h,
{
    broadcast use vstd::array::group_array_axioms;

    let bytes = spec_serialize(h);
    lemma_u16_be_round_trip(h.sequence);
    lemma_u16_be_round_trip(h.checksum);
    assert(h.sender_id@ =~= parsed_sender(bytes));
    assert forall|h2: MessageHeader| decodes_to(bytes, h2) implies h2 == h by {
        assert(h2.sender_id@ =~= h.sender_id@);
        assert(h2.sender_id =~= h.sender_id);
    }
}

/// Splitting a 16-bit value into its big-endian bytes and recombining them
/// gives the value back.
proof fn lemma_u16_be_round_trip(x: u16)
    by (bit_vector)
    ensures
        ((((x >> 8) as u8) as u16) << 8) | (((x & 0xFF) as u8) as u16) == x,
{
}

/// A complete message: header plus payload of at most 1024 bytes.
#[derive(Clone, Debug)]
pub struct Message {
    pub header: MessageHeader,
    pub payload: Vec<u8>,
}

/// How many fragments a payload of the given length takes: one for an empty
/// payload, else the payload length divided by 228, rounded up.
pub open spec fn spec_fragment_count(len: nat) -> int {
    if len == 0 {
        1
    } else {
        (len + MAX_PAYLOAD_SIZE - 1) / (MAX_PAYLOAD_SIZE as int)
    }
}

/// Where fragment `i` of a payload of length `len` ends (exclusive).
pub open spec fn frag_end(len: int, i: int) -> int {
    if (i + 1) * (MAX_PAYLOAD_SIZE as int) < len {
        (i + 1) * (MAX_PAYLOAD_SIZE as int)
    } else {
        len
    }
}

/// The payload bytes carried by fragment `i`.
pub open spec fn frag_slice(p: Seq<u8>, i: int) -> Seq<u8>
    recommends
        0 <= i < spec_fragment_count(p.len()),
{
    p.subrange(i * (MAX_PAYLOAD_SIZE as int), frag_end(p.len() as int, i))
}

/// The first `k` fragment slices of a payload, concatenated in index order.
pub open spec fn spec_concat_frags(p: Seq<u8>, k: int) -> Seq<u8>
    decreases k,
{
    if k <= 0 {
        Seq::empty()
    } else {
        spec_concat_frags(p, k - 1) + frag_slice(p, k - 1)
    }
}

/// The header as it appears on fragment `index` of `total`.
pub open spec fn spec_fragment_header(h: MessageHeader, index: u8, total: u8) -> MessageHeader {
    MessageHeader { fragment_index: index, total_fragments: total, ..h }
}

/// The header with its checksum field replaced.
pub open spec fn with_checksum(h: MessageHeader, c: u16) -> MessageHeader {
    MessageHeader { checksum: c, ..h }
}

/// The checksum a frame carries: the CRC over the first 14 header bytes
/// (everything but the checksum field itself) followed by the frame payload.
pub open spec fn frame_crc(h: MessageHeader, payload: Seq<u8>) -> u16 {
    crc16_of(spec_serialize(h).take(14) + payload)
}

/// A whole on-wire frame: the header, carrying the checksum computed over
/// header and payload, followed by the payload.
pub open spec fn spec_frame(h: MessageHeader, payload: Seq<u8>) -> Seq<u8> {
    spec_serialize(with_checksum(h, frame_crc(h, payload))) + payload
}

/// Basic bounds of the fragment count: at least 1, at most 5 for payloads
/// within the message size limit, and large enough that the fragments cover
/// the whole payload.
pub proof fn lemma_fragment_count_bounds(len: int)
    requires
        0 <= len <= MAX_MESSAGE_SIZE,
    ensures
        1 <= spec_fragment_count(len as nat) <= 8,
        len <= spec_fragment_count(len as nat) * (MAX_PAYLOAD_SIZE as int),
        len > 0 ==> (spec_fragment_count(len as nat) - 1) * (MAX_PAYLOAD_SIZE as int) < len,
{
    if len > 0 {
        vstd::arithmetic::div_mod::lemma_fundamental_div_mod(
            len + MAX_PAYLOAD_SIZE - 1,
            MAX_PAYLOAD_SIZE as int,
        );
    }
}

/// The fragment slices of a payload, taken in index order, concatenate back
/// to the payload itself.
pub proof fn lemma_fragments_cover_payload(p: Seq<u8>)
    requires
        p.len() <= MAX_MESSAGE_SIZE,
    ensures
        spec_concat_frags(p, spec_fragment_count(p.len())) == p,
{
    let count = spec_fragment_count(p.len());
    lemma_fragment_count_bounds(p.len() as int);
    lemma_concat_frags_prefix(p, count);
    assert(p.take(p.len() as int) =~= p);
}

/// The first `k` fragment slices concatenate to the payload prefix they span.
proof fn lemma_concat_frags_prefix(p: Seq<u8>, k: int)
    requires
        p.len() <= MAX_MESSAGE_SIZE,
        0 <= k <= spec_fragment_count(p.len()),
    ensures
        spec_concat_frags(p, k) == p.take(
            if k * (MAX_PAYLOAD_SIZE as int) < p.len() {
                k * (MAX_PAYLOAD_SIZE as int)
            } else {
                p.len() as int
            },
        ),
    decreases k,
{
    lemma_fragment_count_bounds(p.len() as int);
    if k <= 0 {
        assert(spec_concat_frags(p, 0) =~= p.take(0));
    } else {
        lemma_concat_frags_prefix(p, k - 1);
        let m1 = if (k - 1) * (MAX_PAYLOAD_SIZE as int) < p.len() {
            (k - 1) * (MAX_PAYLOAD_SIZE as int)
        } else {
            p.len() as int
        };
        let m2 = if k * (MAX_PAYLOAD_SIZE as int) < p.len() {
            k * (MAX_PAYLOAD_SIZE as int)
        } else {
            p.len() as int
        };
        assert(m1 == (k - 1) * (MAX_PAYLOAD_SIZE as int) || (p.len() == 0 && m1 == 0));
        assert(p.take(m1) + frag_slice(p, k - 1) =~= p.take(m2));
    }
}

/// Whether two device identifiers hold the same bytes.
pub fn ids_match(a: &[u8; 6], b: &[u8; 6]) -> (r: bool)
    ensures
        r <==> a@ == b@,
{
    let r = a[0] == b[0] && a[1] == b[1] && a[2] == b[2] && a[3] == b[3] && a[4] == b[4] && a[5]
        == b[5];
    proof {
        if r {
            assert(a@ =~= b@);
        }
    }
    r
}

/// Append every byte of `src` to `dst`.
pub fn push_bytes(dst: &mut Vec<u8>, src: &[u8])
    ensures
        final(dst)@ == old(dst)@ + src@,
{
    let mut i: usize = 0;
    while i < src.len()
        invariant
            i <= src@.len(),
            dst@ == old(dst)@ + src@.take(i as int),
        decreases src@.len() - i,
    {
        dst.push(src[i]);
        proof {
            assert(old(dst)@ + src@.take(i as int) + seq![src@[i as int]] =~= old(dst)@
                + src@.take(i + 1));
        }
        i = i + 1;
    }
    proof {
        assert(old(dst)@ + src@.take(src@.len() as int) =~= old(dst)@ + src@);
    }
}

impl Message {
    /// The payload fits in a complete message. This is the bound the
    /// fixed-capacity payload storage enforces by construction.
    pub open spec fn wf(self) -> bool {
        self.payload@.len() <= MAX_MESSAGE_SIZE
    }

    pub fn new(msg_type: MessageType, sender_id: [u8; 6], sequence: u16, payload: &[u8]) -> (r:
        Result<Message, ()>)
        ensures
            r is Ok <==> payload@.len() <= MAX_MESSAGE_SIZE,
            r matches Ok(m) ==> m.header == spec_new_header(msg_type, sender_id, sequence)
                && m.payload@ == payload@ && m.wf(),
    {
        if payload.len() > MAX_MESSAGE_SIZE {
            return Err(());
        }
        let header = MessageHeader::new(msg_type, sender_id, sequence);
        let mut msg_payload: Vec<u8> = Vec::new();
        push_bytes(&mut msg_payload, payload);
        Ok(Message { header, payload: msg_payload })
    }

    /// How many fragments this message takes on the wire.
    pub fn calculate_fragments(&self) -> (n: u8)
        requires
            self.wf(),
        ensures
            n as int == spec_fragment_count(self.payload@.len()),
            1 <= n <= 8,
    {
        proof {
            lemma_fragment_count_bounds(self.payload@.len() as int);
        }
        let payload_len = self.payload.len();
        if payload_len == 0 {
            return 1;
        }
        ((payload_len + MAX_PAYLOAD_SIZE - 1) / MAX_PAYLOAD_SIZE) as u8
    }

    /// The on-wire frame for fragment `index` of this message: the message
    /// header with the fragment fields filled in and the checksum recomputed,
    /// followed by this fragment's slice of the payload. `None` when `index`
    /// is past the last fragment.
    pub fn get_fragment(&self, index: u8) -> (r: Option<Vec<u8>>)
        requires
            self.wf(),
        ensures
            ({
                let count = spec_fragment_count(self.payload@.len());
                &&& r is Some <==> (index as int) < count
                &&& r matches Some(v) ==> v@ == spec_frame(
                    spec_fragment_header(self.header, index, count as u8),
                    frag_slice(self.payload@, index as int),
                ) && v@.len() <= 244
            }),
    {
        proof {
            lemma_fragment_count_bounds(self.payload@.len() as int);
        }
        let total_fragments = self.calculate_fragments();
        if index >= total_fragments {
            return None;
        }

        let start = (index as usize) * MAX_PAYLOAD_SIZE;
        let end_raw = (index as usize + 1) * MAX_PAYLOAD_SIZE;
        let end = if end_raw < self.payload.len() {
            end_raw
        } else {
            self.payload.len()
        };
        let piece: &[u8] = &self.payload.as_slice()[start..end];

        let mut header = self.header;
        header.fragment_index = index;
        header.total_fragments = total_fragments;

        let header_bytes = header.serialize();
        let front: &[u8] = &header_bytes.as_slice()[0..14];
        let checksum = calculate_crc16(front, piece);
        proof {
            assert(front@ =~= spec_serialize(header).take(14));
        }
        header.checksum = checksum;

        let final_bytes = header.serialize();
        let mut fragment: Vec<u8> = Vec::new();
        push_bytes(&mut fragment, final_bytes.as_slice());
        push_bytes(&mut fragment, piece);
        proof {
            let count = spec_fragment_count(self.payload@.len());
            let fh = spec_fragment_header(self.header, index, count as u8);
            assert(spec_serialize(fh).take(14) =~= spec_serialize(header).take(14));
            assert(piece@ =~= frag_slice(self.payload@, index as int));
        }
        Some(fragment)
    }
}

} // verus!
