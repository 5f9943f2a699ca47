//! The single-shot envelope used for the initial handshake and announce
//! exchange. Unlike the fragmented frame format, it is one self-contained
//! packet of at most 244 bytes, with optional recipient and signature fields
//! flagged in a flags byte.

use vstd::prelude::*;

use crate::message::push_bytes;

verus! {

broadcast use vstd::array::group_array_axioms;

/// Most bytes one envelope may occupy on the wire.
pub const MAX_PACKET_SIZE: usize = 244;

#[derive(Clone, Copy, Debug, PartialEq, Eq, Structural)]
pub enum PacketType {
    Text,
    Announce,
    File,
    Ack,
    Discovery,
    KeepAlive,
    Error,
}

impl PacketType {
    /// The byte that encodes this packet type on the wire.
    pub open spec fn spec_byte(self) -> u8 {
        match self {
            PacketType::Text => 1,
            PacketType::Announce => 2,
            PacketType::File => 3,
            PacketType::Ack => 4,
            PacketType::Discovery => 5,
            PacketType::KeepAlive => 6,
            PacketType::Error => 7,
        }
    }

    #[verifier::when_used_as_spec(spec_byte)]
    pub fn as_byte(self) -> (b: u8)
        ensures
            b == self.spec_byte(),
    {
        match self {
            PacketType::Text => 1,
            PacketType::Announce => 2,
            PacketType::File => 3,
            PacketType::Ack => 4,
            PacketType::Discovery => 5,
            PacketType::KeepAlive => 6,
            PacketType::Error => 7,
        }
    }

    /// The packet type a wire byte stands for; an unknown byte reads as text.
    pub open spec fn spec_from_byte(value: u8) -> PacketType {
        match value {
            1u8 => PacketType::Text,
            2u8 => PacketType::Announce,
            3u8 => PacketType::File,
            4u8 => PacketType::Ack,
            5u8 => PacketType::Discovery,
            6u8 => PacketType::KeepAlive,
            7u8 => PacketType::Error,
            _ => PacketType::Text,
        }
    }

    pub fn from_byte(value: u8) -> (t: PacketType)
        ensures
            t == PacketType::spec_from_byte(value),
    {
        match value {
            1u8 => PacketType::Text,
            2u8 => PacketType::Announce,
            3u8 => PacketType::File,
            4u8 => PacketType::Ack,
            5u8 => PacketType::Discovery,
            6u8 => PacketType::KeepAlive,
            7u8 => PacketType::Error,
            _ => PacketType::Text,
        }
    }
}

/// Bits of the envelope's flags byte.
pub struct Flags;

impl Flags {
    pub const HAS_RECIPIENT: u8 = 0x01;

    pub const HAS_SIGNATURE: u8 = 0x02;

    pub const IS_COMPRESSED: u8 = 0x04;
}

/// One handshake/announce envelope.
pub struct BitchatPacket {
    pub version: u8,
    pub packet_type: PacketType,
    pub ttl: u8,
    pub timestamp: u64,
    pub flags: u8,
    pub sender_id: [u8; 8],
    pub recipient_id: Option<[u8; 8]>,
    pub payload: Vec<u8>,
    pub signature: Option<[u8; 64]>,
}

/// A 64-bit value as eight big-endian bytes.
pub open spec fn be64(t: u64) -> Seq<u8> {
    seq![
        (t >> 56) as u8,
        (t >> 48) as u8,
        (t >> 40) as u8,
        (t >> 32) as u8,
        (t >> 24) as u8,
        (t >> 16) as u8,
        (t >> 8) as u8,
        t as u8,
    ]
}

/// The 64-bit value encoded big-endian at offset `off`.
pub open spec fn parsed_u64_be(bytes: Seq<u8>, off: int) -> u64 {
    ((bytes[off] as u64) << 56) | ((bytes[off + 1] as u64) << 48) | ((bytes[off + 2] as u64) << 40)
        | ((bytes[off + 3] as u64) << 32) | ((bytes[off + 4] as u64) << 24) | ((bytes[off + 5] as u64)
        << 16) | ((bytes[off + 6] as u64) << 8) | (bytes[off + 7] as u64)
}

/// The flags byte an envelope is sent with: its own flags, plus the bits for
/// the optional fields it carries.
pub open spec fn spec_wire_flags(p: BitchatPacket) -> u8 {
    let with_recipient = if p.recipient_id is Some {
        p.flags | Flags::HAS_RECIPIENT
    } else {
        p.flags
    };
    if p.signature is Some {
        with_recipient | Flags::HAS_SIGNATURE
    } else {
        with_recipient
    }
}

/// The bytes of an optional 8-byte identifier field: nothing when absent.
pub open spec fn opt_id_bytes(o: Option<[u8; 8]>) -> Seq<u8> {
    match o {
        Some(id) => id@,
        None => Seq::empty(),
    }
}

/// The bytes of an optional 64-byte signature field: nothing when absent.
pub open spec fn opt_sig_bytes(o: Option<[u8; 64]>) -> Seq<u8> {
    match o {
        Some(sig) => sig@,
        None => Seq::empty(),
    }
}

/// The whole envelope in wire order: version | type | ttl | timestamp (BE) |
/// flags | payload length (BE) | sender | optional recipient | payload |
/// optional signature.
pub open spec fn spec_encode(p: BitchatPacket) -> Seq<u8> {
    seq![p.version, p.packet_type.spec_byte(), p.ttl] + be64(p.timestamp) + seq![
        spec_wire_flags(p),
        ((p.payload@.len() as u16) >> 8) as u8,
        ((p.payload@.len() as u16) & 0xFF) as u8,
    ] + p.sender_id@ + opt_id_bytes(p.recipient_id) + p.payload@ + opt_sig_bytes(p.signature)
}

impl BitchatPacket {
    /// The payload fits in one envelope. This is the bound the fixed-capacity
    /// payload storage enforces by construction.
    pub open spec fn wf(self) -> bool {
        self.payload@.len() <= MAX_PACKET_SIZE
    }

    pub fn new(packet_type: PacketType, sender_id: [u8; 8], payload: &[u8]) -> (r: Result<
        BitchatPacket,
        &'static str,
    >)
        ensures
            r is Ok <==> payload@.len() <= MAX_PACKET_SIZE,
            r matches Err(e) ==> e@ == "Payload too large"@,
            r matches Ok(p) ==> p == (BitchatPacket {
                version: 1u8,
                packet_type,
                ttl: 3u8,
                timestamp: 0u64,
                flags: 0u8,
                sender_id,
                recipient_id: None,
                payload: p.payload,
                signature: None,
            }) && p.payload@ == payload@ && p.wf(),
    {
        if payload.len() > MAX_PACKET_SIZE {
            return Err("Payload too large");
        }
        let mut payload_vec: Vec<u8> = Vec::new();
        push_bytes(&mut payload_vec, payload);

        Ok(
            BitchatPacket {
                version: 1,
                packet_type,
                ttl: 3,
                timestamp: 0,
                flags: 0,
                sender_id,
                recipient_id: None,
                payload: payload_vec,
                signature: None,
            },
        )
    }

    pub fn encode(&self) -> (r: Result<Vec<u8>, &'static str>)
        requires
            self.wf(),
        ensures
            r is Ok <==> spec_encode(*self).len() <= MAX_PACKET_SIZE,
            r matches Err(e) ==> e@ == "Buffer full"@,
            r matches Ok(v) ==> v@ == spec_encode(*self),
    {
        let recipient_len: usize = if self.recipient_id.is_some() {
            8
        } else {
            0
        };
        let signature_len: usize = if self.signature.is_some() {
            64
        } else {
            0
        };
        let total = 22 + recipient_len + self.payload.len() + signature_len;
        proof {
            match self.recipient_id {
                Some(id) => {
                    assert(id@.len() == 8);
                },
                None => {},
            }
            match self.signature {
                Some(sig) => {
                    assert(sig@.len() == 64);
                },
                None => {},
            }
            assert(self.sender_id@.len() == 8);
            assert(be64(self.timestamp).len() == 8);
            assert(opt_id_bytes(self.recipient_id).len() == recipient_len);
            assert(opt_sig_bytes(self.signature).len() == signature_len);
            assert(spec_encode(*self).len() == total);
        }
        if total > MAX_PACKET_SIZE {
            return Err("Buffer full");
        }

        let mut data: Vec<u8> = Vec::new();
        data.push(self.version);
        data.push(self.packet_type.as_byte());
        data.push(self.ttl);

        data.push((self.timestamp >> 56) as u8);
        data.push((self.timestamp >> 48) as u8);
        data.push((self.timestamp >> 40) as u8);
        data.push((self.timestamp >> 32) as u8);
        data.push((self.timestamp >> 24) as u8);
        data.push((self.timestamp >> 16) as u8);
        data.push((self.timestamp >> 8) as u8);
        data.push(self.timestamp as u8);

        let mut flags = self.flags;
        if self.recipient_id.is_some() {
            flags = flags | Flags::HAS_RECIPIENT;
        }
        if self.signature.is_some() {
            flags = flags | Flags::HAS_SIGNATURE;
        }
        data.push(flags);

        let payload_length = self.payload.len() as u16;
        data.push((payload_length >> 8) as u8);
        data.push((payload_length & 0xFF) as u8);

        push_bytes(&mut data, self.sender_id.as_slice());

        if let Some(recipient) = &self.recipient_id {
            push_bytes(&mut data, recipient.as_slice());
        }

        push_bytes(&mut data, self.payload.as_slice());

        if let Some(signature) = &self.signature {
            push_bytes(&mut data, signature.as_slice());
        }

        proof {
            assert(data@ =~= spec_encode(*self));
        }
        Ok(data)
    }

    pub fn decode(data: &[u8]) -> (r: Result<BitchatPacket, &'static str>)
        ensures
            ({
                let b = data@;
                let has_recipient = b.len() >= 14 && b[11] & Flags::HAS_RECIPIENT != 0;
                let has_signature = b.len() >= 14 && b[11] & Flags::HAS_SIGNATURE != 0;
                let payload_len = (((b[12] as u16) << 8) | (b[13] as u16)) as int;
                let payload_start = 22int + if has_recipient {
                    8int
                } else {
                    0int
                };
                &&& (b.len() < 22 ==> (r matches Err(e) && e@ == "Packet too small"@))
                &&& (b.len() >= 22 && b[0] != 1 ==> (r matches Err(e) && e@
                    == "Unsupported version"@))
                &&& (b.len() >= 22 && b[0] == 1 ==> {
                    &&& (has_recipient && b.len() < 30 ==> (r matches Err(e) && e@
                        == "Incomplete recipient ID"@))
                    &&& (b.len() >= payload_start ==> {
                        &&& (b.len() < payload_start + payload_len ==> (r matches Err(e)
                            && e@ == "Incomplete payload"@))
                        &&& (b.len() >= payload_start + payload_len && payload_len
                            > MAX_PACKET_SIZE ==> (r matches Err(e) && e@
                            == "Payload too large"@))
                        &&& (b.len() >= payload_start + payload_len && payload_len
                            <= MAX_PACKET_SIZE && has_signature && b.len() < payload_start
                            + payload_len + 64 ==> (r matches Err(e) && e@
                            == "Incomplete signature"@))
                        &&& (b.len() >= payload_start + payload_len && payload_len
                            <= MAX_PACKET_SIZE && (!has_signature || b.len() >= payload_start
                            + payload_len + 64) ==> (r matches Ok(p) && {
                            &&& p.version == 1
                            &&& p.packet_type == PacketType::spec_from_byte(b[1])
                            &&& p.ttl == b[2]
                            &&& p.timestamp == parsed_u64_be(b, 3)
                            &&& p.flags == b[11]
                            &&& p.sender_id@ == b.subrange(14, 22)
                            &&& (p.recipient_id is Some <==> has_recipient)
                            &&& (p.recipient_id matches Some(id) ==> id@ == b.subrange(22, 30))
                            &&& p.payload@ == b.subrange(payload_start, payload_start + payload_len)
                            &&& (p.signature is Some <==> has_signature)
                            &&& (p.signature matches Some(sig) ==> sig@ == b.subrange(
                                payload_start + payload_len,
                                payload_start + payload_len + 64,
                            ))
                            &&& p.wf()
                        }))
                    })
                })
            }),
    {
        // header, length field, and sender must all be present
        if data.len() < 22 {
            return Err("Packet too small");
        }

        let version = data[0];
        if version != 1 {
            return Err("Unsupported version");
        }

        let packet_type = PacketType::from_byte(data[1]);
        let ttl = data[2];

        let timestamp: u64 = ((data[3] as u64) << 56) | ((data[4] as u64) << 48) | ((data[5]
            as u64) << 40) | ((data[6] as u64) << 32) | ((data[7] as u64) << 24) | ((data[8]
            as u64) << 16) | ((data[9] as u64) << 8) | (data[10] as u64);

        let flags = data[11];

        let payload_length = ((data[12] as u16) << 8) | (data[13] as u16);

        let sender_id: [u8; 8] = [
            data[14],
            data[15],
            data[16],
            data[17],
            data[18],
            data[19],
            data[20],
            data[21],
        ];
        proof {
            assert(sender_id@ =~= data@.subrange(14, 22));
        }
        let mut offset: usize = 22;

        let recipient_id: Option<[u8; 8]> = if flags & Flags::HAS_RECIPIENT != 0 {
            if data.len() < offset + 8 {
                return Err("Incomplete recipient ID");
            }
            let recipient: [u8; 8] = [
                data[offset],
                data[offset + 1],
                data[offset + 2],
                data[offset + 3],
                data[offset + 4],
                data[offset + 5],
                data[offset + 6],
                data[offset + 7],
            ];
            proof {
                assert(recipient@ =~= data@.subrange(22, 30));
            }
            offset = offset + 8;
            Some(recipient)
        } else {
            None
        };

        if data.len() - offset < payload_length as usize {
            return Err("Incomplete payload");
        }
        if payload_length as usize > MAX_PACKET_SIZE {
            return Err("Payload too large");
        }
        let payload_slice: &[u8] = &data[offset..offset + payload_length as usize];
        let mut payload: Vec<u8> = Vec::new();
        push_bytes(&mut payload, payload_slice);
        offset = offset + payload_length as usize;

        let signature: Option<[u8; 64]> = if flags & Flags::HAS_SIGNATURE != 0 {
            if data.len() < offset + 64 {
                return Err("Incomplete signature");
            }
            let sig = read_signature(data, offset);
            Some(sig)
        } else {
            None
        };

        Ok(
            BitchatPacket {
                version,
                packet_type,
                ttl,
                timestamp,
                flags,
                sender_id,
                recipient_id,
                payload,
                signature,
            },
        )
    }

    pub fn create_announce(sender_id: [u8; 8], message: &[u8]) -> (r: Result<
        BitchatPacket,
        &'static str,
    >)
        ensures
            r is Ok <==> message@.len() <= MAX_PACKET_SIZE,
            r matches Ok(p) ==> p.packet_type == PacketType::Announce && p.sender_id == sender_id
                && p.payload@ == message@ && p.timestamp == 0 && p.wf(),
    {
        let mut packet = match BitchatPacket::new(PacketType::Announce, sender_id, message) {
            Ok(p) => p,
            Err(e) => {
                return Err(e);
            },
        };
        packet.timestamp = BitchatPacket::current_timestamp_millis();
        Ok(packet)
    }

    pub fn create_text(sender_id: [u8; 8], text: &[u8]) -> (r: Result<BitchatPacket, &'static str>)
        ensures
            r is Ok <==> text@.len() <= MAX_PACKET_SIZE,
            r matches Ok(p) ==> p.packet_type == PacketType::Text && p.sender_id == sender_id
                && p.payload@ == text@ && p.timestamp == 0 && p.wf(),
    {
        let mut packet = match BitchatPacket::new(PacketType::Text, sender_id, text) {
            Ok(p) => p,
            Err(e) => {
                return Err(e);
            },
        };
        packet.timestamp = BitchatPacket::current_timestamp_millis();
        Ok(packet)
    }

    /// The target has no wall clock wired up yet; envelopes go out with a
    /// zero timestamp.
    fn current_timestamp_millis() -> (t: u64)
        ensures
            t == 0,
    {
        0
    }

    /// Spend one hop of the budget; reports whether any budget was left.
    pub fn decrement_ttl(&mut self) -> (had_budget: bool)
        ensures
            had_budget == (old(self).ttl > 0),
            final(self).ttl == (if old(self).ttl > 0 {
                (old(self).ttl - 1) as u8
            } else {
                old(self).ttl
            }),
            *final(self) == (BitchatPacket { ttl: final(self).ttl, ..*old(self) }),
    {
        if self.ttl > 0 {
            self.ttl = self.ttl - 1;
            true
        } else {
            false
        }
    }
}

/// The 64 signature bytes starting at `off`.
fn read_signature(data: &[u8], off: usize) -> (r: [u8; 64])
    requires
        off + 64 <= data@.len(),
    ensures
        r@ == data@.subrange(off as int, off as int + 64),
{
    let mut r: [u8; 64] = [0u8; 64];
    let data_len = data.len();
    proof {
        assert(data@.len() == data_len);
    }
    let mut i: usize = 0;
    while i < 64
        invariant
            i <= 64,
            off + 64 <= data@.len(),
            data@.len() <= usize::MAX,
            forall|j: int| 0 <= j < i ==> r@[j] == data@[off + j],
        decreases 64 - i,
    {
        r[i] = data[off + i];
        i = i + 1;
    }
    proof {
        assert(r@ =~= data@.subrange(off as int, off as int + 64));
    }
    r
}

} // verus!
