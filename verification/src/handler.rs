//! Inbound frame processor.
//!
//! One frame is handled at a time: parse the header, drop duplicates
//! silently, verify the checksum, then either deliver a single-fragment
//! message directly or hand the fragment to the reassembly engine. A frame
//! that fails its checksum is not recorded as seen, so a clean retransmission
//! of the same sequence can still succeed later.

use vstd::prelude::*;

use crate::checksum::{calculate_crc16, crc16_of, lemma_crc16_detects_byte_change};
use crate::dedup::{window_contains, window_has, window_insert, window_record, window_recorded};
use crate::fragmentation::{add_fragment_transition, FragmentAssembler};
use crate::message::{
    decodes_to, header_parse_ok, parsed_checksum, parsed_sender, parsed_sequence,
    parsed_total_fragments, push_bytes, Message, MessageHeader, MessageType, HEADER_SIZE,
    MAX_MESSAGE_SIZE,
};
use crate::text::TextMessage;

verus! {

/// Capacity of the receive-side duplicate suppression window.
pub const DEDUP_WINDOW_CAPACITY: usize = 32;

#[derive(Clone, Copy, Debug, PartialEq, Eq, Structural)]
pub enum HandlerError {
    InvalidMessage,
    FragmentationError,
    ChecksumError,
}

/// Receive-side state: this device's identity, the outbound sequence
/// counter, the reassembly engine, and the duplicate suppression window.
pub struct MessageHandler {
    pub device_id: [u8; 6],
    pub sequence_counter: u16,
    pub fragment_assembler: FragmentAssembler,
    pub last_seen_sequences: Vec<(u16, [u8; 6])>,
}

/// Whether the frame's stored checksum equals the CRC over its first 14
/// header bytes and its payload.
pub open spec fn checksum_ok(bytes: Seq<u8>) -> bool {
    crc16_of(bytes.take(14) + bytes.skip(16)) == parsed_checksum(bytes)
}

/// Flipping any single bit of a frame that passed checksum verification
/// makes verification fail: a flip in the stored checksum field leaves the
/// recomputed value unchanged while the stored one moves, and a flip
/// anywhere else moves the recomputed value while the stored one stays.
pub proof fn lemma_bit_flip_fails_verification(f1: Seq<u8>, k: int, t: u8)
    requires
        f1.len() >= HEADER_SIZE,
        0 <= k < f1.len(),
        t < 8,
        checksum_ok(f1),
    ensures
        !checksum_ok(f1.update(k, f1[k] ^ (1u8 << t))),
{
    let mask = 1u8 << t;
    assert(mask != 0) by (bit_vector)
        requires
            t < 8u8,
            mask == 1u8 << t,
    ;
    let f2 = f1.update(k, f1[k] ^ mask);
    let c1 = f1.take(14) + f1.skip(16);
    let c2 = f2.take(14) + f2.skip(16);
    if k < 14 {
        assert(c2 =~= c1.update(k, c1[k] ^ mask));
        lemma_crc16_detects_byte_change(c1, k, mask);
        assert(parsed_checksum(f2) == parsed_checksum(f1));
    } else if k >= 16 {
        assert(c2 =~= c1.update(k - 2, c1[k - 2] ^ mask));
        lemma_crc16_detects_byte_change(c1, k - 2, mask);
        assert(parsed_checksum(f2) == parsed_checksum(f1));
    } else {
        // the flip hit the stored checksum itself; the contents are unchanged
        assert(c2 =~= c1);
        let hi = f1[14];
        let lo = f1[15];
        if k == 14 {
            assert(((((hi ^ mask) as u16) << 8) | (lo as u16)) != (((hi as u16) << 8) | (lo
                as u16))) by (bit_vector)
                requires
                    mask != 0u8,
            ;
        } else {
            assert((((hi as u16) << 8) | ((lo ^ mask) as u16)) != (((hi as u16) << 8) | (lo
                as u16))) by (bit_vector)
                requires
                    mask != 0u8,
            ;
        }
    }
}

/// The reassembly engine's view of the processor's result: any handler error
/// on this path stands for the engine's rejection.
pub open spec fn as_assembler_result(r: Result<Option<Message>, HandlerError>) -> Result<
    Option<Message>,
    (),
> {
    match r {
        Ok(o) => Ok(o),
        Err(_) => Err(()),
    }
}

impl MessageHandler {
    /// Both bounded stores stay within their capacities.
    pub open spec fn wf(self) -> bool {
        &&& self.fragment_assembler.wf()
        &&& self.last_seen_sequences@.len() <= DEDUP_WINDOW_CAPACITY
    }

    pub fn new(device_id: [u8; 6]) -> (h: MessageHandler)
        ensures
            h.wf(),
            h.device_id == device_id,
            h.sequence_counter == 0,
            h.fragment_assembler.buffers@.len() == 0,
            h.last_seen_sequences@.len() == 0,
    {
        MessageHandler {
            device_id,
            sequence_counter: 0,
            fragment_assembler: FragmentAssembler::new(),
            last_seen_sequences: Vec::new(),
        }
    }

    /// The next outbound sequence number; the counter wraps on overflow.
    pub fn get_next_sequence(&mut self) -> (seq: u16)
        ensures
            seq == old(self).sequence_counter,
            final(self).sequence_counter as int == (old(self).sequence_counter + 1) % 0x10000,
            final(self).device_id == old(self).device_id,
            final(self).fragment_assembler == old(self).fragment_assembler,
            final(self).last_seen_sequences == old(self).last_seen_sequences,
    {
        let seq = self.sequence_counter;
        self.sequence_counter = self.sequence_counter.wrapping_add(1);
        seq
    }

    /// Process one raw inbound frame. Returns a complete message when one is
    /// available, `None` for duplicates and for fragments that leave a
    /// reassembly incomplete, and an error for malformed or corrupted frames.
    pub fn process_incoming(&mut self, data: &[u8]) -> (r: Result<Option<Message>, HandlerError>)
        requires
            old(self).wf(),
        ensures
            final(self).wf(),
            final(self).device_id == old(self).device_id,
            final(self).sequence_counter == old(self).sequence_counter,
            // a frame too short, of an unsupported version, or of an unknown
            // type is rejected outright
            !header_parse_ok(data@) ==> (r == Err::<Option<Message>, HandlerError>(
                HandlerError::InvalidMessage,
            ) && *final(self) == *old(self)),
            ({
                let seq = parsed_sequence(data@);
                let sender = parsed_sender(data@);
                let dup = window_has(old(self).last_seen_sequences@, seq, sender);
                let ck = checksum_ok(data@);
                let multi = parsed_total_fragments(data@) > 1;
                header_parse_ok(data@) ==> {
                    // an already-seen key is dropped silently, before the
                    // checksum is even considered
                    &&& (dup ==> r == Ok::<Option<Message>, HandlerError>(None) && *final(self)
                        == *old(self))
                    // a corrupted frame is a hard error and is not recorded
                    &&& (!dup && !ck ==> r == Err::<Option<Message>, HandlerError>(
                        HandlerError::ChecksumError,
                    ) && *final(self) == *old(self))
                    // a fragment goes through the reassembly engine; the key
                    // is recorded only when a message completes
                    &&& (!dup && ck && multi ==> {
                        &&& exists|h: MessageHeader|
                            #[trigger] decodes_to(data@, h) && add_fragment_transition(
                                old(self).fragment_assembler.buffers@,
                                final(self).fragment_assembler.buffers@,
                                h,
                                data@.skip(HEADER_SIZE as int),
                                as_assembler_result(r),
                            )
                        &&& (r is Err ==> r == Err::<Option<Message>, HandlerError>(
                            HandlerError::FragmentationError,
                        ) && final(self).last_seen_sequences == old(self).last_seen_sequences)
                        &&& (r matches Ok(Some(_)) ==> window_recorded(
                            old(self).last_seen_sequences@,
                            final(self).last_seen_sequences@,
                            seq,
                            sender,
                            DEDUP_WINDOW_CAPACITY as int,
                        ))
                        &&& (r matches Ok(None) ==> final(self).last_seen_sequences == old(
                            self,
                        ).last_seen_sequences)
                    })
                    // a single-fragment message is delivered directly, and
                    // its key is recorded
                    &&& (!dup && ck && !multi ==> {
                        &&& final(self).fragment_assembler == old(self).fragment_assembler
                        &&& window_recorded(
                            old(self).last_seen_sequences@,
                            final(self).last_seen_sequences@,
                            seq,
                            sender,
                            DEDUP_WINDOW_CAPACITY as int,
                        )
                        &&& (r is Err <==> data@.len() - HEADER_SIZE > MAX_MESSAGE_SIZE)
                        &&& (r is Err ==> r == Err::<Option<Message>, HandlerError>(
                            HandlerError::InvalidMessage,
                        ))
                        &&& (r matches Ok(o) ==> o matches Some(m) && decodes_to(data@, m.header)
                            && m.payload@ == data@.skip(HEADER_SIZE as int) && m.wf())
                    })
                    // whenever a message is delivered, its key is now seen,
                    // so feeding the same frame again yields None
                    &&& (r matches Ok(Some(_)) ==> window_has(
                        final(self).last_seen_sequences@,
                        seq,
                        sender,
                    ))
                }
            }),
            r matches Ok(Some(m)) ==> m.wf(),
    {
        if data.len() < HEADER_SIZE {
            return Err(HandlerError::InvalidMessage);
        }

        let header = match MessageHeader::deserialize(data) {
            Ok(h) => h,
            Err(_) => {
                return Err(HandlerError::InvalidMessage);
            },
        };

        if self.is_duplicate(&header) {
            return Ok(None);
        }

        if !self.verify_checksum(data) {
            return Err(HandlerError::ChecksumError);
        }

        let payload: &[u8] = &data[HEADER_SIZE..data.len()];
        proof {
            assert(payload@ =~= data@.skip(HEADER_SIZE as int));
        }

        if header.total_fragments > 1 {
            match self.fragment_assembler.add_fragment(header, payload) {
                Ok(Some(complete_message)) => {
                    self.record_sequence(&header);
                    Ok(Some(complete_message))
                },
                Ok(None) => {
                    // fragment stored, waiting for more
                    Ok(None)
                },
                Err(_) => Err(HandlerError::FragmentationError),
            }
        } else {
            self.record_sequence(&header);

            if data.len() - HEADER_SIZE > MAX_MESSAGE_SIZE {
                return Err(HandlerError::InvalidMessage);
            }
            let mut payload_vec: Vec<u8> = Vec::new();
            push_bytes(&mut payload_vec, payload);

            Ok(Some(Message { header, payload: payload_vec }))
        }
    }

    /// Type-directed handling of a delivered message. Every branch is an
    /// extension point; none produces an automatic response yet.
    pub fn handle_message(&mut self, message: &Message) -> (r: Result<
        Option<Vec<u8>>,
        HandlerError,
    >)
        ensures
            r == Ok::<Option<Vec<u8>>, HandlerError>(None),
            *final(self) == *old(self),
    {
        match message.header.msg_type {
            MessageType::Text => {
                // decode the payload as text; the result would feed a user
                // interface or an acknowledgement
                let _text = TextMessage::parse(message.payload.as_slice());
                Ok(None)
            },
            MessageType::Announce => {
                // the sender identity is in the header; a reply announce
                // could be generated here
                Ok(None)
            },
            MessageType::Ack => {
                // the acknowledged sequence is in the header
                Ok(None)
            },
            MessageType::Relay => Ok(None),
        }
    }

    /// Whether the frame's key was processed recently.
    fn is_duplicate(&self, header: &MessageHeader) -> (r: bool)
        ensures
            r == window_has(self.last_seen_sequences@, header.sequence, header.sender_id@),
    {
        window_contains(&self.last_seen_sequences, header.sequence, &header.sender_id)
    }

    /// Record the frame's key in the duplicate suppression window.
    fn record_sequence(&mut self, header: &MessageHeader)
        requires
            old(self).last_seen_sequences@.len() <= DEDUP_WINDOW_CAPACITY,
        ensures
            final(self).last_seen_sequences@ == window_record(
                old(self).last_seen_sequences@,
                header.sequence,
                header.sender_id,
                DEDUP_WINDOW_CAPACITY as int,
            ),
            window_recorded(
                old(self).last_seen_sequences@,
                final(self).last_seen_sequences@,
                header.sequence,
                header.sender_id@,
                DEDUP_WINDOW_CAPACITY as int,
            ),
            window_has(final(self).last_seen_sequences@, header.sequence, header.sender_id@),
            final(self).last_seen_sequences@.len() <= DEDUP_WINDOW_CAPACITY,
            final(self).device_id == old(self).device_id,
            final(self).sequence_counter == old(self).sequence_counter,
            final(self).fragment_assembler == old(self).fragment_assembler,
    {
        window_insert(
            &mut self.last_seen_sequences,
            header.sequence,
            header.sender_id,
            DEDUP_WINDOW_CAPACITY,
        );
    }

    /// Whether the frame's stored checksum matches the one recomputed over
    /// its contents.
    fn verify_checksum(&self, data: &[u8]) -> (r: bool)
        ensures
            r == (data@.len() >= HEADER_SIZE && checksum_ok(data@)),
    {
        if data.len() < HEADER_SIZE {
            return false;
        }

        let stored_checksum = ((data[14] as u16) << 8) | (data[15] as u16);

        let header_part: &[u8] = &data[0..14];
        let payload_part: &[u8] = &data[HEADER_SIZE..data.len()];

        let calculated = calculate_crc16(header_part, payload_part);
        proof {
            assert(header_part@ =~= data@.take(14));
            assert(payload_part@ =~= data@.skip(HEADER_SIZE as int));
        }

        calculated == stored_checksum
    }
}

} // verus!
