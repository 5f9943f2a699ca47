//! Text payload codec.
//!
//! Text messages carry UTF-8 bytes. Parsing never fails on malformed bytes:
//! only the longest valid UTF-8 prefix of the payload is kept, so a corrupted
//! tail degrades gracefully instead of dropping the message.

use vstd::prelude::*;
use vstd::utf8::{decode_utf8, encode_utf8, valid_utf8};

use crate::message::{spec_new_header, Message, MessageType, MAX_MESSAGE_SIZE};

verus! {

/// The length of the longest prefix of `bytes` that is valid UTF-8.
pub open spec fn utf8_prefix_len(bytes: Seq<u8>) -> int
    decreases bytes.len(),
{
    if bytes.len() == 0 {
        0
    } else if valid_utf8(bytes) {
        bytes.len() as int
    } else {
        utf8_prefix_len(bytes.drop_last())
    }
}

pub proof fn lemma_utf8_prefix_len_bounds(bytes: Seq<u8>)
    ensures
        0 <= utf8_prefix_len(bytes) <= bytes.len(),
    decreases bytes.len(),
{
    if bytes.len() > 0 && !valid_utf8(bytes) {
        lemma_utf8_prefix_len_bounds(bytes.drop_last());
    }
}

/// Relies on core::str::from_utf8: it accepts exactly the valid UTF-8 byte
/// sequences, decoding them to their characters, and on failure
/// Utf8Error::valid_up_to gives the length of the longest prefix that is
/// valid UTF-8, which is then decoded instead.
#[verifier::external_body]
fn utf8_prefix(payload: &[u8]) -> (r: (String, usize))
    ensures
        r.1 == utf8_prefix_len(payload@),
        r.0@ == decode_utf8(payload@.take(utf8_prefix_len(payload@))),
{
    match core::str::from_utf8(payload) {
        Ok(text) => (text.to_owned(), payload.len()),
        Err(e) => {
            let n = e.valid_up_to();
            let text = core::str::from_utf8(&payload[..n]).unwrap_or("");
            (text.to_owned(), n)
        },
    }
}

pub struct TextMessage;

impl TextMessage {
    /// Build a text message carrying the UTF-8 bytes of `text`; rejected when
    /// the text does not fit in one complete message.
    pub fn create(sender_id: [u8; 6], sequence: u16, text: &str) -> (r: Result<Message, ()>)
        ensures
            r is Ok <==> encode_utf8(text@).len() <= MAX_MESSAGE_SIZE,
            r matches Ok(m) ==> m.header == spec_new_header(MessageType::Text, sender_id, sequence)
                && m.payload@ == encode_utf8(text@) && m.wf(),
    {
        let text_bytes = text.as_bytes();
        if text_bytes.len() > MAX_MESSAGE_SIZE {
            return Err(());
        }
        Message::new(MessageType::Text, sender_id, sequence, text_bytes)
    }

    /// Decode a payload as text: the longest valid UTF-8 prefix is kept, so
    /// malformed bytes never fail the parse outright. Only a payload past the
    /// message size limit is rejected.
    pub fn parse(payload: &[u8]) -> (r: Result<String, ()>)
        ensures
            r matches Ok(text) ==> text@ == decode_utf8(
                payload@.take(utf8_prefix_len(payload@)),
            ),
            r is Ok <==> utf8_prefix_len(payload@) <= MAX_MESSAGE_SIZE,
            payload@.len() <= MAX_MESSAGE_SIZE ==> r is Ok,
    {
        proof {
            lemma_utf8_prefix_len_bounds(payload@);
        }
        let (text, valid_len) = utf8_prefix(payload);
        if valid_len > MAX_MESSAGE_SIZE {
            return Err(());
        }
        Ok(text)
    }

    /// Build an announce message carrying the device name, or a fixed default
    /// when the name is empty.
    pub fn create_announce(device_id: [u8; 6], sequence: u16, device_name: &str) -> (r: Result<
        Message,
        (),
    >)
        ensures
            ({
                let name = if device_name@.len() == 0 {
                    "device online"@
                } else {
                    device_name@
                };
                &&& (r is Ok <==> encode_utf8(name).len() <= MAX_MESSAGE_SIZE)
                &&& (r matches Ok(m) ==> m.header == spec_new_header(
                    MessageType::Announce,
                    device_id,
                    sequence,
                ) && m.payload@ == encode_utf8(name) && m.wf())
            }),
    {
        let announce_text = if device_name.is_empty() {
            "device online"
        } else {
            device_name
        };
        Message::new(MessageType::Announce, device_id, sequence, announce_text.as_bytes())
    }
}

} // verus!
