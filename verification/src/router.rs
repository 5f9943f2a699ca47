//! Relay (flood) policy.
//!
//! A fully reassembled message is flooded onward when it did not originate
//! here, still has hop budget, has not been relayed before, is not an
//! acknowledgement, and relaying is enabled. Before re-transmission the hop
//! budget is decremented and the message is marked as relayed.

use vstd::prelude::*;

use crate::dedup::{window_contains, window_has, window_insert, window_record};
use crate::message::{ids_match, Message, MessageType};

verus! {

/// Capacity of the loop-prevention window.
pub const RELAY_WINDOW_CAPACITY: usize = 16;

/// Relay policy state: this device's identity, whether relaying is enabled,
/// and the window of recently relayed messages.
pub struct MessageRouter {
    pub device_id: [u8; 6],
    pub relay_enabled: bool,
    pub seen_messages: Vec<(u16, [u8; 6])>,
}

/// Whether a message qualifies for relay in the given router state: not our
/// own traffic, hop budget left, not relayed before, not an acknowledgement,
/// and relaying enabled.
pub open spec fn spec_should_relay(r: MessageRouter, m: Message) -> bool {
    &&& m.header.sender_id@ != r.device_id@
    &&& m.header.ttl != 0
    &&& !window_has(r.seen_messages@, m.header.sequence, m.header.sender_id@)
    &&& m.header.msg_type != MessageType::Ack
    &&& r.relay_enabled
}

impl MessageRouter {
    /// The loop-prevention window stays within its capacity.
    pub open spec fn wf(self) -> bool {
        self.seen_messages@.len() <= RELAY_WINDOW_CAPACITY
    }

    pub fn new(device_id: [u8; 6]) -> (r: MessageRouter)
        ensures
            r.wf(),
            r.device_id == device_id,
            r.relay_enabled,
            r.seen_messages@.len() == 0,
    {
        MessageRouter { device_id, relay_enabled: true, seen_messages: Vec::new() }
    }

    /// Decide whether to flood a message onward. A positive decision records
    /// the message's key, so a repeat of the same key is refused afterwards.
    pub fn should_relay(&mut self, message: &Message) -> (relay: bool)
        requires
            old(self).wf(),
        ensures
            final(self).wf(),
            relay == spec_should_relay(*old(self), *message),
            final(self).device_id == old(self).device_id,
            final(self).relay_enabled == old(self).relay_enabled,
            !relay ==> *final(self) == *old(self),
            relay ==> final(self).seen_messages@ == window_record(
                old(self).seen_messages@,
                message.header.sequence,
                message.header.sender_id,
                RELAY_WINDOW_CAPACITY as int,
            ),
            relay ==> window_has(
                final(self).seen_messages@,
                message.header.sequence,
                message.header.sender_id@,
            ),
    {
        // never relay our own traffic
        if ids_match(&message.header.sender_id, &self.device_id) {
            return false;
        }
        // hop budget exhausted
        if message.header.ttl == 0 {
            return false;
        }
        // already relayed: prevent loops
        if window_contains(
            &self.seen_messages,
            message.header.sequence,
            &message.header.sender_id,
        ) {
            return false;
        }
        // acknowledgements are point-to-point, never flooded
        if message.header.msg_type == MessageType::Ack {
            return false;
        }
        if !self.relay_enabled {
            return false;
        }

        window_insert(
            &mut self.seen_messages,
            message.header.sequence,
            message.header.sender_id,
            RELAY_WINDOW_CAPACITY,
        );
        true
    }

    /// Spend one hop of the budget (never below zero) and mark the message
    /// as relayed before it is re-transmitted. Nothing else changes.
    pub fn prepare_for_relay(&self, message: &mut Message)
        ensures
            final(message).header.ttl == (if old(message).header.ttl == 0 {
                0u8
            } else {
                (old(message).header.ttl - 1) as u8
            }),
            final(message).header.flags == old(message).header.flags | 0x01,
            final(message).header.version == old(message).header.version,
            final(message).header.msg_type == old(message).header.msg_type,
            final(message).header.sender_id == old(message).header.sender_id,
            final(message).header.sequence == old(message).header.sequence,
            final(message).header.fragment_index == old(message).header.fragment_index,
            final(message).header.total_fragments == old(message).header.total_fragments,
            final(message).header.checksum == old(message).header.checksum,
            final(message).payload == old(message).payload,
    {
        message.header.ttl = message.header.ttl.saturating_sub(1);
        message.header.flags = message.header.flags | 0x01;
    }

    /// Whether this device should process the message itself. All messages
    /// are, in a pure broadcast mesh; kept as an extension point for targeted
    /// delivery.
    pub fn is_for_us(&self, message: &Message) -> (r: bool)
        ensures
            r,
    {
        match message.header.msg_type {
            // broadcast messages
            MessageType::Text | MessageType::Announce => true,
            // acknowledgements might become targeted
            MessageType::Ack => true,
            // process all relay messages
            MessageType::Relay => true,
        }
    }

    pub fn set_relay_enabled(&mut self, enabled: bool)
        ensures
            final(self).relay_enabled == enabled,
            final(self).device_id == old(self).device_id,
            final(self).seen_messages == old(self).seen_messages,
    {
        self.relay_enabled = enabled;
    }
}

} // verus!
