//! Protocol engine for a short-range wireless mesh-messaging network.
//!
//! Application messages are carried in frames of at most 244 bytes: a fixed
//! 16-byte header followed by a payload. Messages larger than one frame are
//! split into fragments and reassembled at the receiver. The engine keeps all
//! state in fixed-capacity structures, suppresses duplicate and looping
//! retransmissions, verifies a CRC-16 integrity checksum, and decides which
//! messages are flooded onward to extend mesh reach.

pub mod checksum;
pub mod dedup;
pub mod fragmentation;
pub mod handler;
pub mod message;
pub mod packet;
pub mod router;
pub mod text;
