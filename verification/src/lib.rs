//! Sending and receiving relay messages of the ClassiCube relay plugin.
//!
//! A message ("stream") is cut into 64-byte plugin-message packets
//! ([`packet::Packet`]); a [`events::store::Store`] puts the packets of each
//! incoming stream back together.
use vstd::prelude::*;

pub mod events;
pub mod packet;
pub mod reader;
pub mod round_trip;
pub mod stream;

pub use self::{packet::Packet, reader::ByteReader, stream::Stream};

verus! {

/// Start index of the channels that the relay plugin listens on.
pub const RELAY_CHANNEL_START_INDEX: u8 = 200;

} // verus!
