//! Incoming streams: the pieces that the listener puts back together.
use crate::RELAY_CHANNEL_START_INDEX;
use vstd::prelude::*;

pub mod store;

verus! {

/// Why a listener or a partial stream could not be set up.
#[derive(Debug, PartialEq, Eq, Structural)]
pub enum PartialStreamError {
    /// {0} < RELAY_CHANNEL_START_INDEX
    StartIndex(u8),
}

/// Checks the channel that a listener is to listen on: the relay plugin
/// only relays channels from `RELAY_CHANNEL_START_INDEX` on.
pub fn check_channel(channel: u8) -> (r: Result<(), PartialStreamError>)
    ensures
        r is Ok <==> channel >= RELAY_CHANNEL_START_INDEX,
        r matches Err(e) ==> e == PartialStreamError::StartIndex(channel),
{
    if channel < RELAY_CHANNEL_START_INDEX {
        return Err(PartialStreamError::StartIndex(channel));
    }
    Ok(())
}

/// An incoming stream that is being put back together.
#[derive(Debug)]
pub struct PartialStream {
    player_id: u8,
    data_length: u16,
    data_buffer: Vec<u8>,
}

/// A partial stream as a value.
pub struct PartialStreamModel {
    /// the player that sent the stream
    pub player_id: u8,
    /// the length of the whole stream
    pub data_length: u16,
    /// the data received so far
    pub data_buffer: Seq<u8>,
}

impl PartialStreamModel {
    /// The buffer never holds more than the stream's length.
    pub open spec fn wf(self) -> bool {
        self.data_buffer.len() <= self.data_length
    }

    /// All of the stream's data has arrived.
    pub open spec fn is_finished(self) -> bool {
        self.data_buffer.len() == self.data_length
    }

    /// The stream after a data part arrived: as much of the part as the
    /// stream still misses is appended, the rest (padding) is dropped.
    pub open spec fn write_part(self, data_part: Seq<u8>) -> PartialStreamModel {
        let missing = self.data_length - self.data_buffer.len();
        let n = if data_part.len() < missing {
            data_part.len() as int
        } else {
            missing
        };
        PartialStreamModel {
            player_id: self.player_id,
            data_length: self.data_length,
            data_buffer: self.data_buffer + data_part.take(n),
        }
    }
}

impl View for PartialStream {
    type V = PartialStreamModel;

    closed spec fn view(&self) -> PartialStreamModel {
        PartialStreamModel {
            player_id: self.player_id,
            data_length: self.data_length,
            data_buffer: self.data_buffer@,
        }
    }
}

impl PartialStream {
    #[verifier::type_invariant]
    spec fn buffer_within_length(&self) -> bool {
        self.data_buffer.len() <= self.data_length
    }

    /// A stream from `player_id` of `data_length` bytes, none of them
    /// received yet.
    pub fn new(player_id: u8, data_length: u16) -> (r: Self)
        ensures
            r@ == (PartialStreamModel { player_id, data_length, data_buffer: Seq::empty() }),
    {
        PartialStream { player_id, data_length, data_buffer: Vec::with_capacity(data_length as usize) }
    }

    /// The player that sent the stream.
    pub fn player_id(&self) -> (r: u8)
        ensures
            r == self@.player_id,
    {
        self.player_id
    }

    /// The length of the whole stream.
    pub fn data_length(&self) -> (r: u16)
        ensures
            r == self@.data_length,
    {
        self.data_length
    }

    /// The data received so far.
    pub fn data(&self) -> (r: &Vec<u8>)
        ensures
            r@ == self@.data_buffer,
    {
        &self.data_buffer
    }

    /// All of the stream's data has arrived.
    pub fn is_finished(&self) -> (r: bool)
        ensures
            r == self@.is_finished(),
            self@.wf(),
    {
        proof {
            use_type_invariant(self);
        }
        self.data_buffer.len() == self.data_length as usize
    }

    /// Appends as much of `data_part` as the stream still misses. Writing
    /// into the buffer cannot fail, so the result is always `Ok`.
    pub fn write_part(&mut self, data_part: Vec<u8>) -> (r: Result<(), PartialStreamError>)
        ensures
            r is Ok,
            final(self)@ == old(self)@.write_part(data_part@),
            final(self)@.wf(),
            final(self)@.player_id == old(self)@.player_id,
            final(self)@.data_length == old(self)@.data_length,
            old(self)@.data_buffer.is_prefix_of(final(self)@.data_buffer),
            final(self)@.data_buffer.len() == if data_part@.len() < old(self)@.data_length
                - old(self)@.data_buffer.len() {
                (old(self)@.data_buffer.len() + data_part@.len()) as int
            } else {
                old(self)@.data_length as int
            },
            final(self)@.data_buffer.skip(old(self)@.data_buffer.len() as int) == data_part@.take(
                final(self)@.data_buffer.len() - old(self)@.data_buffer.len(),
            ),
    {
        proof {
            use_type_invariant(&*self);
        }
        let missing = self.data_length as usize - self.data_buffer.len();
        let len = if data_part.len() < missing {
            data_part.len()
        } else {
            missing
        };
        let mut buffer: Vec<u8> = Vec::new();
        std::mem::swap(&mut buffer, &mut self.data_buffer);
        let ghost start = buffer@;
        let mut i: usize = 0;
        while i < len
            invariant
                i <= len,
                len <= data_part@.len(),
                buffer@ == start + data_part@.take(i as int),
            decreases len - i,
        {
            buffer.push(data_part[i]);
            i = i + 1;
        }
        self.data_buffer = buffer;
        assert(self.data_buffer@.skip(start.len() as int) =~= data_part@.take(len as int));
        Ok(())
    }
}

} // verus!
