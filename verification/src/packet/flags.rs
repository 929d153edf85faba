//! The first byte of every packet: whether it starts a stream, and the
//! stream's id.
use crate::reader::ByteReader;
use vstd::prelude::*;

verus! {

/// Why a flags byte could not be read.
#[derive(Debug, PartialEq, Eq, Structural)]
pub enum FlagsError {
    /// The input ended before the flags byte.
    UnexpectedEof,
}

// u8
// is_packet_start: mask 1000_0000
// stream_id: mask 0111_1111
#[derive(Debug, Clone, Copy, PartialEq, Eq, Structural)]
pub struct Flags {
    /// is a start packet, or is a continuation
    pub is_packet_start: bool,
    /// the stream this packet belongs to; only its low 7 bits go on the wire
    pub stream_id: u8,
}

/// The byte that encodes a packet's flags: bit 7 marks a start packet, the
/// low 7 bits hold the stream id.
pub open spec fn flags_byte(is_packet_start: bool, stream_id: u8) -> u8 {
    (if is_packet_start {
        0x80u8
    } else {
        0u8
    }) | (stream_id & 0x7fu8)
}

/// The flags that a byte encodes.
pub open spec fn flags_from_byte(b: u8) -> Flags {
    Flags { is_packet_start: (b & 0x80u8) != 0u8, stream_id: b & 0x7fu8 }
}

/// What decoding flags from the front of `s` gives; on success one byte is
/// consumed.
pub open spec fn parse_flags(s: Seq<u8>) -> Result<Flags, FlagsError> {
    if s.len() == 0 {
        Err(FlagsError::UnexpectedEof)
    } else {
        Ok(flags_from_byte(s[0]))
    }
}

impl Flags {
    /// The encoding of these flags.
    pub open spec fn spec_encode(self) -> Seq<u8> {
        seq![flags_byte(self.is_packet_start, self.stream_id)]
    }

    /// Encodes the flags as one byte. Writing into a fresh buffer cannot
    /// fail, so the result is always `Ok`.
    pub fn encode(&self) -> (r: Result<Vec<u8>, FlagsError>)
        ensures
            r matches Ok(v) && v@ == self.spec_encode(),
    {
        let mut data: Vec<u8> = Vec::with_capacity(1);
        let start_bit: u8 = if self.is_packet_start {
            0b1000_0000
        } else {
            0
        };
        let mut b: u8 = 0;
        b = b | start_bit;
        b = b | (self.stream_id & 0b0111_1111);
        assert((0u8 | start_bit) | (self.stream_id & 0x7fu8) == start_bit | (self.stream_id
            & 0x7fu8)) by (bit_vector);
        data.push(b);
        Ok(data)
    }

    /// Decodes the flags byte at the front of `data_stream`.
    pub fn decode(data_stream: &mut ByteReader) -> (r: Result<Flags, FlagsError>)
        ensures
            final(data_stream).data() == old(data_stream).data(),
            r == parse_flags(old(data_stream).rest()),
            r is Ok ==> final(data_stream).rest() == old(data_stream).rest().skip(1)
                && final(data_stream).pos() == old(data_stream).pos() + 1,
            r is Err ==> final(data_stream).pos() == old(data_stream).pos(),
    {
        match data_stream.read_u8() {
            Some(byte) => {
                let is_packet_start = (byte & 0b1000_0000) != 0;
                let stream_id = byte & 0b0111_1111;
                Ok(Flags { is_packet_start, stream_id })
            },
            None => Err(FlagsError::UnexpectedEof),
        }
    }
}

/// Decoding the encoding of flags gives them back, with the stream id cut to
/// its low 7 bits; so the flags come back unchanged exactly when
/// `stream_id < 128`.
pub proof fn lemma_flags_decode_encode(f: Flags)
    ensures
        parse_flags(f.spec_encode()) == Ok::<Flags, FlagsError>(
            Flags { is_packet_start: f.is_packet_start, stream_id: f.stream_id & 0x7fu8 },
        ),
        parse_flags(f.spec_encode()) == Ok::<Flags, FlagsError>(f) <==> f.stream_id < 128,
{
    let id = f.stream_id;
    if f.is_packet_start {
        assert((0x80u8 | (id & 0x7fu8)) & 0x80u8 != 0u8) by (bit_vector);
        assert((0x80u8 | (id & 0x7fu8)) & 0x7fu8 == id & 0x7fu8) by (bit_vector);
    } else {
        assert((0u8 | (id & 0x7fu8)) & 0x80u8 == 0u8) by (bit_vector);
        assert((0u8 | (id & 0x7fu8)) & 0x7fu8 == id & 0x7fu8) by (bit_vector);
    }
    assert((id & 0x7fu8) == id <==> id < 128) by (bit_vector);
}

/// The flags byte holds the start mark in its top bit and the stream id in
/// the seven bits below: as a number it is 128 for a start packet, 0 for a
/// continuation, plus the stream id modulo 128; decoding reads them back
/// from those places.
pub proof fn lemma_flags_layout(is_packet_start: bool, stream_id: u8, b: u8)
    ensures
        flags_byte(is_packet_start, stream_id) == (if is_packet_start {
            128int
        } else {
            0int
        }) + stream_id % 128,
        flags_from_byte(b).is_packet_start == (b >= 128),
        flags_from_byte(b).stream_id == b % 128,
{
    let id = stream_id;
    assert(id & 0x7fu8 == id % 128) by (bit_vector);
    assert((0x80u8 | (id & 0x7fu8)) == 128 + id % 128) by (bit_vector);
    assert((0u8 | (id & 0x7fu8)) == id % 128) by (bit_vector);
    assert((b & 0x80u8 != 0u8) == (b >= 128)) by (bit_vector);
    assert(b & 0x7fu8 == b % 128) by (bit_vector);
}

/// Every byte is the encoding of the flags it decodes to.
pub proof fn lemma_flags_encode_decode(b: u8)
    ensures
        parse_flags(seq![b]) matches Ok(f) && f.spec_encode() == seq![b],
{
    assert(((if (b & 0x80u8) != 0u8 {
        0x80u8
    } else {
        0u8
    }) | ((b & 0x7fu8) & 0x7fu8)) == b) by (bit_vector);
}

} // verus!
