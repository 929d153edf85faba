//! The packets after the first one of a stream: flags and the next part of
//! the data.
use super::{extend_bytes, flags::Flags, zero_padded, FlagsError};
use crate::reader::ByteReader;
use vstd::prelude::*;

verus! {

/// Why a continue packet could not be built or read.
#[derive(Debug, PartialEq, Eq, Structural)]
pub enum ContinuePacketError {
    /// wrong data_part len
    DataPartLength,
    /// couldn't read full data_part
    ReadFullDataPart,
    /// the flags could not be encoded
    Flags(FlagsError),
}

#[derive(Debug, PartialEq, Eq)]
pub struct ContinuePacket {
    pub stream_id: u8,
    /// [u8; 64 - 1]
    pub data_part: Vec<u8>,
}

/// A continue packet as a value: its stream id and its data part.
pub struct ContinuePacketModel {
    pub stream_id: u8,
    pub data_part: Seq<u8>,
}

impl View for ContinuePacket {
    type V = ContinuePacketModel;

    open spec fn view(&self) -> ContinuePacketModel {
        ContinuePacketModel { stream_id: self.stream_id, data_part: self.data_part@ }
    }
}

/// What decoding the rest of a continue packet (after its flags) from the
/// front of `s` gives; on success 63 bytes are consumed.
pub open spec fn parse_continue(stream_id: u8, s: Seq<u8>) -> Result<
    ContinuePacketModel,
    ContinuePacketError,
> {
    if s.len() < 63 {
        Err(ContinuePacketError::ReadFullDataPart)
    } else {
        Ok(ContinuePacketModel { stream_id, data_part: s.subrange(0, 63) })
    }
}

impl ContinuePacketModel {
    /// The encoding of a continue packet: flags, data part.
    pub open spec fn spec_encode(self) -> Seq<u8> {
        Flags { is_packet_start: false, stream_id: self.stream_id }.spec_encode() + self.data_part
    }
}

/// A continue packet on the wire: the flags byte (start mark clear, stream
/// id in the low seven bits), then the data part; decoding takes the 63
/// bytes after the flags.
pub proof fn lemma_continue_layout(p: ContinuePacketModel, stream_id: u8, s: Seq<u8>)
    ensures
        p.spec_encode().len() == 1 + p.data_part.len(),
        p.spec_encode()[0] == p.stream_id % 128,
        p.spec_encode().skip(1) == p.data_part,
        parse_continue(stream_id, s) matches Ok(q) ==> q.stream_id == stream_id && q.data_part
            == s.subrange(0, 63),
{
    crate::packet::flags::lemma_flags_layout(false, p.stream_id, 0);
    assert(p.spec_encode().skip(1) =~= p.data_part);
}

impl ContinuePacket {
    pub const DATA_PART_LENGTH: usize = 63;

    /// A continue packet; refused unless `data_part` holds exactly
    /// `DATA_PART_LENGTH` bytes.
    pub fn new(stream_id: u8, data_part: Vec<u8>) -> (r: Result<Self, ContinuePacketError>)
        ensures
            r is Ok <==> data_part@.len() == 63,
            r matches Err(e) ==> e == ContinuePacketError::DataPartLength,
            r matches Ok(p) ==> p.stream_id == stream_id && p.data_part@ == data_part@,
    {
        if data_part.len() != Self::DATA_PART_LENGTH {
            return Err(ContinuePacketError::DataPartLength);
        }
        Ok(Self { stream_id, data_part })
    }

    /// A continue packet whose data part is the next (up to) 63 bytes of
    /// `data_stream`, padded with zeros.
    pub fn new_reader(stream_id: u8, data_stream: &mut ByteReader) -> (r: Result<
        Self,
        ContinuePacketError,
    >)
        ensures
            final(data_stream).data() == old(data_stream).data(),
            ({
                let n = if old(data_stream).rest().len() < 63 {
                    old(data_stream).rest().len()
                } else {
                    63
                };
                &&& final(data_stream).rest() == old(data_stream).rest().skip(n as int)
                &&& final(data_stream).pos() == old(data_stream).pos() + n
                &&& r matches Ok(p) && p.stream_id == stream_id && p.data_part@ == zero_padded(
                    old(data_stream).rest().take(n as int),
                    63,
                )
            }),
    {
        let mut data_part = data_stream.read(Self::DATA_PART_LENGTH);
        let ghost read_part = data_part@;
        while data_part.len() < Self::DATA_PART_LENGTH
            invariant
                read_part.len() <= data_part@.len() <= 63,
                data_part@ == zero_padded(read_part, data_part@.len()),
            decreases 63 - data_part@.len(),
        {
            data_part.push(0);
        }
        Self::new(stream_id, data_part)
    }

    /// Encodes the packet: flags (continuation), data part. Writing into a
    /// fresh buffer cannot fail, so the result is always `Ok`.
    pub fn encode(&self) -> (r: Result<Vec<u8>, ContinuePacketError>)
        ensures
            r matches Ok(v) && v@ == self@.spec_encode(),
    {
        let mut data: Vec<u8> = Vec::with_capacity(64);
        let mut flags = match (Flags { is_packet_start: false, stream_id: self.stream_id }).encode() {
            Ok(v) => v,
            Err(e) => {
                return Err(ContinuePacketError::Flags(e));
            },
        };
        data.append(&mut flags);
        extend_bytes(&mut data, &self.data_part);
        Ok(data)
    }

    /// Decodes the rest of a continue packet (everything after the flags)
    /// from the front of `data_stream`.
    pub(crate) fn decode(stream_id: u8, data_stream: &mut ByteReader) -> (r: Result<
        Self,
        ContinuePacketError,
    >)
        ensures
            final(data_stream).data() == old(data_stream).data(),
            old(data_stream).pos() <= final(data_stream).pos(),
            r is Ok <==> parse_continue(stream_id, old(data_stream).rest()) is Ok,
            r matches Ok(p) ==> parse_continue(stream_id, old(data_stream).rest()) == Ok::<
                ContinuePacketModel,
                ContinuePacketError,
            >(p@) && final(data_stream).rest() == old(data_stream).rest().skip(63),
            r matches Err(e) ==> parse_continue(stream_id, old(data_stream).rest()) == Err::<
                ContinuePacketModel,
                ContinuePacketError,
            >(e),
    {
        let data_part = data_stream.read(Self::DATA_PART_LENGTH);
        if data_part.len() != Self::DATA_PART_LENGTH {
            return Err(ContinuePacketError::ReadFullDataPart);
        }
        Ok(Self { stream_id, data_part })
    }
}

} // verus!
