//! The packets that carry a stream over 64-byte plugin messages.
use crate::reader::ByteReader;
use vstd::prelude::*;

mod continuation;
mod flags;
mod scope;
mod start;

pub use self::continuation::{
    lemma_continue_layout, parse_continue, ContinuePacket, ContinuePacketError, ContinuePacketModel,
};
pub use self::flags::{
    flags_byte, flags_from_byte, lemma_flags_decode_encode, lemma_flags_layout, lemma_flags_encode_decode, parse_flags,
    Flags, FlagsError,
};
pub use self::scope::{
    have_plugin_byte, lemma_scope_decode_encode, lemma_scope_layout, parse_scope, scope_from_bytes, MapScope, PlayerScope,
    Scope, ScopeError, ServerScope,
};
pub use self::start::{
    be_u16_bytes, be_u16_value, lemma_start_layout, parse_start, StartPacket, StartPacketError, StartPacketModel,
};

verus! {

/// Why a packet could not be built, encoded or decoded.
#[derive(Debug, PartialEq, Eq)]
pub enum StreamError {
    LengthOverflow(String),
    /// can't find free outgoing packet id
    PacketIdLimit,
    Flags(FlagsError),
    StartPacket(StartPacketError),
    ContinuePacket(ContinuePacketError),
}

// [u8; 64]
#[derive(Debug, PartialEq, Eq)]
pub enum Packet {
    Start(StartPacket),
    Continue(ContinuePacket),
}

/// A packet as a value.
pub enum PacketModel {
    Start(StartPacketModel),
    Continue(ContinuePacketModel),
}

impl View for Packet {
    type V = PacketModel;

    open spec fn view(&self) -> PacketModel {
        match self {
            Packet::Start(p) => PacketModel::Start(p@),
            Packet::Continue(p) => PacketModel::Continue(p@),
        }
    }
}

impl PacketModel {
    /// The encoding of the packet.
    pub open spec fn spec_encode(self) -> Seq<u8> {
        match self {
            PacketModel::Start(p) => p.spec_encode(),
            PacketModel::Continue(p) => p.spec_encode(),
        }
    }

    /// A packet as the relay sends it: its stream id fits the 7 bits of the
    /// flags byte and its data part fills the rest of the 64 bytes.
    pub open spec fn wf(self) -> bool {
        match self {
            PacketModel::Start(p) => p.stream_id < 128 && p.data_part.len() == 59,
            PacketModel::Continue(p) => p.stream_id < 128 && p.data_part.len() == 63,
        }
    }
}

/// What decoding a packet from the front of `s` gives; on success 64 bytes
/// are consumed.
pub open spec fn parse_packet(s: Seq<u8>) -> Result<PacketModel, StreamError> {
    match parse_flags(s) {
        Err(e) => Err(StreamError::Flags(e)),
        Ok(flags) => if flags.is_packet_start {
            match parse_start(flags.stream_id, s.skip(1)) {
                Ok(p) => Ok(PacketModel::Start(p)),
                Err(e) => Err(StreamError::StartPacket(e)),
            }
        } else {
            match parse_continue(flags.stream_id, s.skip(1)) {
                Ok(p) => Ok(PacketModel::Continue(p)),
                Err(e) => Err(StreamError::ContinuePacket(e)),
            }
        },
    }
}

impl Packet {
    pub const DATA_LENGTH: usize = 64;

    /// Encodes the packet. Writing into a fresh buffer cannot fail, so the
    /// result is always `Ok`.
    pub fn encode(&self) -> (r: Result<Vec<u8>, StreamError>)
        ensures
            r matches Ok(v) && v@ == self@.spec_encode(),
    {
        match self {
            Self::Start(packet) => match packet.encode() {
                Ok(v) => Ok(v),
                Err(e) => Err(StreamError::StartPacket(e)),
            },
            Self::Continue(packet) => match packet.encode() {
                Ok(v) => Ok(v),
                Err(e) => Err(StreamError::ContinuePacket(e)),
            },
        }
    }

    /// Decodes a packet from the front of `data_stream`: the flags byte
    /// says whether a start or a continue packet follows.
    pub fn decode(data_stream: &mut ByteReader) -> (r: Result<Self, StreamError>)
        ensures
            final(data_stream).data() == old(data_stream).data(),
            old(data_stream).pos() <= final(data_stream).pos(),
            r is Ok <==> parse_packet(old(data_stream).rest()) is Ok,
            r matches Ok(p) ==> parse_packet(old(data_stream).rest()) == Ok::<
                PacketModel,
                StreamError,
            >(p@) && final(data_stream).rest() == old(data_stream).rest().skip(64),
            r matches Err(e) ==> parse_packet(old(data_stream).rest()) == Err::<
                PacketModel,
                StreamError,
            >(e),
    {
        let ghost s = old(data_stream).rest();
        let flags = match Flags::decode(data_stream) {
            Ok(f) => f,
            Err(e) => {
                return Err(StreamError::Flags(e));
            },
        };
        if flags.is_packet_start {
            match StartPacket::decode(flags.stream_id, data_stream) {
                Ok(p) => {
                    Ok(Packet::Start(p))
                },
                Err(e) => Err(StreamError::StartPacket(e)),
            }
        } else {
            match ContinuePacket::decode(flags.stream_id, data_stream) {
                Ok(p) => {
                    Ok(Packet::Continue(p))
                },
                Err(e) => Err(StreamError::ContinuePacket(e)),
            }
        }
    }
}

/// Every packet as the relay sends it is encoded in exactly
/// `Packet::DATA_LENGTH` (64) bytes, and decoding that encoding, whatever
/// follows it, gives the packet back.
pub proof fn lemma_packet_decode_encode(p: PacketModel, tail: Seq<u8>)
    requires
        p.wf(),
    ensures
        p.spec_encode().len() == 64,
        parse_packet(p.spec_encode() + tail) == Ok::<PacketModel, StreamError>(p),
{
    let s = p.spec_encode() + tail;
    match p {
        PacketModel::Start(sp) => {
            let f = Flags { is_packet_start: true, stream_id: sp.stream_id };
            lemma_flags_decode_encode(f);
            assert(parse_flags(s) == parse_flags(f.spec_encode()));
            let rest = s.skip(1);
            assert(rest =~= sp.scope.spec_encode() + (be_u16_bytes(sp.data_length) + sp.data_part
                + tail));
            lemma_scope_decode_encode(sp.scope, be_u16_bytes(sp.data_length) + sp.data_part + tail);
            assert(rest.subrange(4, 63) =~= sp.data_part);
        },
        PacketModel::Continue(cp) => {
            let f = Flags { is_packet_start: false, stream_id: cp.stream_id };
            lemma_flags_decode_encode(f);
            assert(parse_flags(s) == parse_flags(f.spec_encode()));
            assert(s.skip(1).subrange(0, 63) =~= cp.data_part);
        },
    }
}

/// `s` followed by zeros up to length `n`.
pub open spec fn zero_padded(s: Seq<u8>, n: nat) -> Seq<u8> {
    s + Seq::new((n - s.len()) as nat, |_i: int| 0u8)
}

/// Appends `bytes` to `out`.
pub(crate) fn extend_bytes(out: &mut Vec<u8>, bytes: &Vec<u8>)
    ensures
        final(out)@ == old(out)@ + bytes@,
{
    let ghost start = old(out)@;
    let mut i: usize = 0;
    while i < bytes.len()
        invariant
            i <= bytes@.len(),
            out@ == start + bytes@.take(i as int),
        decreases bytes@.len() - i,
    {
        out.push(bytes[i]);
        i = i + 1;
    }
}

} // verus!
