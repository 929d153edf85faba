//! The first packet of a stream: flags, scope, the stream's total length and
//! the first part of its data.
use super::{
    extend_bytes, flags::Flags, scope::{parse_scope, Scope}, zero_padded, FlagsError, ScopeError,
};
use crate::reader::ByteReader;
use byteorder::{ByteOrder, NetworkEndian};
use vstd::prelude::*;

verus! {

/// Why a start packet could not be built or read.
#[derive(Debug, PartialEq, Eq, Structural)]
pub enum StartPacketError {
    /// wrong data_part len
    DataPartLength,
    /// couldn't read full data_part
    ReadFullDataPart,
    /// the flags could not be encoded
    Flags(FlagsError),
    /// the scope could not be encoded or decoded
    Scope(ScopeError),
    /// the input ended before the data length was read
    UnexpectedEof,
}

#[derive(Debug, PartialEq, Eq)]
pub struct StartPacket {
    pub stream_id: u8,
    /// this is always Player if sending from server
    pub scope: Scope,
    /// the length of the whole stream
    pub data_length: u16,
    /// [u8; 64 - 2 * 2 - 1]
    pub data_part: Vec<u8>,
}

/// A start packet as a value: its fields, the data part as a sequence.
pub struct StartPacketModel {
    pub stream_id: u8,
    pub scope: Scope,
    pub data_length: u16,
    pub data_part: Seq<u8>,
}

impl View for StartPacket {
    type V = StartPacketModel;

    open spec fn view(&self) -> StartPacketModel {
        StartPacketModel {
            stream_id: self.stream_id,
            scope: self.scope,
            data_length: self.data_length,
            data_part: self.data_part@,
        }
    }
}

/// The value of the big-endian (network order) number with bytes `hi`, `lo`.
pub open spec fn be_u16_value(hi: u8, lo: u8) -> u16 {
    (hi as int * 256 + lo as int) as u16
}

/// The two bytes of `n` in big-endian (network) order.
pub open spec fn be_u16_bytes(n: u16) -> Seq<u8> {
    seq![(n / 256) as u8, (n % 256) as u8]
}

/// byteorder's `<NetworkEndian as ByteOrder>::read_u16`: the first two bytes
/// of `buf` read as a big-endian number (it panics on fewer than two bytes,
/// which `requires` leaves out).
#[verifier::external_body]
fn read_u16_network(buf: &[u8]) -> (r: u16)
    requires
        buf@.len() >= 2,
    ensures
        r == be_u16_value(buf@[0], buf@[1]),
{
    NetworkEndian::read_u16(buf)
}

/// byteorder's `<NetworkEndian as ByteOrder>::write_u16`, into a fresh
/// two-byte buffer: the two bytes of `n`, most significant first.
#[verifier::external_body]
fn write_u16_network(n: u16) -> (r: Vec<u8>)
    ensures
        r@ == be_u16_bytes(n),
{
    let mut buf = vec![0u8; 2];
    NetworkEndian::write_u16(&mut buf, n);
    buf
}

/// What decoding the rest of a start packet (after its flags) from the front
/// of `s` gives; on success 63 bytes are consumed.
pub open spec fn parse_start(stream_id: u8, s: Seq<u8>) -> Result<
    StartPacketModel,
    StartPacketError,
> {
    match parse_scope(s) {
        Err(e) => Err(StartPacketError::Scope(e)),
        Ok(scope) => if s.len() < 4 {
            Err(StartPacketError::UnexpectedEof)
        } else if s.len() < 4 + 59 {
            Err(StartPacketError::ReadFullDataPart)
        } else {
            Ok(
                StartPacketModel {
                    stream_id,
                    scope,
                    data_length: be_u16_value(s[2], s[3]),
                    data_part: s.subrange(4, 63),
                },
            )
        },
    }
}

impl StartPacketModel {
    /// The encoding of a start packet: flags, scope, data length in network
    /// order, data part.
    pub open spec fn spec_encode(self) -> Seq<u8> {
        Flags { is_packet_start: true, stream_id: self.stream_id }.spec_encode()
            + self.scope.spec_encode() + be_u16_bytes(self.data_length) + self.data_part
    }
}

/// A start packet on the wire: the flags byte (start mark set, stream id in
/// the low seven bits), the scope's two bytes, the data length as two bytes
/// with the high byte first, then the data part; decoding reads the length
/// back from those two bytes and takes the 59 bytes after them.
pub proof fn lemma_start_layout(p: StartPacketModel, stream_id: u8, s: Seq<u8>)
    ensures
        p.spec_encode().len() == 5 + p.data_part.len(),
        p.spec_encode()[0] == 128 + p.stream_id % 128,
        p.spec_encode().subrange(1, 3) == p.scope.spec_encode(),
        p.spec_encode()[3] as int * 256 + p.spec_encode()[4] as int == p.data_length,
        p.spec_encode().skip(5) == p.data_part,
        parse_start(stream_id, s) matches Ok(q) ==> q.stream_id == stream_id && q.data_length
            == s[2] as int * 256 + s[3] as int && q.data_part == s.subrange(4, 63)
            && q.scope == parse_scope(s)->Ok_0,
{
    crate::packet::flags::lemma_flags_layout(true, p.stream_id, 0);
    let e = p.spec_encode();
    assert(e.subrange(1, 3) =~= p.scope.spec_encode());
    assert(e.skip(5) =~= p.data_part);
}

impl StartPacket {
    pub const DATA_PART_LENGTH: usize = 59;

    /// A start packet; refused unless `data_part` holds exactly
    /// `DATA_PART_LENGTH` bytes.
    pub fn new<S: Into<Scope>>(stream_id: u8, scope: S, data_length: u16, data_part: Vec<u8>) -> (r:
        Result<Self, StartPacketError>)
        ensures
            r is Ok <==> data_part@.len() == 59,
            r matches Err(e) ==> e == StartPacketError::DataPartLength,
            r matches Ok(p) ==> {
                &&& p.stream_id == stream_id
                &&& p.data_length == data_length
                &&& p.data_part@ == data_part@
                &&& <S as vstd::std_specs::convert::IntoSpec<Scope>>::obeys_into_spec() ==> p.scope == <S as vstd::std_specs::convert::IntoSpec<Scope>>::into_spec(scope)
            },
    {
        Self::new_with_scope(stream_id, scope.into(), data_length, data_part)
    }

    /// `new` for a scope that is already a `Scope`.
    pub fn new_with_scope(stream_id: u8, scope: Scope, data_length: u16, data_part: Vec<u8>) -> (r:
        Result<Self, StartPacketError>)
        ensures
            r is Ok <==> data_part@.len() == 59,
            r matches Err(e) ==> e == StartPacketError::DataPartLength,
            r matches Ok(p) ==> p@ == (StartPacketModel {
                stream_id,
                scope,
                data_length,
                data_part: data_part@,
            }),
    {
        if data_part.len() != Self::DATA_PART_LENGTH {
            return Err(StartPacketError::DataPartLength);
        }
        Ok(Self { stream_id, scope, data_length, data_part })
    }

    /// A start packet whose data part is the next (up to) 59 bytes of
    /// `data_stream`, padded with zeros.
    pub fn new_reader<S: Into<Scope>>(
        stream_id: u8,
        scope: S,
        data_length: u16,
        data_stream: &mut ByteReader,
    ) -> (r: Result<Self, StartPacketError>)
        ensures
            final(data_stream).data() == old(data_stream).data(),
            ({
                let n = if old(data_stream).rest().len() < 59 {
                    old(data_stream).rest().len()
                } else {
                    59
                };
                &&& final(data_stream).rest() == old(data_stream).rest().skip(n as int)
                &&& final(data_stream).pos() == old(data_stream).pos() + n
                &&& r matches Ok(p) && p.stream_id == stream_id && p.data_length == data_length
                    && p.data_part@ == zero_padded(old(data_stream).rest().take(n as int), 59)
                    && (<S as vstd::std_specs::convert::IntoSpec<Scope>>::obeys_into_spec() ==> p.scope == <S as vstd::std_specs::convert::IntoSpec<Scope>>::into_spec(scope))
            }),
    {
        Self::new_reader_with_scope(stream_id, scope.into(), data_length, data_stream)
    }

    /// `new_reader` for a scope that is already a `Scope`.
    pub fn new_reader_with_scope(
        stream_id: u8,
        scope: Scope,
        data_length: u16,
        data_stream: &mut ByteReader,
    ) -> (r: Result<Self, StartPacketError>)
        ensures
            final(data_stream).data() == old(data_stream).data(),
            ({
                let n = if old(data_stream).rest().len() < 59 {
                    old(data_stream).rest().len()
                } else {
                    59
                };
                &&& final(data_stream).rest() == old(data_stream).rest().skip(n as int)
                &&& final(data_stream).pos() == old(data_stream).pos() + n
                &&& r matches Ok(p) && p.stream_id == stream_id && p.data_length == data_length
                    && p.data_part@ == zero_padded(old(data_stream).rest().take(n as int), 59)
                    && p.scope == scope
            }),
    {
        let mut data_part = data_stream.read(Self::DATA_PART_LENGTH);
        let ghost read_part = data_part@;
        while data_part.len() < Self::DATA_PART_LENGTH
            invariant
                read_part.len() <= data_part@.len() <= 59,
                data_part@ == zero_padded(read_part, data_part@.len()),
            decreases 59 - data_part@.len(),
        {
            data_part.push(0);
        }
        Ok(Self { stream_id, scope, data_length, data_part })
    }

    /// Encodes the packet: flags (start), scope, data length in network
    /// order, data part. Writing into a fresh buffer cannot fail, so the
    /// result is always `Ok`.
    pub fn encode(&self) -> (r: Result<Vec<u8>, StartPacketError>)
        ensures
            r matches Ok(v) && v@ == self@.spec_encode(),
    {
        let mut data: Vec<u8> = Vec::with_capacity(64);
        let mut flags = match (Flags { is_packet_start: true, stream_id: self.stream_id }).encode() {
            Ok(v) => v,
            Err(e) => {
                return Err(StartPacketError::Flags(e));
            },
        };
        data.append(&mut flags);
        let mut scope = match self.scope.encode() {
            Ok(v) => v,
            Err(e) => {
                return Err(StartPacketError::Scope(e));
            },
        };
        data.append(&mut scope);
        let mut length = write_u16_network(self.data_length);
        data.append(&mut length);
        extend_bytes(&mut data, &self.data_part);
        Ok(data)
    }

    /// Decodes the rest of a start packet (everything after the flags) from
    /// the front of `data_stream`.
    pub(crate) fn decode(stream_id: u8, data_stream: &mut ByteReader) -> (r: Result<
        Self,
        StartPacketError,
    >)
        ensures
            final(data_stream).data() == old(data_stream).data(),
            old(data_stream).pos() <= final(data_stream).pos(),
            r is Ok <==> parse_start(stream_id, old(data_stream).rest()) is Ok,
            r matches Ok(p) ==> parse_start(stream_id, old(data_stream).rest()) == Ok::<
                StartPacketModel,
                StartPacketError,
            >(p@) && final(data_stream).rest() == old(data_stream).rest().skip(63),
            r matches Err(e) ==> parse_start(stream_id, old(data_stream).rest()) == Err::<
                StartPacketModel,
                StartPacketError,
            >(e),
    {
        let ghost s = old(data_stream).rest();
        let scope = match Scope::decode(data_stream) {
            Ok(scope) => scope,
            Err(e) => {
                return Err(StartPacketError::Scope(e));
            },
        };
        let data_length = match data_stream.read_exact(2) {
            Some(bytes) => read_u16_network(bytes.as_slice()),
            None => {
                return Err(StartPacketError::UnexpectedEof);
            },
        };
        let data_part = data_stream.read(Self::DATA_PART_LENGTH);
        if data_part.len() != Self::DATA_PART_LENGTH {
            return Err(StartPacketError::ReadFullDataPart);
        }
        assert(data_part@ =~= s.subrange(4, 63));
        Ok(Self { stream_id, scope, data_length, data_part })
    }
}

} // verus!
