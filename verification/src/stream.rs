//! Outgoing streams: a message cut into the packets that carry it.
use crate::packet::{
    extend_bytes, zero_padded, ContinuePacket, ContinuePacketError, ContinuePacketModel, Packet,
    PacketModel, Scope, StartPacket, StartPacketError, StartPacketModel,
};
use crate::reader::ByteReader;
use crate::round_trip::{data_parts, lemma_packets_carry_data};
use std::collections::HashSet;
use vstd::prelude::*;

verus! {

broadcast use vstd::std_specs::hash::group_hash_axioms;

pub const PLUGIN_MESSAGE_DATA_LENGTH: usize = 64;

/// Why a stream could not be made or cut into packets.
#[derive(Debug, PartialEq, Eq)]
pub enum StreamError {
    LengthOverflow(String),
    /// can't find free outgoing packet id
    PacketIdLimit,
    StartPacket(StartPacketError),
    ContinuePacket(ContinuePacketError),
}

/// The ids of the outgoing streams that are open; a new stream takes the
/// lowest id (below 128) that is not among them.
pub struct OutgoingPacketIds {
    used: HashSet<u8>,
}

impl View for OutgoingPacketIds {
    type V = Set<u8>;

    closed spec fn view(&self) -> Set<u8> {
        self.used@
    }
}

impl OutgoingPacketIds {
    /// No id in use.
    pub fn new() -> (r: Self)
        ensures
            r@ == Set::<u8>::empty(),
    {
        OutgoingPacketIds { used: HashSet::new() }
    }
}

impl Default for OutgoingPacketIds {
    fn default() -> (r: Self)
        ensures
            r@ == Set::<u8>::empty(),
    {
        Self::new()
    }
}

// [u8; 64]
#[derive(Debug)]
pub struct Stream {
    stream_id: u8,
    pub data: Vec<u8>,
    pub scope: Scope,
}

/// A stream as a value: its id, its data and its scope.
pub struct StreamModel {
    pub stream_id: u8,
    pub data: Seq<u8>,
    pub scope: Scope,
}

impl View for Stream {
    type V = StreamModel;

    closed spec fn view(&self) -> StreamModel {
        StreamModel { stream_id: self.stream_id, data: self.data@, scope: self.scope }
    }
}

/// How many packets carry a stream of `len` bytes: one start packet with up
/// to 59 bytes, then continue packets with up to 63 bytes each.
pub open spec fn packet_count(len: nat) -> nat {
    if len <= 59 {
        1
    } else {
        1 + ((len - 59) + 62) as nat / 63
    }
}

/// Where the data of packet `i` (`i >= 1`) of a stream begins.
pub open spec fn continue_offset(i: int) -> int {
    59 + 63 * (i - 1)
}

/// `data[start..end]`, with both ends cut to the length of `data`.
pub open spec fn clamped_range(data: Seq<u8>, start: int, end: int) -> Seq<u8> {
    let len = data.len() as int;
    let s = if start < len {
        start
    } else {
        len
    };
    let e = if end < len {
        end
    } else {
        len
    };
    data.subrange(s, e)
}

/// Packet `i` of the stream with id `stream_id`, scope `scope` and data
/// `data`: packet 0 starts the stream with the first 59 bytes, packet `i`
/// continues it with the next 63; each data part is padded with zeros.
pub open spec fn stream_packet(stream_id: u8, scope: Scope, data: Seq<u8>, i: int) -> PacketModel {
    if i == 0 {
        PacketModel::Start(
            StartPacketModel {
                stream_id,
                scope,
                data_length: data.len() as u16,
                data_part: zero_padded(clamped_range(data, 0, 59), 59),
            },
        )
    } else {
        PacketModel::Continue(
            ContinuePacketModel {
                stream_id,
                data_part: zero_padded(
                    clamped_range(data, continue_offset(i), continue_offset(i) + 63),
                    63,
                ),
            },
        )
    }
}

/// Every packet of a stream, in order.
pub open spec fn stream_packets(stream_id: u8, scope: Scope, data: Seq<u8>) -> Seq<PacketModel> {
    Seq::new(packet_count(data.len()), |i: int| stream_packet(stream_id, scope, data, i))
}

proof fn lemma_packet_count(len: nat, k: nat)
    requires
        k >= 1,
        len <= continue_offset(k as int),
        k >= 2 ==> continue_offset(k - 1) < len,
        k == 1 ==> len <= 59,
    ensures
        k == packet_count(len),
{
    if k >= 2 {
        let m = len - 59;
        assert((m + 62) / 63 == k - 1) by (nonlinear_arith)
            requires
                63 * (k - 2) < m <= 63 * (k - 1),
                k >= 2,
        ;
    }
}

impl Stream {
    /// The id of this stream, shared by all its packets.
    pub fn stream_id(&self) -> (r: u8)
        ensures
            r == self@.stream_id,
    {
        self.stream_id
    }

    /// The data of the stream.
    pub fn data(&self) -> (r: &Vec<u8>)
        ensures
            r@ == self@.data,
    {
        &self.data
    }

    /// Who the stream is addressed to.
    pub fn scope(&self) -> (r: Scope)
        ensures
            r == self@.scope,
    {
        self.scope
    }

    /// A stream of `data` to `scope`, with the lowest free id of `ids`,
    /// which it takes. Refused when `data` is longer than `u16::MAX`, or when
    /// all 128 ids are in use.
    pub fn new<S: Into<Scope>>(data: Vec<u8>, scope: S, ids: &mut OutgoingPacketIds) -> (r: Result<
        Self,
        StreamError,
    >)
        ensures
            data@.len() > u16::MAX ==> (r matches Err(StreamError::LengthOverflow(m)) && m@
                == "data.len() > u16::MAX"@ && final(ids)@ == old(ids)@),
            data@.len() <= u16::MAX && (forall|j: u8| j < 128 ==> old(ids)@.contains(j)) ==> r
                == Err::<Self, StreamError>(StreamError::PacketIdLimit) && final(ids)@ == old(
                ids,
            )@,
            r matches Ok(s) ==> {
                &&& data@.len() <= u16::MAX
                &&& s@.stream_id < 128
                &&& !old(ids)@.contains(s@.stream_id)
                &&& forall|j: u8| j < s@.stream_id ==> old(ids)@.contains(j)
                &&& final(ids)@ == old(ids)@.insert(s@.stream_id)
                &&& s@.data == data@
                &&& <S as vstd::std_specs::convert::IntoSpec<Scope>>::obeys_into_spec() ==> s@.scope
                    == <S as vstd::std_specs::convert::IntoSpec<Scope>>::into_spec(scope)
            },
            r is Ok <== data@.len() <= u16::MAX && exists|j: u8| j < 128 && !old(ids)@.contains(j),
    {
        Self::new_with_scope(data, scope.into(), ids)
    }

    /// `new` for a scope that is already a `Scope`.
    pub fn new_with_scope(data: Vec<u8>, scope: Scope, ids: &mut OutgoingPacketIds) -> (r: Result<
        Self,
        StreamError,
    >)
        ensures
            data@.len() > u16::MAX ==> (r matches Err(StreamError::LengthOverflow(m)) && m@
                == "data.len() > u16::MAX"@ && final(ids)@ == old(ids)@),
            data@.len() <= u16::MAX && (forall|j: u8| j < 128 ==> old(ids)@.contains(j)) ==> r
                == Err::<Self, StreamError>(StreamError::PacketIdLimit) && final(ids)@ == old(
                ids,
            )@,
            r matches Ok(s) ==> {
                &&& data@.len() <= u16::MAX
                &&& s@.stream_id < 128
                &&& !old(ids)@.contains(s@.stream_id)
                &&& forall|j: u8| j < s@.stream_id ==> old(ids)@.contains(j)
                &&& final(ids)@ == old(ids)@.insert(s@.stream_id)
                &&& s@.data == data@
                &&& s@.scope == scope
            },
            r is Ok <== data@.len() <= u16::MAX && exists|j: u8| j < 128 && !old(ids)@.contains(j),
    {
        if data.len() > 65535 {
            return Err(StreamError::LengthOverflow("data.len() > u16::MAX".to_string()));
        }
        let stream_id = match Self::new_outgoing_packet_id(ids) {
            Ok(id) => id,
            Err(e) => {
                return Err(e);
            },
        };
        Ok(Self { stream_id, data, scope })
    }

    /// Takes the lowest id below 128 that `ids` does not hold; refused when
    /// all 128 are in use.
    pub fn new_outgoing_packet_id(ids: &mut OutgoingPacketIds) -> (r: Result<u8, StreamError>)
        ensures
            r matches Ok(id) ==> {
                &&& id < 128
                &&& !old(ids)@.contains(id)
                &&& forall|j: u8| j < id ==> old(ids)@.contains(j)
                &&& final(ids)@ == old(ids)@.insert(id)
            },
            r matches Err(e) ==> e == StreamError::PacketIdLimit && final(ids)@ == old(ids)@,
            r is Err <==> forall|j: u8| j < 128 ==> old(ids)@.contains(j),
    {
        let mut id: u8 = 0;
        while id < 128
            invariant
                id <= 128,
                ids@ == old(ids)@,
                forall|j: u8| j < id ==> old(ids)@.contains(j),
            decreases 128 - id,
        {
            if !ids.used.contains(&id) {
                ids.used.insert(id);
                return Ok(id);
            }
            id = id + 1;
        }
        Err(StreamError::PacketIdLimit)
    }

    /// Gives `id` back to `ids`.
    pub fn free_outgoing_packet_id(ids: &mut OutgoingPacketIds, id: u8)
        ensures
            final(ids)@ == old(ids)@.remove(id),
    {
        ids.used.remove(&id);
    }

    /// Closes the stream: its id goes back to `ids`.
    pub fn release(self, ids: &mut OutgoingPacketIds)
        ensures
            final(ids)@ == old(ids)@.remove(self@.stream_id),
    {
        Self::free_outgoing_packet_id(ids, self.stream_id);
    }

    /// Cuts the data into packets: a start packet with the first 59 bytes,
    /// then continue packets of 63 bytes until the data is used up; the last
    /// data part is padded with zeros. Refused when the data is longer than
    /// `u16::MAX`.
    pub fn packets(&self) -> (r: Result<Vec<Packet>, StreamError>)
        ensures
            self@.data.len() > u16::MAX ==> (r matches Err(StreamError::LengthOverflow(m)) && m@
                == "data.len() > u16::MAX"@),
            self@.data.len() <= u16::MAX ==> (r matches Ok(ps) && ps@.len() == packet_count(
                self@.data.len(),
            ) && forall|i: int|
                0 <= i < ps@.len() ==> #[trigger] ps@[i]@ == stream_packet(
                    self@.stream_id,
                    self@.scope,
                    self@.data,
                    i,
                )),
            self@.data.len() <= u16::MAX ==> (r matches Ok(ps) && ps@.len() >= 1 && (ps@[0] matches Packet::Start(
                p,
            ) && p.stream_id == self@.stream_id && p.scope == self@.scope && p.data_length
                == self@.data.len())),
            self@.data.len() <= u16::MAX ==> (r matches Ok(ps) && data_parts(
                ps@.map_values(|p: Packet| p@),
            ).take(self@.data.len() as int) == self@.data),
    {
        if self.data.len() > 65535 {
            return Err(StreamError::LengthOverflow("data.len() > u16::MAX".to_string()));
        }
        let ghost data = self.data@;
        let len = self.data.len();
        let mut copy: Vec<u8> = Vec::new();
        extend_bytes(&mut copy, &self.data);
        let mut cursor = ByteReader::new(copy);
        let mut packets: Vec<Packet> = Vec::new();
        let start = match StartPacket::new_reader_with_scope(
            self.stream_id,
            self.scope,
            len as u16,
            &mut cursor,
        ) {
            Ok(p) => p,
            Err(e) => {
                return Err(StreamError::StartPacket(e));
            },
        };
        packets.push(Packet::Start(start));
        while !cursor.is_at_end()
            invariant
                cursor.data() == data,
                len == data.len(),
                packets@.len() >= 1,
                cursor.rest() == data.skip(cursor.pos() as int),
                cursor.pos() <= len,
                cursor.pos() == if continue_offset(packets@.len() as int) < len {
                    continue_offset(packets@.len() as int)
                } else {
                    len as int
                },
                packets@.len() == 1 ==> cursor.pos() == if len < 59 {
                    len as int
                } else {
                    59
                },
                packets@.len() >= 2 ==> continue_offset(packets@.len() - 1) < len,
                forall|i: int|
                    0 <= i < packets@.len() ==> #[trigger] packets@[i]@ == stream_packet(
                        self.stream_id,
                        self.scope,
                        data,
                        i,
                    ),
            decreases len - cursor.pos(),
        {
            let ghost k = packets@.len() as int;
            let ghost p0 = cursor.pos() as int;
            let next = match ContinuePacket::new_reader(self.stream_id, &mut cursor) {
                Ok(p) => p,
                Err(e) => {
                    return Err(StreamError::ContinuePacket(e));
                },
            };
            assert(data.skip(p0).take(cursor.pos() - p0) =~= clamped_range(
                data,
                continue_offset(k),
                continue_offset(k) + 63,
            ));
            packets.push(Packet::Continue(next));
        }
        proof {
            lemma_packet_count(len as nat, packets@.len());
            lemma_packets_carry_data(self.stream_id, self.scope, data);
            assert(packets@.map_values(|p: Packet| p@) =~= stream_packets(
                self.stream_id,
                self.scope,
                data,
            ));
        }
        Ok(packets)
    }
}

} // verus!
