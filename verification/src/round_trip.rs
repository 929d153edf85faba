//! What a listener makes of the packets of a stream: the stream's data,
//! whole and unchanged.
use crate::events::store::{ReceiveError, StoreModel};
use crate::events::PartialStreamModel;
use crate::packet::{
    lemma_packet_decode_encode, parse_packet, zero_padded, PacketModel, PlayerScope, Scope,
    StartPacketModel, StreamError,
};
use crate::stream::{clamped_range, continue_offset, packet_count, stream_packet, stream_packets};
use vstd::prelude::*;

verus! {

/// The plugin messages that carry a stream: the encodings of its packets, in
/// order.
pub open spec fn stream_messages(stream_id: u8, scope: Scope, data: Seq<u8>) -> Seq<Seq<u8>> {
    stream_packets(stream_id, scope, data).map_values(|p: PacketModel| p.spec_encode())
}

/// The store and the outcomes after a listener on `channel` received the
/// plugin messages `msgs` on that channel, in order, message `i` at time
/// `times[i]`.
pub open spec fn receive_all(m: StoreModel, channel: u8, msgs: Seq<Seq<u8>>, times: Seq<u64>) -> (
    StoreModel,
    Seq<Result<Option<PartialStreamModel>, ReceiveError>>,
)
    decreases msgs.len(),
{
    if msgs.len() == 0 {
        (m, Seq::empty())
    } else {
        let (m1, rs) = receive_all(m, channel, msgs.drop_last(), times);
        let (m2, r) = m1.receive(channel, channel, msgs.last(), times[msgs.len() - 1]);
        (m2, rs.push(r))
    }
}

/// Every packet of a stream with an id below 128 is a packet as the relay
/// sends it: it is encoded in exactly 64 bytes (one plugin message), and
/// decoding those bytes gives the packet back.
pub proof fn lemma_stream_packets_fit(stream_id: u8, scope: Scope, data: Seq<u8>, i: int)
    requires
        stream_id < 128,
        0 <= i < packet_count(data.len()),
    ensures
        stream_packet(stream_id, scope, data, i).wf(),
        stream_packet(stream_id, scope, data, i).spec_encode().len() == 64,
        parse_packet(stream_packet(stream_id, scope, data, i).spec_encode()) == Ok::<
            PacketModel,
            StreamError,
        >(stream_packet(stream_id, scope, data, i)),
{
    let p = stream_packet(stream_id, scope, data, i);
    lemma_packet_decode_encode(p, Seq::empty());
}

/// The data that a packet carries.
pub open spec fn packet_data_part(p: PacketModel) -> Seq<u8> {
    match p {
        PacketModel::Start(s) => s.data_part,
        PacketModel::Continue(c) => c.data_part,
    }
}

/// The data parts of `ps`, one after the other.
pub open spec fn data_parts(ps: Seq<PacketModel>) -> Seq<u8>
    decreases ps.len(),
{
    if ps.len() == 0 {
        Seq::empty()
    } else {
        data_parts(ps.drop_last()) + packet_data_part(ps.last())
    }
}

proof fn lemma_data_parts_prefix(stream_id: u8, scope: Scope, data: Seq<u8>, k: int)
    requires
        data.len() <= u16::MAX,
        1 <= k <= packet_count(data.len()),
    ensures
        ({
            let parts = data_parts(stream_packets(stream_id, scope, data).take(k));
            let end = if continue_offset(k) < data.len() {
                continue_offset(k)
            } else {
                data.len() as int
            };
            &&& parts.len() == continue_offset(k)
            &&& parts.take(end) == data.take(end)
        }),
    decreases k,
{
    let ps = stream_packets(stream_id, scope, data);
    let len = data.len() as int;
    assert(ps.take(k).drop_last() =~= ps.take(k - 1));
    assert(ps.take(k).last() == stream_packet(stream_id, scope, data, k - 1));
    if k == 1 {
        assert(ps.take(0) =~= Seq::<PacketModel>::empty());
        assert(data_parts(ps.take(0)) =~= Seq::<u8>::empty());
        assert(packet_data_part(stream_packet(stream_id, scope, data, 0)) == zero_padded(
            clamped_range(data, 0, 59),
            59,
        ));
        let parts = data_parts(ps.take(1));
        assert(parts =~= zero_padded(clamped_range(data, 0, 59), 59));
        let end = if 59 < len {
            59
        } else {
            len
        };
        assert(parts.take(end) =~= data.take(end));
    } else {
        lemma_data_parts_prefix(stream_id, scope, data, k - 1);
        lemma_packet_exists(data.len(), k - 1);
        let off = continue_offset(k - 1);
        let prev = data_parts(ps.take(k - 1));
        assert(prev =~= data.take(off));
        let parts = data_parts(ps.take(k));
        let part = zero_padded(clamped_range(data, off, off + 63), 63);
        assert(parts =~= prev + part);
        let end = if continue_offset(k) < len {
            continue_offset(k)
        } else {
            len
        };
        assert(parts.take(end) =~= data.take(end));
    }
}

/// The packets of a stream carry its data: the start packet names the
/// stream's scope and its whole length, every packet names the stream's id,
/// and the data parts, one after the other and cut to that length, are the
/// data; no packet is sent beyond the last one that the data needs. This
/// holds for every scope.
pub proof fn lemma_packets_carry_data(stream_id: u8, scope: Scope, data: Seq<u8>)
    requires
        data.len() <= u16::MAX,
    ensures
        ({
            let ps = stream_packets(stream_id, scope, data);
            &&& ps.len() >= 1
            &&& ps[0] matches PacketModel::Start(p) && p.stream_id == stream_id && p.scope == scope
                && p.data_length == data.len()
            &&& forall|i: int|
                1 <= i < ps.len() ==> (#[trigger] ps[i] matches PacketModel::Continue(c)
                    && c.stream_id == stream_id)
            &&& data_parts(ps).take(data.len() as int) == data
            &&& ps.len() > 1 ==> data_parts(ps.drop_last()).len() < data.len()
        }),
{
    let ps = stream_packets(stream_id, scope, data);
    let n = packet_count(data.len());
    lemma_data_parts_prefix(stream_id, scope, data, n as int);
    lemma_packet_exists(data.len(), n as int);
    assert(ps.take(n as int) =~= ps);
    if n > 1 {
        lemma_data_parts_prefix(stream_id, scope, data, n - 1);
        lemma_packet_exists(data.len(), n - 1);
        assert(ps.drop_last() =~= ps.take(n - 1));
    }
    assert(data.take(data.len() as int) =~= data);
}

/// The packets of a stream are the same for every scope, but for the scope
/// that the start packet names.
pub proof fn lemma_packets_scope_only_in_start(
    stream_id: u8,
    scope1: Scope,
    scope2: Scope,
    data: Seq<u8>,
    i: int,
)
    requires
        0 <= i,
    ensures
        i >= 1 ==> stream_packet(stream_id, scope1, data, i) == stream_packet(
            stream_id,
            scope2,
            data,
            i,
        ),
        i == 0 ==> (stream_packet(stream_id, scope1, data, 0) matches PacketModel::Start(p1)
            && stream_packet(stream_id, scope2, data, 0) matches PacketModel::Start(p2)
            && p1.stream_id == p2.stream_id && p1.data_length == p2.data_length && p1.data_part
            == p2.data_part),
{
}

/// The messages of a stream as the relay forwards them to the other players:
/// the start packet names the sending player as its scope.
pub open spec fn relayed_messages(stream_id: u8, scope: Scope, player_id: u8, data: Seq<u8>) -> Seq<
    Seq<u8>,
> {
    stream_packets(stream_id, scope, data).map_values(
        |p: PacketModel|
            match p {
                PacketModel::Start(s) => PacketModel::Start(
                    StartPacketModel {
                        stream_id: s.stream_id,
                        scope: Scope::Player(PlayerScope { player_id }),
                        data_length: s.data_length,
                        data_part: s.data_part,
                    },
                ),
                _ => p,
            }.spec_encode(),
    )
}

/// Whatever the scope a stream was sent to, when the relay forwards its
/// messages with the sender as the start packet's scope, a listener that
/// receives them in order, each at its own time, gets back exactly the data
/// that was sent, from that player, on the last message, and nothing before.
pub proof fn lemma_relayed_stream_round_trip(
    m: StoreModel,
    channel: u8,
    stream_id: u8,
    scope: Scope,
    player_id: u8,
    data: Seq<u8>,
    times: Seq<u64>,
)
    requires
        m.wf(),
        stream_id < 128,
        data.len() <= u16::MAX,
        times.len() == packet_count(data.len()),
    ensures
        ({
            let msgs = relayed_messages(stream_id, scope, player_id, data);
            let (m2, rs) = receive_all(m, channel, msgs, times);
            &&& rs.len() == msgs.len()
            &&& forall|i: int| 0 <= i < rs.len() - 1 ==> rs[i] == Ok::<
                Option<PartialStreamModel>,
                ReceiveError,
            >(None)
            &&& rs.last() == Ok::<Option<PartialStreamModel>, ReceiveError>(
                Some(
                    PartialStreamModel {
                        player_id,
                        data_length: data.len() as u16,
                        data_buffer: data,
                    },
                ),
            )
            &&& !m2.streams.contains_key(stream_id)
        }),
{
    let msgs = relayed_messages(stream_id, scope, player_id, data);
    let direct = stream_messages(stream_id, Scope::Player(PlayerScope { player_id }), data);
    assert forall|i: int| 0 <= i < msgs.len() implies msgs[i] == direct[i] by {
        lemma_packets_scope_only_in_start(
            stream_id,
            scope,
            Scope::Player(PlayerScope { player_id }),
            data,
            i,
        );
    }
    assert(msgs =~= direct);
    lemma_stream_round_trip(m, channel, stream_id, player_id, data, times);
}

/// For `k >= 1`, packet `k` of a stream of `len` bytes exists exactly when
/// its data starts inside the stream.
proof fn lemma_packet_exists(len: nat, k: int)
    requires
        k >= 1,
    ensures
        k < packet_count(len) <==> continue_offset(k) < len,
{
    if len > 59 {
        let m = len - 59;
        assert(k - 1 < (m + 62) / 63 <==> 63 * (k - 1) < m) by (nonlinear_arith)
            requires
                m > 0,
                k >= 1,
        ;
    }
}

/// The state after the first `k` messages of a stream were received.
proof fn lemma_receive_prefix(
    m: StoreModel,
    channel: u8,
    stream_id: u8,
    player_id: u8,
    data: Seq<u8>,
    times: Seq<u64>,
    k: int,
)
    requires
        m.wf(),
        stream_id < 128,
        data.len() <= u16::MAX,
        1 <= k <= packet_count(data.len()),
        times.len() >= k,
    ensures
        ({
            let msgs = stream_messages(stream_id, Scope::Player(PlayerScope { player_id }), data);
            let (mk, rs) = receive_all(m, channel, msgs.take(k), times);
            &&& mk.wf()
            &&& rs.len() == k
            &&& forall|i: int| 0 <= i < k - 1 ==> rs[i] == Ok::<
                Option<PartialStreamModel>,
                ReceiveError,
            >(None)
            &&& forall|id: u8|
                id != stream_id ==> (mk.streams.contains_key(id) == m.streams.contains_key(id) && (
                m.streams.contains_key(id) ==> mk.streams[id] == m.streams[id]))
            &&& k < packet_count(data.len()) ==> {
                &&& rs[k - 1] == Ok::<Option<PartialStreamModel>, ReceiveError>(None)
                &&& mk.streams.contains_key(stream_id)
                &&& mk.streams[stream_id] == PartialStreamModel {
                    player_id,
                    data_length: data.len() as u16,
                    data_buffer: data.take(continue_offset(k)),
                }
            }
            &&& k == packet_count(data.len()) ==> {
                &&& rs[k - 1] == Ok::<Option<PartialStreamModel>, ReceiveError>(
                    Some(
                        PartialStreamModel {
                            player_id,
                            data_length: data.len() as u16,
                            data_buffer: data,
                        },
                    ),
                )
                &&& !mk.streams.contains_key(stream_id)
            }
        }),
    decreases k,
{
    let scope = Scope::Player(PlayerScope { player_id });
    let msgs = stream_messages(stream_id, scope, data);
    let len = data.len();
    let n = packet_count(len);
    let prev = receive_all(m, channel, msgs.take(k - 1), times);
    assert(msgs.take(k).drop_last() =~= msgs.take(k - 1));
    let p = stream_packet(stream_id, scope, data, k - 1);
    if k == 1 {
        let part = clamped_range(data, 0, 59);
        lemma_packet_decode_encode(p, Seq::empty());
        crate::events::store::lemma_process_keeps_wf(m, p, times[k - 1]);
        let stream = PartialStreamModel {
            player_id,
            data_length: len as u16,
            data_buffer: Seq::empty(),
        }.write_part(zero_padded(part, 59));
        assert(stream.data_buffer =~= part);
        lemma_packet_exists(len, 1);
        if k == n {
            assert(part =~= data);
        }
    } else {
        lemma_receive_prefix(m, channel, stream_id, player_id, data, times, k - 1);
        let mp = prev.0;
        lemma_packet_exists(len, k - 1);
        lemma_packet_exists(len, k);
        let off = continue_offset(k - 1);
        let part = clamped_range(data, off, off + 63);
        lemma_packet_decode_encode(p, Seq::empty());
        crate::events::store::lemma_process_keeps_wf(mp, p, times[k - 1]);
        let before = mp.streams[stream_id];
        let stream = before.write_part(zero_padded(part, 63));
        if k < n {
            assert(stream.data_buffer =~= data.take(continue_offset(k)));
        } else {
            assert(stream.data_buffer =~= data);
        }
    }
}

/// Whatever a listener holds, receiving all the plugin messages of a stream
/// from a player, in order and each at its own time `times[i]`, hands the
/// stream's data back whole: every
/// message but the last leaves the stream pending, the last completes it
/// with the player's id and exactly the data that was sent. The stream then
/// leaves the store, and the other streams in it are untouched.
pub proof fn lemma_stream_round_trip(
    m: StoreModel,
    channel: u8,
    stream_id: u8,
    player_id: u8,
    data: Seq<u8>,
    times: Seq<u64>,
)
    requires
        m.wf(),
        stream_id < 128,
        data.len() <= u16::MAX,
        times.len() == packet_count(data.len()),
    ensures
        ({
            let msgs = stream_messages(stream_id, Scope::Player(PlayerScope { player_id }), data);
            let (m2, rs) = receive_all(m, channel, msgs, times);
            &&& m2.wf()
            &&& rs.len() == msgs.len()
            &&& forall|i: int| 0 <= i < rs.len() - 1 ==> rs[i] == Ok::<
                Option<PartialStreamModel>,
                ReceiveError,
            >(None)
            &&& rs.last() == Ok::<Option<PartialStreamModel>, ReceiveError>(
                Some(
                    PartialStreamModel {
                        player_id,
                        data_length: data.len() as u16,
                        data_buffer: data,
                    },
                ),
            )
            &&& !m2.streams.contains_key(stream_id)
            &&& forall|id: u8|
                id != stream_id ==> (m2.streams.contains_key(id) == m.streams.contains_key(id) && (
                m.streams.contains_key(id) ==> m2.streams[id] == m.streams[id]))
        }),
{
    let msgs = stream_messages(stream_id, Scope::Player(PlayerScope { player_id }), data);
    let n = packet_count(data.len());
    lemma_receive_prefix(m, channel, stream_id, player_id, data, times, n as int);
    assert(msgs.take(n as int) =~= msgs);
}

} // verus!
