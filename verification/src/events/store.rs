//! The state of a listener: the incoming streams that are not complete yet,
//! and when each of them times out.
use super::{PartialStream, PartialStreamError, PartialStreamModel};
use crate::packet::{
    StartPacketModel,
    parse_packet, ContinuePacket, Packet, PacketModel, PlayerScope, Scope, StartPacket,
    StreamError,
};
use crate::reader::ByteReader;
use std::collections::HashMap;
use vstd::prelude::*;

verus! {

broadcast use vstd::std_specs::hash::group_hash_axioms;

/// Why a packet could not be taken into the store.
#[derive(Debug, PartialEq, Eq, Structural)]
pub enum StoreError {
    /// got non-Player scope
    Thing,
    /// found continue packet before start
    Thing2,
    PartialStream(PartialStreamError),
}

/// Why a plugin message was not taken in.
#[derive(Debug, PartialEq, Eq)]
pub enum ReceiveError {
    /// the message is no packet
    Decode(StreamError),
    /// the packet does not fit the streams in the store
    Process(StoreError),
}

/// How long (in milliseconds) an incomplete stream is kept after its start
/// packet.
pub const STREAM_TIMEOUT_MILLIS: u64 = 10_000;

/// The incoming streams of a listener.
pub struct Store {
    tables: StoreTables,
}

/// The maps behind a store, kept well formed by the store's methods.
struct StoreTables {
    streams: HashMap<u8, PartialStream>,
    cleanup_times: HashMap<u8, u64>,
}

/// A store as a value: the incomplete streams by stream id, and the time
/// (in milliseconds) after which each stream id is dropped.
pub struct StoreModel {
    pub streams: Map<u8, PartialStreamModel>,
    pub cleanup_times: Map<u8, u64>,
}

/// The outcome of taking a packet into the store, as a value.
pub open spec fn outcome_view(r: Result<Option<PartialStream>, StoreError>) -> Result<
    Option<PartialStreamModel>,
    StoreError,
> {
    match r {
        Ok(Some(s)) => Ok(Some(s@)),
        Ok(None) => Ok(None),
        Err(e) => Err(e),
    }
}

impl StoreModel {
    /// Every stream kept is well formed and still incomplete, and has a
    /// cleanup time.
    pub open spec fn wf(self) -> bool {
        forall|id: u8|
            #[trigger] self.streams.contains_key(id) ==> {
                &&& self.streams[id].wf()
                &&& !self.streams[id].is_finished()
                &&& self.cleanup_times.contains_key(id)
            }
    }

    /// The store after taking in `packet` at time `now`, and the outcome:
    /// `Ok(Some(stream))` when the packet completed a stream, `Ok(None)`
    /// when the stream is still incomplete, an error when the packet does
    /// not fit.
    pub open spec fn process(self, packet: PacketModel, now: u64) -> (
        StoreModel,
        Result<Option<PartialStreamModel>, StoreError>,
    ) {
        match packet {
            PacketModel::Start(p) => match p.scope {
                Scope::Player(PlayerScope { player_id }) => {
                    let stream = PartialStreamModel {
                        player_id,
                        data_length: p.data_length,
                        data_buffer: Seq::empty(),
                    }.write_part(p.data_part);
                    let streams = self.streams.remove(p.stream_id);
                    if stream.is_finished() {
                        (
                            StoreModel { streams, cleanup_times: self.cleanup_times },
                            Ok(Some(stream)),
                        )
                    } else {
                        (
                            StoreModel {
                                streams: streams.insert(p.stream_id, stream),
                                cleanup_times: self.cleanup_times.insert(
                                    p.stream_id,
                                    (now + STREAM_TIMEOUT_MILLIS) as u64,
                                ),
                            },
                            Ok(None),
                        )
                    }
                },
                _ => (self, Err(StoreError::Thing)),
            },
            PacketModel::Continue(p) => if self.streams.contains_key(p.stream_id) {
                let stream = self.streams[p.stream_id].write_part(p.data_part);
                if stream.is_finished() {
                    (
                        StoreModel {
                            streams: self.streams.remove(p.stream_id),
                            cleanup_times: self.cleanup_times.remove(p.stream_id),
                        },
                        Ok(Some(stream)),
                    )
                } else {
                    (
                        StoreModel {
                            streams: self.streams.insert(p.stream_id, stream),
                            cleanup_times: self.cleanup_times,
                        },
                        Ok(None),
                    )
                }
            } else {
                (self, Err(StoreError::Thing2))
            },
        }
    }

    /// The store after a plugin message with `data` arrived on `channel` at
    /// time `now`, for a listener on `listen_channel`, and the outcome:
    /// messages on other channels are ignored, the others are decoded as a
    /// packet and taken in.
    pub open spec fn receive(self, listen_channel: u8, channel: u8, data: Seq<u8>, now: u64) -> (
        StoreModel,
        Result<Option<PartialStreamModel>, ReceiveError>,
    ) {
        if channel != listen_channel {
            (self, Ok(None))
        } else {
            match parse_packet(data) {
                Err(e) => (self, Err(ReceiveError::Decode(e))),
                Ok(packet) => {
                    let (m, r) = self.process(packet, now);
                    (
                        m,
                        match r {
                            Ok(o) => Ok(o),
                            Err(e) => Err(ReceiveError::Process(e)),
                        },
                    )
                },
            }
        }
    }

    /// The stream ids whose cleanup time lies before `now`.
    pub open spec fn expired(self, now: u64, id: u8) -> bool {
        self.cleanup_times.contains_key(id) && now > self.cleanup_times[id]
    }

    /// The store after dropping every stream id whose cleanup time lies
    /// before `now`.
    pub open spec fn tick(self, now: u64) -> StoreModel {
        StoreModel {
            streams: Map::new(
                |id: u8| self.streams.contains_key(id) && !self.expired(now, id),
                |id: u8| self.streams[id],
            ),
            cleanup_times: Map::new(
                |id: u8| self.cleanup_times.contains_key(id) && !self.expired(now, id),
                |id: u8| self.cleanup_times[id],
            ),
        }
    }
}

impl View for Store {
    type V = StoreModel;

    closed spec fn view(&self) -> StoreModel {
        self.tables@
    }
}

impl View for StoreTables {
    type V = StoreModel;

    closed spec fn view(&self) -> StoreModel {
        StoreModel {
            streams: self.streams@.map_values(|s: PartialStream| s@),
            cleanup_times: self.cleanup_times@,
        }
    }
}

/// The outcome of a plugin message, as a value.
pub open spec fn receive_view(r: Result<Option<PartialStream>, ReceiveError>) -> Result<
    Option<PartialStreamModel>,
    ReceiveError,
> {
    match r {
        Ok(Some(s)) => Ok(Some(s@)),
        Ok(None) => Ok(None),
        Err(e) => Err(e),
    }
}

/// Something that happens to a store: a packet that arrives at a time (in
/// milliseconds), or a tick at a time.
pub enum StoreEvent {
    Packet(PacketModel, u64),
    Tick(u64),
}

impl StoreEvent {
    /// The event is a start packet of stream `id`.
    pub open spec fn starts(self, id: u8) -> bool {
        self matches StoreEvent::Packet(PacketModel::Start(p), _) && p.stream_id == id
    }

    /// The event is a continue packet of stream `id`.
    pub open spec fn continues(self, id: u8) -> bool {
        self matches StoreEvent::Packet(PacketModel::Continue(p), _) && p.stream_id == id
    }

    /// The event is a tick after `deadline`.
    pub open spec fn ticks_after(self, deadline: u64) -> bool {
        self matches StoreEvent::Tick(t) && t > deadline
    }
}

impl StoreModel {
    /// The store after `event`, and the outcome (`Ok(None)` for a tick).
    pub open spec fn step(self, event: StoreEvent) -> (
        StoreModel,
        Result<Option<PartialStreamModel>, StoreError>,
    ) {
        match event {
            StoreEvent::Packet(p, t) => self.process(p, t),
            StoreEvent::Tick(t) => (self.tick(t), Ok(None)),
        }
    }

    /// The store after `events`, in order, and the outcome of each.
    pub open spec fn run(self, events: Seq<StoreEvent>) -> (
        StoreModel,
        Seq<Result<Option<PartialStreamModel>, StoreError>>,
    )
        decreases events.len(),
    {
        if events.len() == 0 {
            (self, Seq::empty())
        } else {
            let (m1, rs) = self.run(events.drop_last());
            let (m2, r) = m1.step(events.last());
            (m2, rs.push(r))
        }
    }
}

/// Stream `id` is pending with deadline `deadline`, or gone together with
/// its deadline.
pub open spec fn pending_or_gone(m: StoreModel, id: u8, deadline: u64) -> bool {
    ||| m.streams.contains_key(id) && m.cleanup_times.contains_key(id)
        && m.cleanup_times[id] == deadline
    ||| !m.streams.contains_key(id) && !m.cleanup_times.contains_key(id)
}

/// Through any event that is no start packet of stream `id`, the stream
/// stays pending with its deadline or gone. It stays pending exactly when
/// the event is no tick after the deadline and no continue packet that
/// completes it.
pub proof fn lemma_pending_survives(m: StoreModel, event: StoreEvent, id: u8, deadline: u64)
    requires
        pending_or_gone(m, id, deadline),
        !event.starts(id),
    ensures
        pending_or_gone(m.step(event).0, id, deadline),
        m.streams.contains_key(id) && !event.ticks_after(deadline) && (event.continues(id)
            ==> !(m.step(event).1 matches Ok(Some(_)))) ==> m.step(event).0.streams.contains_key(id),
{
}

proof fn lemma_pending_prefix(m: StoreModel, events: Seq<StoreEvent>, id: u8, deadline: u64, k: int)
    requires
        m.streams.contains_key(id),
        m.cleanup_times.contains_key(id),
        m.cleanup_times[id] == deadline,
        0 <= k <= events.len(),
        forall|i: int| 0 <= i < events.len() ==> !(#[trigger] events[i]).starts(id),
    ensures
        pending_or_gone(m.run(events.take(k)).0, id, deadline),
        (forall|i: int|
            0 <= i < k ==> !(#[trigger] events[i]).ticks_after(deadline) && (events[i].continues(id)
                ==> !(m.run(events.take(i)).0.step(events[i]).1 matches Ok(Some(_)))))
            ==> m.run(events.take(k)).0.streams.contains_key(id),
    decreases k,
{
    if k > 0 {
        lemma_pending_prefix(m, events, id, deadline, k - 1);
        assert(events.take(k).drop_last() =~= events.take(k - 1));
        let e = events[k - 1];
        assert(events.take(k).last() == e);
        lemma_pending_survives(m.run(events.take(k - 1)).0, e, id, deadline);
        if forall|i: int|
            0 <= i < k ==> !(#[trigger] events[i]).ticks_after(deadline) && (events[i].continues(id)
                ==> !(m.run(events.take(i)).0.step(events[i]).1 matches Ok(Some(_)))) {
            assert(!events[k - 1].ticks_after(deadline));
        }
    } else {
        assert(events.take(0) =~= Seq::<StoreEvent>::empty());
    }
}

/// An unfinished stream is dropped after its timeout and not before. When a
/// start packet from a player, arriving at `t0`, leaves its stream pending,
/// and no later event is a start packet of that stream, then a tick after
/// the deadline `t0 + STREAM_TIMEOUT_MILLIS` finds the stream gone or drops
/// it, with its deadline, whatever came between (an earlier tick after the
/// deadline included). When moreover no event between is a tick after the
/// deadline or a continue packet that completes the stream, the stream is
/// still there with that deadline, and a tick at or before the deadline
/// keeps it.
pub proof fn lemma_stream_times_out(
    m: StoreModel,
    start: StartPacketModel,
    t0: u64,
    events: Seq<StoreEvent>,
    now: u64,
)
    requires
        start.scope is Player,
        t0 + STREAM_TIMEOUT_MILLIS <= u64::MAX,
        m.process(PacketModel::Start(start), t0).1 == Ok::<
            Option<PartialStreamModel>,
            StoreError,
        >(None),
        forall|i: int| 0 <= i < events.len() ==> !(#[trigger] events[i]).starts(start.stream_id),
    ensures
        ({
            let id = start.stream_id;
            let deadline = (t0 + STREAM_TIMEOUT_MILLIS) as u64;
            let m1 = m.process(PacketModel::Start(start), t0).0;
            let m2 = m1.run(events).0;
            &&& now > deadline ==> !m2.tick(now).streams.contains_key(id)
                && !m2.tick(now).cleanup_times.contains_key(id)
            &&& (forall|i: int|
                0 <= i < events.len() ==> !(#[trigger] events[i]).ticks_after(deadline) && (
                events[i].continues(id) ==> !(m1.run(events.take(i)).0.step(events[i]).1 matches Ok(
                    Some(_),
                )))) ==> {
                &&& m2.streams.contains_key(id)
                &&& m2.cleanup_times[id] == deadline
                &&& now <= deadline ==> m2.tick(now).streams.contains_key(id)
            }
        }),
{
    let id = start.stream_id;
    let deadline = (t0 + STREAM_TIMEOUT_MILLIS) as u64;
    let m1 = m.process(PacketModel::Start(start), t0).0;
    lemma_pending_prefix(m1, events, id, deadline, events.len() as int);
    assert(events.take(events.len() as int) =~= events);
}

/// A message on another channel than the listener's is ignored: the store
/// stays as it is and nothing is handed back, whatever the message holds.
pub proof fn lemma_other_channel_ignored(
    m: StoreModel,
    listen_channel: u8,
    channel: u8,
    data: Seq<u8>,
    now: u64,
)
    requires
        channel != listen_channel,
    ensures
        m.receive(listen_channel, channel, data, now) == (m, Ok::<
            Option<PartialStreamModel>,
            ReceiveError,
        >(None)),
{
}

/// The stream that a packet belongs to.
pub open spec fn packet_stream_id(packet: PacketModel) -> u8 {
    match packet {
        PacketModel::Start(p) => p.stream_id,
        PacketModel::Continue(p) => p.stream_id,
    }
}

/// What taking a packet in does, stated by its effects: streams and
/// deadlines of other ids are untouched; a start packet that is not from a
/// player and a continue packet without a pending stream are refused and
/// leave the store as it is; a start packet from a player begins a stream
/// of that player, with the packet's length, holding as much of the data
/// part as the length allows; a continue packet adds to the pending stream,
/// keeping its player and length; a stream is handed back exactly when all
/// of its data has arrived, and is then no longer pending.
pub proof fn lemma_process_effects(m: StoreModel, packet: PacketModel, now: u64)
    requires
        m.wf(),
    ensures
        ({
            let (m2, r) = m.process(packet, now);
            let id = packet_stream_id(packet);
            &&& forall|j: u8|
                j != id ==> (#[trigger] m2.streams.contains_key(j) == m.streams.contains_key(j)
                    && (m.streams.contains_key(j) ==> m2.streams[j] == m.streams[j])
                    && m2.cleanup_times.contains_key(j) == m.cleanup_times.contains_key(j)
                    && (m.cleanup_times.contains_key(j) ==> m2.cleanup_times[j]
                    == m.cleanup_times[j]))
            &&& r is Err ==> m2 == m
            &&& match packet {
            PacketModel::Start(p) => if !(p.scope is Player) {
                r == Err::<Option<PartialStreamModel>, StoreError>(StoreError::Thing)
            } else {
                let stream = match r {
                    Ok(Some(s)) => s,
                    _ => m2.streams[id],
                };
                &&& r is Ok
                &&& stream.player_id == p.scope->Player_0.player_id
                &&& stream.data_length == p.data_length
                &&& stream.data_buffer.len() == if p.data_part.len() < p.data_length {
                    p.data_part.len() as int
                } else {
                    p.data_length as int
                }
                &&& p.data_part.take(stream.data_buffer.len() as int) == stream.data_buffer
                &&& r is Ok && r != Ok::<Option<PartialStreamModel>, StoreError>(None) ==> !m2.streams.contains_key(id)
                &&& r == Ok::<Option<PartialStreamModel>, StoreError>(None) ==> m2.streams.contains_key(id)
                    && m2.cleanup_times.contains_key(id) && m2.cleanup_times[id] == (now
                    + STREAM_TIMEOUT_MILLIS) as u64
            },
            PacketModel::Continue(p) => if !m.streams.contains_key(id) {
                r == Err::<Option<PartialStreamModel>, StoreError>(StoreError::Thing2)
            } else {
                let before = m.streams[id];
                let stream = match r {
                    Ok(Some(s)) => s,
                    _ => m2.streams[id],
                };
                &&& r is Ok
                &&& stream.player_id == before.player_id
                &&& stream.data_length == before.data_length
                &&& before.data_buffer.is_prefix_of(stream.data_buffer)
                &&& stream.data_buffer.len() == before.data_buffer.len() + (if p.data_part.len()
                    < before.data_length - before.data_buffer.len() {
                    p.data_part.len() as int
                } else {
                    before.data_length - before.data_buffer.len()
                })
                &&& stream.data_buffer.skip(before.data_buffer.len() as int) == p.data_part.take(
                    stream.data_buffer.len() - before.data_buffer.len(),
                )
                &&& r is Ok && r != Ok::<Option<PartialStreamModel>, StoreError>(None) ==> !m2.streams.contains_key(id)
                    && !m2.cleanup_times.contains_key(id)
                &&& r == Ok::<Option<PartialStreamModel>, StoreError>(None) ==> m2.streams.contains_key(id)
                    && m2.cleanup_times == m.cleanup_times
            },
            }
            &&& (r matches Ok(Some(s)) ==> s.data_buffer.len() == s.data_length)
            &&& (r == Ok::<Option<PartialStreamModel>, StoreError>(None) ==> m2.streams.contains_key(id)
                && m2.streams[id].data_buffer.len() < m2.streams[id].data_length)
        }),
{
    let (m2, r) = m.process(packet, now);
    match packet {
        PacketModel::Start(p) => {
            let stream = PartialStreamModel {
                player_id: 0,
                data_length: p.data_length,
                data_buffer: Seq::empty(),
            }.write_part(p.data_part);
            assert(Seq::<u8>::empty() + p.data_part.take(stream.data_buffer.len() as int) =~= p.data_part.take(stream.data_buffer.len() as int));
        },
        PacketModel::Continue(p) => {
            if m.streams.contains_key(p.stream_id) {
                let before = m.streams[p.stream_id];
                let stream = before.write_part(p.data_part);
                assert(stream.data_buffer.skip(before.data_buffer.len() as int) =~= p.data_part.take(
                    stream.data_buffer.len() - before.data_buffer.len(),
                ));
                assert(before.data_buffer.is_prefix_of(stream.data_buffer));
            }
        },
    }
}

/// A tick drops exactly the streams whose deadline lies before `now`, with
/// their deadlines, and leaves every other stream and deadline as it was.
pub proof fn lemma_tick_effects(m: StoreModel, now: u64)
    ensures
        forall|id: u8|
            #[trigger] m.tick(now).streams.contains_key(id) == (m.streams.contains_key(id) && !(
            m.cleanup_times.contains_key(id) && now > m.cleanup_times[id])),
        forall|id: u8|
            #[trigger] m.tick(now).cleanup_times.contains_key(id) == (m.cleanup_times.contains_key(id) && now <= m.cleanup_times[id]),
        forall|id: u8|
            #[trigger] m.tick(now).streams.contains_key(id) ==> m.tick(now).streams[id]
                == m.streams[id],
        forall|id: u8|
            #[trigger] m.tick(now).cleanup_times.contains_key(id) ==> m.tick(now).cleanup_times[id]
                == m.cleanup_times[id],
{
}

/// Taking a packet in keeps a well-formed store well formed.
pub proof fn lemma_process_keeps_wf(m: StoreModel, packet: PacketModel, now: u64)
    requires
        m.wf(),
    ensures
        m.process(packet, now).0.wf(),
{
    let m2 = m.process(packet, now).0;
    assert forall|id: u8| #[trigger] m2.streams.contains_key(id) implies {
        &&& m2.streams[id].wf()
        &&& !m2.streams[id].is_finished()
        &&& m2.cleanup_times.contains_key(id)
    } by {
        match packet {
            PacketModel::Start(p) => {
                if id != p.stream_id {
                }
            },
            PacketModel::Continue(p) => {
            },
        }
    }
}

/// Dropping timed-out streams keeps a well-formed store well formed.
pub proof fn lemma_tick_keeps_wf(m: StoreModel, now: u64)
    requires
        m.wf(),
    ensures
        m.tick(now).wf(),
{
}

impl StoreTables {
    /// An empty store.
    fn new() -> (r: Self)
        ensures
            r@.streams == Map::<u8, PartialStreamModel>::empty(),
            r@.cleanup_times == Map::<u8, u64>::empty(),
            r@.wf(),
    {
        let r = StoreTables { streams: HashMap::new(), cleanup_times: HashMap::new() };
        r
    }

    /// Takes in a packet that arrived at time `now` (in milliseconds).
    /// A start packet (from a player) begins a stream, replacing any stream
    /// with the same id; a continue packet adds to its stream. When the
    /// stream is complete it leaves the store and is handed back.
    fn process_packet(&mut self, packet: Packet, now: u64) -> (r: Result<
        Option<PartialStream>,
        StoreError,
    >)
        requires
            old(self)@.wf(),
            now + STREAM_TIMEOUT_MILLIS <= u64::MAX,
        ensures
            final(self)@ == old(self)@.process(packet@, now).0,
            outcome_view(r) == old(self)@.process(packet@, now).1,
            final(self)@.wf(),
    {
        proof {
            lemma_process_keeps_wf(self@, packet@, now);
        }
        let ghost old_streams = self.streams@;
        match packet {
            Packet::Start(StartPacket { stream_id, scope, data_length, data_part }) => {
                if let Scope::Player(PlayerScope { player_id }) = scope {
                    let mut stream = PartialStream::new(player_id, data_length);
                    match stream.write_part(data_part) {
                        Ok(()) => {},
                        Err(e) => {
                            return Err(StoreError::PartialStream(e));
                        },
                    }
                    let _old_stream = self.streams.remove(&stream_id);
                    assert(self.streams@.map_values(|s: PartialStream| s@) =~= old_streams.map_values(
                        |s: PartialStream| s@,
                    ).remove(stream_id));
                    if stream.is_finished() {
                        Ok(Some(stream))
                    } else {
                        let ghost mid = self.streams@;
                        self.streams.insert(stream_id, stream);
                        assert(self.streams@.map_values(|s: PartialStream| s@) =~= mid.map_values(
                            |s: PartialStream| s@,
                        ).insert(stream_id, stream@));
                        self.cleanup_times.insert(stream_id, now + STREAM_TIMEOUT_MILLIS);
                        Ok(None)
                    }
                } else {
                    Err(StoreError::Thing)
                }
            },
            Packet::Continue(ContinuePacket { stream_id, data_part }) => {
                match self.streams.remove(&stream_id) {
                    Some(mut stream) => {
                        assert(self.streams@.map_values(|s: PartialStream| s@) =~= old_streams.map_values(
                            |s: PartialStream| s@,
                        ).remove(stream_id));
                        match stream.write_part(data_part) {
                            Ok(()) => {},
                            Err(e) => {
                                return Err(StoreError::PartialStream(e));
                            },
                        }
                        if stream.is_finished() {
                            self.cleanup_times.remove(&stream_id);
                            Ok(Some(stream))
                        } else {
                            self.streams.insert(stream_id, stream);
                            assert(self.streams@.map_values(|s: PartialStream| s@)
                                =~= old_streams.map_values(|s: PartialStream| s@).insert(
                                stream_id,
                                stream@,
                            ));
                            Ok(None)
                        }
                    },
                    None => {
                        assert(self@.streams =~= old(self)@.streams);
                        Err(StoreError::Thing2)
                    },
                }
            },
        }
    }

    /// Drops every incomplete stream whose cleanup time lies before `now`
    /// (in milliseconds), with its cleanup time.
    fn tick(&mut self, now: u64)
        requires
            old(self)@.wf(),
        ensures
            final(self)@ == old(self)@.tick(now),
            final(self)@.wf(),
    {
        proof {
            lemma_tick_keeps_wf(self@, now);
        }
        let ghost m = self@;
        let ghost streams0 = self.streams@;
        let mut i: u16 = 0;
        while i < 256
            invariant
                i <= 256,
                self.streams@ == Map::new(
                    |id: u8| streams0.contains_key(id) && !(id < i && m.expired(now, id)),
                    |id: u8| streams0[id],
                ),
                self.cleanup_times@ == Map::new(
                    |id: u8| m.cleanup_times.contains_key(id) && !(id < i && m.expired(now, id)),
                    |id: u8| m.cleanup_times[id],
                ),
            decreases 256 - i,
        {
            let stream_id = i as u8;
            let expired = match self.cleanup_times.get(&stream_id) {
                Some(cleanup_time) => now > *cleanup_time,
                None => false,
            };
            if expired {
                self.cleanup_times.remove(&stream_id);
                self.streams.remove(&stream_id);
            }
            i = i + 1;
            assert(self.streams@ =~= Map::new(
                |id: u8| streams0.contains_key(id) && !(id < i && m.expired(now, id)),
                |id: u8| streams0[id],
            ));
            assert(self.cleanup_times@ =~= Map::new(
                |id: u8| m.cleanup_times.contains_key(id) && !(id < i && m.expired(now, id)),
                |id: u8| m.cleanup_times[id],
            ));
        }
        assert(self@.streams =~= m.tick(now).streams);
        assert(self@.cleanup_times =~= m.tick(now).cleanup_times);
    }
}

impl Store {
    #[verifier::type_invariant]
    spec fn tables_well_formed(&self) -> bool {
        self.tables@.wf()
    }

    /// An empty store.
    pub fn new() -> (r: Self)
        ensures
            r@.streams == Map::<u8, PartialStreamModel>::empty(),
            r@.cleanup_times == Map::<u8, u64>::empty(),
            r@.wf(),
    {
        Store { tables: StoreTables::new() }
    }

    /// Takes in a packet that arrived at time `now` (in milliseconds).
    /// A start packet (from a player) begins a stream, replacing any stream
    /// with the same id; a continue packet adds to its stream. When the
    /// stream is complete it leaves the store and is handed back.
    pub fn process_packet(&mut self, packet: Packet, now: u64) -> (r: Result<
        Option<PartialStream>,
        StoreError,
    >)
        requires
            now + STREAM_TIMEOUT_MILLIS <= u64::MAX,
        ensures
            old(self)@.wf(),
            final(self)@ == old(self)@.process(packet@, now).0,
            outcome_view(r) == old(self)@.process(packet@, now).1,
            final(self)@.wf(),
            forall|j: u8|
                j != packet_stream_id(packet@) ==> (#[trigger] final(self)@.streams.contains_key(j)
                    == old(self)@.streams.contains_key(j) && (old(self)@.streams.contains_key(j)
                    ==> final(self)@.streams[j] == old(self)@.streams[j])
                    && final(self)@.cleanup_times.contains_key(j)
                    == old(self)@.cleanup_times.contains_key(j) && (
                old(self)@.cleanup_times.contains_key(j) ==> final(self)@.cleanup_times[j]
                    == old(self)@.cleanup_times[j])),
            r is Err ==> final(self)@ == old(self)@,
            r matches Ok(Some(s)) ==> s@.data_buffer.len() == s@.data_length
                && !final(self)@.streams.contains_key(packet_stream_id(packet@)),
    {
        proof {
            use_type_invariant(&*self);
            lemma_process_effects(self@, packet@, now);
        }
        let mut tables = StoreTables::new();
        std::mem::swap(&mut tables, &mut self.tables);
        let r = tables.process_packet(packet, now);
        self.tables = tables;
        r
    }

    /// Takes in a plugin message with `data` that arrived on `channel` at
    /// time `now` (in milliseconds), for a listener on `listen_channel`:
    /// messages on other channels are ignored; the others are decoded as a
    /// packet and taken in by `process_packet`.
    pub fn handle_plugin_message(
        &mut self,
        listen_channel: u8,
        channel: u8,
        data: Vec<u8>,
        now: u64,
    ) -> (r: Result<Option<PartialStream>, ReceiveError>)
        requires
            now + STREAM_TIMEOUT_MILLIS <= u64::MAX,
        ensures
            old(self)@.wf(),
            final(self)@ == old(self)@.receive(listen_channel, channel, data@, now).0,
            receive_view(r) == old(self)@.receive(listen_channel, channel, data@, now).1,
            final(self)@.wf(),
            channel != listen_channel ==> (r matches Ok(None) && final(self)@ == old(self)@),
            channel == listen_channel && parse_packet(data@) is Err ==> (r matches Err(
                ReceiveError::Decode(_),
            ) && final(self)@ == old(self)@),
            channel == listen_channel && parse_packet(data@) is Ok ==> final(self)@ == old(self)@.process(parse_packet(data@)->Ok_0, now).0,
    {
        proof {
            use_type_invariant(&*self);
        }
        if listen_channel != channel {
            return Ok(None);
        }
        let mut data_stream = ByteReader::new(data);
        match Packet::decode(&mut data_stream) {
            Ok(packet) => match self.process_packet(packet, now) {
                Ok(finished) => Ok(finished),
                Err(e) => Err(ReceiveError::Process(e)),
            },
            Err(e) => Err(ReceiveError::Decode(e)),
        }
    }

    /// Drops every incomplete stream whose cleanup time lies before `now`
    /// (in milliseconds), with its cleanup time.
    pub fn tick(&mut self, now: u64)
        ensures
            old(self)@.wf(),
            final(self)@ == old(self)@.tick(now),
            final(self)@.wf(),
            forall|id: u8|
                #[trigger] final(self)@.streams.contains_key(id) == (old(self)@.streams.contains_key(id) && !(old(self)@.cleanup_times.contains_key(id) && now > old(self)@.cleanup_times[id])),
            forall|id: u8|
                #[trigger] final(self)@.cleanup_times.contains_key(id) == (old(self)@.cleanup_times.contains_key(id) && now <= old(self)@.cleanup_times[id]),
            forall|id: u8|
                #[trigger] final(self)@.streams.contains_key(id) ==> final(self)@.streams[id] == old(self)@.streams[id],
            forall|id: u8|
                #[trigger] final(self)@.cleanup_times.contains_key(id) ==> final(self)@.cleanup_times[id] == old(self)@.cleanup_times[id],
    {
        proof {
            use_type_invariant(&*self);
            lemma_tick_effects(self@, now);
        }
        let mut tables = StoreTables::new();
        std::mem::swap(&mut tables, &mut self.tables);
        tables.tick(now);
        self.tables = tables;
    }
}

impl Default for Store {
    fn default() -> (r: Self)
        ensures
            r@.streams == Map::<u8, PartialStreamModel>::empty(),
            r@.cleanup_times == Map::<u8, u64>::empty(),
    {
        Store::new()
    }
}

} // verus!
