//! The receiving end: acknowledges every arrival and restores the order of
//! the packets before handing them on.

use crate::channel::{Packet, Response, Timestamp};
use crate::clock::utc_now_nanos;
use crate::pacing::{interval_micros, spec_interval_micros};
use std::collections::HashMap;
use vstd::prelude::*;

verus! {

broadcast use vstd::std_specs::hash::group_hash_axioms;

/// A packet together with the time at which the base station handles it.
#[derive(Clone, Copy, Debug, PartialEq, Eq)]
pub struct Arrival {
    pub packet: Packet,
    pub at: Timestamp,
}

/// What the base station answers to one arrival.
#[derive(Clone, Copy, Debug, PartialEq, Eq)]
pub struct Receipt {
    /// The acknowledgment to send back; one per arrival.
    pub ack: Response,
    /// Whether every expected packet has now been processed.
    pub complete: bool,
}

/// The base station as a mathematical value.
pub struct StationModel {
    /// Pause before each arrival is handled, in microseconds.
    pub interval: nat,
    /// How many packets the run consists of.
    pub expected: nat,
    /// Packets that arrived ahead of their turn, by id.
    pub cached: Map<u32, Packet>,
    /// Packets delivered so far, in order.
    pub processed: Seq<Packet>,
}

impl StationModel {
    /// A base station that has seen nothing yet.
    pub open spec fn fresh(interval: nat, expected: nat) -> StationModel {
        StationModel { interval, expected, cached: Map::empty(), processed: Seq::empty() }
    }

    /// The id that is delivered next.
    pub open spec fn next_expected(self) -> nat {
        self.processed.len()
    }

    /// Every expected packet has been processed.
    pub open spec fn is_complete(self) -> bool {
        self.processed.len() == self.expected
    }

    /// The processed packets are numbered from zero without a gap and each
    /// carries its processing time; what is cached waits for an earlier id.
    pub open spec fn ordered(self) -> bool {
        &&& forall|i: int|
            0 <= i < self.processed.len() ==> (#[trigger] self.processed[i]).id == i
                && self.processed[i].processed is Some
        &&& forall|id: u32| #[trigger]
            self.cached.contains_key(id) ==> self.processed.len() < id && self.cached[id].id == id
    }

    /// `ordered`, and nothing lies beyond the expected count.
    pub open spec fn wf(self) -> bool {
        &&& self.ordered()
        &&& self.processed.len() <= self.expected <= u32::MAX
        &&& self.cached.dom().finite()
        &&& forall|id: u32| #[trigger] self.cached.contains_key(id) ==> id < self.expected
    }

    /// How many ids in a row, starting at `from`, are cached.
    pub open spec fn run_length(self, from: nat) -> nat
        decreases 0x1_0000_0000 - from,
    {
        if from < 0x1_0000_0000 && self.cached.contains_key(from as u32) {
            1 + self.run_length(from + 1)
        } else {
            0
        }
    }

    /// The in-order packet is delivered at `now`, and with it the cached
    /// packets that directly follow it.
    pub open spec fn deliver(self, packet: Packet, now: Timestamp) -> StationModel {
        let first = self.processed.len() + 1;
        let count = self.run_length(first);
        StationModel {
            processed: self.processed.push(packet.stamped(now)) + Seq::new(
                count,
                |i: int| self.cached[(first + i) as u32].stamped(now),
            ),
            cached: self.cached.remove_keys(Set::new(|id: u32| first <= id < first + count)),
            ..self
        }
    }

    /// It is the packet's turn: it is the next one of the run.
    pub open spec fn in_turn(self, packet: Packet) -> bool {
        packet.id == self.next_expected() && packet.id < self.expected
    }

    /// The state after `packet` has been handled at `now`: a packet ahead
    /// of its turn is cached (replacing one cached under the same id), the
    /// packet whose turn it is gets delivered, a packet seen before changes
    /// nothing, and neither does one whose id lies beyond the run.
    pub open spec fn receive(self, packet: Packet, now: Timestamp) -> StationModel {
        if self.in_turn(packet) {
            self.deliver(packet, now)
        } else {
            self.set_aside(packet)
        }
    }

    /// The state after a packet has been handled whose turn it is not: one
    /// of the run that is ahead of its turn is cached (replacing one cached
    /// under the same id); one seen before and one whose id lies beyond the
    /// run change nothing. The time plays no part.
    pub open spec fn set_aside(self, packet: Packet) -> StationModel {
        if self.next_expected() < packet.id < self.expected {
            StationModel { cached: self.cached.insert(packet.id, packet), ..self }
        } else {
            self
        }
    }

    /// The acknowledgments that go back while the arrivals are handled: one
    /// for each arrival that is looked at, in the same order.
    pub open spec fn answers(self, arrivals: Seq<Arrival>) -> Seq<Response>
        decreases arrivals.len(),
    {
        if arrivals.len() == 0 || self.is_complete() {
            Seq::empty()
        } else {
            seq![Response::ACK(arrivals[0].packet.id)] + self.receive(
                arrivals[0].packet,
                arrivals[0].at,
            ).answers(arrivals.drop_first())
        }
    }

    /// The state after the arrivals have been handled one by one. Handling
    /// stops when the run is complete; later arrivals are not looked at.
    pub open spec fn run(self, arrivals: Seq<Arrival>) -> StationModel
        decreases arrivals.len(),
    {
        if arrivals.len() == 0 || self.is_complete() {
            self
        } else {
            self.receive(arrivals[0].packet, arrivals[0].at).run(arrivals.drop_first())
        }
    }
}

/// The run of cached ids that starts at `from` has length `count` when
/// exactly the next `count` ids are cached and the one after them is not.
pub proof fn lemma_run_length(model: StationModel, from: nat, count: nat)
    requires
        from + count <= 0x1_0000_0000,
        forall|id: u32| from <= id < from + count ==> model.cached.contains_key(id),
        from + count < 0x1_0000_0000 ==> !model.cached.contains_key((from + count) as u32),
    ensures
        model.run_length(from) == count,
    decreases count,
{
    if count > 0 {
        assert(model.cached.contains_key(from as u32));
        lemma_run_length(model, from + 1, (count - 1) as nat);
    }
}

/// The run of cached ids that starts at `from` consists of cached ids
/// only, and the id that follows it is not cached.
pub proof fn lemma_run_is_maximal(model: StationModel, from: nat)
    requires
        from <= 0x1_0000_0000,
    ensures
        from + model.run_length(from) <= 0x1_0000_0000,
        forall|id: u32|
            from <= id < from + model.run_length(from) ==> model.cached.contains_key(id),
        from + model.run_length(from) < 0x1_0000_0000 ==> !model.cached.contains_key(
            (from + model.run_length(from)) as u32,
        ),
    decreases 0x1_0000_0000 - from,
{
    if from < 0x1_0000_0000 && model.cached.contains_key(from as u32) {
        lemma_run_is_maximal(model, from + 1);
    }
}

/// Handling an arrival keeps the processed packets numbered from zero
/// without a gap, and the cache ahead of them.
pub proof fn lemma_receive_keeps_ordered(model: StationModel, packet: Packet, now: Timestamp)
    requires
        model.ordered(),
    ensures
        model.receive(packet, now).ordered(),
{
    let after = model.receive(packet, now);
    if model.in_turn(packet) {
        let first = model.processed.len() + 1;
        let count = model.run_length(first);
        lemma_run_is_maximal(model, first);
        assert forall|i: int| 0 <= i < after.processed.len() implies (
        #[trigger] after.processed[i]).id == i && after.processed[i].processed is Some by {
            if i > model.processed.len() {
                assert(model.cached.contains_key((first + (i - first)) as u32));
            }
        }
    }
}

/// Handling an arrival keeps the state well formed, whatever the id of
/// its packet.
pub proof fn lemma_receive_keeps_wf(model: StationModel, packet: Packet, now: Timestamp)
    requires
        model.wf(),
    ensures
        model.receive(packet, now).wf(),
        model.receive(packet, now).expected == model.expected,
        model.receive(packet, now).interval == model.interval,
{
    let after = model.receive(packet, now);
    lemma_receive_keeps_ordered(model, packet, now);
    if model.next_expected() < packet.id < model.expected {
        assert(after.cached.dom() =~= model.cached.dom().insert(packet.id));
    } else if model.in_turn(packet) {
        let first = model.processed.len() + 1;
        let count = model.run_length(first);
        lemma_run_is_maximal(model, first);
        if count > 0 {
            assert(model.cached.contains_key((first + count - 1) as u32));
        }
        assert(after.cached.dom() =~= model.cached.dom().difference(
            Set::new(|id: u32| first <= id < first + count),
        ));
    }
}

/// Handling arrivals one by one keeps the processed packets numbered from
/// zero without a gap.
pub proof fn lemma_run_keeps_ordered(model: StationModel, arrivals: Seq<Arrival>)
    requires
        model.ordered(),
    ensures
        model.run(arrivals).ordered(),
    decreases arrivals.len(),
{
    if arrivals.len() > 0 && !model.is_complete() {
        lemma_receive_keeps_ordered(model, arrivals[0].packet, arrivals[0].at);
        lemma_run_keeps_ordered(
            model.receive(arrivals[0].packet, arrivals[0].at),
            arrivals.drop_first(),
        );
    }
}

/// Law: whatever arrives, the state stays well formed: never more packets
/// are processed than are expected, and nothing is cached that lies beyond
/// the run.
pub proof fn lemma_run_keeps_wf(model: StationModel, arrivals: Seq<Arrival>)
    requires
        model.wf(),
    ensures
        model.run(arrivals).wf(),
        model.run(arrivals).expected == model.expected,
    decreases arrivals.len(),
{
    if arrivals.len() > 0 && !model.is_complete() {
        lemma_receive_keeps_wf(model, arrivals[0].packet, arrivals[0].at);
        lemma_run_keeps_wf(
            model.receive(arrivals[0].packet, arrivals[0].at),
            arrivals.drop_first(),
        );
    }
}

/// Law: a run that reaches completion has processed exactly the expected
/// packets. Whatever arrives, in whatever order and however often, the
/// processed sequence then has the expected length, holds the ids from zero
/// upwards without a gap, and each of its packets carries a processing
/// time.
pub proof fn lemma_completed_run_is_whole(interval: nat, expected: nat, arrivals: Seq<Arrival>)
    requires
        StationModel::fresh(interval, expected).run(arrivals).is_complete(),
    ensures
        ({
            let processed = StationModel::fresh(interval, expected).run(arrivals).processed;
            &&& processed.len() == expected
            &&& forall|i: int|
                0 <= i < expected ==> (#[trigger] processed[i]).id == i
                    && processed[i].processed is Some
        }),
{
    let start = StationModel::fresh(interval, expected);
    lemma_run_keeps_ordered(start, arrivals);
    lemma_run_keeps_expected(start, arrivals);
}

/// A packet with this id is among the arrivals.
pub open spec fn arrives(arrivals: Seq<Arrival>, id: u32) -> bool {
    exists|j: int| 0 <= j < arrivals.len() && (#[trigger] arrivals[j]).packet.id == id
}

/// Where every packet of the run that is not processed yet is cached or
/// still to arrive, handling the arrivals completes the run.
pub proof fn lemma_run_completes(model: StationModel, arrivals: Seq<Arrival>)
    requires
        model.wf(),
        forall|id: u32|
            model.next_expected() <= id < model.expected ==> model.cached.contains_key(id)
                || #[trigger] arrives(arrivals, id),
    ensures
        model.run(arrivals).is_complete(),
    decreases arrivals.len(),
{
    if !model.is_complete() {
        let next = model.next_expected() as u32;
        assert(model.cached.contains_key(next) || arrives(arrivals, next));
        if arrivals.len() > 0 {
            let head = arrivals[0];
            let rest = arrivals.drop_first();
            let after = model.receive(head.packet, head.at);
            lemma_receive_keeps_wf(model, head.packet, head.at);
            if model.in_turn(head.packet) {
                lemma_run_is_maximal(model, model.processed.len() + 1);
            }
            assert forall|id: u32|
                after.next_expected() <= id < after.expected implies after.cached.contains_key(id)
                || #[trigger] arrives(rest, id) by {
                assert(model.cached.contains_key(id) || arrives(arrivals, id));
                if !model.cached.contains_key(id) {
                    let j = choose|j: int|
                        0 <= j < arrivals.len() && (#[trigger] arrivals[j]).packet.id == id;
                    if j > 0 {
                        assert(rest[j - 1] == arrivals[j]);
                    }
                }
            }
            lemma_run_completes(after, rest);
        }
    }
}

/// Law: a run in which every packet arrives at least once ends complete.
/// Where each id of the run is among the arrivals, in whatever order,
/// however often and whatever else arrives, the base station ends with
/// exactly the packets of the run, numbered from zero without a gap.
pub proof fn lemma_run_with_every_packet_completes(
    interval: nat,
    expected: nat,
    arrivals: Seq<Arrival>,
)
    requires
        expected <= u32::MAX,
        forall|id: u32| id < expected ==> #[trigger] arrives(arrivals, id),
    ensures
        ({
            let end = StationModel::fresh(interval, expected).run(arrivals);
            &&& end.is_complete()
            &&& end.processed.len() == expected
            &&& forall|i: int| 0 <= i < expected ==> (#[trigger] end.processed[i]).id == i
        }),
{
    let start = StationModel::fresh(interval, expected);
    lemma_run_completes(start, arrivals);
    lemma_completed_run_is_whole(interval, expected, arrivals);
}

/// The expected count is fixed for the whole run.
pub proof fn lemma_run_keeps_expected(model: StationModel, arrivals: Seq<Arrival>)
    ensures
        model.run(arrivals).expected == model.expected,
        model.run(arrivals).interval == model.interval,
    decreases arrivals.len(),
{
    if arrivals.len() > 0 && !model.is_complete() {
        lemma_run_keeps_expected(
            model.receive(arrivals[0].packet, arrivals[0].at),
            arrivals.drop_first(),
        );
    }
}

/// Law: what has been processed stays as it is. An arrival can only add to
/// the end of the processed sequence, so a packet is delivered, and gets
/// its processing time, once.
pub proof fn lemma_processed_only_grows(model: StationModel, arrivals: Seq<Arrival>)
    ensures
        model.processed.is_prefix_of(model.run(arrivals).processed),
    decreases arrivals.len(),
{
    if arrivals.len() > 0 && !model.is_complete() {
        let next = model.receive(arrivals[0].packet, arrivals[0].at);
        assert(model.processed.is_prefix_of(next.processed));
        lemma_processed_only_grows(next, arrivals.drop_first());
    }
}

/// The arrivals are handled in the order of their times, and none before
/// its packet was sent.
pub open spec fn arrivals_in_time_order(arrivals: Seq<Arrival>) -> bool {
    &&& forall|i: int|
        0 <= i < arrivals.len() ==> (#[trigger] arrivals[i]).packet.transmitted <= arrivals[i].at
    &&& forall|i: int, j: int|
        0 <= i <= j < arrivals.len() ==> (#[trigger] arrivals[i]).at <= (#[trigger] arrivals[j]).at
}

impl StationModel {
    /// No processed packet carries a processing time before its sending
    /// time.
    pub open spec fn processed_after_sent(self) -> bool {
        forall|i: int|
            0 <= i < self.processed.len() ==> match (#[trigger] self.processed[i]).processed {
                Some(at) => self.processed[i].transmitted <= at,
                None => false,
            }
    }

    /// Every cached packet was sent at or before `now`.
    pub open spec fn cached_sent_by(self, now: Timestamp) -> bool {
        forall|id: u32| #[trigger]
            self.cached.contains_key(id) ==> self.cached[id].transmitted <= now
    }
}

/// Handling a packet at or after its sending time, and no earlier than the
/// arrivals before it, keeps every processing time at or after the sending
/// time.
pub proof fn lemma_receive_keeps_time_order(
    model: StationModel,
    packet: Packet,
    now: Timestamp,
    earlier: Timestamp,
)
    requires
        model.ordered(),
        model.processed_after_sent(),
        model.cached_sent_by(earlier),
        earlier <= now,
        packet.transmitted <= now,
    ensures
        model.receive(packet, now).processed_after_sent(),
        model.receive(packet, now).cached_sent_by(now),
{
    let after = model.receive(packet, now);
    if model.in_turn(packet) {
        let first = model.processed.len() + 1;
        lemma_run_is_maximal(model, first);
        assert forall|i: int| 0 <= i < after.processed.len() implies match (
        #[trigger] after.processed[i]).processed {
            Some(at) => after.processed[i].transmitted <= at,
            None => false,
        } by {
            if i > model.processed.len() {
                assert(model.cached.contains_key((first + (i - first)) as u32));
            } else if i < model.processed.len() {
                assert(after.processed[i] == model.processed[i]);
            }
        }
    }
}

/// Law: where the arrivals are handled in the order of their times and none
/// before its packet was sent, no packet of the processed sequence carries
/// a processing time before its sending time.
pub proof fn lemma_processing_follows_sending(
    interval: nat,
    expected: nat,
    arrivals: Seq<Arrival>,
)
    requires
        arrivals_in_time_order(arrivals),
    ensures
        StationModel::fresh(interval, expected).run(arrivals).processed_after_sent(),
{
    let start = StationModel::fresh(interval, expected);
    if arrivals.len() > 0 {
        lemma_run_keeps_time_order(start, arrivals, arrivals[0].at);
    }
}

/// The induction behind `lemma_processing_follows_sending`.
pub proof fn lemma_run_keeps_time_order(
    model: StationModel,
    arrivals: Seq<Arrival>,
    earlier: Timestamp,
)
    requires
        model.ordered(),
        model.processed_after_sent(),
        model.cached_sent_by(earlier),
        arrivals_in_time_order(arrivals),
        arrivals.len() > 0 ==> earlier <= arrivals[0].at,
    ensures
        model.run(arrivals).processed_after_sent(),
    decreases arrivals.len(),
{
    if arrivals.len() > 0 && !model.is_complete() {
        let head = arrivals[0];
        let rest = arrivals.drop_first();
        lemma_receive_keeps_ordered(model, head.packet, head.at);
        lemma_receive_keeps_time_order(model, head.packet, head.at, earlier);
        assert forall|i: int| 0 <= i < rest.len() implies (#[trigger] rest[i]).packet.transmitted
            <= rest[i].at by {
            assert(rest[i] == arrivals[i + 1]);
        }
        assert forall|i: int, j: int| 0 <= i <= j < rest.len() implies (#[trigger] rest[i]).at <= (
        #[trigger] rest[j]).at by {
            assert(rest[i] == arrivals[i + 1]);
            assert(rest[j] == arrivals[j + 1]);
        }
        if rest.len() > 0 {
            assert(rest[0] == arrivals[1]);
        }
        lemma_run_keeps_time_order(model.receive(head.packet, head.at), rest, head.at);
    }
}

/// The receiving end of the transport.
pub struct BaseStation {
    processing_interval: u64,
    expected: u32,
    cached_packets: HashMap<u32, Packet>,
    processed_packets: Vec<Packet>,
}

impl View for BaseStation {
    type V = StationModel;

    closed spec fn view(&self) -> StationModel {
        StationModel {
            interval: self.processing_interval as nat,
            expected: self.expected as nat,
            cached: self.cached_packets@,
            processed: self.processed_packets@,
        }
    }
}

impl BaseStation {
    /// The state is one that the functions below keep.
    pub open spec fn wf(&self) -> bool {
        self@.wf()
    }

    /// A base station that handles `processing_rate` arrivals per second
    /// and expects the packets `0 .. num_packets`.
    pub fn new(processing_rate: usize, num_packets: u32) -> (station: BaseStation)
        ensures
            station.wf(),
            station@ == StationModel::fresh(
                spec_interval_micros(processing_rate as nat),
                num_packets as nat,
            ),
    {
        let station = BaseStation {
            processing_interval: interval_micros(processing_rate),
            expected: num_packets,
            cached_packets: HashMap::new(),
            processed_packets: Vec::with_capacity(num_packets as usize),
        };
        assert(station@.cached =~= Map::empty());
        station
    }

    /// Pause before each arrival is handled, in microseconds.
    pub fn processing_interval(&self) -> (interval: u64)
        ensures
            interval == self@.interval,
    {
        self.processing_interval
    }

    /// How many packets the run consists of.
    pub fn expected(&self) -> (count: u32)
        ensures
            count == self@.expected,
    {
        self.expected
    }

    /// The id that is delivered next.
    pub fn next_expected(&self) -> (id: u32)
        requires
            self.wf(),
        ensures
            id == self@.next_expected(),
    {
        self.processed_packets.len() as u32
    }

    /// Whether every expected packet has been processed.
    pub fn is_complete(&self) -> (complete: bool)
        ensures
            complete == self@.is_complete(),
    {
        self.processed_packets.len() == self.expected as usize
    }

    /// Whether a packet with this id waits in the cache.
    pub fn is_cached(&self, id: u32) -> (cached: bool)
        ensures
            cached == self@.cached.contains_key(id),
    {
        self.cached_packets.contains_key(&id)
    }

    /// The packets delivered so far, in order.
    pub fn processed(&self) -> (packets: &Vec<Packet>)
        ensures
            packets@ == self@.processed,
    {
        &self.processed_packets
    }

    /// Ends the run and hands out what has been delivered.
    pub fn into_processed(self) -> (packets: Vec<Packet>)
        ensures
            packets@ == self@.processed,
    {
        self.processed_packets
    }

    /// Whether it is the packet's turn.
    fn in_turn(&self, packet: &Packet) -> (in_turn: bool)
        requires
            self.wf(),
        ensures
            in_turn == self@.in_turn(*packet),
    {
        packet.id < self.expected && packet.id == self.processed_packets.len() as u32
    }

    /// Handles an arrival whose turn it is not: caches a packet of the run
    /// that is ahead of its turn, drops one that was delivered before and
    /// one whose id lies beyond the run.
    fn set_aside(&mut self, packet: Packet)
        requires
            old(self).wf(),
            !old(self)@.in_turn(packet),
        ensures
            final(self).wf(),
            final(self)@ == old(self)@.set_aside(packet),
    {
        proof {
            lemma_receive_keeps_wf(self@, packet, 0);
        }
        if packet.id < self.expected && packet.id > self.processed_packets.len() as u32 {
            self.cached_packets.insert(packet.id, packet);
        }
    }

    /// Handles one arrival at the time `now`.
    ///
    /// The arrival is acknowledged whatever becomes of it. A packet ahead
    /// of its turn is cached; the packet whose turn it is gets delivered
    /// together with the cached packets that directly follow it, each
    /// stamped with `now`; a packet that was delivered before is dropped,
    /// and so is one whose id lies beyond the run.
    pub fn receive_at(&mut self, packet: Packet, now: Timestamp) -> (receipt: Receipt)
        requires
            old(self).wf(),
        ensures
            final(self).wf(),
            final(self)@ == old(self)@.receive(packet, now),
            receipt.ack == Response::ACK(packet.id),
            receipt.complete == final(self)@.is_complete(),
    {
        let ghost before = self@;
        let next = self.processed_packets.len() as u32;
        if !self.in_turn(&packet) {
            self.set_aside(packet);
        } else {
            self.processed_packets.push(
                Packet { id: packet.id, transmitted: packet.transmitted, processed: Some(now) },
            );
            let ghost first = (next + 1) as nat;
            let mut following: u32 = next + 1;
            loop
                invariant_except_break
                    first <= following <= self.expected,
                    self.expected == before.expected,
                    self.processing_interval == before.interval,
                    before.wf(),
                    first == before.processed.len() + 1,
                    forall|id: u32| first <= id < following ==> before.cached.contains_key(id),
                    self.processed_packets@ == before.processed.push(packet.stamped(now))
                        + Seq::new(
                        (following - first) as nat,
                        |i: int| before.cached[(first + i) as u32].stamped(now),
                    ),
                    self.cached_packets@ == before.cached.remove_keys(
                        Set::new(|id: u32| first <= id < following),
                    ),
                ensures
                    self@ == before.deliver(packet, now),
                decreases self.expected - following,
            {
                match self.cached_packets.remove(&following) {
                    Some(cached) => {
                        assert(before.cached.contains_key(following));
                        assert(cached == before.cached[following]);
                        self.processed_packets.push(
                            Packet {
                                id: cached.id,
                                transmitted: cached.transmitted,
                                processed: Some(now),
                            },
                        );
                        following = following + 1;
                        assert(self.cached_packets@ =~= before.cached.remove_keys(
                            Set::new(|id: u32| first <= id < following),
                        ));
                        assert(self.processed_packets@ =~= before.processed.push(
                            packet.stamped(now),
                        ) + Seq::new(
                            (following - first) as nat,
                            |i: int| before.cached[(first + i) as u32].stamped(now),
                        ));
                    },
                    None => {
                        proof {
                            assert(!before.cached.contains_key(following));
                            lemma_run_length(before, first, (following - first) as nat);
                            assert(self.cached_packets@ =~= before.deliver(packet, now).cached);
                        }
                        break ;
                    },
                }
            }
        }
        proof {
            lemma_receive_keeps_wf(before, packet, now);
        }
        Receipt {
            ack: Response::ACK(packet.id),
            complete: self.processed_packets.len() == self.expected as usize,
        }
    }

    /// Handles one arrival at the time that the wall clock shows.
    ///
    /// Only the packet whose turn it is needs the time, for its stamp. Any
    /// other packet is handled without a look at the clock, and always
    /// gets its receipt. For the packet in turn the result is `None`, and
    /// nothing changed, when the clock shows a time that cannot be written
    /// as a `Timestamp`.
    pub fn receive(&mut self, packet: Packet) -> (receipt: Option<Receipt>)
        requires
            old(self).wf(),
        ensures
            final(self).wf(),
            !old(self)@.in_turn(packet) ==> {
                &&& receipt == Some(
                    Receipt {
                        ack: Response::ACK(packet.id),
                        complete: old(self)@.is_complete(),
                    },
                )
                &&& final(self)@ == old(self)@.set_aside(packet)
            },
            match receipt {
                Some(receipt) => {
                    &&& exists|now: Timestamp|
                        final(self)@ == #[trigger] old(self)@.receive(packet, now)
                    &&& receipt.ack == Response::ACK(packet.id)
                    &&& receipt.complete == final(self)@.is_complete()
                },
                None => final(self)@ == old(self)@,
            },
    {
        if !self.in_turn(&packet) {
            self.set_aside(packet);
            assert(self@ == old(self)@.receive(packet, 0));
            Some(Receipt { ack: Response::ACK(packet.id), complete: self.is_complete() })
        } else {
            match utc_now_nanos() {
                Some(now) => Some(self.receive_at(packet, now)),
                None => None,
            }
        }
    }

    /// Handles the arrivals one by one, each at its own time, until the run
    /// is complete or the arrivals are used up. The acknowledgments are
    /// added to `responses`. What has been delivered is handed out: the
    /// whole sequence in the first case, its beginning in the second.
    pub fn run_simulation(
        self,
        arrivals: Vec<Arrival>,
        responses: &mut Vec<Response>,
    ) -> (processed: Vec<Packet>)
        requires
            self.wf(),
        ensures
            processed@ == self@.run(arrivals@).processed,
            final(responses)@ == old(responses)@ + self@.answers(arrivals@),
    {
        let mut station = self;
        let mut handled: usize = 0;
        assert(arrivals@.skip(0) =~= arrivals@);
        while handled < arrivals.len() && !station.is_complete()
            invariant
                station.wf(),
                handled <= arrivals.len(),
                station@.expected == self@.expected,
                station@.run(arrivals@.skip(handled as int)) == self@.run(arrivals@),
                responses@ + station@.answers(arrivals@.skip(handled as int)) == old(responses)@
                    + self@.answers(arrivals@),
            decreases arrivals.len() - handled,
        {
            let arrival = arrivals[handled];
            let ghost rest = arrivals@.skip(handled as int);
            let ghost before = station@;
            let ghost answered = responses@;
            proof {
                assert(rest.drop_first() =~= arrivals@.skip(handled as int + 1));
            }
            let receipt = station.receive_at(arrival.packet, arrival.at);
            responses.push(receipt.ack);
            handled = handled + 1;
            proof {
                assert(responses@ + station@.answers(rest.drop_first()) =~= answered
                    + before.answers(rest));
            }
        }
        proof {
            assert(responses@ + Seq::<Response>::empty() =~= responses@);
        }
        station.processed_packets
    }
}

} // verus!
