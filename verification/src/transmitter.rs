//! The sending end: issues the packets at a fixed rate, keeps the number
//! of unacknowledged packets within a window, and sends again what stays
//! unacknowledged for too long.

use crate::channel::{Delivery, Nanos, Packet, Response, Sender, SenderModel, Timestamp};
use crate::clock::utc_now_nanos;
use crate::pacing::{interval_micros, spec_interval_micros};
use crate::path_loss::{uniform_below, SAMPLE_RANGE};
use crate::window::lemma_sent_is_confirmed_or_outstanding;
use std::collections::HashSet;
use std::collections::VecDeque;
use vstd::prelude::*;

verus! {

broadcast use vstd::std_specs::hash::group_hash_axioms;

/// A packet that waits to be sent again, and when.
#[derive(Clone, Copy, Debug, PartialEq, Eq)]
pub struct Record {
    /// The time from which the packet is sent again.
    pub due: Timestamp,
    /// The packet, as it was first sent.
    pub packet: Packet,
}

/// A response that the transmitter refuses.
#[derive(Clone, Copy, Debug, PartialEq, Eq)]
pub enum ProtocolViolation {
    /// A negative acknowledgment arrived; the base station sends none.
    NegativeAcknowledgment(u32),
    /// An acknowledgment arrived for a packet that was never sent.
    UnknownPacket(u32),
}

/// How far a packet has come.
#[derive(Clone, Copy, Debug, PartialEq, Eq)]
pub enum PacketStatus {
    /// Not sent yet.
    Pending,
    /// Sent, perhaps more than once, and not acknowledged.
    InFlight,
    /// Acknowledged; nothing more happens to the packet.
    Acknowledged,
}

impl PacketStatus {
    /// The place of the status in the course of a packet.
    pub open spec fn rank(self) -> nat {
        match self {
            PacketStatus::Pending => 0,
            PacketStatus::InFlight => 1,
            PacketStatus::Acknowledged => 2,
        }
    }
}

/// What an accepted acknowledgment led to.
#[derive(Clone, Copy, Debug, PartialEq, Eq)]
pub enum Acknowledgment {
    /// The first acknowledgment of the packet: it is confirmed now, and
    /// its token is back in the pool.
    Released,
    /// The packet was confirmed before. Nothing changed: a token goes back
    /// once for each packet.
    Repeated,
}

/// What the next turn of the transmission loop led to.
#[derive(Debug, PartialEq, Eq)]
pub enum Transmission {
    /// Every packet of the run has been sent a first time.
    Finished,
    /// The window is used up: no token is free.
    Blocked,
    /// The packet went onto the link, which did or did not let it through.
    Sent { packet: Packet, delivery: Option<Delivery<Packet>> },
}

/// What a look at the head of the resubmission queue led to.
#[derive(Debug, PartialEq, Eq)]
pub enum Resubmission {
    /// The queue is empty.
    Idle,
    /// The packet at the head is confirmed; its record is gone.
    Discarded(Packet),
    /// The packet at the head is not due yet: it is after this span of
    /// time.
    Wait(Nanos),
    /// The packet at the head went onto the link again and waits at the
    /// end of the queue for its next turn.
    Resent { packet: Packet, delivery: Option<Delivery<Packet>> },
}

/// The time from which a packet sent at `now` is sent again: `delay`
/// later, or at the end of time where that cannot be written.
pub open spec fn due_time(now: Timestamp, delay: nat) -> Timestamp {
    if now + delay > i64::MAX {
        i64::MAX
    } else {
        (now + delay) as i64
    }
}

/// The transmitter as a mathematical value.
pub struct TransmitterModel {
    /// Pause before each first transmission, in microseconds.
    pub interval: nat,
    /// How long a packet waits for its acknowledgment before it is sent
    /// again.
    pub retransmission_delay: nat,
    /// How many packets may be unacknowledged at a time.
    pub window: nat,
    /// How many tokens are free.
    pub tokens: nat,
    /// The packets with a smaller id have been sent.
    pub next_id: nat,
    /// The ids whose acknowledgment has arrived.
    pub confirmed: Set<u32>,
    /// The packets that wait to be sent again, the next one first.
    pub queue: Seq<Record>,
    /// The sending side of the forward channel.
    pub packets: SenderModel,
}

impl TransmitterModel {
    /// A transmitter that has sent nothing yet: every token is free.
    pub open spec fn fresh(
        interval: nat,
        retransmission_delay: nat,
        window: nat,
        packets: SenderModel,
    ) -> TransmitterModel {
        TransmitterModel {
            interval,
            retransmission_delay,
            window,
            tokens: window,
            next_id: 0,
            confirmed: Set::empty(),
            queue: Seq::empty(),
            packets,
        }
    }

    /// A record for `id` waits in the queue.
    pub open spec fn queued(self, id: u32) -> bool {
        exists|i: int| 0 <= i < self.queue.len() && (#[trigger] self.queue[i]).packet.id == id
    }

    /// How far the packet with this id has come.
    pub open spec fn status(self, id: u32) -> PacketStatus {
        if self.confirmed.contains(id) {
            PacketStatus::Acknowledged
        } else if id < self.next_id {
            PacketStatus::InFlight
        } else {
            PacketStatus::Pending
        }
    }

    /// The ids that have been sent and are not confirmed.
    pub open spec fn outstanding(self) -> Set<u32> {
        Set::new(|id: u32| id < self.next_id && !self.confirmed.contains(id))
    }

    /// What the functions of the transmitter keep: every token is either
    /// free or held by an outstanding packet, only sent packets are
    /// confirmed or queued, no packet is queued twice, and every
    /// outstanding packet is queued.
    pub open spec fn wf(self) -> bool {
        &&& self.tokens + self.outstanding().len() == self.window
        &&& self.next_id <= u32::MAX
        &&& self.confirmed.finite()
        &&& forall|id: u32| #[trigger] self.confirmed.contains(id) ==> id < self.next_id
        &&& forall|i: int|
            0 <= i < self.queue.len() ==> (#[trigger] self.queue[i]).packet.id < self.next_id
        &&& forall|i: int, j: int|
            0 <= i < j < self.queue.len() ==> (#[trigger] self.queue[i]).packet.id != (
            #[trigger] self.queue[j]).packet.id
        &&& forall|id: u32|
            id < self.next_id && !self.confirmed.contains(id) ==> #[trigger] self.queued(id)
    }

    /// The packet that is sent first at `now`.
    pub open spec fn next_packet(self, now: Timestamp) -> Packet {
        Packet { id: self.next_id as u32, transmitted: now, processed: None }
    }

    /// What keeps the next turn of the transmission loop from sending a
    /// packet, if anything does: the run is finished once `num_packets`
    /// packets have been sent, and blocked while no token is free. Neither
    /// depends on the time or on the link.
    pub open spec fn hindrance(self, num_packets: u32) -> Option<Transmission> {
        if self.next_id >= num_packets {
            Some(Transmission::Finished)
        } else if self.tokens == 0 {
            Some(Transmission::Blocked)
        } else {
            None
        }
    }

    /// What the next turn of the transmission loop leads to.
    pub open spec fn transmission(
        self,
        num_packets: u32,
        now: Timestamp,
        transition_sample: nat,
        loss_sample: nat,
    ) -> Transmission {
        if self.next_id >= num_packets {
            Transmission::Finished
        } else if self.tokens == 0 {
            Transmission::Blocked
        } else {
            Transmission::Sent {
                packet: self.next_packet(now),
                delivery: self.packets.advance(transition_sample).carry(
                    self.next_packet(now),
                    loss_sample,
                ),
            }
        }
    }

    /// The state after the next turn of the transmission loop: where a
    /// packet is sent, it takes a token, goes onto the link, and is queued
    /// for its retransmission.
    pub open spec fn transmit(
        self,
        num_packets: u32,
        now: Timestamp,
        transition_sample: nat,
    ) -> TransmitterModel {
        if self.next_id < num_packets && self.tokens > 0 {
            TransmitterModel {
                tokens: (self.tokens - 1) as nat,
                next_id: self.next_id + 1,
                queue: self.queue.push(
                    Record {
                        due: due_time(now, self.retransmission_delay),
                        packet: self.next_packet(now),
                    },
                ),
                packets: self.packets.advance(transition_sample),
                ..self
            }
        } else {
            self
        }
    }

    /// What a response leads to.
    pub open spec fn acknowledgment(self, response: Response) -> Result<
        Acknowledgment,
        ProtocolViolation,
    > {
        match response {
            Response::NACK(id) => Err(ProtocolViolation::NegativeAcknowledgment(id)),
            Response::ACK(id) => if id >= self.next_id {
                Err(ProtocolViolation::UnknownPacket(id))
            } else if self.confirmed.contains(id) {
                Ok(Acknowledgment::Repeated)
            } else {
                Ok(Acknowledgment::Released)
            },
        }
    }

    /// The state after a response: the acknowledgment of a sent packet
    /// confirms it, and the first one puts the packet's token back;
    /// anything else changes nothing.
    pub open spec fn acknowledge(self, response: Response) -> TransmitterModel {
        match response {
            Response::ACK(id) => if id < self.next_id {
                TransmitterModel {
                    tokens: if self.confirmed.contains(id) {
                        self.tokens
                    } else {
                        self.tokens + 1
                    },
                    confirmed: self.confirmed.insert(id),
                    ..self
                }
            } else {
                self
            },
            Response::NACK(_) => self,
        }
    }

    /// What a look at the head of the resubmission queue leads to where
    /// the time plays no part: with an empty queue and with a confirmed
    /// packet at its head. `None` where the head is unconfirmed, so that
    /// its due time decides.
    pub open spec fn settled(self) -> Option<Resubmission> {
        if self.queue.len() == 0 {
            Some(Resubmission::Idle)
        } else if self.confirmed.contains(self.queue[0].packet.id) {
            Some(Resubmission::Discarded(self.queue[0].packet))
        } else {
            None
        }
    }

    /// The state after such a look: a confirmed packet at the head of the
    /// queue has left it, and nothing else has changed.
    pub open spec fn settle(self) -> TransmitterModel {
        if self.queue.len() > 0 && self.confirmed.contains(self.queue[0].packet.id) {
            TransmitterModel { queue: self.queue.drop_first(), ..self }
        } else {
            self
        }
    }

    /// What a look at the head of the resubmission queue leads to.
    pub open spec fn resubmission(
        self,
        now: Timestamp,
        transition_sample: nat,
        loss_sample: nat,
    ) -> Resubmission {
        if self.queue.len() == 0 {
            Resubmission::Idle
        } else if self.confirmed.contains(self.queue[0].packet.id) {
            Resubmission::Discarded(self.queue[0].packet)
        } else if self.queue[0].due > now {
            Resubmission::Wait((self.queue[0].due - now) as Nanos)
        } else {
            Resubmission::Resent {
                packet: self.queue[0].packet,
                delivery: self.packets.advance(transition_sample).carry(
                    self.queue[0].packet,
                    loss_sample,
                ),
            }
        }
    }

    /// The state after a look at the head of the resubmission queue: a
    /// confirmed packet leaves the queue; an unconfirmed one that is due
    /// goes onto the link and to the end of the queue, due again one
    /// retransmission delay after `now`.
    pub open spec fn resubmit(self, now: Timestamp, transition_sample: nat) -> TransmitterModel {
        if self.queue.len() == 0 {
            self
        } else if self.confirmed.contains(self.queue[0].packet.id) {
            TransmitterModel { queue: self.queue.drop_first(), ..self }
        } else if self.queue[0].due > now {
            self
        } else {
            TransmitterModel {
                queue: self.queue.drop_first().push(
                    Record {
                        due: due_time(now, self.retransmission_delay),
                        packet: self.queue[0].packet,
                    },
                ),
                packets: self.packets.advance(transition_sample),
                ..self
            }
        }
    }
}

/// Something that the transmitter reacts to.
#[derive(Clone, Copy, Debug, PartialEq, Eq)]
pub enum Event {
    /// A turn of the transmission loop, with the two samples for the link.
    Turn { now: Timestamp, transition_sample: u64, loss_sample: u64 },
    /// A response that arrives from the base station.
    Answer { response: Response },
    /// A look at the head of the resubmission queue, with the two samples
    /// for the link.
    Look { now: Timestamp, transition_sample: u64, loss_sample: u64 },
}

impl Event {
    /// The time at which a turn or a look takes place.
    pub open spec fn time(self) -> Option<Timestamp> {
        match self {
            Event::Turn { now, .. } => Some(now),
            Event::Answer { .. } => None,
            Event::Look { now, .. } => Some(now),
        }
    }
}

/// How the transmitter reacts to an event.
#[derive(Debug, PartialEq, Eq)]
pub enum Reaction {
    /// To a turn of the transmission loop.
    Transmission(Transmission),
    /// To a response.
    Acknowledgment(Result<Acknowledgment, ProtocolViolation>),
    /// To a look at the resubmission queue.
    Resubmission(Resubmission),
}

impl TransmitterModel {
    /// The state after the transmitter has reacted to `event`, in a run of
    /// `num_packets` packets.
    pub open spec fn step(self, num_packets: u32, event: Event) -> TransmitterModel {
        match event {
            Event::Turn { now, transition_sample, .. } => self.transmit(
                num_packets,
                now,
                transition_sample as nat,
            ),
            Event::Answer { response } => self.acknowledge(response),
            Event::Look { now, transition_sample, .. } => self.resubmit(
                now,
                transition_sample as nat,
            ),
        }
    }

    /// How the transmitter reacts to `event`.
    pub open spec fn reaction(self, num_packets: u32, event: Event) -> Reaction {
        match event {
            Event::Turn { now, transition_sample, loss_sample } => Reaction::Transmission(
                self.transmission(num_packets, now, transition_sample as nat, loss_sample as nat),
            ),
            Event::Answer { response } => Reaction::Acknowledgment(self.acknowledgment(response)),
            Event::Look { now, transition_sample, loss_sample } => Reaction::Resubmission(
                self.resubmission(now, transition_sample as nat, loss_sample as nat),
            ),
        }
    }

    /// The state after the transmitter has reacted to the events one by
    /// one.
    pub open spec fn run(self, num_packets: u32, events: Seq<Event>) -> TransmitterModel
        decreases events.len(),
    {
        if events.len() == 0 {
            self
        } else {
            self.run(num_packets, events.drop_last()).step(num_packets, events.last())
        }
    }

    /// The reactions to the events, one by one.
    pub open spec fn reactions(self, num_packets: u32, events: Seq<Event>) -> Seq<Reaction> {
        Seq::new(
            events.len(),
            |i: int| self.run(num_packets, events.take(i)).reaction(num_packets, events[i]),
        )
    }

    /// The packet that goes onto the link when the transmitter reacts to
    /// `event`, be it for the first time or again.
    pub open spec fn sends(self, num_packets: u32, event: Event) -> Option<Packet> {
        match self.reaction(num_packets, event) {
            Reaction::Transmission(Transmission::Sent { packet, .. }) => Some(packet),
            Reaction::Resubmission(Resubmission::Resent { packet, .. }) => Some(packet),
            _ => None,
        }
    }
}

/// A turn of the transmission loop keeps the state well formed.
pub proof fn lemma_transmit_keeps_wf(
    model: TransmitterModel,
    num_packets: u32,
    now: Timestamp,
    transition_sample: nat,
)
    requires
        model.wf(),
    ensures
        model.transmit(num_packets, now, transition_sample).wf(),
{
    let after = model.transmit(num_packets, now, transition_sample);
    if model.next_id < num_packets && model.tokens > 0 {
        lemma_sent_is_confirmed_or_outstanding(model);
        assert(after.outstanding() =~= model.outstanding().insert(model.next_id as u32));
        assert forall|id: u32|
            id < after.next_id && !after.confirmed.contains(id) implies #[trigger] after.queued(
            id,
        ) by {
            if id < model.next_id {
                assert(model.queued(id));
                let i = choose|i: int|
                    0 <= i < model.queue.len() && (#[trigger] model.queue[i]).packet.id == id;
                assert(after.queue[i].packet.id == id);
            } else {
                assert(after.queue[after.queue.len() - 1].packet.id == id);
            }
        }
    }
}

/// A response keeps the state well formed.
pub proof fn lemma_acknowledge_keeps_wf(model: TransmitterModel, response: Response)
    requires
        model.wf(),
    ensures
        model.acknowledge(response).wf(),
{
    let after = model.acknowledge(response);
    lemma_sent_is_confirmed_or_outstanding(model);
    match response {
        Response::ACK(id) => {
            if id < model.next_id && !model.confirmed.contains(id) {
                assert(model.outstanding().contains(id));
                assert(after.outstanding() =~= model.outstanding().remove(id));
            } else if id < model.next_id {
                assert(after.confirmed =~= model.confirmed);
            }
        },
        Response::NACK(_) => {},
    }
    assert forall|id: u32|
        id < after.next_id && !after.confirmed.contains(id) implies #[trigger] after.queued(
        id,
    ) by {
        assert(model.queued(id));
    }
}

/// A look at the head of the resubmission queue keeps the state well
/// formed.
pub proof fn lemma_resubmit_keeps_wf(
    model: TransmitterModel,
    now: Timestamp,
    transition_sample: nat,
)
    requires
        model.wf(),
    ensures
        model.resubmit(now, transition_sample).wf(),
{
    let after = model.resubmit(now, transition_sample);
    assert(after.outstanding() =~= model.outstanding());
    if model.queue.len() > 0 && (model.confirmed.contains(model.queue[0].packet.id)
        || model.queue[0].due <= now) {
        let rest = model.queue.drop_first();
        assert forall|i: int| 0 <= i < rest.len() implies #[trigger] rest[i] == model.queue[i
            + 1] by {}
        assert forall|id: u32|
            id < after.next_id && !after.confirmed.contains(id) implies #[trigger] after.queued(
            id,
        ) by {
            assert(model.queued(id));
            let i = choose|i: int|
                0 <= i < model.queue.len() && (#[trigger] model.queue[i]).packet.id == id;
            if i > 0 {
                assert(rest[i - 1] == model.queue[i]);
                assert(after.queue[i - 1].packet.id == id);
            } else {
                assert(after.queue[after.queue.len() - 1].packet.id == id);
            }
        }
        assert forall|i: int, j: int| 0 <= i < j < after.queue.len() implies (
        #[trigger] after.queue[i]).packet.id != (#[trigger] after.queue[j]).packet.id by {
            assert(after.queue[i] == model.queue[i + 1]);
            if j < rest.len() {
                assert(after.queue[j] == model.queue[j + 1]);
            }
        }
        assert forall|i: int| 0 <= i < after.queue.len() implies (
        #[trigger] after.queue[i]).packet.id < after.next_id by {
            if i < rest.len() {
                assert(after.queue[i] == model.queue[i + 1]);
            }
        }
    }
}

/// One event keeps the state well formed.
pub proof fn lemma_step_keeps_wf(model: TransmitterModel, num_packets: u32, event: Event)
    requires
        model.wf(),
    ensures
        model.step(num_packets, event).wf(),
{
    match event {
        Event::Turn { now, transition_sample, .. } => {
            lemma_transmit_keeps_wf(model, num_packets, now, transition_sample as nat);
        },
        Event::Answer { response } => {
            lemma_acknowledge_keeps_wf(model, response);
        },
        Event::Look { now, transition_sample, .. } => {
            lemma_resubmit_keeps_wf(model, now, transition_sample as nat);
        },
    }
}

/// Whatever the transmitter reacts to, its state stays well formed, and
/// what it was made with stays as it is.
pub proof fn lemma_run_keeps_wf(model: TransmitterModel, num_packets: u32, events: Seq<Event>)
    requires
        model.wf(),
    ensures
        model.run(num_packets, events).wf(),
        model.run(num_packets, events).window == model.window,
        model.run(num_packets, events).retransmission_delay == model.retransmission_delay,
        model.run(num_packets, events).interval == model.interval,
    decreases events.len(),
{
    if events.len() > 0 {
        lemma_run_keeps_wf(model, num_packets, events.drop_last());
        lemma_step_keeps_wf(model.run(num_packets, events.drop_last()), num_packets, events.last());
    }
}

/// The sending end of the transport.
pub struct Transmitter {
    transmission_interval: u64,
    retransmission_delay: Nanos,
    max_unconfirmed_packets: usize,
    tokens: usize,
    next_id: u32,
    confirmed_packets: HashSet<u32>,
    unconfirmed_packets: VecDeque<Record>,
    packets: Sender,
}

impl View for Transmitter {
    type V = TransmitterModel;

    closed spec fn view(&self) -> TransmitterModel {
        TransmitterModel {
            interval: self.transmission_interval as nat,
            retransmission_delay: self.retransmission_delay as nat,
            window: self.max_unconfirmed_packets as nat,
            tokens: self.tokens as nat,
            next_id: self.next_id as nat,
            confirmed: self.confirmed_packets@,
            queue: self.unconfirmed_packets@,
            packets: self.packets@,
        }
    }
}

impl Transmitter {
    /// The state is one that the functions below keep.
    pub open spec fn wf(&self) -> bool {
        self@.wf()
    }

    /// A transmitter that sends `transmission_rate` new packets per second
    /// over `packets`, sends a packet again when it has been unconfirmed
    /// for `retransmission_delay`, and keeps at most
    /// `max_unconfirmed_packets` packets unconfirmed. A pool without a
    /// token cannot be made: the window is at least one.
    pub fn new(
        transmission_rate: usize,
        packets: Sender,
        retransmission_delay: Nanos,
        max_unconfirmed_packets: usize,
    ) -> (transmitter: Transmitter)
        requires
            max_unconfirmed_packets > 0,
        ensures
            transmitter.wf(),
            transmitter@ == TransmitterModel::fresh(
                spec_interval_micros(transmission_rate as nat),
                retransmission_delay as nat,
                max_unconfirmed_packets as nat,
                packets@,
            ),
    {
        let transmitter = Transmitter {
            transmission_interval: interval_micros(transmission_rate),
            retransmission_delay,
            max_unconfirmed_packets,
            tokens: max_unconfirmed_packets,
            next_id: 0,
            confirmed_packets: HashSet::new(),
            unconfirmed_packets: VecDeque::new(),
            packets,
        };
        assert(transmitter@.outstanding() =~= Set::empty());
        transmitter
    }

    /// Pause before each first transmission, in microseconds.
    pub fn transmission_interval(&self) -> (interval: u64)
        ensures
            interval == self@.interval,
    {
        self.transmission_interval
    }

    /// How long a packet waits for its acknowledgment before it is sent
    /// again.
    pub fn retransmission_delay(&self) -> (delay: Nanos)
        ensures
            delay == self@.retransmission_delay,
    {
        self.retransmission_delay
    }

    /// How many packets may be unacknowledged at a time.
    pub fn max_unconfirmed_packets(&self) -> (window: usize)
        ensures
            window == self@.window,
    {
        self.max_unconfirmed_packets
    }

    /// How many tokens are free.
    pub fn tokens(&self) -> (tokens: usize)
        ensures
            tokens == self@.tokens,
    {
        self.tokens
    }

    /// How many packets have been sent a first time.
    pub fn sent(&self) -> (count: u32)
        ensures
            count == self@.next_id,
    {
        self.next_id
    }

    /// Whether the acknowledgment of `id` has arrived.
    pub fn is_confirmed(&self, id: u32) -> (confirmed: bool)
        ensures
            confirmed == self@.confirmed.contains(id),
    {
        self.confirmed_packets.contains(&id)
    }

    /// How far the packet with this id has come.
    pub fn status(&self, id: u32) -> (status: PacketStatus)
        ensures
            status == self@.status(id),
    {
        if self.confirmed_packets.contains(&id) {
            PacketStatus::Acknowledged
        } else if id < self.next_id {
            PacketStatus::InFlight
        } else {
            PacketStatus::Pending
        }
    }

    /// How many packets wait to be sent again.
    pub fn queue_len(&self) -> (len: usize)
        ensures
            len == self@.queue.len(),
    {
        self.unconfirmed_packets.len()
    }

    /// The time from which a packet sent at `now` is sent again.
    fn due(&self, now: Timestamp) -> (due: Timestamp)
        ensures
            due == due_time(now, self@.retransmission_delay),
    {
        match now.checked_add_unsigned(self.retransmission_delay) {
            Some(due) => due,
            None => i64::MAX,
        }
    }

    /// What keeps the next turn of the transmission loop from sending a
    /// packet, if anything does.
    fn hindrance(&self, num_packets: u32) -> (hindrance: Option<Transmission>)
        ensures
            hindrance == self@.hindrance(num_packets),
    {
        if self.next_id >= num_packets {
            Some(Transmission::Finished)
        } else if self.tokens == 0 {
            Some(Transmission::Blocked)
        } else {
            None
        }
    }

    /// Looks at the head of the resubmission queue as far as the time
    /// plays no part: reports an empty queue, and drops a confirmed packet.
    fn settle_head(&mut self) -> (settled: Option<Resubmission>)
        requires
            old(self).wf(),
        ensures
            final(self).wf(),
            final(self)@ == old(self)@.settle(),
            settled == old(self)@.settled(),
    {
        proof {
            lemma_resubmit_keeps_wf(self@, 0, 0);
            assert(self@.settled() is Some ==> self@.settle() == self@.resubmit(0, 0));
        }
        if self.unconfirmed_packets.len() == 0 {
            return Some(Resubmission::Idle);
        }
        let head = self.unconfirmed_packets[0];
        if self.confirmed_packets.contains(&head.packet.id) {
            self.unconfirmed_packets.pop_front();
            Some(Resubmission::Discarded(head.packet))
        } else {
            None
        }
    }

    /// The next turn of the transmission loop, at the time `now` and with
    /// the two samples that decide the attempt on the link.
    ///
    /// Once `num_packets` packets have been sent, the loop is finished.
    /// Before that, the next packet needs a token: with none free, the
    /// turn is blocked and nothing changes. With a token, the packet is
    /// made with `now` as its sending time, goes onto the link, and is
    /// queued to be sent again one retransmission delay later.
    pub fn transmit_at(
        &mut self,
        num_packets: u32,
        now: Timestamp,
        transition_sample: u64,
        loss_sample: u64,
    ) -> (transmission: Transmission)
        requires
            old(self).wf(),
        ensures
            final(self).wf(),
            final(self)@ == old(self)@.transmit(num_packets, now, transition_sample as nat),
            transmission == old(self)@.transmission(
                num_packets,
                now,
                transition_sample as nat,
                loss_sample as nat,
            ),
    {
        proof {
            lemma_transmit_keeps_wf(self@, num_packets, now, transition_sample as nat);
        }
        match self.hindrance(num_packets) {
            Some(hindrance) => hindrance,
            None => {
                self.tokens = self.tokens - 1;
                let packet = Packet { id: self.next_id, transmitted: now, processed: None };
                let delivery = self.packets.send_with(packet, transition_sample, loss_sample);
                let due = self.due(now);
                self.unconfirmed_packets.push_back(Record { due, packet });
                self.next_id = self.next_id + 1;
                Transmission::Sent { packet, delivery }
            },
        }
    }

    /// Takes in a response from the base station.
    ///
    /// A negative acknowledgment is refused, and so is the acknowledgment
    /// of a packet that was never sent. The acknowledgment of a sent
    /// packet confirms it at once; the first one puts the packet's token
    /// back into the pool, a repeated one changes nothing.
    pub fn handle_response(&mut self, response: Response) -> (outcome: Result<
        Acknowledgment,
        ProtocolViolation,
    >)
        requires
            old(self).wf(),
        ensures
            final(self).wf(),
            final(self)@ == old(self)@.acknowledge(response),
            outcome == old(self)@.acknowledgment(response),
    {
        proof {
            lemma_acknowledge_keeps_wf(self@, response);
        }
        match response {
            Response::ACK(id) => {
                if id >= self.next_id {
                    Err(ProtocolViolation::UnknownPacket(id))
                } else if self.confirmed_packets.contains(&id) {
                    assert(self@.confirmed.insert(id) =~= self@.confirmed);
                    Ok(Acknowledgment::Repeated)
                } else {
                    proof {
                        lemma_sent_is_confirmed_or_outstanding(self@);
                        assert(self@.outstanding().contains(id));
                    }
                    self.tokens = self.tokens + 1;
                    self.confirmed_packets.insert(id);
                    Ok(Acknowledgment::Released)
                }
            },
            Response::NACK(id) => Err(ProtocolViolation::NegativeAcknowledgment(id)),
        }
    }

    /// A look at the head of the resubmission queue, at the time `now` and
    /// with the two samples that decide the attempt on the link.
    ///
    /// A confirmed packet is dropped from the queue. An unconfirmed one
    /// stays where it is until it is due; from then on it goes onto the
    /// link again and to the end of the queue.
    pub fn resubmit_at(
        &mut self,
        now: Timestamp,
        transition_sample: u64,
        loss_sample: u64,
    ) -> (resubmission: Resubmission)
        requires
            old(self).wf(),
        ensures
            final(self).wf(),
            final(self)@ == old(self)@.resubmit(now, transition_sample as nat),
            resubmission == old(self)@.resubmission(
                now,
                transition_sample as nat,
                loss_sample as nat,
            ),
    {
        proof {
            lemma_resubmit_keeps_wf(self@, now, transition_sample as nat);
        }
        match self.settle_head() {
            Some(settled) => settled,
            None => {
                let head = self.unconfirmed_packets[0];
                if head.due > now {
                    Resubmission::Wait((head.due as i128 - now as i128) as u64)
                } else {
                    self.unconfirmed_packets.pop_front();
                    let delivery = self.packets.send_with(
                        head.packet,
                        transition_sample,
                        loss_sample,
                    );
                    let due = self.due(now);
                    self.unconfirmed_packets.push_back(Record { due, packet: head.packet });
                    Resubmission::Resent { packet: head.packet, delivery }
                }
            },
        }
    }

    /// The next turn of the transmission loop, at the time that the wall
    /// clock shows and with two fresh samples for the link.
    ///
    /// A turn that sends nothing needs neither clock nor samples: once the
    /// run is finished, and while no token is free, the turn says so
    /// without fail. Where a packet is to be sent, the result is `None`,
    /// and nothing changed, when the clock shows a time that cannot be
    /// written as a `Timestamp`.
    pub fn transmit(&mut self, num_packets: u32) -> (transmission: Option<Transmission>)
        requires
            old(self).wf(),
        ensures
            final(self).wf(),
            old(self)@.hindrance(num_packets) is Some ==> {
                &&& transmission == old(self)@.hindrance(num_packets)
                &&& final(self)@ == old(self)@
            },
            match transmission {
                Some(transmission) => {
                    &&& exists|now: Timestamp, transition_sample: nat, loss_sample: nat|
                        {
                            &&& transition_sample < SAMPLE_RANGE
                            &&& loss_sample < SAMPLE_RANGE
                            &&& final(self)@ == old(self)@.transmit(
                                num_packets,
                                now,
                                transition_sample,
                            )
                            &&& transmission == #[trigger] old(self)@.transmission(
                                num_packets,
                                now,
                                transition_sample,
                                loss_sample,
                            )
                        }
                    &&& transmission is Finished <==> old(self)@.next_id >= num_packets
                    &&& transmission is Blocked <==> old(self)@.next_id < num_packets && old(
                        self,
                    )@.tokens == 0
                },
                None => final(self)@ == old(self)@,
            },
    {
        match self.hindrance(num_packets) {
            Some(hindrance) => {
                assert(hindrance == self@.transmission(num_packets, 0, 0, 0));
                Some(hindrance)
            },
            None => match utc_now_nanos() {
                Some(now) => {
                    let transition_sample = uniform_below(SAMPLE_RANGE);
                    let loss_sample = uniform_below(SAMPLE_RANGE);
                    let transmission = self.transmit_at(
                        num_packets,
                        now,
                        transition_sample,
                        loss_sample,
                    );
                    assert(transmission == old(self)@.transmission(
                        num_packets,
                        now,
                        transition_sample as nat,
                        loss_sample as nat,
                    ));
                    Some(transmission)
                },
                None => None,
            },
        }
    }

    /// A look at the head of the resubmission queue, at the time that the
    /// wall clock shows and with two fresh samples for the link.
    ///
    /// An empty queue and a confirmed packet at its head need neither clock
    /// nor samples: the look reports the one and drops the other without
    /// fail. Where the head is unconfirmed, the result is `None`, and
    /// nothing changed, when the clock shows a time that cannot be written
    /// as a `Timestamp`.
    pub fn resubmit(&mut self) -> (resubmission: Option<Resubmission>)
        requires
            old(self).wf(),
        ensures
            final(self).wf(),
            old(self)@.settled() is Some ==> {
                &&& resubmission == old(self)@.settled()
                &&& final(self)@ == old(self)@.settle()
            },
            match resubmission {
                Some(resubmission) => {
                    &&& exists|now: Timestamp, transition_sample: nat, loss_sample: nat|
                        {
                            &&& transition_sample < SAMPLE_RANGE
                            &&& loss_sample < SAMPLE_RANGE
                            &&& final(self)@ == old(self)@.resubmit(now, transition_sample)
                            &&& resubmission == #[trigger] old(self)@.resubmission(
                                now,
                                transition_sample,
                                loss_sample,
                            )
                        }
                    &&& resubmission is Idle <==> old(self)@.queue.len() == 0
                    &&& resubmission is Discarded <==> old(self)@.queue.len() > 0 && old(
                        self,
                    )@.confirmed.contains(old(self)@.queue[0].packet.id)
                },
                None => final(self)@ == old(self)@,
            },
    {
        match self.settle_head() {
            Some(settled) => {
                assert(self@ == old(self)@.resubmit(0, 0));
                assert(settled == old(self)@.resubmission(0, 0, 0));
                Some(settled)
            },
            None => match utc_now_nanos() {
                Some(now) => {
                    let transition_sample = uniform_below(SAMPLE_RANGE);
                    let loss_sample = uniform_below(SAMPLE_RANGE);
                    let resubmission = self.resubmit_at(now, transition_sample, loss_sample);
                    assert(resubmission == old(self)@.resubmission(
                        now,
                        transition_sample as nat,
                        loss_sample as nat,
                    ));
                    Some(resubmission)
                },
                None => None,
            },
        }
    }

    /// Reacts to one event of a run of `num_packets` packets.
    pub fn react(&mut self, num_packets: u32, event: Event) -> (reaction: Reaction)
        requires
            old(self).wf(),
        ensures
            final(self).wf(),
            final(self)@ == old(self)@.step(num_packets, event),
            reaction == old(self)@.reaction(num_packets, event),
    {
        match event {
            Event::Turn { now, transition_sample, loss_sample } => Reaction::Transmission(
                self.transmit_at(num_packets, now, transition_sample, loss_sample),
            ),
            Event::Answer { response } => Reaction::Acknowledgment(self.handle_response(response)),
            Event::Look { now, transition_sample, loss_sample } => Reaction::Resubmission(
                self.resubmit_at(now, transition_sample, loss_sample),
            ),
        }
    }

    /// Runs the transmitter through a schedule: the turns of the
    /// transmission loop, the responses and the looks at the resubmission
    /// queue of a run of `num_packets` packets, in the order in which they
    /// take place. Hands out the reactions, one for each event.
    pub fn run_simulation(self, num_packets: u32, events: Vec<Event>) -> (reactions: Vec<Reaction>)
        requires
            self.wf(),
        ensures
            reactions@ == self@.reactions(num_packets, events@),
    {
        let mut transmitter = self;
        let mut reactions: Vec<Reaction> = Vec::with_capacity(events.len());
        let mut handled: usize = 0;
        assert(events@.take(0) =~= Seq::<Event>::empty());
        while handled < events.len()
            invariant
                transmitter.wf(),
                handled <= events.len(),
                transmitter@ == self@.run(num_packets, events@.take(handled as int)),
                reactions@ == self@.reactions(num_packets, events@.take(handled as int)),
            decreases events.len() - handled,
        {
            let event = events[handled];
            let ghost earlier = events@.take(handled as int);
            let ghost extended = events@.take(handled as int + 1);
            let reaction = transmitter.react(num_packets, event);
            reactions.push(reaction);
            handled = handled + 1;
            proof {
                assert(extended.drop_last() =~= earlier);
                assert forall|i: int| 0 <= i < extended.len() implies #[trigger] extended.take(i)
                    == events@.take(i) && extended[i] == events@[i] by {
                    assert(extended.take(i) =~= events@.take(i));
                }
                assert forall|i: int| 0 <= i < earlier.len() implies #[trigger] earlier.take(i)
                    == events@.take(i) && earlier[i] == events@[i] by {
                    assert(earlier.take(i) =~= events@.take(i));
                }
                assert(reactions@ =~= self@.reactions(num_packets, extended));
            }
        }
        assert(events@.take(events.len() as int) =~= events@);
        reactions
    }
}

} // verus!
