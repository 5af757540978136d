//! Both ends together: what the base station makes of the packets that
//! the transmitter puts onto the link.

use crate::base_station::{
    arrivals_in_time_order, lemma_completed_run_is_whole, lemma_processing_follows_sending,
    lemma_run_keeps_wf, Arrival, StationModel,
};
use crate::channel::{Packet, Response, SenderModel};
use crate::retransmission::{
    events_in_time_order, lemma_before_next, lemma_due_time_never_falls,
};
use crate::transmitter::{Event, TransmitterModel};
use vstd::prelude::*;

verus! {

impl TransmitterModel {
    /// Nothing has been sent that lies beyond a run of `num_packets`
    /// packets, and the queue holds the packets as they were first sent:
    /// not processed.
    pub open spec fn within_run(self, num_packets: u32) -> bool {
        &&& self.next_id <= num_packets
        &&& forall|i: int|
            0 <= i < self.queue.len() ==> (#[trigger] self.queue[i]).packet.id < self.next_id
                && self.queue[i].packet.processed is None
    }
}

/// No queued packet carries a sending time later than one of the events
/// from `from` on.
pub open spec fn sent_before_events(
    model: TransmitterModel,
    events: Seq<Event>,
    from: int,
) -> bool {
    forall|i: int, k: int|
        0 <= i < model.queue.len() && from <= k < events.len() && (
        #[trigger] events[k]).time() is Some ==> (#[trigger] model.queue[i]).packet.transmitted
            <= events[k].time()->0
}

/// One event keeps the transmitter within the run, and, where the events
/// take place in the order of their times, the sending times of the queued
/// packets in the past.
pub proof fn lemma_step_stays_within_run(
    model: TransmitterModel,
    num_packets: u32,
    events: Seq<Event>,
    index: int,
)
    requires
        0 <= index < events.len(),
        events_in_time_order(events),
        model.within_run(num_packets),
        sent_before_events(model, events, index),
    ensures
        model.step(num_packets, events[index]).within_run(num_packets),
        sent_before_events(model.step(num_packets, events[index]), events, index + 1),
{
    let event = events[index];
    let after = model.step(num_packets, event);
    let rest = model.queue.drop_first();
    if after.queue != model.queue {
        // Each record after the event is one from before it, or holds the
        // packet that the event has sent.
        assert forall|i: int| 0 <= i < after.queue.len() implies (
        #[trigger] after.queue[i]).packet.id < after.next_id
            && after.queue[i].packet.processed is None by {
            match event {
                Event::Turn { .. } => {
                    if i < model.queue.len() {
                        assert(after.queue[i] == model.queue[i]);
                    }
                },
                Event::Answer { .. } => {},
                Event::Look { .. } => {
                    if i < rest.len() {
                        assert(after.queue[i] == model.queue[i + 1]);
                    } else {
                        assert(after.queue[i].packet == model.queue[0].packet);
                    }
                },
            }
        }
        assert forall|i: int, k: int|
            0 <= i < after.queue.len() && index + 1 <= k < events.len() && (
            #[trigger] events[k]).time() is Some implies (
        #[trigger] after.queue[i]).packet.transmitted <= events[k].time()->0 by {
            assert(events[index].time()->0 <= events[k].time()->0);
            match event {
                Event::Turn { .. } => {
                    if i < model.queue.len() {
                        assert(after.queue[i] == model.queue[i]);
                    }
                },
                Event::Answer { .. } => {},
                Event::Look { .. } => {
                    if i < rest.len() {
                        assert(after.queue[i] == model.queue[i + 1]);
                    } else {
                        assert(after.queue[i].packet == model.queue[0].packet);
                    }
                },
            }
        }
    }
}

/// A transmitter that starts with nothing sent stays within the run.
pub proof fn lemma_run_stays_within_run(
    interval: nat,
    retransmission_delay: nat,
    window: nat,
    packets: SenderModel,
    num_packets: u32,
    events: Seq<Event>,
    index: int,
)
    requires
        0 <= index <= events.len(),
        events_in_time_order(events),
    ensures
        TransmitterModel::fresh(interval, retransmission_delay, window, packets).before(
            num_packets,
            events,
            index,
        ).within_run(num_packets),
        sent_before_events(
            TransmitterModel::fresh(interval, retransmission_delay, window, packets).before(
                num_packets,
                events,
                index,
            ),
            events,
            index,
        ),
    decreases index,
{
    let fresh = TransmitterModel::fresh(interval, retransmission_delay, window, packets);
    if index > 0 {
        lemma_run_stays_within_run(
            interval,
            retransmission_delay,
            window,
            packets,
            num_packets,
            events,
            index - 1,
        );
        lemma_before_next(fresh, num_packets, events, index - 1);
        lemma_step_stays_within_run(
            fresh.before(num_packets, events, index - 1),
            num_packets,
            events,
            index - 1,
        );
    } else {
        assert(events.take(0) =~= Seq::<Event>::empty());
    }
}

/// Law: what the transmitter puts onto the link belongs to the run. Where
/// the turns and looks take place in the order of their times, every
/// packet that goes onto the link, for the first time or again, has an id
/// below the number of packets, is not marked as processed, and carries a
/// sending time that is not later than the time at which it goes onto the
/// link.
pub proof fn lemma_sent_packet_is_of_the_run(
    interval: nat,
    retransmission_delay: nat,
    window: nat,
    packets: SenderModel,
    num_packets: u32,
    events: Seq<Event>,
    index: int,
) -> (packet: Packet)
    requires
        0 <= index < events.len(),
        events_in_time_order(events),
        TransmitterModel::fresh(interval, retransmission_delay, window, packets).before(
            num_packets,
            events,
            index,
        ).sends(num_packets, events[index]) is Some,
    ensures
        Some(packet) == TransmitterModel::fresh(
            interval,
            retransmission_delay,
            window,
            packets,
        ).before(num_packets, events, index).sends(num_packets, events[index]),
        packet.id < num_packets,
        packet.processed is None,
        events[index].time() is Some,
        packet.transmitted <= events[index].time()->0,
{
    let fresh = TransmitterModel::fresh(interval, retransmission_delay, window, packets);
    let state = fresh.before(num_packets, events, index);
    lemma_run_stays_within_run(
        interval,
        retransmission_delay,
        window,
        packets,
        num_packets,
        events,
        index,
    );
    if events[index] is Look {
        assert(state.queue[0].packet.transmitted <= events[index].time()->0);
    }
    state.sends(num_packets, events[index])->0
}

/// The arrival is a packet that the transmitter puts onto the link at the
/// event at `index`, and is handled no earlier than that.
pub open spec fn arrives_from(
    model: TransmitterModel,
    num_packets: u32,
    events: Seq<Event>,
    index: int,
    arrival: Arrival,
) -> bool {
    &&& 0 <= index < events.len()
    &&& model.before(num_packets, events, index).sends(num_packets, events[index]) == Some(
        arrival.packet,
    )
    &&& events[index].time() is Some
    &&& events[index].time()->0 <= arrival.at
}

/// The arrival is a packet that the transmitter puts onto the link at one
/// of the events, and is handled no earlier than that.
pub open spec fn follows_a_send(
    model: TransmitterModel,
    num_packets: u32,
    events: Seq<Event>,
    arrival: Arrival,
) -> bool {
    exists|index: int| #[trigger] arrives_from(model, num_packets, events, index, arrival)
}

/// Every arrival is a packet that the transmitter has put onto the link,
/// and the arrivals are handled in the order of their times.
pub open spec fn arrivals_follow_sends(
    model: TransmitterModel,
    num_packets: u32,
    events: Seq<Event>,
    arrivals: Seq<Arrival>,
) -> bool {
    &&& forall|a: int|
        0 <= a < arrivals.len() ==> follows_a_send(
            model,
            num_packets,
            events,
            #[trigger] arrivals[a],
        )
    &&& forall|a: int, b: int|
        0 <= a <= b < arrivals.len() ==> (#[trigger] arrivals[a]).at <= (#[trigger] arrivals[b]).at
}

/// Law: the two ends together deliver the run in order. Let a transmitter
/// that starts with nothing sent react to any events in the order of their
/// times, and let a base station that starts with nothing seen handle, in
/// the order of their times, packets that the transmitter has put onto the
/// link, each no earlier than it was put there: whichever of them arrive,
/// in whatever order and however often. Then the base station never holds
/// more processed packets than the run has, no packet is processed before
/// it was sent, and once the base station is complete it holds exactly the
/// packets of the run, numbered from zero without a gap.
pub proof fn lemma_pipeline_delivers_the_run(
    transmission_interval: nat,
    retransmission_delay: nat,
    window: nat,
    packets: SenderModel,
    processing_interval: nat,
    num_packets: u32,
    events: Seq<Event>,
    arrivals: Seq<Arrival>,
)
    requires
        events_in_time_order(events),
        arrivals_follow_sends(
            TransmitterModel::fresh(transmission_interval, retransmission_delay, window, packets),
            num_packets,
            events,
            arrivals,
        ),
    ensures
        ({
            let end = StationModel::fresh(processing_interval, num_packets as nat).run(arrivals);
            &&& end.wf()
            &&& end.processed.len() <= num_packets
            &&& end.processed_after_sent()
            &&& end.is_complete() ==> end.processed.len() == num_packets && forall|i: int|
                0 <= i < num_packets ==> (#[trigger] end.processed[i]).id == i
        }),
{
    let transmitter = TransmitterModel::fresh(
        transmission_interval,
        retransmission_delay,
        window,
        packets,
    );
    let station = StationModel::fresh(processing_interval, num_packets as nat);
    assert forall|a: int| 0 <= a < arrivals.len() implies (#[trigger] arrivals[a]).packet.id
        < num_packets && arrivals[a].packet.transmitted <= arrivals[a].at by {
        let index = choose|index: int| #[trigger]
            arrives_from(transmitter, num_packets, events, index, arrivals[a]);
        lemma_sent_packet_is_of_the_run(
            transmission_interval,
            retransmission_delay,
            window,
            packets,
            num_packets,
            events,
            index,
        );
    }
    assert(arrivals_in_time_order(arrivals));
    lemma_run_keeps_wf(station, arrivals);
    lemma_processing_follows_sending(processing_interval, num_packets as nat, arrivals);
    if station.run(arrivals).is_complete() {
        lemma_completed_run_is_whole(processing_interval, num_packets as nat, arrivals);
    }
}

/// Law: the transmitter accepts what the base station answers. The base
/// station answers an arrival with the acknowledgment of its id, so where
/// the packet has gone onto the link before, the transmitter does not
/// refuse the response, whenever it comes and however often.
pub proof fn lemma_answer_to_sent_packet_is_accepted(
    model: TransmitterModel,
    num_packets: u32,
    events: Seq<Event>,
    sent: int,
    answered: int,
    id: u32,
)
    requires
        model.wf(),
        0 <= sent < answered <= events.len(),
        model.sends_id(num_packets, events, sent, id),
    ensures
        model.before(num_packets, events, answered).acknowledgment(Response::ACK(id)) is Ok,
{
    lemma_due_time_never_falls(model, num_packets, events, sent, answered, id);
}

} // verus!
