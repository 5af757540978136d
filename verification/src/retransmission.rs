//! Retransmission: when a packet is sent again, and when no more.

use crate::channel::{Response, Timestamp};
use crate::transmitter::{due_time, lemma_run_keeps_wf, Event, Record, TransmitterModel};
use vstd::prelude::*;

verus! {

impl TransmitterModel {
    /// The state in which the transmitter reacts to the event at `index`.
    pub open spec fn before(
        self,
        num_packets: u32,
        events: Seq<Event>,
        index: int,
    ) -> TransmitterModel {
        self.run(num_packets, events.take(index))
    }

    /// The event at `index` puts the packet with this id onto the link.
    pub open spec fn sends_id(
        self,
        num_packets: u32,
        events: Seq<Event>,
        index: int,
        id: u32,
    ) -> bool {
        match self.before(num_packets, events, index).sends(num_packets, events[index]) {
            Some(packet) => packet.id == id,
            None => false,
        }
    }

    /// Whatever record the queue holds for `id` is due at `due`.
    pub open spec fn due_at(self, id: u32, due: Timestamp) -> bool {
        forall|i: int|
            0 <= i < self.queue.len() && (#[trigger] self.queue[i]).packet.id == id
                ==> self.queue[i].due == due
    }
}

/// The state before the event at `index + 1` is the state before the event
/// at `index`, after that event.
pub proof fn lemma_before_next(
    model: TransmitterModel,
    num_packets: u32,
    events: Seq<Event>,
    index: int,
)
    requires
        0 <= index < events.len(),
    ensures
        model.before(num_packets, events, index + 1) == model.before(
            num_packets,
            events,
            index,
        ).step(num_packets, events[index]),
{
    assert(events.take(index + 1).drop_last() =~= events.take(index));
}

/// What is confirmed stays confirmed, and the count of sent packets never
/// falls.
pub proof fn lemma_run_confirms_for_good(
    model: TransmitterModel,
    num_packets: u32,
    events: Seq<Event>,
)
    ensures
        model.confirmed.subset_of(model.run(num_packets, events).confirmed),
        model.next_id <= model.run(num_packets, events).next_id,
    decreases events.len(),
{
    if events.len() > 0 {
        lemma_run_confirms_for_good(model, num_packets, events.drop_last());
    }
}

/// Law: a packet only moves forward, from pending to in flight to
/// acknowledged, and what is acknowledged stays so.
pub proof fn lemma_status_only_advances(
    model: TransmitterModel,
    num_packets: u32,
    events: Seq<Event>,
    id: u32,
)
    ensures
        model.status(id).rank() <= model.run(num_packets, events).status(id).rank(),
{
    lemma_run_confirms_for_good(model, num_packets, events);
}

/// Law: once the acknowledgment of a packet has arrived, the packet is
/// never put onto the link again, whatever happens afterwards.
pub proof fn lemma_confirmed_packet_is_not_sent_again(
    model: TransmitterModel,
    num_packets: u32,
    events: Seq<Event>,
    index: int,
    id: u32,
)
    requires
        model.wf(),
        model.confirmed.contains(id),
        0 <= index < events.len(),
    ensures
        !model.sends_id(num_packets, events, index, id),
{
    lemma_run_keeps_wf(model, num_packets, events.take(index));
    lemma_run_confirms_for_good(model, num_packets, events.take(index));
    assert(model.before(num_packets, events, index).confirmed.contains(id));
}

/// What is confirmed before one event is confirmed before every later
/// one.
pub proof fn lemma_stays_confirmed(
    model: TransmitterModel,
    num_packets: u32,
    events: Seq<Event>,
    from: int,
    to: int,
    id: u32,
)
    requires
        0 <= from <= to <= events.len(),
        model.before(num_packets, events, from).confirmed.contains(id),
    ensures
        model.before(num_packets, events, to).confirmed.contains(id),
    decreases to - from,
{
    if from < to {
        lemma_stays_confirmed(model, num_packets, events, from, to - 1, id);
        lemma_before_next(model, num_packets, events, to - 1);
    }
}

/// Law: resending stops with the acknowledgment. The acknowledgment of a
/// sent packet confirms it at once, whatever the pool holds and whether or
/// not it is the first; from then on no event puts the packet onto the
/// link again.
pub proof fn lemma_acknowledged_packet_is_not_sent_again(
    model: TransmitterModel,
    num_packets: u32,
    events: Seq<Event>,
    answered: int,
    later: int,
    id: u32,
)
    requires
        model.wf(),
        0 <= answered < later < events.len(),
        events[answered] == (Event::Answer { response: Response::ACK(id) }),
        id < model.before(num_packets, events, answered).next_id,
    ensures
        model.before(num_packets, events, answered + 1).confirmed.contains(id),
        !model.sends_id(num_packets, events, later, id),
{
    lemma_before_next(model, num_packets, events, answered);
    lemma_stays_confirmed(model, num_packets, events, answered + 1, later, id);
    lemma_run_keeps_wf(model, num_packets, events.take(later));
}

/// A packet that goes onto the link is queued with the due time that
/// belongs to the time of sending, and counts as sent from then on.
pub proof fn lemma_sending_sets_due_time(
    model: TransmitterModel,
    num_packets: u32,
    event: Event,
    id: u32,
)
    requires
        model.wf(),
        model.sends(num_packets, event) is Some,
        model.sends(num_packets, event)->0.id == id,
    ensures
        event.time() is Some,
        model.step(num_packets, event).due_at(
            id,
            due_time(event.time()->0, model.retransmission_delay),
        ),
        id < model.step(num_packets, event).next_id,
{
    if event is Look {
        let rest = model.queue.drop_first();
        assert forall|i: int| 0 <= i < rest.len() implies (#[trigger] rest[i]).packet.id != id by {
            assert(rest[i] == model.queue[i + 1]);
        }
    }
}

/// An event that does not put the packet onto the link leaves the due
/// time of its record alone.
pub proof fn lemma_due_time_is_kept(
    model: TransmitterModel,
    num_packets: u32,
    event: Event,
    id: u32,
    due: Timestamp,
)
    requires
        model.wf(),
        model.due_at(id, due),
        id < model.next_id,
        !(model.sends(num_packets, event) is Some && model.sends(num_packets, event)->0.id == id),
    ensures
        model.step(num_packets, event).due_at(id, due),
        id < model.step(num_packets, event).next_id,
{
    let after = model.step(num_packets, event);
    let rest = model.queue.drop_first();
    assert forall|i: int| 0 <= i < after.queue.len() && (#[trigger] after.queue[i]).packet.id
        == id implies after.queue[i].due == due by {
        match event {
            Event::Turn { .. } => {
                if i < model.queue.len() {
                    assert(after.queue[i] == model.queue[i]);
                }
            },
            Event::Answer { .. } => {},
            Event::Look { .. } => {
                if after.queue != model.queue && i < rest.len() {
                    assert(after.queue[i] == model.queue[i + 1]);
                }
            },
        }
    }
}

/// A packet is not sent again before the due time of its record.
pub proof fn lemma_resending_waits(
    model: TransmitterModel,
    num_packets: u32,
    event: Event,
    id: u32,
    due: Timestamp,
)
    requires
        model.wf(),
        model.due_at(id, due),
        id < model.next_id,
        model.sends(num_packets, event) is Some,
        model.sends(num_packets, event)->0.id == id,
    ensures
        event.time() is Some,
        due <= event.time()->0,
{
}

/// From the event that puts a packet onto the link up to any later point,
/// the record of the packet is due no earlier than one retransmission
/// delay after that event.
pub proof fn lemma_due_time_never_falls(
    model: TransmitterModel,
    num_packets: u32,
    events: Seq<Event>,
    first: int,
    later: int,
    id: u32,
) -> (due: Timestamp)
    requires
        model.wf(),
        0 <= first < later <= events.len(),
        model.sends_id(num_packets, events, first, id),
    ensures
        events[first].time() is Some,
        model.before(num_packets, events, later).due_at(id, due),
        id < model.before(num_packets, events, later).next_id,
        due >= due_time(events[first].time()->0, model.retransmission_delay),
    decreases later - first,
{
    let at = later - 1;
    let state = model.before(num_packets, events, at);
    lemma_run_keeps_wf(model, num_packets, events.take(at));
    lemma_before_next(model, num_packets, events, at);
    if later == first + 1 {
        lemma_sending_sets_due_time(state, num_packets, events[at], id);
        due_time(events[first].time()->0, model.retransmission_delay)
    } else {
        let due = lemma_due_time_never_falls(model, num_packets, events, first, at, id);
        if state.sends(num_packets, events[at]) is Some && state.sends(
            num_packets,
            events[at],
        )->0.id == id {
            lemma_resending_waits(state, num_packets, events[at], id, due);
            lemma_sending_sets_due_time(state, num_packets, events[at], id);
            due_time(events[at].time()->0, model.retransmission_delay)
        } else {
            lemma_due_time_is_kept(state, num_packets, events[at], id, due);
            due
        }
    }
}

/// Law: a packet is never sent again earlier than one retransmission delay
/// after it was last sent. Of two events that put the same packet onto the
/// link, the later takes place at or after the due time that belongs to
/// the earlier.
pub proof fn lemma_resend_keeps_retransmission_delay(
    model: TransmitterModel,
    num_packets: u32,
    events: Seq<Event>,
    first: int,
    again: int,
    id: u32,
)
    requires
        model.wf(),
        0 <= first < again < events.len(),
        model.sends_id(num_packets, events, first, id),
        model.sends_id(num_packets, events, again, id),
    ensures
        events[first].time() is Some,
        events[again].time() is Some,
        events[again].time()->0 >= due_time(
            events[first].time()->0,
            model.retransmission_delay,
        ),
{
    let due = lemma_due_time_never_falls(model, num_packets, events, first, again, id);
    lemma_run_keeps_wf(model, num_packets, events.take(again));
    lemma_resending_waits(
        model.before(num_packets, events, again),
        num_packets,
        events[again],
        id,
        due,
    );
}

/// Law: a packet that is sent and not acknowledged is sent again when its
/// turn comes. While a packet is outstanding, a record of it waits in the
/// queue; and when the record at the head of the queue belongs to an
/// unconfirmed packet and is due, a look puts that packet onto the link.
pub proof fn lemma_outstanding_packet_is_sent_again(
    model: TransmitterModel,
    num_packets: u32,
    now: Timestamp,
    transition_sample: u64,
    loss_sample: u64,
    id: u32,
)
    requires
        model.wf(),
        model.outstanding().contains(id),
    ensures
        model.queued(id),
        model.queue.len() > 0,
        model.queue[0].packet.id == id && model.queue[0].due <= now ==> model.sends(
            num_packets,
            Event::Look { now, transition_sample, loss_sample },
        ) == Some(model.queue[0].packet),
{
    assert(model.queued(id));
}

/// The records are queued in the order of their due times.
pub open spec fn in_due_order(queue: Seq<Record>) -> bool {
    forall|i: int, j: int|
        0 <= i <= j < queue.len() ==> (#[trigger] queue[i]).due <= (#[trigger] queue[j]).due
}

/// The turns and looks among the events take place in the order of their
/// times.
pub open spec fn events_in_time_order(events: Seq<Event>) -> bool {
    forall|i: int, j: int|
        0 <= i <= j < events.len() && (#[trigger] events[i]).time() is Some && (
        #[trigger] events[j]).time() is Some ==> events[i].time()->0 <= events[j].time()->0
}

/// No record is due later than a packet would be that is sent at one of
/// the events from `from` on.
pub open spec fn due_before_sends(
    queue: Seq<Record>,
    events: Seq<Event>,
    from: int,
    retransmission_delay: nat,
) -> bool {
    forall|i: int, k: int|
        0 <= i < queue.len() && from <= k < events.len() && (#[trigger] events[k]).time() is Some
            ==> (#[trigger] queue[i]).due <= due_time(events[k].time()->0, retransmission_delay)
}

/// One event keeps the queue in the order of the due times, when no
/// record is due later than a packet sent at this or a later event.
pub proof fn lemma_step_keeps_due_order(
    model: TransmitterModel,
    num_packets: u32,
    events: Seq<Event>,
    index: int,
)
    requires
        0 <= index < events.len(),
        events_in_time_order(events),
        in_due_order(model.queue),
        due_before_sends(model.queue, events, index, model.retransmission_delay),
    ensures
        in_due_order(model.step(num_packets, events[index]).queue),
        due_before_sends(
            model.step(num_packets, events[index]).queue,
            events,
            index + 1,
            model.retransmission_delay,
        ),
        model.step(num_packets, events[index]).retransmission_delay
            == model.retransmission_delay,
{
    let event = events[index];
    let after = model.step(num_packets, event);
    let rest = model.queue.drop_first();
    if after.queue != model.queue {
        assert(event.time() is Some);
        let pushed = due_time(event.time()->0, model.retransmission_delay);
        assert forall|i: int| 0 <= i < after.queue.len() implies (#[trigger] after.queue[i]).due
            <= pushed by {
            match event {
                Event::Turn { .. } => {
                    if i < model.queue.len() {
                        assert(after.queue[i] == model.queue[i]);
                    }
                },
                Event::Answer { .. } => {},
                Event::Look { .. } => {
                    if i < rest.len() {
                        assert(after.queue[i] == model.queue[i + 1]);
                    }
                },
            }
        }
        assert forall|i: int, j: int| 0 <= i <= j < after.queue.len() implies (
        #[trigger] after.queue[i]).due <= (#[trigger] after.queue[j]).due by {
            match event {
                Event::Turn { .. } => {
                    if j < model.queue.len() {
                        assert(after.queue[i] == model.queue[i]);
                        assert(after.queue[j] == model.queue[j]);
                    }
                },
                Event::Answer { .. } => {},
                Event::Look { .. } => {
                    if j < rest.len() {
                        assert(after.queue[i] == model.queue[i + 1]);
                        assert(after.queue[j] == model.queue[j + 1]);
                    }
                },
            }
        }
        assert forall|i: int, k: int|
            0 <= i < after.queue.len() && index + 1 <= k < events.len() && (
            #[trigger] events[k]).time() is Some implies (#[trigger] after.queue[i]).due
            <= due_time(events[k].time()->0, model.retransmission_delay) by {
            assert(events[index].time()->0 <= events[k].time()->0);
        }
    }
}

/// Law: the queue works as a delay queue. Every packet waits the same
/// retransmission delay, so where the turns and looks take place in the
/// order of their times, the records stand in the queue in the order of
/// their due times: the record at the head is the one that is due first.
pub proof fn lemma_queue_is_in_due_order(
    model: TransmitterModel,
    num_packets: u32,
    events: Seq<Event>,
)
    requires
        events_in_time_order(events),
        in_due_order(model.queue),
        due_before_sends(model.queue, events, 0, model.retransmission_delay),
    ensures
        in_due_order(model.run(num_packets, events).queue),
{
    lemma_prefix_is_in_due_order(model, num_packets, events, events.len() as int);
    assert(events.take(events.len() as int) =~= events);
}

/// The induction behind `lemma_queue_is_in_due_order`.
pub proof fn lemma_prefix_is_in_due_order(
    model: TransmitterModel,
    num_packets: u32,
    events: Seq<Event>,
    index: int,
)
    requires
        0 <= index <= events.len(),
        events_in_time_order(events),
        in_due_order(model.queue),
        due_before_sends(model.queue, events, 0, model.retransmission_delay),
    ensures
        in_due_order(model.before(num_packets, events, index).queue),
        due_before_sends(
            model.before(num_packets, events, index).queue,
            events,
            index,
            model.retransmission_delay,
        ),
        model.before(num_packets, events, index).retransmission_delay
            == model.retransmission_delay,
    decreases index,
{
    if index > 0 {
        lemma_prefix_is_in_due_order(model, num_packets, events, index - 1);
        lemma_before_next(model, num_packets, events, index - 1);
        lemma_step_keeps_due_order(
            model.before(num_packets, events, index - 1),
            num_packets,
            events,
            index - 1,
        );
    }
}

} // verus!
