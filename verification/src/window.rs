//! Flow control: what the token pool guarantees about the packets that are
//! under way.

use crate::channel::{SenderModel, Timestamp};
use crate::transmitter::{lemma_run_keeps_wf, Event, Transmission, TransmitterModel};
use vstd::prelude::*;

verus! {

/// The ids below `bound` that are not in `confirmed`.
pub open spec fn unconfirmed_below(bound: nat, confirmed: Set<u32>) -> Set<u32> {
    Set::new(|id: u32| id < bound && !confirmed.contains(id))
}

/// The ids below `bound` that are in `confirmed`.
pub open spec fn confirmed_below(bound: nat, confirmed: Set<u32>) -> Set<u32> {
    Set::new(|id: u32| id < bound && confirmed.contains(id))
}

/// Each id below `bound` is confirmed or not: the two sets are finite and
/// together have `bound` elements.
pub proof fn lemma_count_below(bound: nat, confirmed: Set<u32>)
    requires
        bound <= u32::MAX + 1,
    ensures
        unconfirmed_below(bound, confirmed).finite(),
        confirmed_below(bound, confirmed).finite(),
        unconfirmed_below(bound, confirmed).len() + confirmed_below(bound, confirmed).len()
            == bound,
    decreases bound,
{
    if bound == 0 {
        assert(unconfirmed_below(0, confirmed) =~= Set::empty());
        assert(confirmed_below(0, confirmed) =~= Set::empty());
    } else {
        let below = (bound - 1) as nat;
        let id = below as u32;
        lemma_count_below(below, confirmed);
        if confirmed.contains(id) {
            assert(confirmed_below(bound, confirmed) =~= confirmed_below(below, confirmed).insert(
                id,
            ));
            assert(unconfirmed_below(bound, confirmed) =~= unconfirmed_below(below, confirmed));
        } else {
            assert(confirmed_below(bound, confirmed) =~= confirmed_below(below, confirmed));
            assert(unconfirmed_below(bound, confirmed) =~= unconfirmed_below(
                below,
                confirmed,
            ).insert(id));
        }
    }
}

/// Every packet that has been sent is either confirmed or outstanding.
pub proof fn lemma_sent_is_confirmed_or_outstanding(model: TransmitterModel)
    requires
        model.next_id <= u32::MAX,
        forall|id: u32| #[trigger] model.confirmed.contains(id) ==> id < model.next_id,
    ensures
        model.outstanding().finite(),
        model.confirmed.finite(),
        model.outstanding().len() + model.confirmed.len() == model.next_id,
{
    lemma_count_below(model.next_id, model.confirmed);
    assert(model.outstanding() =~= unconfirmed_below(model.next_id, model.confirmed));
    assert(model.confirmed =~= confirmed_below(model.next_id, model.confirmed));
}

/// None of the events is a response.
pub open spec fn unanswered(events: Seq<Event>) -> bool {
    forall|k: int| 0 <= k < events.len() ==> !((#[trigger] events[k]) is Answer)
}

/// A transmitter that has sent nothing is well formed: all its tokens are
/// free, and no packet is outstanding.
pub proof fn lemma_fresh_is_well_formed(
    interval: nat,
    retransmission_delay: nat,
    window: nat,
    packets: SenderModel,
)
    ensures
        TransmitterModel::fresh(interval, retransmission_delay, window, packets).wf(),
{
    let fresh = TransmitterModel::fresh(interval, retransmission_delay, window, packets);
    assert(fresh.outstanding() =~= Set::empty());
}

/// Law: the window bounds the packets that are under way. Whatever the
/// transmitter reacts to, and however often a packet is acknowledged, the
/// free tokens and the outstanding packets add up to the window: never
/// more than a window of packets is sent and unconfirmed, and a turn of
/// the transmission loop sends a packet only while fewer are.
pub proof fn lemma_window_bounds_outstanding(
    model: TransmitterModel,
    num_packets: u32,
    events: Seq<Event>,
    now: Timestamp,
    transition_sample: nat,
    loss_sample: nat,
)
    requires
        model.wf(),
    ensures
        ({
            let end = model.run(num_packets, events);
            &&& end.tokens + end.outstanding().len() == model.window
            &&& end.outstanding().len() <= model.window
            &&& end.transmission(num_packets, now, transition_sample, loss_sample) is Sent
                ==> end.outstanding().len() < model.window
        }),
{
    lemma_run_keeps_wf(model, num_packets, events);
}

/// While no response arrives, nothing is confirmed.
pub proof fn lemma_unanswered_confirms_nothing(
    model: TransmitterModel,
    num_packets: u32,
    events: Seq<Event>,
)
    requires
        unanswered(events),
    ensures
        model.run(num_packets, events).confirmed == model.confirmed,
    decreases events.len(),
{
    if events.len() > 0 {
        assert(!(events[events.len() - 1] is Answer));
        assert forall|k: int| 0 <= k < events.drop_last().len() implies !((
        #[trigger] events.drop_last()[k]) is Answer) by {
            assert(!(events[k] is Answer));
        }
        lemma_unanswered_confirms_nothing(model, num_packets, events.drop_last());
    }
}

/// Law: while no acknowledgment arrives, a transmitter never sends more
/// packets than its window holds, and once it has sent that many, the next
/// turn of the transmission loop is blocked.
pub proof fn lemma_unanswered_run_blocks_at_window(
    interval: nat,
    retransmission_delay: nat,
    window: nat,
    packets: SenderModel,
    num_packets: u32,
    events: Seq<Event>,
    now: Timestamp,
    transition_sample: nat,
    loss_sample: nat,
)
    requires
        unanswered(events),
    ensures
        ({
            let end = TransmitterModel::fresh(interval, retransmission_delay, window, packets).run(
                num_packets,
                events,
            );
            &&& end.next_id <= window
            &&& end.next_id + end.tokens == window
            &&& end.next_id == window && window < num_packets ==> end.transmission(
                num_packets,
                now,
                transition_sample,
                loss_sample,
            ) == Transmission::Blocked
        }),
{
    let fresh = TransmitterModel::fresh(interval, retransmission_delay, window, packets);
    lemma_fresh_is_well_formed(interval, retransmission_delay, window, packets);
    lemma_unanswered_confirms_nothing(fresh, num_packets, events);
    lemma_run_keeps_wf(fresh, num_packets, events);
    lemma_sent_is_confirmed_or_outstanding(fresh.run(num_packets, events));
}

} // verus!
