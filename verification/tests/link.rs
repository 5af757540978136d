use arq_sim::channel::{Delivery, Packet, Sender};
use arq_sim::path_loss::{GilbertElliot, GilbertElliotState, SAMPLE_RANGE};

const HALF: u64 = SAMPLE_RANGE / 2;
const QUARTER: u64 = SAMPLE_RANGE / 4;

#[test]
fn sample_range_is_two_to_the_fifty_two() {
    assert_eq!(SAMPLE_RANGE, 1u64 << 52);
    assert_eq!(SAMPLE_RANGE, 4_503_599_627_370_496);
}

#[test]
fn link_starts_good() {
    let link = GilbertElliot::new(HALF, HALF, QUARTER, HALF);
    assert_eq!(link.state(), GilbertElliotState::Good);
}

#[test]
fn good_state_is_left_below_the_probability() {
    let mut link = GilbertElliot::new(100, 0, 0, 0);
    assert_eq!(link.maybe_next_state(99), GilbertElliotState::Bad);
    assert_eq!(link.state(), GilbertElliotState::Bad);
}

#[test]
fn good_state_is_kept_from_the_probability_on() {
    let mut link = GilbertElliot::new(100, 0, 0, 0);
    assert_eq!(link.maybe_next_state(100), GilbertElliotState::Good);
    assert_eq!(link.maybe_next_state(101), GilbertElliotState::Good);
    assert_eq!(link.maybe_next_state(SAMPLE_RANGE - 1), GilbertElliotState::Good);
    assert_eq!(link.state(), GilbertElliotState::Good);
}

#[test]
fn bad_state_is_left_below_its_own_probability() {
    let mut link = GilbertElliot::new(SAMPLE_RANGE, 50, 0, 0);
    assert_eq!(link.maybe_next_state(0), GilbertElliotState::Bad);
    assert_eq!(link.maybe_next_state(50), GilbertElliotState::Bad);
    assert_eq!(link.maybe_next_state(SAMPLE_RANGE - 1), GilbertElliotState::Bad);
    assert_eq!(link.maybe_next_state(49), GilbertElliotState::Good);
    assert_eq!(link.state(), GilbertElliotState::Good);
}

#[test]
fn certain_change_alternates_the_states() {
    let mut link = GilbertElliot::new(SAMPLE_RANGE, SAMPLE_RANGE, 0, 0);
    for round in 0..10u64 {
        let expected = if round % 2 == 0 {
            GilbertElliotState::Bad
        } else {
            GilbertElliotState::Good
        };
        assert_eq!(link.maybe_next_state(round * 1000), expected);
    }
}

#[test]
fn attempt_survives_from_the_error_rate_on() {
    let mut link = GilbertElliot::new(0, 0, 1000, 0);
    assert!(!link.attempt(0, 0));
    assert!(!link.attempt(0, 999));
    assert!(link.attempt(0, 1000));
    assert!(link.attempt(0, 1001));
    assert!(link.attempt(0, SAMPLE_RANGE - 1));
}

#[test]
fn attempt_uses_the_error_rate_of_the_state_after_the_change() {
    // The first attempt moves the link into the bad state, whose rate decides.
    let mut link = GilbertElliot::new(10, 10, 100, 200);
    assert!(!link.attempt(5, 150));
    assert_eq!(link.state(), GilbertElliotState::Bad);
    // Staying in the bad state: 150 is below 200.
    assert!(!link.attempt(10, 150));
    assert!(link.attempt(10, 200));
    // Back to the good state: 150 reaches 100.
    assert!(link.attempt(9, 150));
    assert_eq!(link.state(), GilbertElliotState::Good);
    assert!(!link.attempt(10, 99));
}

#[test]
fn lossless_link_never_drops() {
    let mut link = GilbertElliot::new(HALF, HALF, 0, 0);
    for _ in 0..5000 {
        assert!(link.transmit());
    }
}

#[test]
fn lossless_link_passes_every_pair_of_samples() {
    let mut link = GilbertElliot::new(HALF, QUARTER, 0, 0);
    let samples = [0, 1, QUARTER - 1, QUARTER, HALF - 1, HALF, SAMPLE_RANGE - 1];
    for transition in samples {
        for loss in samples {
            assert!(link.attempt(transition, loss));
        }
    }
}

#[test]
fn link_with_certain_loss_never_delivers() {
    let mut link = GilbertElliot::new(HALF, HALF, SAMPLE_RANGE, SAMPLE_RANGE);
    for _ in 0..5000 {
        assert!(!link.transmit());
    }
}

#[test]
fn link_with_certain_loss_drops_every_pair_of_samples() {
    let mut link = GilbertElliot::new(HALF, QUARTER, SAMPLE_RANGE, SAMPLE_RANGE);
    let samples = [0, 1, QUARTER - 1, QUARTER, HALF - 1, HALF, SAMPLE_RANGE - 1];
    for transition in samples {
        for loss in samples {
            assert!(!link.attempt(transition, loss));
        }
    }
}

#[test]
fn frozen_link_stays_good() {
    let mut link = GilbertElliot::new(0, 0, QUARTER, SAMPLE_RANGE);
    for _ in 0..5000 {
        link.transmit();
        assert_eq!(link.state(), GilbertElliotState::Good);
    }
}

#[test]
fn frozen_link_drops_at_the_good_rate() {
    let mut link = GilbertElliot::new(0, 0, QUARTER, SAMPLE_RANGE);
    let trials = 40_000u32;
    let mut dropped = 0u32;
    for _ in 0..trials {
        if !link.transmit() {
            dropped += 1;
        }
    }
    let rate = f64::from(dropped) / f64::from(trials);
    assert!(rate > 0.22 && rate < 0.28, "drop rate {}", rate);
}

#[test]
fn samples_spread_over_the_range() {
    // With a loss rate of one half, both outcomes must show up, and about
    // equally often; a constant or out-of-range sample would not do that.
    let mut link = GilbertElliot::new(0, 0, HALF, HALF);
    let mut survived = 0u32;
    for _ in 0..20_000 {
        if link.transmit() {
            survived += 1;
        }
    }
    assert!(survived > 9_000 && survived < 11_000, "survived {}", survived);
}

#[test]
fn transitions_follow_their_probability() {
    // Leaving the good state is certain, leaving the bad one impossible:
    // after the first attempt the link is bad for good.
    let mut link = GilbertElliot::new(SAMPLE_RANGE, 0, 0, SAMPLE_RANGE);
    assert!(!link.transmit());
    for _ in 0..100 {
        assert!(!link.transmit());
        assert_eq!(link.state(), GilbertElliotState::Bad);
    }
}

#[test]
fn probability_above_the_range_is_certainty() {
    let mut link = GilbertElliot::new(u64::MAX, 0, 0, u64::MAX);
    assert!(!link.attempt(SAMPLE_RANGE - 1, SAMPLE_RANGE - 1));
    assert_eq!(link.state(), GilbertElliotState::Bad);
}

#[test]
fn packet_starts_unprocessed() {
    let packet = Packet::new(7, 1234);
    assert_eq!(packet.id, 7);
    assert_eq!(packet.transmitted, 1234);
    assert_eq!(packet.processed, None);
}

#[test]
fn sender_hands_back_what_passes_with_its_delay() {
    let mut sender = Sender::new(GilbertElliot::new(0, 0, 500, 0), 25_000_000);
    assert_eq!(sender.delay(), 25_000_000);
    let delivery = sender.send_with(Packet::new(3, 10), 0, 500);
    assert_eq!(
        delivery,
        Some(Delivery {
            msg: Packet::new(3, 10),
            delay: 25_000_000
        })
    );
}

#[test]
fn sender_drops_what_the_link_loses() {
    let mut sender = Sender::new(GilbertElliot::new(0, 0, 500, 0), 25_000_000);
    assert_eq!(sender.send_with(Packet::new(3, 10), 0, 499), None);
    assert_eq!(sender.send_with("text", 0, 0), None);
}

#[test]
fn sender_advances_its_link() {
    let mut sender = Sender::new(GilbertElliot::new(10, 0, 0, SAMPLE_RANGE), 0);
    assert_eq!(sender.path_loss_model().state(), GilbertElliotState::Good);
    assert_eq!(sender.send_with(1u8, 9, 0), None);
    assert_eq!(sender.path_loss_model().state(), GilbertElliotState::Bad);
}

#[test]
fn sender_over_lossless_link_delivers_everything() {
    let mut sender = Sender::new(GilbertElliot::new(HALF, HALF, 0, 0), 7);
    for id in 0..1000u32 {
        assert_eq!(sender.send(id), Some(Delivery { msg: id, delay: 7 }));
    }
}

#[test]
fn sender_over_dead_link_delivers_nothing() {
    let mut sender = Sender::new(GilbertElliot::new(HALF, HALF, SAMPLE_RANGE, SAMPLE_RANGE), 7);
    for id in 0..1000u32 {
        assert_eq!(sender.send(id), None);
    }
}
