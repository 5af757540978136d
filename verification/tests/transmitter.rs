use arq_sim::channel::{Delivery, Packet, Response, Sender};
use arq_sim::path_loss::{GilbertElliot, SAMPLE_RANGE};
use arq_sim::transmitter::{
    Acknowledgment, Event, PacketStatus, ProtocolViolation, Reaction, Resubmission, Transmission,
    Transmitter,
};

const LINK_DELAY: u64 = 2_000;
const RETRANSMISSION_DELAY: u64 = 30_000_000;

fn lossless(window: usize) -> Transmitter {
    let link = GilbertElliot::new(0, 0, 0, 0);
    Transmitter::new(1000, Sender::new(link, LINK_DELAY), RETRANSMISSION_DELAY, window)
}

fn dead(window: usize) -> Transmitter {
    let link = GilbertElliot::new(0, 0, SAMPLE_RANGE, SAMPLE_RANGE);
    Transmitter::new(1000, Sender::new(link, LINK_DELAY), RETRANSMISSION_DELAY, window)
}

fn sent(id: u32, transmitted: i64) -> Transmission {
    let packet = Packet::new(id, transmitted);
    Transmission::Sent {
        packet,
        delivery: Some(Delivery {
            msg: packet,
            delay: LINK_DELAY,
        }),
    }
}

fn resent(id: u32, transmitted: i64) -> Resubmission {
    let packet = Packet::new(id, transmitted);
    Resubmission::Resent {
        packet,
        delivery: Some(Delivery {
            msg: packet,
            delay: LINK_DELAY,
        }),
    }
}

#[test]
fn new_transmitter_has_every_token() {
    let transmitter = lossless(8);
    assert_eq!(transmitter.transmission_interval(), 1000);
    assert_eq!(transmitter.retransmission_delay(), RETRANSMISSION_DELAY);
    assert_eq!(transmitter.max_unconfirmed_packets(), 8);
    assert_eq!(transmitter.tokens(), 8);
    assert_eq!(transmitter.sent(), 0);
    assert_eq!(transmitter.queue_len(), 0);
    assert!(!transmitter.is_confirmed(0));
}

#[test]
fn run_of_no_packets_is_finished_at_once() {
    let mut transmitter = lossless(8);
    assert_eq!(transmitter.transmit_at(0, 100, 0, 0), Transmission::Finished);
    assert_eq!(transmitter.tokens(), 8);
    assert_eq!(transmitter.sent(), 0);
    assert_eq!(transmitter.queue_len(), 0);
}

#[test]
fn packets_are_numbered_from_zero() {
    let mut transmitter = lossless(8);
    for id in 0..5u32 {
        let now = 100 + i64::from(id);
        assert_eq!(transmitter.transmit_at(5, now, 0, 0), sent(id, now));
        assert_eq!(transmitter.sent(), id + 1);
        assert_eq!(transmitter.tokens(), 8 - (id as usize + 1));
        assert_eq!(transmitter.queue_len(), id as usize + 1);
    }
    assert_eq!(transmitter.transmit_at(5, 200, 0, 0), Transmission::Finished);
    assert_eq!(transmitter.sent(), 5);
}

#[test]
fn lost_packet_is_sent_without_a_delivery() {
    let mut transmitter = dead(8);
    assert_eq!(
        transmitter.transmit_at(5, 100, 0, 0),
        Transmission::Sent {
            packet: Packet::new(0, 100),
            delivery: None
        }
    );
    assert_eq!(transmitter.tokens(), 7);
    assert_eq!(transmitter.queue_len(), 1);
}

#[test]
fn main_loop_blocks_after_a_window_of_sends() {
    let window = 3usize;
    let mut transmitter = dead(window);
    let mut sends = 0usize;
    for turn in 0..50i64 {
        match transmitter.transmit_at(1000, turn, 0, 0) {
            Transmission::Sent { .. } => {
                assert!(sends < window);
                sends += 1;
            }
            Transmission::Blocked => assert_eq!(sends, window),
            Transmission::Finished => panic!("the run is not finished"),
        }
        // Retransmissions take no token.
        transmitter.resubmit_at(turn * RETRANSMISSION_DELAY as i64, 0, 0);
        let outstanding = (0..transmitter.sent())
            .filter(|id| !transmitter.is_confirmed(*id))
            .count();
        assert!(outstanding <= window);
        assert_eq!(outstanding + transmitter.tokens(), window);
    }
    assert_eq!(sends, window);
    assert_eq!(transmitter.sent(), 3);
    assert_eq!(transmitter.tokens(), 0);
}

#[test]
fn acknowledgment_frees_a_token() {
    let mut transmitter = lossless(1);
    assert_eq!(transmitter.transmit_at(3, 100, 0, 0), sent(0, 100));
    assert_eq!(transmitter.transmit_at(3, 101, 0, 0), Transmission::Blocked);
    assert_eq!(
        transmitter.handle_response(Response::ACK(0)),
        Ok(Acknowledgment::Released)
    );
    assert!(transmitter.is_confirmed(0));
    assert_eq!(transmitter.tokens(), 1);
    assert_eq!(transmitter.transmit_at(3, 102, 0, 0), sent(1, 102));
    assert_eq!(transmitter.transmit_at(3, 103, 0, 0), Transmission::Blocked);
}

#[test]
fn window_holds_over_a_run_with_acknowledgments() {
    let window = 4usize;
    let mut transmitter = lossless(window);
    let mut waiting: Vec<u32> = Vec::new();
    for turn in 0..200i64 {
        if let Transmission::Sent { packet, .. } = transmitter.transmit_at(60, turn, 0, 0) {
            waiting.push(packet.id);
        }
        // Every third turn the oldest unacknowledged packet is acknowledged.
        if turn % 3 == 2 && !waiting.is_empty() {
            let id = waiting.remove(0);
            assert_eq!(
                transmitter.handle_response(Response::ACK(id)),
                Ok(Acknowledgment::Released)
            );
        }
        let outstanding = (0..transmitter.sent())
            .filter(|id| !transmitter.is_confirmed(*id))
            .count();
        assert_eq!(outstanding, waiting.len());
        assert!(outstanding <= window);
        assert_eq!(outstanding + transmitter.tokens(), window);
    }
    assert_eq!(transmitter.sent(), 60);
}

#[test]
fn negative_acknowledgment_is_refused() {
    let mut transmitter = lossless(2);
    transmitter.transmit_at(3, 100, 0, 0);
    assert_eq!(
        transmitter.handle_response(Response::NACK(0)),
        Err(ProtocolViolation::NegativeAcknowledgment(0))
    );
    assert!(!transmitter.is_confirmed(0));
    assert_eq!(transmitter.tokens(), 1);
}

#[test]
fn acknowledgment_of_an_unsent_packet_is_refused() {
    let mut transmitter = lossless(2);
    assert_eq!(
        transmitter.handle_response(Response::ACK(0)),
        Err(ProtocolViolation::UnknownPacket(0))
    );
    transmitter.transmit_at(3, 100, 0, 0);
    assert_eq!(
        transmitter.handle_response(Response::ACK(1)),
        Err(ProtocolViolation::UnknownPacket(1))
    );
    assert!(!transmitter.is_confirmed(1));
    assert_eq!(transmitter.tokens(), 1);
}

#[test]
fn repeated_acknowledgment_changes_nothing() {
    let mut transmitter = lossless(1);
    transmitter.transmit_at(3, 100, 0, 0);
    assert_eq!(
        transmitter.handle_response(Response::ACK(0)),
        Ok(Acknowledgment::Released)
    );
    assert_eq!(transmitter.tokens(), 1);
    assert_eq!(
        transmitter.handle_response(Response::ACK(0)),
        Ok(Acknowledgment::Repeated)
    );
    assert!(transmitter.is_confirmed(0));
    assert_eq!(transmitter.tokens(), 1);
    transmitter.transmit_at(3, 101, 0, 0);
    assert_eq!(
        transmitter.handle_response(Response::ACK(0)),
        Ok(Acknowledgment::Repeated)
    );
    assert_eq!(transmitter.tokens(), 0);
    assert!(!transmitter.is_confirmed(1));
}

#[test]
fn repeated_acknowledgment_does_not_widen_the_window() {
    // Window of one: packet 2 has to wait for the acknowledgment of packet 1.
    let mut transmitter = lossless(1);
    assert_eq!(transmitter.transmit_at(5, 0, 0, 0), sent(0, 0));
    assert_eq!(
        transmitter.handle_response(Response::ACK(0)),
        Ok(Acknowledgment::Released)
    );
    assert_eq!(transmitter.transmit_at(5, 1, 0, 0), sent(1, 1));
    assert_eq!(
        transmitter.handle_response(Response::ACK(0)),
        Ok(Acknowledgment::Repeated)
    );
    assert_eq!(transmitter.transmit_at(5, 2, 0, 0), Transmission::Blocked);
    assert_eq!(transmitter.status(1), PacketStatus::InFlight);
    assert_eq!(transmitter.sent(), 2);
    assert_eq!(
        transmitter.handle_response(Response::ACK(1)),
        Ok(Acknowledgment::Released)
    );
    assert_eq!(transmitter.transmit_at(5, 3, 0, 0), sent(2, 3));
}

#[test]
fn acknowledgment_confirms_whatever_the_pool_holds() {
    // Every packet of the run is sent; repeated acknowledgments of packet 0
    // come before the acknowledgment of packet 1.
    let delay = RETRANSMISSION_DELAY as i64;
    let mut transmitter = lossless(2);
    transmitter.transmit_at(2, 0, 0, 0);
    transmitter.transmit_at(2, 1, 0, 0);
    assert_eq!(
        transmitter.handle_response(Response::ACK(0)),
        Ok(Acknowledgment::Released)
    );
    assert_eq!(
        transmitter.handle_response(Response::ACK(0)),
        Ok(Acknowledgment::Repeated)
    );
    assert_eq!(transmitter.tokens(), 1);
    assert_eq!(
        transmitter.handle_response(Response::ACK(1)),
        Ok(Acknowledgment::Released)
    );
    assert!(transmitter.is_confirmed(1));
    assert_eq!(transmitter.tokens(), 2);
    assert_eq!(
        transmitter.handle_response(Response::ACK(1)),
        Ok(Acknowledgment::Repeated)
    );
    assert_eq!(transmitter.tokens(), 2);
    // Nothing is sent again, also not when the packets would have been due.
    assert_eq!(
        transmitter.resubmit_at(delay + 10, 0, 0),
        Resubmission::Discarded(Packet::new(0, 0))
    );
    assert_eq!(
        transmitter.resubmit_at(delay + 10, 0, 0),
        Resubmission::Discarded(Packet::new(1, 1))
    );
    assert_eq!(transmitter.resubmit_at(2 * delay + 10, 0, 0), Resubmission::Idle);
}

#[test]
fn empty_queue_is_idle() {
    let mut transmitter = lossless(2);
    assert_eq!(transmitter.resubmit_at(100, 0, 0), Resubmission::Idle);
}

#[test]
fn unconfirmed_packet_waits_until_it_is_due() {
    let mut transmitter = lossless(2);
    transmitter.transmit_at(3, 1_000, 0, 0);
    let due = 1_000 + RETRANSMISSION_DELAY as i64;
    assert_eq!(
        transmitter.resubmit_at(1_000, 0, 0),
        Resubmission::Wait(RETRANSMISSION_DELAY)
    );
    assert_eq!(
        transmitter.resubmit_at(1_400, 0, 0),
        Resubmission::Wait(RETRANSMISSION_DELAY - 400)
    );
    assert_eq!(transmitter.resubmit_at(due - 1, 0, 0), Resubmission::Wait(1));
    assert_eq!(transmitter.queue_len(), 1);
    assert_eq!(transmitter.resubmit_at(due, 0, 0), resent(0, 1_000));
    assert_eq!(transmitter.queue_len(), 1);
}

#[test]
fn unacknowledged_packet_is_resent_every_retransmission_delay() {
    let mut transmitter = dead(2);
    transmitter.transmit_at(1, 0, 0, 0);
    let delay = RETRANSMISSION_DELAY as i64;
    let mut resends = Vec::new();
    // A look every tenth of the delay.
    for tick in 0..=100i64 {
        let now = tick * delay / 10;
        match transmitter.resubmit_at(now, 0, 0) {
            Resubmission::Resent { packet, delivery } => {
                assert_eq!(packet, Packet::new(0, 0));
                assert_eq!(delivery, None);
                resends.push(now);
            }
            Resubmission::Wait(wait) => {
                assert!(wait > 0);
                assert_eq!((now + wait as i64) % delay, 0);
            }
            other => panic!("unexpected {:?}", other),
        }
    }
    let expected: Vec<i64> = (1..=10).map(|round| round * delay).collect();
    assert_eq!(resends, expected);
    // No token was taken for any of them.
    assert_eq!(transmitter.tokens(), 1);
}

#[test]
fn late_look_postpones_the_next_resend() {
    let mut transmitter = lossless(2);
    transmitter.transmit_at(1, 0, 0, 0);
    let delay = RETRANSMISSION_DELAY as i64;
    assert_eq!(transmitter.resubmit_at(delay + 500, 0, 0), resent(0, 0));
    assert_eq!(transmitter.resubmit_at(2 * delay, 0, 0), Resubmission::Wait(500));
    assert_eq!(transmitter.resubmit_at(2 * delay + 500, 0, 0), resent(0, 0));
}

#[test]
fn resending_stops_with_the_acknowledgment() {
    let mut transmitter = lossless(2);
    transmitter.transmit_at(1, 0, 0, 0);
    let delay = RETRANSMISSION_DELAY as i64;
    assert_eq!(transmitter.resubmit_at(delay, 0, 0), resent(0, 0));
    assert_eq!(
        transmitter.handle_response(Response::ACK(0)),
        Ok(Acknowledgment::Released)
    );
    // Confirmed: dropped from the queue, even before it is due again.
    assert_eq!(
        transmitter.resubmit_at(delay + 1, 0, 0),
        Resubmission::Discarded(Packet::new(0, 0))
    );
    for round in 2..20 {
        assert_eq!(transmitter.resubmit_at(round * delay, 0, 0), Resubmission::Idle);
    }
}

#[test]
fn packet_acknowledged_during_the_wait_is_discarded() {
    let mut transmitter = lossless(2);
    transmitter.transmit_at(1, 0, 0, 0);
    let delay = RETRANSMISSION_DELAY as i64;
    assert_eq!(
        transmitter.resubmit_at(1, 0, 0),
        Resubmission::Wait(RETRANSMISSION_DELAY - 1)
    );
    transmitter.handle_response(Response::ACK(0)).unwrap();
    assert_eq!(
        transmitter.resubmit_at(delay, 0, 0),
        Resubmission::Discarded(Packet::new(0, 0))
    );
    assert_eq!(transmitter.queue_len(), 0);
}

#[test]
fn queue_is_served_in_the_order_of_sending() {
    let mut transmitter = lossless(4);
    let delay = RETRANSMISSION_DELAY as i64;
    transmitter.transmit_at(3, 0, 0, 0);
    transmitter.transmit_at(3, 10, 0, 0);
    transmitter.transmit_at(3, 20, 0, 0);
    transmitter.handle_response(Response::ACK(1)).unwrap();
    assert_eq!(
        transmitter.resubmit_at(5, 0, 0),
        Resubmission::Wait(RETRANSMISSION_DELAY - 5)
    );
    assert_eq!(transmitter.resubmit_at(delay + 20, 0, 0), resent(0, 0));
    assert_eq!(
        transmitter.resubmit_at(delay + 20, 0, 0),
        Resubmission::Discarded(Packet::new(1, 10))
    );
    assert_eq!(transmitter.resubmit_at(delay + 20, 0, 0), resent(2, 20));
    assert_eq!(
        transmitter.resubmit_at(delay + 20, 0, 0),
        Resubmission::Wait(RETRANSMISSION_DELAY)
    );
    assert_eq!(transmitter.queue_len(), 2);
}

#[test]
fn due_time_stops_at_the_end_of_time() {
    let mut transmitter = lossless(2);
    transmitter.transmit_at(1, i64::MAX - 5, 0, 0);
    assert_eq!(
        transmitter.resubmit_at(i64::MAX - 1, 0, 0),
        Resubmission::Wait(1)
    );
    assert_eq!(
        transmitter.resubmit_at(i64::MAX, 0, 0),
        resent(0, i64::MAX - 5)
    );
}

#[test]
fn wait_spans_the_whole_of_time() {
    let link = GilbertElliot::new(0, 0, 0, 0);
    let mut transmitter = Transmitter::new(1000, Sender::new(link, 0), u64::MAX, 2);
    transmitter.transmit_at(1, 0, 0, 0);
    assert_eq!(
        transmitter.resubmit_at(i64::MIN, 0, 0),
        Resubmission::Wait(u64::MAX)
    );
    assert_eq!(
        transmitter.resubmit_at(-1, 0, 0),
        Resubmission::Wait(1 << 63)
    );
}

#[test]
fn retransmission_goes_through_the_link() {
    // The link turns bad at the first attempt and loses everything there.
    let link = GilbertElliot::new(SAMPLE_RANGE, 0, 0, SAMPLE_RANGE);
    let mut transmitter = Transmitter::new(10, Sender::new(link, 1), 5, 2);
    assert_eq!(transmitter.transmission_interval(), 100_000);
    assert_eq!(
        transmitter.transmit_at(1, 0, 0, 0),
        Transmission::Sent {
            packet: Packet::new(0, 0),
            delivery: None
        }
    );
    assert_eq!(
        transmitter.resubmit_at(5, 0, 0),
        Resubmission::Resent {
            packet: Packet::new(0, 0),
            delivery: None
        }
    );
}

#[test]
fn transmit_reads_clock_and_samples() {
    let hour: u64 = 3_600_000_000_000;
    let link = GilbertElliot::new(0, 0, 0, 0);
    let mut transmitter = Transmitter::new(1000, Sender::new(link, LINK_DELAY), hour, 2);
    match transmitter.transmit(1) {
        Some(Transmission::Sent { packet, delivery }) => {
            assert_eq!(packet.id, 0);
            assert_eq!(packet.processed, None);
            // Any time after the beginning of 2020.
            assert!(packet.transmitted > 1_577_836_800_000_000_000);
            assert_eq!(
                delivery,
                Some(Delivery {
                    msg: packet,
                    delay: LINK_DELAY
                })
            );
        }
        other => panic!("unexpected {:?}", other),
    }
    assert_eq!(transmitter.transmit(1), Some(Transmission::Finished));
    // The hour has not passed yet.
    match transmitter.resubmit() {
        Some(Resubmission::Wait(wait)) => assert!(wait > 0 && wait <= hour),
        other => panic!("unexpected {:?}", other),
    }
}

#[test]
fn resubmit_resends_once_the_delay_has_passed() {
    let link = GilbertElliot::new(0, 0, 0, 0);
    let mut transmitter = Transmitter::new(1000, Sender::new(link, LINK_DELAY), 0, 2);
    let first = match transmitter.transmit(1) {
        Some(Transmission::Sent { packet, .. }) => packet,
        other => panic!("unexpected {:?}", other),
    };
    // With no delay the packet is due at once.
    match transmitter.resubmit() {
        Some(Resubmission::Resent { packet, delivery }) => {
            assert_eq!(packet, first);
            assert!(delivery.is_some());
        }
        other => panic!("unexpected {:?}", other),
    }
    transmitter.handle_response(Response::ACK(0)).unwrap();
    assert_eq!(transmitter.resubmit(), Some(Resubmission::Discarded(first)));
    assert_eq!(transmitter.resubmit(), Some(Resubmission::Idle));
}

#[test]
fn packet_moves_from_pending_to_acknowledged() {
    let mut transmitter = lossless(2);
    assert_eq!(transmitter.status(0), PacketStatus::Pending);
    transmitter.transmit_at(2, 0, 0, 0);
    assert_eq!(transmitter.status(0), PacketStatus::InFlight);
    assert_eq!(transmitter.status(1), PacketStatus::Pending);
    transmitter.resubmit_at(RETRANSMISSION_DELAY as i64, 0, 0);
    assert_eq!(transmitter.status(0), PacketStatus::InFlight);
    transmitter.handle_response(Response::ACK(0)).unwrap();
    assert_eq!(transmitter.status(0), PacketStatus::Acknowledged);
    transmitter.resubmit_at(2 * RETRANSMISSION_DELAY as i64, 0, 0);
    assert_eq!(transmitter.status(0), PacketStatus::Acknowledged);
    assert_eq!(transmitter.status(1), PacketStatus::Pending);
}

fn turn(now: i64) -> Event {
    Event::Turn {
        now,
        transition_sample: 0,
        loss_sample: 0,
    }
}

fn look(now: i64) -> Event {
    Event::Look {
        now,
        transition_sample: 0,
        loss_sample: 0,
    }
}

fn answer(response: Response) -> Event {
    Event::Answer { response }
}

#[test]
fn reaction_is_that_of_the_step() {
    let mut transmitter = lossless(1);
    assert_eq!(
        transmitter.react(2, turn(7)),
        Reaction::Transmission(sent(0, 7))
    );
    assert_eq!(
        transmitter.react(2, turn(8)),
        Reaction::Transmission(Transmission::Blocked)
    );
    assert_eq!(
        transmitter.react(2, look(9)),
        Reaction::Resubmission(Resubmission::Wait(RETRANSMISSION_DELAY - 2))
    );
    assert_eq!(
        transmitter.react(2, answer(Response::ACK(0))),
        Reaction::Acknowledgment(Ok(Acknowledgment::Released))
    );
    assert_eq!(
        transmitter.react(2, answer(Response::ACK(1))),
        Reaction::Acknowledgment(Err(ProtocolViolation::UnknownPacket(1)))
    );
    assert_eq!(transmitter.tokens(), 1);
    assert_eq!(transmitter.sent(), 1);
}

#[test]
fn schedule_is_run_event_by_event() {
    let delay = RETRANSMISSION_DELAY as i64;
    let reactions = lossless(2).run_simulation(
        3,
        vec![
            turn(0),
            turn(10),
            turn(20),
            look(30),
            answer(Response::NACK(0)),
            answer(Response::ACK(1)),
            turn(40),
            look(delay),
            look(delay),
            look(delay),
            answer(Response::ACK(0)),
            answer(Response::ACK(2)),
            turn(delay + 1),
            look(2 * delay),
            look(2 * delay),
            look(2 * delay),
        ],
    );
    assert_eq!(
        reactions,
        vec![
            Reaction::Transmission(sent(0, 0)),
            Reaction::Transmission(sent(1, 10)),
            Reaction::Transmission(Transmission::Blocked),
            Reaction::Resubmission(Resubmission::Wait(RETRANSMISSION_DELAY - 30)),
            Reaction::Acknowledgment(Err(ProtocolViolation::NegativeAcknowledgment(0))),
            Reaction::Acknowledgment(Ok(Acknowledgment::Released)),
            Reaction::Transmission(sent(2, 40)),
            Reaction::Resubmission(resent(0, 0)),
            Reaction::Resubmission(Resubmission::Discarded(Packet::new(1, 10))),
            Reaction::Resubmission(Resubmission::Wait(40)),
            Reaction::Acknowledgment(Ok(Acknowledgment::Released)),
            Reaction::Acknowledgment(Ok(Acknowledgment::Released)),
            Reaction::Transmission(Transmission::Finished),
            Reaction::Resubmission(Resubmission::Discarded(Packet::new(2, 40))),
            Reaction::Resubmission(Resubmission::Discarded(Packet::new(0, 0))),
            Reaction::Resubmission(Resubmission::Idle),
        ]
    );
}

#[test]
fn empty_schedule_has_no_reactions() {
    assert_eq!(lossless(2).run_simulation(3, vec![]), vec![]);
}

#[test]
fn unanswered_schedule_sends_one_window() {
    let window = 5usize;
    let events: Vec<Event> = (0..40).map(turn).collect();
    let reactions = dead(window).run_simulation(100, events);
    for (index, reaction) in reactions.iter().enumerate() {
        if index < window {
            assert_eq!(
                reaction,
                &Reaction::Transmission(Transmission::Sent {
                    packet: Packet::new(index as u32, index as i64),
                    delivery: None
                })
            );
        } else {
            assert_eq!(reaction, &Reaction::Transmission(Transmission::Blocked));
        }
    }
}

#[test]
fn repeated_acknowledgment_frees_no_second_token() {
    let mut transmitter = lossless(2);
    transmitter.transmit_at(10, 0, 0, 0);
    transmitter.handle_response(Response::ACK(0)).unwrap();
    transmitter.transmit_at(10, 1, 0, 0);
    assert_eq!(transmitter.tokens(), 1);
    assert_eq!(
        transmitter.handle_response(Response::ACK(0)),
        Ok(Acknowledgment::Repeated)
    );
    assert_eq!(transmitter.tokens(), 1);
    assert_eq!(transmitter.transmit_at(10, 2, 0, 0), sent(2, 2));
    assert_eq!(transmitter.transmit_at(10, 3, 0, 0), Transmission::Blocked);
    let outstanding = (0..transmitter.sent())
        .filter(|id| !transmitter.is_confirmed(*id))
        .count();
    assert_eq!(outstanding, 2);
    assert_eq!(transmitter.tokens(), 0);
}

#[test]
fn blocked_and_finished_turns_need_no_clock() {
    let mut transmitter = lossless(1);
    assert_eq!(transmitter.transmit(0), Some(Transmission::Finished));
    assert_eq!(transmitter.tokens(), 1);
    transmitter.transmit_at(5, 100, 0, 0);
    assert_eq!(transmitter.transmit(5), Some(Transmission::Blocked));
    assert_eq!(transmitter.sent(), 1);
    assert_eq!(transmitter.queue_len(), 1);
    assert_eq!(transmitter.transmit(1), Some(Transmission::Finished));
}

#[test]
fn idle_and_discarding_looks_need_no_clock() {
    let mut transmitter = lossless(2);
    assert_eq!(transmitter.resubmit(), Some(Resubmission::Idle));
    transmitter.transmit_at(5, 100, 0, 0);
    transmitter.transmit_at(5, 101, 0, 0);
    transmitter.handle_response(Response::ACK(0)).unwrap();
    assert_eq!(
        transmitter.resubmit(),
        Some(Resubmission::Discarded(Packet::new(0, 100)))
    );
    assert_eq!(transmitter.queue_len(), 1);
    assert_eq!(transmitter.status(1), PacketStatus::InFlight);
}
