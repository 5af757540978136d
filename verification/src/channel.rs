//! Messages that cross the link, and the sending side of one direction.

use crate::path_loss::{GilbertElliot, LinkModel, SAMPLE_RANGE};
use vstd::prelude::*;

verus! {

/// A span of time in nanoseconds.
pub type Nanos = u64;

/// A point in time: nanoseconds since the Unix epoch.
pub type Timestamp = i64;

/// One numbered message travelling from the transmitter to the base station.
#[derive(Clone, Copy, Debug, PartialEq, Eq)]
pub struct Packet {
    /// Sequence number, counted from zero by the transmitter.
    pub id: u32,
    /// When the transmitter first sent the packet.
    pub transmitted: Timestamp,
    /// When the base station delivered the packet in order, once it has.
    pub processed: Option<Timestamp>,
}

impl Packet {
    /// The packet as the transmitter first sends it: not yet processed.
    pub fn new(id: u32, transmitted: Timestamp) -> (packet: Packet)
        ensures
            packet == (Packet { id, transmitted, processed: None }),
    {
        Packet { id, transmitted, processed: None }
    }

    /// The same packet, marked as delivered at `now`.
    pub open spec fn stamped(self, now: Timestamp) -> Packet {
        Packet { id: self.id, transmitted: self.transmitted, processed: Some(now) }
    }
}

/// What travels back from the base station to the transmitter.
///
/// Only `ACK` is ever produced; `NACK` is part of the vocabulary and is
/// rejected by the transmitter when it arrives.
#[derive(Clone, Copy, Debug, PartialEq, Eq)]
pub enum Response {
    ACK(u32),
    NACK(u32),
}

/// A message that got through, and how long it is under way.
#[derive(Debug, PartialEq, Eq)]
pub struct Delivery<T> {
    /// The message, as it was sent.
    pub msg: T,
    /// The time between sending and arrival.
    pub delay: Nanos,
}

/// The sending side as a mathematical value.
pub struct SenderModel {
    /// The link that decides what gets through.
    pub link: LinkModel,
    /// The time every message that gets through is under way.
    pub delay: nat,
}

impl SenderModel {
    /// The sending side after one message, with the sample that decides
    /// whether the link changes its state.
    pub open spec fn advance(self, transition_sample: nat) -> SenderModel {
        SenderModel { link: self.link.advance(transition_sample), ..self }
    }

    /// What becomes of `msg`: with the link already advanced, it is under
    /// way for the fixed delay if it passes, and gone if it does not.
    pub open spec fn carry<T>(self, msg: T, loss_sample: nat) -> Option<Delivery<T>> {
        if self.link.passes(loss_sample) {
            Some(Delivery { msg, delay: self.delay as Nanos })
        } else {
            None
        }
    }
}

/// The sending side of one direction of the channel: a link that loses
/// some messages, and a fixed delay for those that it lets through.
pub struct Sender {
    path_loss_model: GilbertElliot,
    delay: Nanos,
}

impl View for Sender {
    type V = SenderModel;

    closed spec fn view(&self) -> SenderModel {
        SenderModel { link: self.path_loss_model@, delay: self.delay as nat }
    }
}

impl Sender {
    /// A sending side over the given link.
    pub fn new(path_loss_model: GilbertElliot, delay: Nanos) -> (sender: Sender)
        ensures
            sender@ == (SenderModel { link: path_loss_model@, delay: delay as nat }),
    {
        Sender { path_loss_model, delay }
    }

    /// The time every message that gets through is under way.
    pub fn delay(&self) -> (delay: Nanos)
        ensures
            delay == self@.delay,
    {
        self.delay
    }

    /// The link that decides what gets through.
    pub fn path_loss_model(&self) -> (link: &GilbertElliot)
        ensures
            link@ == self@.link,
    {
        &self.path_loss_model
    }

    /// Sends `msg` with the two samples deciding the attempt on the link.
    ///
    /// A message that the link loses is gone: nothing is reported and
    /// nothing is tried again. One that passes is handed back with the
    /// delay after which it arrives.
    pub fn send_with<T>(&mut self, msg: T, transition_sample: u64, loss_sample: u64) -> (delivery:
        Option<Delivery<T>>)
        ensures
            final(self)@ == old(self)@.advance(transition_sample as nat),
            delivery == final(self)@.carry(msg, loss_sample as nat),
    {
        if self.path_loss_model.attempt(transition_sample, loss_sample) {
            Some(Delivery { msg, delay: self.delay })
        } else {
            None
        }
    }

    /// Sends `msg` with two fresh samples deciding the attempt on the link.
    pub fn send<T>(&mut self, msg: T) -> (delivery: Option<Delivery<T>>)
        ensures
            exists|transition_sample: nat, loss_sample: nat|
                {
                    &&& transition_sample < SAMPLE_RANGE
                    &&& loss_sample < SAMPLE_RANGE
                    &&& final(self)@ == #[trigger] old(self)@.advance(transition_sample)
                    &&& delivery == #[trigger] final(self)@.carry(msg, loss_sample)
                },
            final(self)@.delay == old(self)@.delay,
            final(self)@.link.same_parameters(old(self)@.link),
            old(self)@.link.lossless() ==> delivery == Some(
                Delivery { msg, delay: old(self)@.delay as Nanos },
            ),
            old(self)@.link.impassable() ==> delivery is None,
    {
        let survives = self.path_loss_model.transmit();
        let ghost (transition_sample, loss_sample) = choose|
            transition_sample: nat,
            loss_sample: nat,
        |
            {
                &&& transition_sample < SAMPLE_RANGE
                &&& loss_sample < SAMPLE_RANGE
                &&& self.path_loss_model@ == #[trigger] old(self).path_loss_model@.advance(
                    transition_sample,
                )
                &&& survives == #[trigger] self.path_loss_model@.passes(loss_sample)
            };
        let delivery = if survives {
            Some(Delivery { msg, delay: self.delay })
        } else {
            None
        };
        assert(self@ == old(self)@.advance(transition_sample));
        assert(delivery == self@.carry(msg, loss_sample));
        delivery
    }
}

} // verus!
