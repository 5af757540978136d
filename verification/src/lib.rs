//! Reliable delivery of numbered packets over a lossy, delaying link.
//!
//! The crate holds the decision logic of a small automatic-repeat-request
//! transport, with every function verified against a mathematical model
//! of the state it works on:
//!
//! - [`path_loss`]: the link, a Markov chain with a good and a bad state
//!   that loses messages at the rate of the state it is in;
//! - [`channel`]: the messages, and the sending side of one direction of
//!   the channel;
//! - [`transmitter`]: the sending end, which numbers the packets, keeps
//!   the unacknowledged ones within a window and sends them again after a
//!   timeout; [`window`] and [`retransmission`] state what follows from
//!   its rules;
//! - [`base_station`]: the receiving end, which acknowledges every arrival
//!   and puts the packets back in order;
//! - [`pipeline`]: what holds of the two ends together;
//! - [`pacing`]: the pause that belongs to a rate.
//!
//! Nothing in here waits or sleeps. Each end is a state machine whose
//! steps the caller triggers: a turn of the transmission loop, a response,
//! a look at the resubmission queue, an arrival. A step says what is to be
//! done (a packet to deliver after the link's delay, a time to wait) and
//! leaves the doing to the caller. Every step comes in two forms: one that
//! takes the time and the random samples as arguments, and one that reads
//! the wall clock and draws the samples itself.

pub mod base_station;
pub mod channel;
mod clock;
pub mod pacing;
pub mod path_loss;
pub mod pipeline;
pub mod retransmission;
pub mod transmitter;
pub mod window;
