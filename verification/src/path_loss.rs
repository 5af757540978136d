//! The link's loss model: a Markov chain with a good and a bad state, each
//! with its own rate of loss.
//!
//! Probabilities are fractions of `SAMPLE_RANGE`: the value `p` stands for
//! the probability `p / SAMPLE_RANGE`, and anything from `SAMPLE_RANGE`
//! upwards for certainty. A sample is a number below `SAMPLE_RANGE`.

use rand::distributions::{Distribution, Uniform};
use vstd::prelude::*;

verus! {

/// The number of values a sample can take: 2 to the power of 52.
pub const SAMPLE_RANGE: u64 = 0x10_0000_0000_0000;

/// The two states of the link.
#[derive(Clone, Copy, Debug, PartialEq, Eq)]
pub enum GilbertElliotState {
    Good,
    Bad,
}

/// The link as a mathematical value.
pub struct LinkModel {
    /// Probability of leaving the good state at an attempt.
    pub prob_good_to_bad: nat,
    /// Probability of leaving the bad state at an attempt.
    pub prob_bad_to_good: nat,
    /// Probability of losing a message in the good state.
    pub err_rate_good: nat,
    /// Probability of losing a message in the bad state.
    pub err_rate_bad: nat,
    /// The state the link is in.
    pub state: GilbertElliotState,
}

impl LinkModel {
    /// The probability of leaving the current state.
    pub open spec fn switch_probability(self) -> nat {
        match self.state {
            GilbertElliotState::Good => self.prob_good_to_bad,
            GilbertElliotState::Bad => self.prob_bad_to_good,
        }
    }

    /// The probability of losing a message in the current state.
    pub open spec fn err_rate(self) -> nat {
        match self.state {
            GilbertElliotState::Good => self.err_rate_good,
            GilbertElliotState::Bad => self.err_rate_bad,
        }
    }

    /// The link after the state change that `sample` decides: the state is
    /// left when the sample lies below the probability of leaving it.
    pub open spec fn advance(self, sample: nat) -> LinkModel {
        if sample < self.switch_probability() {
            LinkModel {
                state: match self.state {
                    GilbertElliotState::Good => GilbertElliotState::Bad,
                    GilbertElliotState::Bad => GilbertElliotState::Good,
                },
                ..self
            }
        } else {
            self
        }
    }

    /// Whether a message gets through in the current state: it does when
    /// `sample` reaches the state's rate of loss.
    pub open spec fn passes(self, sample: nat) -> bool {
        sample >= self.err_rate()
    }

    /// The link after one attempt per pair of samples; the first sample of
    /// a pair decides the state change, the second the loss.
    pub open spec fn after(self, samples: Seq<(nat, nat)>) -> LinkModel
        decreases samples.len(),
    {
        if samples.len() == 0 {
            self
        } else {
            self.after(samples.drop_last()).advance(samples.last().0)
        }
    }

    /// Whether the last of the attempts gets its message through.
    pub open spec fn last_passes(self, samples: Seq<(nat, nat)>) -> bool
        recommends
            samples.len() > 0,
    {
        self.after(samples).passes(samples.last().1)
    }

    /// How many of the attempts lose their message.
    pub open spec fn drops(self, samples: Seq<(nat, nat)>) -> nat
        decreases samples.len(),
    {
        if samples.len() == 0 {
            0
        } else {
            self.drops(samples.drop_last()) + if self.last_passes(samples) {
                0nat
            } else {
                1nat
            }
        }
    }

    /// No message is lost in either state.
    pub open spec fn lossless(self) -> bool {
        self.err_rate_good == 0 && self.err_rate_bad == 0
    }

    /// Every message is lost in either state.
    pub open spec fn impassable(self) -> bool {
        self.err_rate_good >= SAMPLE_RANGE && self.err_rate_bad >= SAMPLE_RANGE
    }

    /// The link never changes its state.
    pub open spec fn frozen(self) -> bool {
        self.prob_good_to_bad == 0 && self.prob_bad_to_good == 0
    }

    /// The two links differ at most in their state.
    pub open spec fn same_parameters(self, other: LinkModel) -> bool {
        &&& self.prob_good_to_bad == other.prob_good_to_bad
        &&& self.prob_bad_to_good == other.prob_bad_to_good
        &&& self.err_rate_good == other.err_rate_good
        &&& self.err_rate_bad == other.err_rate_bad
    }
}

/// How many of the pairs have a second sample below `rate`.
pub open spec fn losses_at(samples: Seq<(nat, nat)>, rate: nat) -> nat
    decreases samples.len(),
{
    if samples.len() == 0 {
        0
    } else {
        losses_at(samples.drop_last(), rate) + if samples.last().1 < rate {
            1nat
        } else {
            0nat
        }
    }
}

/// Attempts change the state of a link, never its probabilities.
pub proof fn lemma_parameters_are_fixed(link: LinkModel, samples: Seq<(nat, nat)>)
    ensures
        link.after(samples).same_parameters(link),
    decreases samples.len(),
{
    if samples.len() > 0 {
        lemma_parameters_are_fixed(link, samples.drop_last());
    }
}

/// Law: a link whose rates of loss are both zero never loses a message,
/// whatever its state and whatever was attempted before.
pub proof fn lemma_lossless_link_never_drops(link: LinkModel, samples: Seq<(nat, nat)>)
    requires
        link.lossless(),
        samples.len() > 0,
    ensures
        link.last_passes(samples),
{
    lemma_parameters_are_fixed(link, samples);
}

/// Law: a link whose rates of loss are both certainty never lets a message
/// through, whatever its state and whatever was attempted before.
pub proof fn lemma_impassable_link_always_drops(link: LinkModel, samples: Seq<(nat, nat)>)
    requires
        link.impassable(),
        samples.len() > 0,
        samples.last().1 < SAMPLE_RANGE,
    ensures
        !link.last_passes(samples),
{
    lemma_parameters_are_fixed(link, samples);
}

/// Law: a link whose two probabilities of changing state are zero stays
/// in the state it starts in, so that each attempt loses its message
/// exactly when the second sample lies below that state's rate of loss:
/// the link drops as many messages as there are such samples.
pub proof fn lemma_frozen_link_stays(link: LinkModel, samples: Seq<(nat, nat)>)
    requires
        link.frozen(),
    ensures
        link.after(samples) == link,
        samples.len() > 0 ==> link.last_passes(samples) == (samples.last().1 >= link.err_rate()),
        link.drops(samples) == losses_at(samples, link.err_rate()),
    decreases samples.len(),
{
    if samples.len() > 0 {
        lemma_frozen_link_stays(link, samples.drop_last());
    }
}

/// A number below `high`, each equally likely.
///
/// Trusted: the body builds `rand::distributions::Uniform::new(0, high)`
/// and draws from it with the generator that `rand::thread_rng` hands
/// out. The contract claims the range only, which is what `Uniform::new`
/// promises of its half-open interval; an empty interval, which it refuses,
/// is left out.
#[verifier::external_body]
pub(crate) fn uniform_below(high: u64) -> (sample: u64)
    requires
        high > 0,
    ensures
        sample < high,
{
    Uniform::new(0u64, high).sample(&mut rand::thread_rng())
}

/// A link with its current state.
pub struct GilbertElliot {
    prob_good_to_bad: u64,
    prob_bad_to_good: u64,
    err_rate_good: u64,
    err_rate_bad: u64,
    state: GilbertElliotState,
}

impl View for GilbertElliot {
    type V = LinkModel;

    closed spec fn view(&self) -> LinkModel {
        LinkModel {
            prob_good_to_bad: self.prob_good_to_bad as nat,
            prob_bad_to_good: self.prob_bad_to_good as nat,
            err_rate_good: self.err_rate_good as nat,
            err_rate_bad: self.err_rate_bad as nat,
            state: self.state,
        }
    }
}

impl GilbertElliot {
    /// A link in the good state. Each argument is a probability as a
    /// fraction of `SAMPLE_RANGE`.
    pub fn new(
        prob_good_to_bad: u64,
        prob_bad_to_good: u64,
        err_rate_good: u64,
        err_rate_bad: u64,
    ) -> (link: GilbertElliot)
        ensures
            link@ == (LinkModel {
                prob_good_to_bad: prob_good_to_bad as nat,
                prob_bad_to_good: prob_bad_to_good as nat,
                err_rate_good: err_rate_good as nat,
                err_rate_bad: err_rate_bad as nat,
                state: GilbertElliotState::Good,
            }),
    {
        GilbertElliot {
            prob_good_to_bad,
            prob_bad_to_good,
            err_rate_good,
            err_rate_bad,
            state: GilbertElliotState::Good,
        }
    }

    /// The state the link is in.
    pub fn state(&self) -> (state: GilbertElliotState)
        ensures
            state == self@.state,
    {
        self.state
    }

    /// Lets `sample` decide whether the link changes its state, and gives
    /// the state it is in afterwards.
    pub fn maybe_next_state(&mut self, sample: u64) -> (state: GilbertElliotState)
        ensures
            final(self)@ == old(self)@.advance(sample as nat),
            state == final(self)@.state,
    {
        match self.state {
            GilbertElliotState::Good => {
                if sample < self.prob_good_to_bad {
                    self.state = GilbertElliotState::Bad;
                }
            },
            GilbertElliotState::Bad => {
                if sample < self.prob_bad_to_good {
                    self.state = GilbertElliotState::Good;
                }
            },
        }
        self.state
    }

    /// One attempt to get a message across, decided by the two samples:
    /// the first for the change of state, the second for the loss in the
    /// state that the link is in after the change.
    pub fn attempt(&mut self, transition_sample: u64, loss_sample: u64) -> (survives: bool)
        ensures
            final(self)@ == old(self)@.advance(transition_sample as nat),
            survives == final(self)@.passes(loss_sample as nat),
    {
        let state = self.maybe_next_state(transition_sample);
        match state {
            GilbertElliotState::Good => loss_sample >= self.err_rate_good,
            GilbertElliotState::Bad => loss_sample >= self.err_rate_bad,
        }
    }

    /// One attempt to get a message across, decided by two fresh samples.
    pub fn transmit(&mut self) -> (survives: bool)
        ensures
            exists|transition_sample: nat, loss_sample: nat|
                {
                    &&& transition_sample < SAMPLE_RANGE
                    &&& loss_sample < SAMPLE_RANGE
                    &&& final(self)@ == #[trigger] old(self)@.advance(transition_sample)
                    &&& survives == #[trigger] final(self)@.passes(loss_sample)
                },
            final(self)@.same_parameters(old(self)@),
            old(self)@.lossless() ==> survives,
            old(self)@.impassable() ==> !survives,
            old(self)@.frozen() ==> final(self)@ == old(self)@,
    {
        let transition_sample = uniform_below(SAMPLE_RANGE);
        let loss_sample = uniform_below(SAMPLE_RANGE);
        let survives = self.attempt(transition_sample, loss_sample);
        assert(self@ == old(self)@.advance(transition_sample as nat));
        assert(survives == self@.passes(loss_sample as nat));
        survives
    }
}

} // verus!
