//! Outcomes: the classified result of attempting one work unit, and spec-level
//! accounting over a history of settled outcomes.

use vstd::prelude::*;

verus! {

/// The classified result of one settled work unit.
///
/// `Responded` means an HTTP response was received (whatever its status code);
/// it carries the measured latency in microseconds and whether the status code
/// was in the success class. `TransportFailed` means no response could be
/// obtained (connection, timeout or protocol failure below the response layer).
#[derive(Clone, Copy, PartialEq, Eq, Structural, Debug)]
pub enum Outcome {
    Responded { latency_us: u64, success: bool },
    TransportFailed,
}

impl Outcome {
    /// Whether this outcome contributes a latency sample: exactly the
    /// responded outcomes do, including those with an error status.
    pub open spec fn emits_sample(self) -> bool {
        self is Responded
    }

    /// Whether this outcome counts as a success: a response whose status
    /// code is in the success class.
    pub open spec fn is_success(self) -> bool {
        match self {
            Outcome::Responded { latency_us: _, success } => success,
            Outcome::TransportFailed => false,
        }
    }
}

/// Classifies a received HTTP response: the status codes 200 through 299 are
/// the success class, every other code counts as a failure; the latency sample
/// is carried either way.
pub fn classify_response(status: u16, latency_us: u64) -> (o: Outcome)
    ensures
        o == (Outcome::Responded { latency_us, success: 200 <= status && status <= 299 }),
{
    Outcome::Responded { latency_us, success: 200 <= status && status <= 299 }
}

/// How many outcomes of a history are successes.
pub open spec fn success_count(h: Seq<Outcome>) -> nat
    decreases h.len(),
{
    if h.len() == 0 {
        0
    } else {
        success_count(h.drop_last()) + if h.last().is_success() {
            1nat
        } else {
            0nat
        }
    }
}

/// How many outcomes of a history are failures: responses with an error
/// status together with transport failures.
pub open spec fn failure_count(h: Seq<Outcome>) -> nat
    decreases h.len(),
{
    if h.len() == 0 {
        0
    } else {
        failure_count(h.drop_last()) + if h.last().is_success() {
            0nat
        } else {
            1nat
        }
    }
}

/// How many outcomes of a history are transport failures.
pub open spec fn transport_failure_count(h: Seq<Outcome>) -> nat
    decreases h.len(),
{
    if h.len() == 0 {
        0
    } else {
        transport_failure_count(h.drop_last()) + if h.last() is TransportFailed {
            1nat
        } else {
            0nat
        }
    }
}

/// The latency samples a history emits, in settlement order: one per
/// responded outcome, none for a transport failure.
pub open spec fn samples_of(h: Seq<Outcome>) -> Seq<u64>
    decreases h.len(),
{
    if h.len() == 0 {
        Seq::empty()
    } else {
        samples_of(h.drop_last()) + match h.last() {
            Outcome::Responded { latency_us, success: _ } => seq![latency_us],
            Outcome::TransportFailed => Seq::empty(),
        }
    }
}

/// Every settled outcome is either a success or a failure, so the two
/// counters always sum to the length of the history.
pub proof fn lemma_counts_partition(h: Seq<Outcome>)
    ensures
        success_count(h) + failure_count(h) == h.len(),
    decreases h.len(),
{
    if h.len() > 0 {
        lemma_counts_partition(h.drop_last());
    }
}

/// A history emits one sample per outcome except the transport failures:
/// the sample count equals the history's length minus the transport failures.
pub proof fn lemma_sample_shortfall(h: Seq<Outcome>)
    ensures
        samples_of(h).len() + transport_failure_count(h) == h.len(),
    decreases h.len(),
{
    if h.len() > 0 {
        lemma_sample_shortfall(h.drop_last());
    }
}

} // verus!
