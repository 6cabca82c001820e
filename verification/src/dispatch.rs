//! The request dispatcher: lets at most `limit` of `total` work units be in
//! flight at any instant, and folds each settled outcome into the shared
//! counters and the latency samples.
//!
//! The dispatcher is a state machine. The caller that owns the actual
//! transport starts a work unit with [`Dispatcher::begin_unit`], performs the
//! request, and hands the classified result back through
//! [`Dispatcher::settle`]; the well-formedness invariant [`Dispatcher::wf`]
//! holds between any two steps, so the in-flight bound holds at every instant.

use crate::outcome::Outcome;
use crate::outcome::failure_count;
use crate::outcome::lemma_counts_partition;
use crate::outcome::lemma_sample_shortfall;
use crate::outcome::samples_of;
use crate::outcome::success_count;
use crate::outcome::transport_failure_count;
use vstd::prelude::*;

verus! {

/// A run of `total` work units with at most `limit` in flight at once.
///
/// A work unit is in flight from the moment it is started until its outcome
/// settles; the ghost `history` records the settled outcomes in settlement
/// order, and the counters and samples are always exactly its accounting.
pub struct Dispatcher {
    /// How many work units the run issues in all (`R`).
    pub total: u64,
    /// The concurrency limit (`C`): the most work units in flight at once.
    pub limit: u64,
    /// How many work units have been started so far.
    pub started: u64,
    /// How many work units have settled so far.
    pub settled: u64,
    /// How many settled outcomes were responses with a success status.
    pub successes: u64,
    /// How many settled outcomes were failures: error-status responses
    /// together with transport failures.
    pub failures: u64,
    /// The latency samples emitted so far, one per responded outcome,
    /// in settlement order.
    pub samples: Vec<u64>,
    /// The settled outcomes, in settlement order.
    pub history: Ghost<Seq<Outcome>>,
}

impl Dispatcher {
    /// The dispatcher's invariant: it holds after construction and after
    /// every step, so the in-flight bound holds at every instant of a run.
    pub open spec fn wf(self) -> bool {
        &&& self.limit >= 1
        &&& self.started <= self.total
        &&& self.settled <= self.started
        &&& self.started - self.settled <= self.limit
        &&& self.history@.len() == self.settled
        &&& self.successes == success_count(self.history@)
        &&& self.failures == failure_count(self.history@)
        &&& self.samples@ == samples_of(self.history@)
    }

    /// How many work units are in flight: started but not yet settled.
    pub open spec fn in_flight_spec(self) -> int {
        self.started - self.settled
    }

    /// Begins a run of `total` work units bounded by `limit` concurrent ones.
    pub fn new(total: u64, limit: u64) -> (d: Dispatcher)
        requires
            limit >= 1,
        ensures
            d.wf(),
            d.total == total,
            d.limit == limit,
            d.started == 0,
            d.settled == 0,
            d.successes == 0,
            d.failures == 0,
            d.samples@ == Seq::<u64>::empty(),
            d.history@ == Seq::<Outcome>::empty(),
    {
        Dispatcher {
            total,
            limit,
            started: 0,
            settled: 0,
            successes: 0,
            failures: 0,
            samples: Vec::new(),
            history: Ghost(Seq::empty()),
        }
    }

    /// Whether one more work unit may enter flight: some unit is still
    /// unstarted and the in-flight count is below the limit.
    pub fn can_begin(&self) -> (b: bool)
        requires
            self.wf(),
        ensures
            b == (self.started < self.total && self.in_flight_spec() < self.limit),
    {
        self.started < self.total && self.started - self.settled < self.limit
    }

    /// Starts the next work unit, placing it in flight, and returns its index.
    pub fn begin_unit(&mut self) -> (unit: u64)
        requires
            old(self).wf(),
            old(self).started < old(self).total,
            old(self).in_flight_spec() < old(self).limit,
        ensures
            final(self).wf(),
            unit == old(self).started,
            final(self).started == old(self).started + 1,
            *final(self) == (Dispatcher { started: final(self).started, ..*old(self) }),
    {
        let unit: u64 = self.started;
        self.started = self.started + 1;
        unit
    }

    /// Settles one in-flight work unit with its classified outcome: a
    /// success-status response increments `successes`, any other outcome
    /// increments `failures`, and every responded outcome appends its
    /// latency sample.
    pub fn settle(&mut self, o: Outcome)
        requires
            old(self).wf(),
            old(self).settled < old(self).started,
        ensures
            final(self).wf(),
            final(self).settled == old(self).settled + 1,
            final(self).history@ == old(self).history@.push(o),
            final(self).total == old(self).total,
            final(self).limit == old(self).limit,
            final(self).started == old(self).started,
            final(self).successes == old(self).successes + if o.is_success() {
                1int
            } else {
                0int
            },
            final(self).failures == old(self).failures + if o.is_success() {
                0int
            } else {
                1int
            },
            final(self).samples@ == old(self).samples@ + (match o {
                Outcome::Responded { latency_us, success: _ } => seq![latency_us],
                Outcome::TransportFailed => Seq::<u64>::empty(),
            }),
    {
        proof {
            lemma_counts_partition(old(self).history@);
        }
        self.settled = self.settled + 1;
        match o {
            Outcome::Responded { latency_us, success } => {
                if success {
                    self.successes = self.successes + 1;
                } else {
                    self.failures = self.failures + 1;
                }
                self.samples.push(latency_us);
            },
            Outcome::TransportFailed => {
                self.failures = self.failures + 1;
            },
        }
        proof {
            let h = self.history@.push(o);
            self.history@ = h;
            assert(h.drop_last() =~= old(self).history@);
            assert(self.samples@ =~= samples_of(h));
        }
    }

    /// How many work units are in flight right now.
    pub fn in_flight(&self) -> (n: u64)
        requires
            self.wf(),
        ensures
            n == self.in_flight_spec(),
    {
        self.started - self.settled
    }

    /// Whether the run is over: every work unit has settled.
    pub fn is_done(&self) -> (b: bool)
        ensures
            b == (self.settled == self.total),
    {
        self.settled == self.total
    }

    /// Replays a run whose outcomes are already known, settling each work
    /// unit as soon as it is started; it yields the finished dispatcher
    /// with exactly the given history.
    pub fn replay(total: u64, limit: u64, outcomes: &Vec<Outcome>) -> (d: Dispatcher)
        requires
            limit >= 1,
            outcomes@.len() == total,
        ensures
            d.wf(),
            d.total == total,
            d.limit == limit,
            d.started == total,
            d.settled == total,
            d.history@ == outcomes@,
    {
        let mut d = Dispatcher::new(total, limit);
        let n: usize = outcomes.len();
        let mut i: usize = 0;
        proof {
            assert(outcomes@.take(0) =~= Seq::<Outcome>::empty());
        }
        while i < n
            invariant
                d.wf(),
                d.total == total,
                d.limit == limit,
                n == total,
                i <= n,
                d.started == i,
                d.settled == i,
                outcomes@.len() == total,
                d.history@ == outcomes@.take(i as int),
            decreases n - i,
        {
            let _unit: u64 = d.begin_unit();
            d.settle(outcomes[i]);
            proof {
                assert(outcomes@.take(i as int).push(outcomes@[i as int]) =~= outcomes@.take(
                    i + 1,
                ));
            }
            i = i + 1;
        }
        proof {
            assert(outcomes@.take(total as int) =~= outcomes@);
        }
        d
    }
}

/// Run accounting: once every work unit has settled, the two counters sum
/// to exactly the run's total request count.
pub proof fn lemma_run_accounting(d: Dispatcher)
    requires
        d.wf(),
        d.settled == d.total,
    ensures
        d.successes + d.failures == d.total,
{
    lemma_counts_partition(d.history@);
}

/// Sample accounting: at any point of a run, the number of latency samples
/// recorded is at most `successes + failures`, and the shortfall is exactly
/// the number of transport failures.
pub proof fn lemma_sample_accounting(d: Dispatcher)
    requires
        d.wf(),
    ensures
        d.samples@.len() + transport_failure_count(d.history@) == d.successes + d.failures,
        d.samples@.len() <= d.successes + d.failures,
{
    lemma_counts_partition(d.history@);
    lemma_sample_shortfall(d.history@);
}

/// Bounded concurrency: whenever the invariant holds — that is, at every
/// instant of a run — the number of started but not yet settled work units
/// is at most the concurrency limit.
pub proof fn lemma_bounded_in_flight(d: Dispatcher)
    requires
        d.wf(),
    ensures
        d.in_flight_spec() <= d.limit,
{
}

} // verus!
