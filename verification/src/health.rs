//! Liveness probing with a failure budget.
//!
//! The prober issues one health check per tick over a node's channel and
//! keeps a `(status, budget)` pair.  Transient failures spend the budget and
//! raise a single `Suspected` signal; exhausting the budget raises one
//! `Failed` signal and stops the prober; a success while suspected restores
//! the budget and raises `Healthy`.  The ticking, the check itself and the
//! delivery of signals are the driver's work; every decision is here.

use vstd::prelude::*;

verus! {

/// Default failure budget.
pub const HB_FAIL_BUDGET: u8 = 5;
/// Default tick interval, in milliseconds.
pub const HB_INTERVAL_MS: u64 = 5000;
/// Default timeout of one health check, in milliseconds.
pub const HB_REQUEST_TIMEOUT_MS: u64 = 3000;
/// Default widened tick interval after a failure signal, in milliseconds.
pub const POST_FAIL_INTERVAL_MS: u64 = 60000;
/// Bound on delivering a signal, so a stalled consumer cannot wedge the
/// prober, in milliseconds.
pub const FAILURE_ACK_TIMEOUT_MS: u64 = 10000;

/// The health of one node, as the prober rates it.
pub enum HealthStatus {
    Healthy,
    Suspected,
    Failed,
}

/// What the driver must do after one probe: deliver a signal, widen the
/// tick interval, stop the prober.
pub struct ProbeDirective {
    pub emit: Option<HealthStatus>,
    pub widen_interval: bool,
    pub terminate: bool,
}

/// The prober's state for one node: its rating and the remaining failure
/// budget.
pub struct HealthChecker {
    pub status: HealthStatus,
    pub budget: u8,
    pub fail_budget: u8,
    pub done: bool,
}

impl HealthChecker {
    /// The budget never exceeds its initial value; a healthy rating means a
    /// full budget; the prober stops exactly when the node is rated failed.
    pub open spec fn wf(self) -> bool {
        &&& self.budget <= self.fail_budget
        &&& self.status is Healthy ==> self.budget == self.fail_budget
        &&& self.done <==> self.status is Failed
    }

    /// The prober's next state on one probe outcome.
    pub open spec fn step(self, success: bool) -> HealthChecker {
        if success {
            HealthChecker { status: HealthStatus::Healthy, budget: self.fail_budget, ..self }
        } else {
            if self.budget > 0 {
                HealthChecker {
                    status: HealthStatus::Suspected,
                    budget: (self.budget - 1) as u8,
                    ..self
                }
            } else {
                HealthChecker { status: HealthStatus::Failed, done: true, ..self }
            }
        }
    }

    /// The signal one probe outcome raises, if any.
    pub open spec fn step_emit(self, success: bool) -> Option<HealthStatus> {
        if success {
            if !(self.status is Healthy) {
                Some(HealthStatus::Healthy)
            } else {
                None
            }
        } else {
            if self.budget > 0 {
                if !(self.status is Suspected) {
                    Some(HealthStatus::Suspected)
                } else {
                    None
                }
            } else {
                Some(HealthStatus::Failed)
            }
        }
    }

    /// A fresh prober: the node is trusted healthy with a full budget.
    pub fn new(fail_budget: u8) -> (r: Self)
        ensures
            r.wf(),
            r.status is Healthy,
            r.budget == fail_budget,
            r.fail_budget == fail_budget,
            !r.done,
    {
        Self { status: HealthStatus::Healthy, budget: fail_budget, fail_budget, done: false }
    }

    /// Feeds one probe outcome in; returns what the driver must do.
    ///
    /// A success restores the budget, raising `Healthy` only when the rating
    /// changes.  A failure spends one unit of budget, raising `Suspected`
    /// only on the first failure of a run; with the budget exhausted it
    /// raises `Failed`, widens the tick interval and stops the prober.
    pub fn on_probe(&mut self, success: bool) -> (d: ProbeDirective)
        requires
            old(self).wf(),
            !old(self).done,
        ensures
            final(self).wf(),
            *final(self) == old(self).step(success),
            d.emit == old(self).step_emit(success),
            d.terminate == final(self).done,
            d.widen_interval == (d.emit == Some(HealthStatus::Failed)),
    {
        if success {
            let emit = match self.status {
                HealthStatus::Healthy => None,
                _ => Some(HealthStatus::Healthy),
            };
            self.status = HealthStatus::Healthy;
            self.budget = self.fail_budget;
            ProbeDirective { emit, widen_interval: false, terminate: false }
        } else {
            if self.budget > 0 {
                self.budget = self.budget - 1;
                let emit = match self.status {
                    HealthStatus::Suspected => None,
                    _ => Some(HealthStatus::Suspected),
                };
                self.status = HealthStatus::Suspected;
                ProbeDirective { emit, widen_interval: false, terminate: false }
            } else {
                self.status = HealthStatus::Failed;
                self.done = true;
                ProbeDirective {
                    emit: Some(HealthStatus::Failed),
                    widen_interval: true,
                    terminate: true,
                }
            }
        }
    }
}

/// How many `Suspected` signals a run of probe outcomes raises, the prober
/// starting at `s` and stopping as soon as it is done.
pub open spec fn suspected_emissions(s: HealthChecker, outcomes: Seq<bool>) -> nat
    decreases outcomes.len(),
{
    if outcomes.len() == 0 || s.done {
        0
    } else {
        (if s.step_emit(outcomes[0]) == Some(HealthStatus::Suspected) {
            1nat
        } else {
            0nat
        }) + suspected_emissions(s.step(outcomes[0]), outcomes.drop_first())
    }
}

/// How many `Failed` signals a run of probe outcomes raises.
pub open spec fn failed_emissions(s: HealthChecker, outcomes: Seq<bool>) -> nat
    decreases outcomes.len(),
{
    if outcomes.len() == 0 || s.done {
        0
    } else {
        (if s.step_emit(outcomes[0]) == Some(HealthStatus::Failed) {
            1nat
        } else {
            0nat
        }) + failed_emissions(s.step(outcomes[0]), outcomes.drop_first())
    }
}

/// An already-suspected prober raises no further `Suspected` signal while
/// the failures continue.
proof fn lemma_suspected_run_silent(s: HealthChecker, outcomes: Seq<bool>)
    requires
        s.wf(),
        s.status is Suspected,
        forall|i: int| 0 <= i < outcomes.len() ==> !outcomes[i],
    ensures
        suspected_emissions(s, outcomes) == 0,
    decreases outcomes.len(),
{
    if outcomes.len() == 0 || s.done {
    } else {
        let s1 = s.step(outcomes[0]);
        assert(!outcomes[0]);
        assert(s.step_emit(outcomes[0]) != Some(HealthStatus::Suspected));
        assert(suspected_emissions(s, outcomes) == suspected_emissions(
            s1,
            outcomes.drop_first(),
        ));
        if s.budget > 0 {
            lemma_suspected_run_silent(s1, outcomes.drop_first());
        } else {
            assert(s1.done);
            assert(suspected_emissions(s1, outcomes.drop_first()) == 0);
        }
    }
}

/// Over one contiguous run of failures the prober raises at most one
/// `Suspected` signal.
pub proof fn lemma_at_most_one_suspected_per_failure_run(s: HealthChecker, outcomes: Seq<bool>)
    requires
        s.wf(),
        !(s.status is Failed),
        forall|i: int| 0 <= i < outcomes.len() ==> !outcomes[i],
    ensures
        suspected_emissions(s, outcomes) <= 1,
{
    if outcomes.len() == 0 || s.done {
    } else {
        let s1 = s.step(outcomes[0]);
        assert(!outcomes[0]);
        if s.budget > 0 {
            assert(s1.status is Suspected && s1.wf());
            lemma_suspected_run_silent(s1, outcomes.drop_first());
        } else {
            assert(s1.done);
            assert(suspected_emissions(s1, outcomes.drop_first()) == 0);
            assert(s.step_emit(outcomes[0]) == Some(HealthStatus::Failed));
        }
    }
}

/// Whatever the probe outcomes, the prober raises at most one `Failed`
/// signal: raising it stops the prober.
pub proof fn lemma_at_most_one_failed(s: HealthChecker, outcomes: Seq<bool>)
    ensures
        failed_emissions(s, outcomes) <= 1,
    decreases outcomes.len(),
{
    if outcomes.len() == 0 || s.done {
    } else {
        let s1 = s.step(outcomes[0]);
        if s.step_emit(outcomes[0]) == Some(HealthStatus::Failed) {
            assert(s1.done);
            assert(failed_emissions(s1, outcomes.drop_first()) == 0);
        } else {
            lemma_at_most_one_failed(s1, outcomes.drop_first());
        }
    }
}

/// A failure run long enough to exhaust the budget raises exactly one
/// `Failed` signal.
pub proof fn lemma_exactly_one_failed_on_exhaustion(s: HealthChecker, outcomes: Seq<bool>)
    requires
        s.wf(),
        !s.done,
        outcomes.len() > s.budget,
        forall|i: int| 0 <= i < outcomes.len() ==> !outcomes[i],
    ensures
        failed_emissions(s, outcomes) == 1,
    decreases outcomes.len(),
{
    if s.budget > 0 {
        lemma_exactly_one_failed_on_exhaustion(s.step(outcomes[0]), outcomes.drop_first());
    } else {
        let s1 = s.step(outcomes[0]);
        assert(s1.done);
        assert(failed_emissions(s1, outcomes.drop_first()) == 0);
    }
}

/// A failure run short enough for the budget raises no `Failed` signal:
/// the budget absorbs transient flaps.
pub proof fn lemma_no_failed_within_budget(s: HealthChecker, outcomes: Seq<bool>)
    requires
        !s.done,
        outcomes.len() <= s.budget,
        forall|i: int| 0 <= i < outcomes.len() ==> !outcomes[i],
    ensures
        failed_emissions(s, outcomes) == 0,
    decreases outcomes.len(),
{
    if outcomes.len() > 0 {
        lemma_no_failed_within_budget(s.step(outcomes[0]), outcomes.drop_first());
    }
}

/// The always-serving liveness responder a secondary exposes beside its
/// replication service.
pub struct HealthService;

impl HealthService {
    /// Answers every liveness check affirmatively while the process runs.
    pub fn check(&self) -> (serving: bool)
        ensures
            serving,
    {
        true
    }
}

} // verus!
