//! Decisions of the notification dispatcher: which cells to search, which
//! candidates to notify, and what each notification unit does after a send.
use vstd::prelude::*;
use crate::geohash::{encode, get_neighbors, geohash_of, keys_of, neighborhood_of, PRECISION};
use crate::models::Subscription;

verus! {

/// Retries after the first attempt of a unit.
pub const MAX_RETRIES: u32 = 2;

/// Backoff unit: the n-th retry waits n times this many milliseconds.
pub const BACKOFF_STEP_MS: u32 = 100;

/// Default capacity of the limiter shared by all dispatch cycles.
pub const DEFAULT_MAX_CONCURRENT: usize = 1000;

/// The cells searched for an epicenter: its own cell at index precision and
/// the cells around it.
pub fn neighborhood_cells(lat: i64, lon: i64) -> (r: Vec<String>)
    ensures
        keys_of(r@) == neighborhood_of(geohash_of(lat as int, lon as int, PRECISION as nat)),
        1 <= r@.len() <= 9,
{
    let center = encode(lat, lon);
    get_neighbors(center.as_str())
}

/// Whether a subscriber wants an event estimated at `estimate` where it is.
pub open spec fn wants(s: Subscription, estimate: u8) -> bool {
    estimate >= s.min_intensity
}

/// Positions, in increasing order, of the candidates whose estimate reaches
/// their threshold; `estimates[i]` belongs to `candidates[i]`.
pub open spec fn recipients_of(candidates: Seq<Subscription>, estimates: Seq<u8>) -> Seq<usize>
    decreases candidates.len(),
{
    if candidates.len() == 0 {
        seq![]
    } else {
        let i = candidates.len() - 1;
        let rest = recipients_of(candidates.drop_last(), estimates);
        if wants(candidates[i], estimates[i]) {
            rest.push(i as usize)
        } else {
            rest
        }
    }
}

/// The candidates to notify: those whose estimated intensity reaches their threshold.
pub fn select_recipients(candidates: &[Subscription], estimates: &[u8]) -> (r: Vec<usize>)
    requires
        candidates@.len() == estimates@.len(),
    ensures
        r@ == recipients_of(candidates@, estimates@),
{
    let mut r: Vec<usize> = Vec::new();
    let mut i: usize = 0;
    while i < candidates.len()
        invariant
            i <= candidates@.len(),
            candidates@.len() == estimates@.len(),
            r@ == recipients_of(candidates@.take(i as int), estimates@),
        decreases candidates@.len() - i,
    {
        assert(candidates@.take(i + 1).drop_last() =~= candidates@.take(i as int));
        if estimates[i] >= candidates[i].min_intensity {
            r.push(i);
        }
        i = i + 1;
    }
    assert(candidates@.take(candidates@.len() as int) =~= candidates@);
    r
}

/// The selection law: a position is selected exactly when its candidate
/// wants the event, in increasing order; no candidate means no notification.
pub proof fn lemma_recipients(candidates: Seq<Subscription>, estimates: Seq<u8>)
    requires
        candidates.len() <= usize::MAX,
    ensures
        recipients_of(candidates, estimates).len() <= candidates.len(),
        forall|i: int|
            0 <= i < candidates.len() ==> (recipients_of(candidates, estimates).contains(i as usize)
                <==> wants(candidates[i], estimates[i])),
        forall|a: int, b: int|
            0 <= a < b < recipients_of(candidates, estimates).len() ==> recipients_of(candidates, estimates)[a]
                < recipients_of(candidates, estimates)[b],
        forall|a: int|
            0 <= a < recipients_of(candidates, estimates).len() ==> recipients_of(candidates, estimates)[a]
                < candidates.len(),
        candidates.len() == 0 ==> recipients_of(candidates, estimates).len() == 0,
    decreases candidates.len(),
{
    if candidates.len() > 0 {
        let p = candidates.drop_last();
        let n = candidates.len() - 1;
        let rest = recipients_of(p, estimates);
        let all = recipients_of(candidates, estimates);
        lemma_recipients(p, estimates);
        assert forall|i: int| 0 <= i < candidates.len() implies (all.contains(i as usize) <==> wants(
            candidates[i],
            estimates[i],
        )) by {
            if i < n {
                assert(p[i] == candidates[i]);
                if all.contains(i as usize) {
                    let k = choose|k: int| 0 <= k < all.len() && all[k] == i as usize;
                    if k < rest.len() {
                        assert(rest[k] == i as usize);
                        assert(rest.contains(i as usize));
                    } else {
                        assert(all[k] == n as usize);
                    }
                }
                if rest.contains(i as usize) {
                    let k = choose|k: int| 0 <= k < rest.len() && rest[k] == i as usize;
                    assert(all[k] == i as usize);
                }
            } else {
                if wants(candidates[i], estimates[i]) {
                    assert(all[rest.len() as int] == i as usize);
                } else {
                    if all.contains(i as usize) {
                        let k = choose|k: int| 0 <= k < all.len() && all[k] == i as usize;
                        assert(rest[k] == i as usize);
                    }
                }
            }
        }
        assert forall|a: int, b: int| 0 <= a < b < all.len() implies all[a] < all[b] by {
            if b == rest.len() {
                assert(rest[a] < n);
            } else {
                assert(all[a] == rest[a] && all[b] == rest[b]);
            }
        }
    }
}

/// What one send came to.
#[derive(Debug, Clone, Copy, PartialEq, Eq, Structural)]
pub enum Delivery {
    /// The provider answered with a success status.
    Delivered,
    /// The provider answered with this non-success status.
    Rejected(u16),
    /// No answer: timeout or transport error.
    Unreachable,
}

/// Statuses by which the provider says the target is gone or malformed.
pub open spec fn permanent_status(code: u16) -> bool {
    code == 400 || code == 404 || code == 500
}

pub open spec fn delivery_of(status: u16) -> Delivery {
    if 200 <= status <= 299 {
        Delivery::Delivered
    } else {
        Delivery::Rejected(status)
    }
}

/// Reads an HTTP status of the push provider.
pub fn classify_status(status: u16) -> (r: Delivery)
    ensures
        r == delivery_of(status),
{
    if 200 <= status && status <= 299 {
        Delivery::Delivered
    } else {
        Delivery::Rejected(status)
    }
}

/// Whether an outcome means the subscription must be removed.
pub fn is_permanent_failure(outcome: Delivery) -> (r: bool)
    ensures
        r == (outcome matches Delivery::Rejected(code) && permanent_status(code)),
{
    match outcome {
        Delivery::Rejected(code) => code == 400 || code == 404 || code == 500,
        _ => false,
    }
}

/// What a notification unit does next.
#[derive(Debug, Clone, Copy, PartialEq, Eq, Structural)]
pub enum UnitStep {
    /// Done: counted as delivered.
    Succeeded,
    /// Delete the subscription, then count the unit as failed.
    PruneAndFail,
    /// Send again after this many milliseconds.
    RetryAfter(u64),
    /// Done: counted as failed.
    Failed,
}

/// Bounded retries with linear backoff.
#[derive(Debug, Clone, Copy, PartialEq, Eq, Structural)]
pub struct RetryPolicy {
    pub max_retries: u32,
    pub backoff_step_ms: u32,
}

impl RetryPolicy {
    pub fn new(max_retries: u32, backoff_step_ms: u32) -> (r: Self)
        ensures
            r.max_retries == max_retries,
            r.backoff_step_ms == backoff_step_ms,
    {
        RetryPolicy { max_retries, backoff_step_ms }
    }

    /// Two retries, 100 ms apart times the retry's number.
    pub fn standard() -> (r: Self)
        ensures
            r.max_retries == MAX_RETRIES,
            r.backoff_step_ms == BACKOFF_STEP_MS,
    {
        RetryPolicy { max_retries: MAX_RETRIES, backoff_step_ms: BACKOFF_STEP_MS }
    }

    /// The step after an outcome, `retries_done` retries having been made:
    /// success ends the unit, a permanent failure prunes, anything else is
    /// retried while retries remain.
    pub open spec fn step_after(self, retries_done: u32, outcome: Delivery) -> UnitStep {
        match outcome {
            Delivery::Delivered => UnitStep::Succeeded,
            Delivery::Rejected(code) if permanent_status(code) => UnitStep::PruneAndFail,
            _ => if retries_done < self.max_retries {
                UnitStep::RetryAfter((self.backoff_step_ms as nat * (retries_done as nat + 1)) as u64)
            } else {
                UnitStep::Failed
            },
        }
    }

    /// Whether an outcome may be retried (neither a success nor a permanent failure).
    pub fn is_retryable(&self, outcome: Delivery) -> (r: bool)
        ensures
            r == !(outcome == Delivery::Delivered || (outcome matches Delivery::Rejected(code) && permanent_status(code))),
    {
        match outcome {
            Delivery::Delivered => false,
            _ => !is_permanent_failure(outcome),
        }
    }

    /// Wait before retry number `n` (1 for the first).
    pub fn backoff_ms(&self, n: u32) -> (r: u64)
        ensures
            r == self.backoff_step_ms as nat * n as nat,
    {
        assert(self.backoff_step_ms as nat * n as nat <= 0xffff_ffff * 0xffff_ffff) by (nonlinear_arith)
            requires self.backoff_step_ms <= 0xffff_ffff, n <= 0xffff_ffff;
        (self.backoff_step_ms as u64) * (n as u64)
    }

    pub fn next_step(&self, retries_done: u32, outcome: Delivery) -> (r: UnitStep)
        ensures
            r == self.step_after(retries_done, outcome),
    {
        if outcome == Delivery::Delivered {
            UnitStep::Succeeded
        } else if is_permanent_failure(outcome) {
            UnitStep::PruneAndFail
        } else if retries_done < self.max_retries {
            UnitStep::RetryAfter(self.backoff_ms(retries_done + 1))
        } else {
            UnitStep::Failed
        }
    }
}

impl Default for RetryPolicy {
    fn default() -> (r: Self)
        ensures
            r.max_retries == MAX_RETRIES,
            r.backoff_step_ms == BACKOFF_STEP_MS,
    {
        RetryPolicy::standard()
    }
}

/// One subscriber's notification attempt, retries included.
#[derive(Debug, Clone, Copy, PartialEq, Eq, Structural)]
pub struct DispatchUnit {
    pub policy: RetryPolicy,
    /// Retries made so far.
    pub retries: u32,
}

impl DispatchUnit {
    pub fn new(policy: RetryPolicy) -> (r: Self)
        ensures
            r.policy == policy,
            r.retries == 0,
    {
        DispatchUnit { policy, retries: 0 }
    }

    /// Takes the outcome of the latest send and says what comes next.
    pub fn on_outcome(&mut self, outcome: Delivery) -> (r: UnitStep)
        ensures
            r == old(self).policy.step_after(old(self).retries, outcome),
            final(self).policy == old(self).policy,
            final(self).retries == if r is RetryAfter {
                old(self).retries + 1
            } else {
                old(self).retries as int
            },
    {
        let r = self.policy.next_step(self.retries, outcome);
        if let UnitStep::RetryAfter(_) = r {
            self.retries = self.retries + 1;
        }
        r
    }
}

/// A unit sends at most `max_retries + 1` times: once its retries are
/// spent, every outcome ends it.
pub proof fn lemma_retries_bounded(policy: RetryPolicy, retries_done: u32, outcome: Delivery)
    ensures
        policy.step_after(retries_done, outcome) is RetryAfter ==> retries_done < policy.max_retries,
        retries_done >= policy.max_retries ==> !(policy.step_after(retries_done, outcome) is RetryAfter),
{
}

/// Counts of one dispatch cycle.
#[derive(Debug, Clone, Copy, PartialEq, Eq, Structural)]
pub struct DispatchSummary {
    pub candidates: usize,
    pub dispatched: usize,
    pub succeeded: usize,
    pub failed: usize,
}

impl DispatchSummary {
    pub fn new(candidates: usize, dispatched: usize) -> (r: Self)
        ensures
            r.candidates == candidates,
            r.dispatched == dispatched,
            r.succeeded == 0,
            r.failed == 0,
    {
        DispatchSummary { candidates, dispatched, succeeded: 0, failed: 0 }
    }

    /// Counts a finished unit; units past the dispatched number are not counted.
    pub fn record(&mut self, succeeded: bool)
        ensures
            final(self).candidates == old(self).candidates,
            final(self).dispatched == old(self).dispatched,
            if old(self).succeeded as int + old(self).failed as int >= old(self).dispatched as int {
                *final(self) == *old(self)
            } else if succeeded {
                final(self).succeeded == old(self).succeeded + 1 && final(self).failed == old(self).failed
            } else {
                final(self).failed == old(self).failed + 1 && final(self).succeeded == old(self).succeeded
            },
    {
        if self.succeeded >= self.dispatched || self.failed >= self.dispatched - self.succeeded {
            return;
        }
        if succeeded {
            self.succeeded = self.succeeded + 1;
        } else {
            self.failed = self.failed + 1;
        }
    }
}

} // verus!
