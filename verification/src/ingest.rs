//! Submission of one finding to the store: what to send, when to retry and
//! when to give up.
//!
//! The caller performs the sends and the waits; every decision is taken
//! here. A dry run never sends. A failed send is retried after a delay that
//! doubles with each failure, up to a ceiling, until the attempts allowed by
//! the policy are used up.

use vstd::prelude::*;
use crate::report::{IngestionOutcome, OutcomeView};

verus! {

/// `base` doubled `k` times.
pub open spec fn doubled(base: nat, k: nat) -> nat
    decreases k,
{
    if k == 0 {
        base
    } else {
        2 * doubled(base, (k - 1) as nat)
    }
}

/// Doubling more often never gives less.
pub proof fn lemma_doubled_monotonic(base: nat, j: nat, k: nat)
    requires
        j <= k,
    ensures
        doubled(base, j) <= doubled(base, k),
    decreases k,
{
    if j < k {
        lemma_doubled_monotonic(base, j, (k - 1) as nat);
    }
}

/// Zero stays zero however often it is doubled.
pub proof fn lemma_doubled_zero(k: nat)
    ensures
        doubled(0, k) == 0,
    decreases k,
{
    if k > 0 {
        lemma_doubled_zero((k - 1) as nat);
    }
}

/// How often a submission is attempted and how long to wait between
/// attempts.
#[derive(Clone, Copy, Debug, PartialEq, Eq, Structural)]
pub struct RetryPolicy {
    /// Attempts allowed for one submission, the first included.
    pub max_attempts: u32,
    /// Delay before the second attempt, in milliseconds.
    pub base_delay_ms: u64,
    /// Ceiling for the delay, in milliseconds.
    pub max_delay_ms: u64,
}

impl RetryPolicy {
    /// A policy allows at least one attempt, and its first delay does not
    /// exceed its ceiling.
    pub open spec fn valid(&self) -> bool {
        self.max_attempts >= 1 && self.base_delay_ms <= self.max_delay_ms
    }

    /// The delay after the `failed`-th failed attempt: the base delay doubled
    /// once per earlier failure, capped at the ceiling. Before any failure
    /// it is the delay after the first.
    pub open spec fn backoff(&self, failed: nat) -> nat {
        let earlier: nat = if failed >= 1 {
            (failed - 1) as nat
        } else {
            0
        };
        let raw = doubled(self.base_delay_ms as nat, earlier);
        if raw <= self.max_delay_ms {
            raw
        } else {
            self.max_delay_ms as nat
        }
    }

    /// The policy with these settings, if they form one.
    pub fn new(max_attempts: u32, base_delay_ms: u64, max_delay_ms: u64) -> (p: Option<
        RetryPolicy,
    >)
        ensures
            p is Some <==> max_attempts >= 1 && base_delay_ms <= max_delay_ms,
            p matches Some(q) ==> q.valid() && q.max_attempts == max_attempts && q.base_delay_ms
                == base_delay_ms && q.max_delay_ms == max_delay_ms,
    {
        if max_attempts >= 1 && base_delay_ms <= max_delay_ms {
            Some(RetryPolicy { max_attempts, base_delay_ms, max_delay_ms })
        } else {
            None
        }
    }

    /// Three attempts, starting at 100 ms and never waiting more than 2 s.
    pub fn standard() -> (p: RetryPolicy)
        ensures
            p.valid(),
            p.max_attempts == 3,
            p.base_delay_ms == 100,
            p.max_delay_ms == 2000,
    {
        RetryPolicy { max_attempts: 3, base_delay_ms: 100, max_delay_ms: 2000 }
    }

    /// The delay to wait after the `failed`-th failed attempt.
    pub fn delay_after(&self, failed: u32) -> (d: u64)
        ensures
            d == self.backoff(failed as nat),
            d <= self.max_delay_ms,
            self.valid() ==> self.base_delay_ms <= d,
    {
        let ghost base = self.base_delay_ms as nat;
        let mut d: u64 = if self.base_delay_ms <= self.max_delay_ms {
            self.base_delay_ms
        } else {
            self.max_delay_ms
        };
        if failed == 0 {
            return d;
        }
        let mut k: u32 = 1;
        while k < failed && 0 < d && d < self.max_delay_ms
            invariant
                1 <= k <= failed,
                base == self.base_delay_ms,
                d <= self.max_delay_ms,
                self.valid() ==> self.base_delay_ms <= d,
                d == self.backoff(k as nat),
            decreases failed - k,
        {
            if d > self.max_delay_ms - d {
                d = self.max_delay_ms;
            } else {
                d = d + d;
            }
            k += 1;
        }
        proof {
            if k < failed {
                lemma_doubled_monotonic(base, (k - 1) as nat, (failed - 1) as nat);
                if d == 0 {
                    lemma_doubled_monotonic(base, 0, (k - 1) as nat);
                    if base == 0 {
                        lemma_doubled_zero((failed - 1) as nat);
                    }
                }
            }
        }
        d
    }
}

/// A dry run sends nothing: its first step ends the submission as skipped,
/// and so would any later one.
pub proof fn lemma_dry_run_never_sends(s: Submission, result: Result<(), Seq<char>>)
    requires
        s.dry_run,
    ensures
        Submission::spec_first_step(s.dry_run) == SubmitStepView::Done(OutcomeView::Skipped),
        s.spec_on_result(result) == SubmitStepView::Done(OutcomeView::Skipped),
{
}

/// What the caller does next for a submission.
#[derive(Debug)]
pub enum SubmitStep {
    /// Send the mutation now.
    Send,
    /// Wait this many milliseconds, then send the mutation again.
    RetryAfter(u64),
    /// The submission is over.
    Done(IngestionOutcome),
}

/// Mathematical form of a [`SubmitStep`].
pub enum SubmitStepView {
    Send,
    RetryAfter(nat),
    Done(OutcomeView),
}

impl View for SubmitStep {
    type V = SubmitStepView;

    open spec fn view(&self) -> SubmitStepView {
        match self {
            SubmitStep::Send => SubmitStepView::Send,
            SubmitStep::RetryAfter(d) => SubmitStepView::RetryAfter(*d as nat),
            SubmitStep::Done(o) => SubmitStepView::Done(o@),
        }
    }
}

/// The progress of one submission.
#[derive(Debug)]
pub struct Submission {
    pub policy: RetryPolicy,
    pub dry_run: bool,
    /// Attempts that have failed so far.
    pub failed_attempts: u32,
}

impl Submission {
    /// A submission is well formed while it has not used up the attempts
    /// that its policy allows. The first attempt is always allowed.
    pub open spec fn wf(&self) -> bool {
        self.failed_attempts == 0 || self.failed_attempts < self.policy.max_attempts
    }

    /// The step that opens a submission: nothing is sent in a dry run.
    pub open spec fn spec_first_step(dry_run: bool) -> SubmitStepView {
        if dry_run {
            SubmitStepView::Done(OutcomeView::Skipped)
        } else {
            SubmitStepView::Send
        }
    }

    /// The step that follows the result of a send.
    pub open spec fn spec_on_result(&self, result: Result<(), Seq<char>>) -> SubmitStepView {
        if self.dry_run {
            SubmitStepView::Done(OutcomeView::Skipped)
        } else {
            match result {
                Ok(_) => SubmitStepView::Done(OutcomeView::Committed),
                Err(message) => if self.failed_attempts + 1 >= self.policy.max_attempts {
                    SubmitStepView::Done(OutcomeView::Failed(message))
                } else {
                    SubmitStepView::RetryAfter(
                        self.policy.backoff((self.failed_attempts + 1) as nat),
                    )
                },
            }
        }
    }

    /// Opens a submission under `policy`.
    pub fn begin(policy: RetryPolicy, dry_run: bool) -> (r: (Submission, SubmitStep))
        ensures
            r.0.wf(),
            r.0.policy == policy,
            r.0.dry_run == dry_run,
            r.0.failed_attempts == 0,
            r.1@ == Self::spec_first_step(dry_run),
    {
        let submission = Submission { policy, dry_run, failed_attempts: 0 };
        let step = if dry_run {
            SubmitStep::Done(IngestionOutcome::Skipped)
        } else {
            SubmitStep::Send
        };
        (submission, step)
    }

    /// Takes the result of a send and says what to do next. A retry is
    /// granted only while attempts are left, so a submission is sent at most
    /// `max_attempts` times.
    pub fn on_result(&mut self, result: Result<(), String>) -> (step: SubmitStep)
        requires
            old(self).wf(),
        ensures
            final(self).wf(),
            final(self).policy == old(self).policy,
            final(self).dry_run == old(self).dry_run,
            step@ == old(self).spec_on_result(
                match result {
                    Ok(_) => Ok(()),
                    Err(m) => Err(m@),
                },
            ),
            step@ is RetryAfter ==> final(self).failed_attempts == old(self).failed_attempts + 1,
            !(step@ is RetryAfter) ==> final(self).failed_attempts == old(self).failed_attempts,
            step@ matches SubmitStepView::RetryAfter(d) ==> d <= old(self).policy.max_delay_ms,
            !(step@ is Send),
    {
        if self.dry_run {
            return SubmitStep::Done(IngestionOutcome::Skipped);
        }
        match result {
            Ok(_) => SubmitStep::Done(IngestionOutcome::Committed),
            Err(message) => {
                if self.failed_attempts >= self.policy.max_attempts || self.failed_attempts + 1
                    >= self.policy.max_attempts {
                    SubmitStep::Done(IngestionOutcome::Failed(message))
                } else {
                    self.failed_attempts += 1;
                    SubmitStep::RetryAfter(self.policy.delay_after(self.failed_attempts))
                }
            },
        }
    }
}

} // verus!
