//! The coordinator of a scan: a state machine that decides when to take the
//! next candidate from the walk, when to wait for a running pipeline, and
//! when the scan is over.
//!
//! The caller owns the walk, the worker pool and the clock. It asks for the
//! next step, performs it, and reports what happened as an event. The
//! coordinator keeps the number of running pipelines within the pool size,
//! folds every completion into the report, and declares the scan finished
//! only when every discovered candidate has completed, or when the scan was
//! cancelled.

use vstd::prelude::*;
use crate::report::{
    Completion,
    CompletionView,
    IoError,
    OutcomeView,
    ReportView,
    ScanError,
    ScanErrorView,
    ScanReport,
};
use crate::walker::EntryKind;

verus! {

/// What the caller does next.
#[derive(Clone, Copy, Debug, PartialEq, Eq, Structural)]
pub enum NextStep {
    /// Take the next candidate from the walk and start its pipeline, or
    /// report that the walk is exhausted.
    Pull,
    /// Wait for a running pipeline to complete.
    Await,
    /// Stop: the report is final.
    Finish,
}

/// What the caller reports back.
#[derive(Debug)]
pub enum ScanEvent {
    /// The walk produced a candidate and its pipeline was started.
    Discovered,
    /// A pipeline completed.
    Completed(Completion),
    /// The walk is exhausted.
    WalkFinished,
    /// The scan was cancelled.
    Cancelled,
}

/// Mathematical form of a [`ScanEvent`].
pub enum ScanEventView {
    Discovered,
    Completed(CompletionView),
    WalkFinished,
    Cancelled,
}

impl View for ScanEvent {
    type V = ScanEventView;

    open spec fn view(&self) -> ScanEventView {
        match self {
            ScanEvent::Discovered => ScanEventView::Discovered,
            ScanEvent::Completed(c) => ScanEventView::Completed(c@),
            ScanEvent::WalkFinished => ScanEventView::WalkFinished,
            ScanEvent::Cancelled => ScanEventView::Cancelled,
        }
    }
}

/// Mathematical form of a [`ScanCoordinator`].
pub struct CoordinatorView {
    pub report: ReportView,
    pub limit: nat,
    pub in_flight: nat,
    pub walk_done: bool,
    pub cancelled: bool,
}

impl CoordinatorView {
    /// The state at the start of a scan with a pool of `limit` workers.
    pub open spec fn initial(limit: nat) -> CoordinatorView {
        CoordinatorView {
            report: ReportView::empty(),
            limit,
            in_flight: 0,
            walk_done: false,
            cancelled: false,
        }
    }

    /// What holds in every reachable state: the pool is never overbooked,
    /// and every discovered candidate is either running or completed.
    pub open spec fn inv(self) -> bool {
        &&& self.limit >= 1
        &&& self.in_flight <= self.limit
        &&& self.report.discovered == self.report.completed() + self.in_flight
        &&& self.report.failed == self.report.failures.len()
    }

    /// Whether a new pipeline may start.
    pub open spec fn can_start(self) -> bool {
        !self.cancelled && !self.walk_done && self.in_flight < self.limit
    }

    /// The step that the state calls for.
    pub open spec fn next_step(self) -> NextStep {
        if self.cancelled {
            NextStep::Finish
        } else if self.can_start() {
            NextStep::Pull
        } else if self.in_flight > 0 {
            NextStep::Await
        } else {
            NextStep::Finish
        }
    }

    /// The state after an event. An event that does not fit the state
    /// changes nothing: a discovery while no pipeline may start, and a
    /// completion after cancellation or with nothing running.
    pub open spec fn apply(self, event: ScanEventView) -> CoordinatorView {
        match event {
            ScanEventView::Discovered => if self.can_start() {
                CoordinatorView {
                    report: self.report.discover(1),
                    in_flight: self.in_flight + 1,
                    ..self
                }
            } else {
                self
            },
            ScanEventView::Completed(c) => if self.cancelled || self.in_flight == 0 {
                self
            } else {
                CoordinatorView {
                    report: self.report.absorb(c),
                    in_flight: (self.in_flight - 1) as nat,
                    ..self
                }
            },
            ScanEventView::WalkFinished => CoordinatorView { walk_done: true, ..self },
            ScanEventView::Cancelled => CoordinatorView { cancelled: true, ..self },
        }
    }

    /// The state after a sequence of events, first to last.
    pub open spec fn apply_all(self, events: Seq<ScanEventView>) -> CoordinatorView
        decreases events.len(),
    {
        if events.len() == 0 {
            self
        } else {
            self.apply_all(events.drop_last()).apply(events.last())
        }
    }
}

/// Every event keeps the invariant.
pub proof fn lemma_apply_keeps_inv(s: CoordinatorView, event: ScanEventView)
    requires
        s.inv(),
    ensures
        s.apply(event).inv(),
{
}

/// Every run from the initial state keeps the invariant: at no point are
/// more pipelines running than the pool has workers.
pub proof fn lemma_run_keeps_inv(limit: nat, events: Seq<ScanEventView>)
    requires
        limit >= 1,
    ensures
        CoordinatorView::initial(limit).apply_all(events).inv(),
        CoordinatorView::initial(limit).apply_all(events).in_flight <= limit,
        CoordinatorView::initial(limit).apply_all(events).limit == limit,
    decreases events.len(),
{
    if events.len() > 0 {
        lemma_run_keeps_inv(limit, events.drop_last());
        lemma_apply_keeps_inv(
            CoordinatorView::initial(limit).apply_all(events.drop_last()),
            events.last(),
        );
    }
}

/// A scan that was not cancelled finishes only when the walk is exhausted
/// and every discovered candidate has completed.
pub proof fn lemma_finish_is_exhaustive(s: CoordinatorView)
    requires
        s.inv(),
        !s.cancelled,
        s.next_step() == NextStep::Finish,
    ensures
        s.walk_done,
        s.in_flight == 0,
        s.report.completed() == s.report.discovered,
{
}

/// Once a scan is cancelled it is finished, and nothing that happens later
/// changes its report: no new work is counted, and work that was running is
/// abandoned.
pub proof fn lemma_cancelled_is_final(s: CoordinatorView, events: Seq<ScanEventView>)
    requires
        s.cancelled,
    ensures
        s.apply_all(events).cancelled,
        s.apply_all(events).report == s.report,
        s.apply_all(events).report.success_count() <= s.report.completed(),
        s.apply_all(events).next_step() == NextStep::Finish,
    decreases events.len(),
{
    if events.len() > 0 {
        lemma_cancelled_is_final(s, events.drop_last());
    }
}

/// A dry run over the same resources counts as many successes as a real
/// scan in which no submission failed, and it commits nothing.
pub proof fn lemma_dry_run_matches_real_scan(
    r: ReportView,
    live: Seq<CompletionView>,
    dry: Seq<CompletionView>,
)
    requires
        live.len() == dry.len(),
        forall|i: int|
            0 <= i < live.len() ==> ((#[trigger] live[i]).result is Err <==> (#[trigger] dry[i]).result is Err),
        forall|i: int|
            0 <= i < dry.len() && (#[trigger] dry[i]).result is Ok ==> dry[i].result == Ok::<
                OutcomeView,
                IoError,
            >(OutcomeView::Skipped),
        forall|i: int|
            0 <= i < live.len() && (#[trigger] live[i]).result is Ok ==> live[i].result == Ok::<
                OutcomeView,
                IoError,
            >(OutcomeView::Committed),
    ensures
        r.absorb_all(live).success_count() == r.absorb_all(dry).success_count(),
        r.absorb_all(live).failed == r.absorb_all(dry).failed,
        r.absorb_all(dry).committed == r.committed,
    decreases live.len(),
{
    if live.len() > 0 {
        let live0 = live.drop_last();
        let dry0 = dry.drop_last();
        assert forall|i: int| 0 <= i < live0.len() implies ((#[trigger] live0[i]).result is Err
            <==> (#[trigger] dry0[i]).result is Err) by {
            assert(live0[i] == live[i] && dry0[i] == dry[i]);
        }
        assert forall|i: int| 0 <= i < dry0.len() && (#[trigger] dry0[i]).result is Ok implies dry0[i].result
            == Ok::<OutcomeView, IoError>(OutcomeView::Skipped) by {
            assert(dry0[i] == dry[i]);
        }
        assert forall|i: int|
            0 <= i < live0.len() && (#[trigger] live0[i]).result is Ok implies live0[i].result
            == Ok::<OutcomeView, IoError>(OutcomeView::Committed) by {
            assert(live0[i] == live[i]);
        }
        lemma_dry_run_matches_real_scan(r, live0, dry0);
        let n = live.len() - 1;
        assert(live.last() == live[n] && dry.last() == dry[n]);
    }
}

/// The error for a root that cannot be scanned, if it is one: the root must
/// exist and be a directory.
pub open spec fn root_error(kind: Option<EntryKind>) -> Option<ScanErrorView> {
    match kind {
        None => Some(ScanErrorView::IO(IoError::NotFound)),
        Some(EntryKind::Directory) => None,
        Some(_) => Some(ScanErrorView::IO(IoError::ReadFailure)),
    }
}

/// Checks the root of a scan. `kind` is what the file system reports of the
/// root path, `None` where nothing is there.
pub fn validate_root(kind: Option<EntryKind>) -> (r: Result<(), ScanError>)
    ensures
        r is Ok <==> root_error(kind) is None,
        r matches Err(e) ==> root_error(kind) == Some(e@),
{
    match kind {
        None => Err(ScanError::IO(IoError::NotFound)),
        Some(EntryKind::Directory) => Ok(()),
        Some(_) => Err(ScanError::IO(IoError::ReadFailure)),
    }
}

/// The state of a running scan.
#[derive(Debug)]
pub struct ScanCoordinator {
    pub report: ScanReport,
    /// How many pipelines may run at once.
    pub limit: usize,
    /// How many pipelines are running.
    pub in_flight: usize,
    /// Whether the walk is exhausted.
    pub walk_done: bool,
    /// Whether the scan was cancelled.
    pub cancelled: bool,
}

impl View for ScanCoordinator {
    type V = CoordinatorView;

    open spec fn view(&self) -> CoordinatorView {
        CoordinatorView {
            report: self.report@,
            limit: self.limit as nat,
            in_flight: self.in_flight as nat,
            walk_done: self.walk_done,
            cancelled: self.cancelled,
        }
    }
}

impl ScanCoordinator {
    /// A coordinator is well formed when its state satisfies the invariant.
    pub open spec fn wf(&self) -> bool {
        self@.inv() && self.report.wf()
    }

    /// A coordinator for a pool of `limit` workers; none for an empty pool.
    pub fn new(limit: usize) -> (c: Option<ScanCoordinator>)
        ensures
            c is Some <==> limit >= 1,
            c matches Some(s) ==> s.wf() && s@ == CoordinatorView::initial(limit as nat),
    {
        if limit == 0 {
            None
        } else {
            Some(
                ScanCoordinator {
                    report: ScanReport::new(),
                    limit,
                    in_flight: 0,
                    walk_done: false,
                    cancelled: false,
                },
            )
        }
    }

    /// What the caller does next.
    pub fn next_step(&self) -> (next: NextStep)
        requires
            self.wf(),
        ensures
            next == self@.next_step(),
    {
        if self.cancelled {
            NextStep::Finish
        } else if !self.walk_done && self.in_flight < self.limit {
            NextStep::Pull
        } else if self.in_flight > 0 {
            NextStep::Await
        } else {
            NextStep::Finish
        }
    }

    /// Takes an event and says what to do next.
    pub fn step(&mut self, event: ScanEvent) -> (next: NextStep)
        requires
            old(self).wf(),
            event is Discovered ==> old(self).report.discovered < usize::MAX,
        ensures
            final(self).wf(),
            final(self)@ == old(self)@.apply(event@),
            next == final(self)@.next_step(),
    {
        match event {
            ScanEvent::Discovered => {
                if !self.cancelled && !self.walk_done && self.in_flight < self.limit {
                    self.report.note_discovered();
                    self.in_flight += 1;
                }
            },
            ScanEvent::Completed(completion) => {
                if !self.cancelled && self.in_flight > 0 {
                    self.in_flight -= 1;
                    self.report.record(completion);
                }
            },
            ScanEvent::WalkFinished => {
                self.walk_done = true;
            },
            ScanEvent::Cancelled => {
                self.cancelled = true;
            },
        }
        self.next_step()
    }

    /// Ends the scan and hands out its report.
    pub fn into_report(self) -> (r: ScanReport)
        requires
            self.wf(),
        ensures
            r.wf(),
            r@ == self@.report,
    {
        self.report
    }
}

} // verus!
