//! Per-resource results and the report that a scan folds them into.
//!
//! The report is a commutative fold: its counts do not depend on the order in
//! which results arrive, and neither does the set of recorded failures.

use vstd::prelude::*;
use vstd::multiset::Multiset;

verus! {

/// Why a resource could not be read.
#[derive(Clone, Copy, Debug, PartialEq, Eq, Structural)]
pub enum IoError {
    /// The file vanished between discovery and read.
    NotFound,
    /// The file may not be read.
    PermissionDenied,
    /// Any other fault while reading.
    ReadFailure,
}

/// Why a resource did not make it into the store.
#[derive(Debug)]
pub enum ScanError {
    /// The resource could not be read.
    IO(IoError),
    /// The store refused the mutation; the message is the store's.
    Mutation(String),
}

/// Mathematical form of a [`ScanError`].
pub enum ScanErrorView {
    IO(IoError),
    Mutation(Seq<char>),
}

impl View for ScanError {
    type V = ScanErrorView;

    open spec fn view(&self) -> ScanErrorView {
        match self {
            ScanError::IO(e) => ScanErrorView::IO(*e),
            ScanError::Mutation(m) => ScanErrorView::Mutation(m@),
        }
    }
}

/// What became of one submission to the store.
#[derive(Debug)]
pub enum IngestionOutcome {
    /// The store accepted the mutation.
    Committed,
    /// Dry run: nothing was sent.
    Skipped,
    /// Every attempt failed; the detail is the last error.
    Failed(String),
}

/// Mathematical form of an [`IngestionOutcome`].
pub enum OutcomeView {
    Committed,
    Skipped,
    Failed(Seq<char>),
}

impl View for IngestionOutcome {
    type V = OutcomeView;

    open spec fn view(&self) -> OutcomeView {
        match self {
            IngestionOutcome::Committed => OutcomeView::Committed,
            IngestionOutcome::Skipped => OutcomeView::Skipped,
            IngestionOutcome::Failed(d) => OutcomeView::Failed(d@),
        }
    }
}

/// The end of one resource's pipeline: the submission's outcome, or the
/// error that kept the resource from being read.
#[derive(Debug)]
pub struct Completion {
    pub path: String,
    pub result: Result<IngestionOutcome, IoError>,
}

/// Mathematical form of a [`Completion`].
pub struct CompletionView {
    pub path: Seq<char>,
    pub result: Result<OutcomeView, IoError>,
}

impl View for Completion {
    type V = CompletionView;

    open spec fn view(&self) -> CompletionView {
        CompletionView {
            path: self.path@,
            result: match self.result {
                Ok(o) => Ok(o@),
                Err(e) => Err(e),
            },
        }
    }
}

/// A recorded failure: which resource, and why.
#[derive(Debug)]
pub struct Failure {
    pub path: String,
    pub error: ScanError,
}

/// Mathematical form of a [`Failure`].
pub struct FailureView {
    pub path: Seq<char>,
    pub error: ScanErrorView,
}

impl View for Failure {
    type V = FailureView;

    open spec fn view(&self) -> FailureView {
        FailureView { path: self.path@, error: self.error@ }
    }
}

/// The three ways a completion is counted.
pub enum Tally {
    Committed,
    Skipped,
    Failed,
}

impl CompletionView {
    /// Under which count this completion falls.
    pub open spec fn tally(self) -> Tally {
        match self.result {
            Ok(OutcomeView::Committed) => Tally::Committed,
            Ok(OutcomeView::Skipped) => Tally::Skipped,
            Ok(OutcomeView::Failed(_)) => Tally::Failed,
            Err(_) => Tally::Failed,
        }
    }

    /// The failure that this completion records, if it is one.
    pub open spec fn failure(self) -> Option<FailureView> {
        match self.result {
            Ok(OutcomeView::Failed(d)) => Some(
                FailureView { path: self.path, error: ScanErrorView::Mutation(d) },
            ),
            Err(e) => Some(FailureView { path: self.path, error: ScanErrorView::IO(e) }),
            _ => None,
        }
    }
}

/// Mathematical form of a [`ScanReport`].
pub struct ReportView {
    pub discovered: nat,
    pub committed: nat,
    pub skipped: nat,
    pub failed: nat,
    pub failures: Seq<FailureView>,
}

impl ReportView {
    /// The report of a scan that has found nothing yet.
    pub open spec fn empty() -> ReportView {
        ReportView { discovered: 0, committed: 0, skipped: 0, failed: 0, failures: seq![] }
    }

    /// How many resources have produced a result.
    pub open spec fn completed(self) -> nat {
        self.committed + self.skipped + self.failed
    }

    /// How many resources were ingested, or would have been in a dry run.
    pub open spec fn success_count(self) -> nat {
        self.committed + self.skipped
    }

    /// The report after `n` more resources were discovered.
    pub open spec fn discover(self, n: nat) -> ReportView {
        ReportView { discovered: self.discovered + n, ..self }
    }

    /// The report after one completion was folded in.
    pub open spec fn absorb(self, c: CompletionView) -> ReportView {
        match c.tally() {
            Tally::Committed => ReportView { committed: self.committed + 1, ..self },
            Tally::Skipped => ReportView { skipped: self.skipped + 1, ..self },
            Tally::Failed => ReportView {
                failed: self.failed + 1,
                failures: self.failures.push(c.failure()->0),
                ..self
            },
        }
    }

    /// The report after the completions were folded in, first to last.
    pub open spec fn absorb_all(self, cs: Seq<CompletionView>) -> ReportView
        decreases cs.len(),
    {
        if cs.len() == 0 {
            self
        } else {
            self.absorb_all(cs.drop_last()).absorb(cs.last())
        }
    }
}

/// The predicate "is counted under `t`".
pub open spec fn counted_as(t: Tally) -> spec_fn(CompletionView) -> bool {
    |c: CompletionView| c.tally() == t
}

/// How many of the completions are counted under `t`.
pub open spec fn count_of(cs: Seq<CompletionView>, t: Tally) -> nat {
    cs.to_multiset().filter(counted_as(t)).len()
}

proof fn lemma_filter_insert(
    m: Multiset<CompletionView>,
    f: spec_fn(CompletionView) -> bool,
    a: CompletionView,
)
    ensures
        m.insert(a).filter(f).len() == m.filter(f).len() + if f(a) {
            1nat
        } else {
            0nat
        },
{
    broadcast use vstd::multiset::group_multiset_properties;

    if f(a) {
        assert(m.insert(a).filter(f) =~= m.filter(f).insert(a));
    } else {
        assert(m.insert(a).filter(f) =~= m.filter(f));
    }
}

proof fn lemma_count_push(cs: Seq<CompletionView>, c: CompletionView, t: Tally)
    ensures
        count_of(cs.push(c), t) == count_of(cs, t) + if c.tally() == t {
            1nat
        } else {
            0nat
        },
{
    broadcast use vstd::seq_lib::group_to_multiset_ensures;

    assert(cs.push(c).to_multiset() =~= cs.to_multiset().insert(c));
    lemma_filter_insert(cs.to_multiset(), counted_as(t), c);
}

/// What a fold adds to a report: to each count the number of completions of
/// that kind, and to the failures exactly those of the failed completions.
pub proof fn lemma_absorb_all(r: ReportView, cs: Seq<CompletionView>)
    ensures
        r.absorb_all(cs).discovered == r.discovered,
        r.absorb_all(cs).committed == r.committed + count_of(cs, Tally::Committed),
        r.absorb_all(cs).skipped == r.skipped + count_of(cs, Tally::Skipped),
        r.absorb_all(cs).failed == r.failed + count_of(cs, Tally::Failed),
        r.absorb_all(cs).completed() == r.completed() + cs.len(),
        r.absorb_all(cs).failures.len() == r.failures.len() + count_of(cs, Tally::Failed),
        forall|f: FailureView| #[trigger]
            r.absorb_all(cs).failures.contains(f) <==> r.failures.contains(f) || exists|i: int|
                0 <= i < cs.len() && (#[trigger] cs[i]).failure() == Some(f),
    decreases cs.len(),
{
    broadcast use vstd::multiset::group_multiset_properties;

    if cs.len() == 0 {
        assert(cs.to_multiset() =~= Multiset::empty()) by {
            broadcast use vstd::seq_lib::group_to_multiset_ensures;

        }
        assert(cs.to_multiset().filter(counted_as(Tally::Committed)) =~= Multiset::empty());
        assert(cs.to_multiset().filter(counted_as(Tally::Skipped)) =~= Multiset::empty());
        assert(cs.to_multiset().filter(counted_as(Tally::Failed)) =~= Multiset::empty());
    } else {
        let rest = cs.drop_last();
        let last = cs.last();
        let before = r.absorb_all(rest);
        let after = r.absorb_all(cs);
        lemma_absorb_all(r, rest);
        assert(cs == rest.push(last));
        lemma_count_push(rest, last, Tally::Committed);
        lemma_count_push(rest, last, Tally::Skipped);
        lemma_count_push(rest, last, Tally::Failed);
        assert forall|f: FailureView| #[trigger] after.failures.contains(f) implies r.failures.contains(
            f,
        ) || exists|i: int| 0 <= i < cs.len() && (#[trigger] cs[i]).failure() == Some(f) by {
            if before.failures.contains(f) {
                if !r.failures.contains(f) {
                    let i = choose|i: int|
                        0 <= i < rest.len() && (#[trigger] rest[i]).failure() == Some(f);
                    assert(cs[i] == rest[i]);
                }
            } else {
                let k = choose|k: int| 0 <= k < after.failures.len() && after.failures[k] == f;
                if k < before.failures.len() {
                    assert(before.failures[k] == f);
                }
                assert(cs[cs.len() - 1].failure() == Some(f));
            }
        }
        assert forall|f: FailureView|
            r.failures.contains(f) || (exists|i: int|
                0 <= i < cs.len() && (#[trigger] cs[i]).failure() == Some(
                    f,
                )) implies #[trigger] after.failures.contains(f) by {
            if r.failures.contains(f) {
                assert(before.failures.contains(f));
                let k = choose|k: int| 0 <= k < before.failures.len() && before.failures[k] == f;
                assert(after.failures[k] == f);
            } else {
                let i = choose|i: int|
                    0 <= i < cs.len() && (#[trigger] cs[i]).failure() == Some(f);
                if i < rest.len() {
                    assert(rest[i] == cs[i]);
                    assert(before.failures.contains(f));
                    let k = choose|k: int|
                        0 <= k < before.failures.len() && before.failures[k] == f;
                    assert(after.failures[k] == f);
                } else {
                    assert(after.failures[after.failures.len() - 1] == f);
                }
            }
        }
    }
}

/// Folding the same completions in another order gives the same counts and
/// the same set of failures.
pub proof fn lemma_fold_order_independent(
    r: ReportView,
    a: Seq<CompletionView>,
    b: Seq<CompletionView>,
)
    requires
        a.to_multiset() == b.to_multiset(),
    ensures
        r.absorb_all(a).discovered == r.absorb_all(b).discovered,
        r.absorb_all(a).committed == r.absorb_all(b).committed,
        r.absorb_all(a).skipped == r.absorb_all(b).skipped,
        r.absorb_all(a).failed == r.absorb_all(b).failed,
        r.absorb_all(a).success_count() == r.absorb_all(b).success_count(),
        r.absorb_all(a).failures.len() == r.absorb_all(b).failures.len(),
        forall|f: FailureView|
            r.absorb_all(a).failures.contains(f) <==> r.absorb_all(b).failures.contains(f),
{
    broadcast use vstd::seq_lib::group_to_multiset_ensures;

    lemma_absorb_all(r, a);
    lemma_absorb_all(r, b);
    assert forall|f: FailureView|
        r.absorb_all(a).failures.contains(f) <==> r.absorb_all(b).failures.contains(f) by {
        if exists|i: int| 0 <= i < a.len() && (#[trigger] a[i]).failure() == Some(f) {
            lemma_same_failures(a, b, f);
        }
        if exists|i: int| 0 <= i < b.len() && (#[trigger] b[i]).failure() == Some(f) {
            lemma_same_failures(b, a, f);
        }
    }
}

proof fn lemma_same_failures(a: Seq<CompletionView>, b: Seq<CompletionView>, f: FailureView)
    requires
        a.to_multiset() == b.to_multiset(),
        exists|i: int| 0 <= i < a.len() && (#[trigger] a[i]).failure() == Some(f),
    ensures
        exists|j: int| 0 <= j < b.len() && (#[trigger] b[j]).failure() == Some(f),
{
    broadcast use vstd::seq_lib::group_to_multiset_ensures;

    let i = choose|i: int| 0 <= i < a.len() && (#[trigger] a[i]).failure() == Some(f);
    assert(a.contains(a[i]));
    assert(a.to_multiset().count(a[i]) > 0);
    assert(b.contains(a[i]));
    let j = choose|j: int| 0 <= j < b.len() && b[j] == a[i];
    assert(b[j].failure() == Some(f));
}

/// The aggregate over a scan: how many resources were discovered, committed,
/// skipped and failed, and the failures themselves.
#[derive(Debug)]
pub struct ScanReport {
    pub discovered: usize,
    pub committed: usize,
    pub skipped: usize,
    pub failed: usize,
    pub failures: Vec<Failure>,
}

impl View for ScanReport {
    type V = ReportView;

    open spec fn view(&self) -> ReportView {
        ReportView {
            discovered: self.discovered as nat,
            committed: self.committed as nat,
            skipped: self.skipped as nat,
            failed: self.failed as nat,
            failures: self.failures@.map_values(|f: Failure| f@),
        }
    }
}

impl ScanReport {
    /// A report is well formed when no more resources have completed than
    /// were discovered and every failed one is recorded.
    pub open spec fn wf(&self) -> bool {
        &&& self.committed + self.skipped + self.failed <= self.discovered
        &&& self.failed == self.failures.len()
    }

    /// The report at the start of a scan.
    pub fn new() -> (r: ScanReport)
        ensures
            r.wf(),
            r@ == ReportView::empty(),
    {
        let r = ScanReport {
            discovered: 0,
            committed: 0,
            skipped: 0,
            failed: 0,
            failures: Vec::new(),
        };
        assert(r@.failures =~= seq![]);
        r
    }

    /// How many resources were ingested, or would have been in a dry run.
    pub fn success_count(&self) -> (n: usize)
        requires
            self.wf(),
        ensures
            n == self@.success_count(),
    {
        self.committed + self.skipped
    }

    /// How many resources have produced a result.
    pub fn completed(&self) -> (n: usize)
        requires
            self.wf(),
        ensures
            n == self@.completed(),
    {
        self.committed + self.skipped + self.failed
    }

    /// Counts one more discovered resource.
    pub fn note_discovered(&mut self)
        requires
            old(self).wf(),
            old(self).discovered < usize::MAX,
        ensures
            final(self).wf(),
            final(self)@ == old(self)@.discover(1),
    {
        self.discovered += 1;
    }

    /// Folds the result of one discovered resource into the report.
    pub fn record(&mut self, completion: Completion)
        requires
            old(self).wf(),
            old(self)@.completed() < old(self)@.discovered,
        ensures
            final(self).wf(),
            final(self)@ == old(self)@.absorb(completion@),
    {
        let ghost before = self@;
        let Completion { path, result } = completion;
        match result {
            Ok(IngestionOutcome::Committed) => {
                self.committed += 1;
            },
            Ok(IngestionOutcome::Skipped) => {
                self.skipped += 1;
            },
            Ok(IngestionOutcome::Failed(detail)) => {
                self.failed += 1;
                self.failures.push(Failure { path, error: ScanError::Mutation(detail) });
                assert(self@.failures =~= before.failures.push(completion@.failure()->0));
            },
            Err(e) => {
                self.failed += 1;
                self.failures.push(Failure { path, error: ScanError::IO(e) });
                assert(self@.failures =~= before.failures.push(completion@.failure()->0));
            },
        }
    }

    /// The report of a scan in which exactly these resources were discovered
    /// and completed.
    pub fn tally(completions: Vec<Completion>) -> (r: ScanReport)
        ensures
            r.wf(),
            r@ == ReportView::empty().discover(completions.len() as nat).absorb_all(
                completions@.map_values(|c: Completion| c@),
            ),
            r@.completed() == completions.len(),
    {
        let ghost all = completions@.map_values(|c: Completion| c@);
        let ghost start = ReportView::empty().discover(completions.len() as nat);
        let n = completions.len();
        let mut r = ScanReport::new();
        r.discovered = n;
        assert(all.take(0) =~= seq![]);
        for c in it: completions
            invariant
                r.wf(),
                r.discovered == n,
                start == ReportView::empty().discover(n as nat),
                it.seq().map_values(|c: Completion| c@) == all,
                all.len() == n,
                r@ == start.absorb_all(all.take(it.index())),
                r@.completed() == it.index(),
        {
            proof {
                let k = it.index();
                assert(all[k] == c@);
                assert(all.take(k + 1).drop_last() == all.take(k));
                assert(all.take(k + 1).last() == c@);
            }
            r.record(c);
        }
        assert(all.take(n as int) == all);
        r
    }
}

} // verus!
