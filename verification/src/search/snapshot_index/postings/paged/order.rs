//! What the answers of a cursor's steps tell of each other.
use vstd::prelude::*;

use crate::model::{group_views, views};
use crate::search::snapshot_index::postings::paged::cursor::{less_work, PagedPostingCandidates};
use crate::search::snapshot_index::postings::paged::{PagedPostingError, PagedPostings};
use crate::search::snapshot_index::postings::{kept_from, Keep, PostingStep};
use crate::search::snapshot_index::RowModel;

verus! {

broadcast use group_views;

/// The states that a cursor and its pages go through, and the answer of each step
/// between them.
pub ghost struct Run {
    pub cursors: Seq<PagedPostingCandidates>,
    pub sources: Seq<PagedPostings>,
    pub replies: Seq<Result<PostingStep, PagedPostingError>>,
}

impl Run {
    /// Each state follows from the one before by a step with the answer given.
    pub open spec fn valid(self) -> bool {
        &&& self.cursors.len() == self.replies.len() + 1
        &&& self.sources.len() == self.cursors.len()
        &&& forall|i: int|
            0 <= i < self.replies.len() ==> self.cursors[i].answers(
                self.sources[i],
                #[trigger] self.replies[i],
                self.cursors[i + 1],
                self.sources[i + 1],
            )
    }

    /// The member that a step names, if it names one.
    pub open spec fn named(self, i: int) -> Option<usize> {
        match self.replies[i] {
            Ok(PostingStep::Candidate { ordinal, .. }) => Some(ordinal),
            _ => None,
        }
    }

    /// Whether no step failed or found the members over.
    pub open spec fn unfinished(self) -> bool {
        &&& forall|i: int|
            0 <= i < self.cursors.len() ==> (#[trigger] self.cursors[i]).wf(self.sources[i])
        &&& forall|i: int|
            0 <= i < self.replies.len() ==> (#[trigger] self.replies[i]) is Ok && self.replies[i]
                != Ok::<PostingStep, PagedPostingError>(PostingStep::Finished)
    }

    /// Whether all members have been named before a step.
    pub open spec fn over(self, i: int) -> bool {
        self.cursors[i].finished(self.sources[i])
    }
}

/// The lists of a source are those of another of the same index.
proof fn lemma_same_end(cursor: PagedPostingCandidates, a: PagedPostings, b: PagedPostings)
    requires
        a.same_index(b),
    ensures
        cursor.finished(a) == cursor.finished(b),
{
}

proof fn lemma_run(run: Run, i: int, j: int)
    requires
        run.valid(),
        0 <= i <= j <= run.replies.len(),
    ensures
        run.cursors[i].failure is Some ==> run.cursors[j].failure == run.cursors[i].failure,
        run.cursors[j].failure is None ==> run.cursors[i].failure is None
            && run.cursors[i].least() <= run.cursors[j].least(),
        run.over(i) && run.cursors[j].failure is None ==> run.over(j) && run.cursors[j]
            == run.cursors[i],
    decreases j - i,
{
    if i < j {
        lemma_run(run, i, j - 1);
        let reply = run.replies[j - 1];
        lemma_same_end(run.cursors[j], run.sources[j], run.sources[j - 1]);
    }
}

/// The members that steps name come in strictly increasing order, so that none is
/// named twice.
pub proof fn members_are_named_in_order(run: Run, i: int, j: int)
    requires
        run.valid(),
        0 <= i < j < run.replies.len(),
    ensures
        run.named(i) is Some && run.named(j) is Some ==> run.named(i)->0 < run.named(j)->0,
{
    let first = run.replies[i];
    let second = run.replies[j];
    if run.named(i) is Some && run.named(j) is Some {
        lemma_run(run, i + 1, j);
    }
}

/// Once a step failed, canceled ones among them, every later step fails with the
/// same error, and the cursor is not finished from then on.
pub proof fn failures_stay(run: Run, i: int, j: int)
    requires
        run.valid(),
        0 <= i < j <= run.replies.len(),
        run.replies[i] is Err,
    ensures
        !run.over(j),
        j < run.replies.len() ==> run.replies[j] == run.replies[i],
{
    lemma_run(run, i + 1, j);
    if j < run.replies.len() {
        let later = run.replies[j];
    }
}

/// A step that answers that the members are over finds the cursor finished. It
/// stays as it is, and every later step answers the same, unless one fails.
pub proof fn an_end_stays(run: Run, i: int, j: int)
    requires
        run.valid(),
        0 <= i < j <= run.replies.len(),
        run.replies[i] == Ok::<PostingStep, PagedPostingError>(PostingStep::Finished),
    ensures
        run.over(i + 1),
        run.cursors[j].failure is None ==> run.over(j) && run.cursors[j] == run.cursors[i + 1],
        j < run.replies.len() && run.replies[j] is Ok ==> run.replies[j] == run.replies[i],
{
    lemma_run(run, i + 1, j);
    if j < run.replies.len() {
        let later = run.replies[j];
    }
}

/// What is left to do as one number, where the lists have so many pairs and so
/// many members.
pub open spec fn work_number(
    work: (int, int, int, int, int, int),
    pairs: int,
    members: int,
) -> int {
    ((((work.0 * (pairs + 1) + work.1) * (members + 1) + work.2) * 5 + work.3) * 2 + work.4) * (pairs
        + 2) + work.5
}

proof fn lemma_digits(x: int, a: int, y: int, b: int, base: int)
    requires
        0 <= a < base,
        0 <= b < base,
        x < y || x == y && a < b,
    ensures
        x * base + a < y * base + b,
{
    if x < y {
        assert((x + 1) * base <= y * base) by (nonlinear_arith)
            requires
                x + 1 <= y,
                0 < base,
        ;
        assert((x + 1) * base == x * base + base) by (nonlinear_arith);
    }
}

/// Whether the numbers of what is left to do stay within what the lists allow.
pub open spec fn work_fits(
    work: (int, int, int, int, int, int),
    pairs: int,
    members: int,
) -> bool {
    &&& 0 <= work.0 <= 6
    &&& 0 <= work.1 <= pairs
    &&& 0 <= work.2 <= members
    &&& 0 <= work.3 <= 4
    &&& 0 <= work.4 <= 1
    &&& 0 <= work.5 <= pairs + 1
}

proof fn lemma_less_work(
    a: (int, int, int, int, int, int),
    b: (int, int, int, int, int, int),
    pairs: int,
    members: int,
)
    requires
        0 <= pairs,
        0 <= members,
        work_fits(a, pairs, members),
        work_fits(b, pairs, members),
        less_work(a, b),
    ensures
        work_number(a, pairs, members) < work_number(b, pairs, members),
{
    let a1 = a.0 * (pairs + 1) + a.1;
    let b1 = b.0 * (pairs + 1) + b.1;
    let a2 = a1 * (members + 1) + a.2;
    let b2 = b1 * (members + 1) + b.2;
    let a3 = a2 * 5 + a.3;
    let b3 = b2 * 5 + b.3;
    let a4 = a3 * 2 + a.4;
    let b4 = b3 * 2 + b.4;
    if a.0 != b.0 || a.1 != b.1 {
        lemma_digits(a.0, a.1, b.0, b.1, pairs + 1);
    }
    if a1 != b1 || a.2 != b.2 {
        lemma_digits(a1, a.2, b1, b.2, members + 1);
    }
    lemma_digits(a4, a.5, b4, b.5, pairs + 2);
}

proof fn lemma_left_over(run: Run, n: int)
    requires
        run.valid(),
        run.unfinished(),
        0 <= n <= run.replies.len(),
    ensures
        ({
            let source = run.sources[0];
            let pairs = source.total as int;
            let members = source.rows@.len() as int;
            &&& run.sources[n].same_index(source)
            &&& work_fits(run.cursors[n].work(run.sources[n]), pairs, members)
            &&& work_number(run.cursors[n].work(run.sources[n]), pairs, members) + n
                <= work_number(run.cursors[0].work(source), pairs, members)
        }),
    decreases n,
{
    let source = run.sources[0];
    if n > 0 {
        lemma_left_over(run, n - 1);
        let reply = run.replies[n - 1];
    }
    assert(run.cursors[n].wf(run.sources[n]));
    lemma_lists(run.sources[n], run.cursors[n].short, run.cursors[n].text);
    if n > 0 {
        lemma_less_work(
            run.cursors[n].work(run.sources[n]),
            run.cursors[n - 1].work(run.sources[n - 1]),
            source.total as int,
            source.rows@.len() as int,
        );
    }
}

proof fn lemma_lists(source: PagedPostings, short: bool, text: bool)
    requires
        source.wf(),
    ensures
        source.table(Seq::empty()).fallback(short, text).len() <= source.rows@.len(),
{
    let rows = views(source.rows@);
    lemma_kept_few(rows, Keep::Captured, 0);
    lemma_kept_few(rows, Keep::RawFallback, 0);
    lemma_kept_few(rows, Keep::TextFallback, 0);
}

proof fn lemma_kept_few(rows: Seq<RowModel>, keep: Keep, k: int)
    requires
        0 <= k <= rows.len(),
    ensures
        kept_from(rows, keep, k).len() <= rows.len() - k,
    decreases rows.len() - k,
{
    if k < rows.len() {
        lemma_kept_few(rows, keep, k + 1);
    }
}

/// Steps that go on without a failure come to an end: their number is bounded by
/// what is left to do at first.
pub proof fn steps_come_to_an_end(run: Run)
    requires
        run.valid(),
        run.unfinished(),
    ensures
        run.replies.len() <= work_number(
            run.cursors[0].work(run.sources[0]),
            run.sources[0].total as int,
            run.sources[0].rows@.len() as int,
        ),
{
    let n = run.replies.len() as int;
    lemma_left_over(run, n);
    let source = run.sources[0];
    let work = run.cursors[n].work(run.sources[n]);
    assert(work_number(work, source.total as int, source.rows@.len() as int) >= 0)
        by (nonlinear_arith)
        requires
            work_fits(work, source.total as int, source.rows@.len() as int),
            source.total >= 0,
    ;
}

} // verus!
