//! Intersection of three lists over verified pages.
//!
//! A step loads at most one page. Searches keep their bounds across steps, so
//! that the steps together do what the resident intersection does.
use vstd::prelude::*;

use crate::envelope::Sha256Digest;
use crate::model::{group_views, views};
use crate::search::snapshot_index::postings::paged::encoding::page_pairs;
use crate::search::snapshot_index::postings::paged::{
    is_bracket, lemma_page_of, lemma_pages, page_failure, page_fits, page_size, pages_counted,
    valid_pair_spec, PagedPostingError, PagedPostings, ReadReply, POSTING_PAGE_PAIRS,
};
use crate::search::snapshot_index::postings::traversal::{lemma_gram_stretch, lemma_kept_list};
use crate::search::snapshot_index::postings::{
    ascending, bound_from, gram_of, kept_from, lemma_bound_range, lemma_pack, ordinal, ordinal_of, pack,
    packed, pair_ok, posted, rarest, stretch_of, CandidateCursor, Keep, PostingProbeStats, PostingStep,
    PostingsModel, SnapshotPostings, Stretch, SPAN,
};
use crate::search::snapshot_index::{
    gram_at, Coverage, IndexDecision, RowModel, SnapshotIndexError, MAX_GRAM, MAX_INDEX_GRAMS,
    MAX_INDEX_MEMBERS,
};

verus! {

broadcast use group_views;

impl PagedPostings {
    /// The postings that these would be with a table of pairs.
    pub open spec fn table(self, pairs: Seq<u64>) -> PostingsModel {
        SnapshotPostings {
            owner: self.owner,
            archive: self.archive.data(),
            rows: views(self.rows@),
            pairs,
            captured: self.captured@,
            raw_fallback: self.raw_fallback@,
            text_fallback: self.text_fallback@,
            stats: self.stats,
        }
    }

    /// Whether a table of pairs is what the manifest says and what the pages in
    /// memory hold.
    pub open spec fn agrees(self, pairs: Seq<u64>) -> bool {
        &&& self.table(pairs).wf()
        &&& pairs.len() == self.total
        &&& forall|p: int|
            0 <= p < self.pages@.len() ==> (#[trigger] self.pages@[p]).first == pairs[p
                * POSTING_PAGE_PAIRS] && self.pages@[p].last == pairs[p * POSTING_PAGE_PAIRS
                + page_size(self.total as int, p) - 1]
        &&& forall|s: int|
            0 <= s < self.slots@.len() ==> ((#[trigger] self.slots@[s]) matches Some(page) ==> page
                < self.pages@.len() && self.cache@[s]@ == page_pairs(pairs, page as int))
    }

    /// The same pages are in memory.
    pub open spec fn same_pages(self, other: PagedPostings) -> bool {
        self.same_index(other) && self.slots@ == other.slots@ && self.cache@ == other.cache@
    }

    fn fallback(&self, short: bool, text: bool) -> (r: &Vec<u32>)
        ensures
            r@ == self.table(Seq::empty()).fallback(short, text),
            forall|pairs: Seq<u64>| r@ == (#[trigger] self.table(pairs)).fallback(short, text),
    {
        if short {
            &self.captured
        } else if text {
            &self.text_fallback
        } else {
            &self.raw_fallback
        }
    }
}

/// The same pages agree with the same tables.
proof fn lemma_same_pages(a: PagedPostings, b: PagedPostings, pairs: Seq<u64>)
    requires
        a.same_pages(b),
    ensures
        a.agrees(pairs) == b.agrees(pairs),
        a.table(pairs) == b.table(pairs),
{
    assert(a.cache@ == b.cache@);
    assert(a.table(pairs) == b.table(pairs));
    if a.agrees(pairs) {
        assert(b.agrees(pairs));
    }
    if b.agrees(pairs) {
        assert(a.agrees(pairs));
    }
}

/// A pair in memory is the pair of every table that agrees.
proof fn lemma_in_memory(source: PagedPostings, pairs: Seq<u64>, index: int, s: int)
    requires
        source.wf(),
        source.agrees(pairs),
        0 <= index < source.total,
        0 <= s < source.slots@.len(),
        source.slots@[s] == Some((index / (POSTING_PAGE_PAIRS as int)) as usize),
    ensures
        source.cache@[s]@[index % (POSTING_PAGE_PAIRS as int)] == pairs[index],
{
    lemma_page_of(source.total as int, index);
    let page = index / (POSTING_PAGE_PAIRS as int);
    lemma_pages(source.total as int, page);
    assert(source.slots@[s] matches Some(found) && found == page);
    assert(page_pairs(pairs, page)[index % (POSTING_PAGE_PAIRS as int)] == pairs[index]);
}

/// A search for the place of a value among the pairs.
#[derive(Clone, Copy, Debug)]
pub struct LowerBound {
    pub low: usize,
    pub high: usize,
    pub value: u64,
}

impl LowerBound {
    /// The place lies between the bounds.
    pub open spec fn holds(self, pairs: Seq<u64>) -> bool {
        &&& self.low <= self.high <= pairs.len()
        &&& forall|i: int| 0 <= i < self.low ==> #[trigger] pairs[i] < self.value
        &&& forall|i: int| self.high <= i < pairs.len() ==> #[trigger] pairs[i] >= self.value
    }
}

/// Bounds that met are the place.
proof fn lemma_met(bound: LowerBound, pairs: Seq<u64>)
    requires
        bound.holds(pairs),
        bound.low == bound.high,
    ensures
        bound_from(pairs, bound.value as int, 0) == bound.low,
{
    lemma_bound_range(pairs, bound.value as int, 0);
    let r = bound_from(pairs, bound.value as int, 0);
    if r < bound.low {
        assert(pairs[r] < bound.value);
    }
    if r > bound.low {
        assert(pairs[bound.low as int] < bound.value);
        assert(pairs[bound.low as int] >= bound.value);
    }
}

/// The stretch that the page entries give holds the place.
proof fn lemma_bracket(source: PagedPostings, pairs: Seq<u64>, bound: LowerBound)
    requires
        source.wf(),
        source.agrees(pairs),
        bound.low <= bound.high <= source.total,
        is_bracket(source.manifest(), bound.value, bound.low as int, bound.high as int),
    ensures
        bound.holds(pairs),
{
    let m = source.manifest();
    let total = source.total as int;
    let value = bound.value;
    let page = choose|page: int|
        {
            &&& 0 <= page <= m.pages.len()
            &&& forall|p: int| 0 <= p < page ==> (#[trigger] m.pages[p]).last < value
            &&& if page == m.pages.len() {
                bound.low == m.total && bound.high == m.total
            } else {
                &&& (#[trigger] m.pages[page]).last >= value
                &&& bound.low == page * POSTING_PAGE_PAIRS
                &&& bound.high == if value <= m.pages[page].first {
                    bound.low as int
                } else {
                    bound.low + m.pages[page].count
                }
            }
        };
    assert forall|i: int| 0 <= i < bound.low implies #[trigger] pairs[i] < value by {
        lemma_page_of(total, i);
        let p = i / (POSTING_PAGE_PAIRS as int);
        lemma_pages(total, p);
        let end = p * POSTING_PAGE_PAIRS + page_size(total, p) - 1;
        assert(p < page);
        assert(m.pages[p] == source.pages@[p]@);
        assert(m.pages[p].last < value);
        assert(pairs[end] == source.pages@[p].last);
        if i < end {
            assert(pairs[i] < pairs[end]);
        }
    }
    assert forall|i: int| bound.high <= i < pairs.len() implies #[trigger] pairs[i] >= value by {
        lemma_pages(total, page);
        let start = page * POSTING_PAGE_PAIRS;
        assert(m.pages[page] == source.pages@[page]@);
        assert(pairs[start] == source.pages@[page].first);
        let end = start + page_size(total, page) - 1;
        assert(pairs[end] == source.pages@[page].last);
        if value <= m.pages[page].first {
            if i > start {
                assert(pairs[start] < pairs[i]);
            }
        } else {
            assert(i > end);
            assert(pairs[end] < pairs[i]);
        }
    }
}

/// What work on a source does to it: pages in memory stay unless one was loaded,
/// and each that was is counted.
pub open spec fn moved(
    before: PagedPostings,
    loads: usize,
    end: PagedPostings,
    left: usize,
) -> bool {
    &&& end.same_index(before)
    &&& left <= loads
    &&& left == loads ==> end.same_pages(before)
    &&& end.failed == before.failed
    &&& end.io.page_loads == if left < loads {
        before.io.page_loads.wrapping_add(1)
    } else {
        before.io.page_loads
    }
}

/// Whether a page was loaded, as the counts tell.
pub open spec fn loaded_one(before: PagedPostings, end: PagedPostings) -> bool {
    end.io.page_loads == before.io.page_loads.wrapping_add(1)
}

/// Whether less is left to do: the first numbers that differ tell.
pub open spec fn less_work(
    a: (int, int, int, int, int, int),
    b: (int, int, int, int, int, int),
) -> bool {
    ||| a.0 < b.0
    ||| a.0 == b.0 && a.1 < b.1
    ||| a.0 == b.0 && a.1 == b.1 && a.2 < b.2
    ||| a.0 == b.0 && a.1 == b.1 && a.2 == b.2 && a.3 < b.3
    ||| a.0 == b.0 && a.1 == b.1 && a.2 == b.2 && a.3 == b.3 && a.4 < b.4
    ||| a.0 == b.0 && a.1 == b.1 && a.2 == b.2 && a.3 == b.3 && a.4 == b.4 && a.5 < b.5
}

/// Whether tables that agree with both ends agree in between too.
proof fn lemma_between(
    start: PagedPostings,
    loads: usize,
    middle: PagedPostings,
    left: usize,
    end: PagedPostings,
    rest: usize,
    pairs: Seq<u64>,
)
    requires
        loads <= 1,
        moved(start, loads, middle, left),
        moved(middle, left, end, rest),
        start.agrees(pairs),
        end.agrees(pairs),
    ensures
        middle.agrees(pairs),
{
    if left == loads {
        lemma_same_pages(middle, start, pairs);
    } else {
        lemma_same_pages(end, middle, pairs);
    }
}

impl LowerBound {
    /// Narrows the bounds until they meet, or until a page is missing.
    fn poll<
        R: FnMut(u64, usize) -> ReadReply,
        H: Fn(&Vec<u8>, usize) -> Sha256Digest,
        C: FnMut() -> bool,
    >(
        &mut self,
        source: &mut PagedPostings,
        loads: &mut usize,
        read: &mut R,
        hash: &H,
        canceled: &mut C,
    ) -> (r: Result<Option<usize>, PagedPostingError>)
        requires
            old(source).wf(),
            *old(loads) <= 1,
            old(self).low <= old(self).high <= old(source).total,
            forall|at: u64, n: usize| call_requires(*old(read), (at, n)),
            forall|bytes: &Vec<u8>, n: usize|
                n <= bytes@.len() ==> call_requires(*hash, (bytes, n)),
            call_requires(*old(canceled), ()),
        ensures
            *final(read) == *old(read),
            *final(canceled) == *old(canceled),
            page_failure(
                r,
                *old(source),
                *old(read),
                *hash,
                *final(source),
                *old(canceled),
            ),
            final(source).wf(),
            final(source).same_index(*old(source)),
            final(self).value == old(self).value,
            final(self).low <= final(self).high <= old(source).total,
            r is Ok ==> moved(*old(source), *old(loads), *final(source), *final(loads)),
            pages_counted(*old(source), *old(loads), *final(source), *final(loads)),
            r is Ok ==> final(self).high - final(self).low <= old(self).high - old(self).low,
            r is Ok && *final(loads) < *old(loads) ==> final(self).high - final(self).low < old(
                self,
            ).high - old(self).low,
            r matches Ok(None) ==> *final(loads) == 0,
            r matches Ok(Some(at)) ==> at == final(self).low && at == final(self).high,
            r matches Ok(None) ==> final(self).low < final(self).high,
            r is Ok ==> forall|pairs: Seq<u64>|
                old(source).agrees(pairs) && (#[trigger] final(source).agrees(pairs))
                    && old(self).holds(pairs) ==> final(self).holds(pairs),
    {
        let ghost start = *source;
        let ghost allowed = *loads;
        let ghost first = *self;
        while self.low < self.high
            invariant
                source.wf(),
                source.same_index(start),
                start == *old(source),
                allowed == *old(loads),
                first == *old(self),
                allowed <= 1,
                moved(start, allowed, *source, *loads),
                self.value == first.value,
                self.low <= self.high <= source.total,
                self.high - self.low <= first.high - first.low,
                *loads < allowed ==> self.high - self.low < first.high - first.low,
                *read == *old(read),
                *canceled == *old(canceled),
                forall|at: u64, n: usize| call_requires(*read, (at, n)),
                forall|bytes: &Vec<u8>, n: usize|
                    n <= bytes@.len() ==> call_requires(*hash, (bytes, n)),
                call_requires(*canceled, ()),
                forall|pairs: Seq<u64>|
                    start.agrees(pairs) && (#[trigger] source.agrees(pairs)) && first.holds(pairs)
                        ==> self.holds(pairs),
            decreases self.high - self.low,
        {
            if canceled() {
                return Err(PagedPostingError::Index(SnapshotIndexError::Canceled));
            }
            let middle: usize = self.low + (self.high - self.low) / 2;
            let ghost here = *source;
            let ghost left = *loads;
            let ghost before = *self;
            match source.pair(middle, loads, read, hash, canceled) {
                Err(e) => {
                    return Err(e);
                },
                Ok(None) => {
                    return Ok(None);
                },
                Ok(Some(pair)) => {
                    if pair < self.value {
                        self.low = middle + 1;
                    } else {
                        self.high = middle;
                    }
                    proof {
                        assert(moved(here, left, *source, *loads));
                        let s = choose|s: int|
                            0 <= s < source.slots@.len() && #[trigger] source.slots@[s] == Some(
                                (middle / POSTING_PAGE_PAIRS) as usize,
                            ) && source.cache@[s]@[(middle % POSTING_PAGE_PAIRS) as int] == pair;
                        assert forall|pairs: Seq<u64>|
                            start.agrees(pairs) && (#[trigger] source.agrees(pairs))
                                && first.holds(pairs) implies self.holds(pairs) by {
                            lemma_between(start, allowed, here, left, *source, *loads, pairs);
                            assert(before.holds(pairs));
                            lemma_in_memory(*source, pairs, middle as int, s);
                            assert(pairs[middle as int] == pair);
                            assert forall|i: int| 0 <= i < self.low implies #[trigger] pairs[i]
                                < self.value by {
                                if i < middle {
                                    assert(pairs[i] < pairs[middle as int]);
                                }
                            }
                            assert forall|i: int| self.high <= i < pairs.len() implies
                                #[trigger] pairs[i] >= self.value by {
                                if i > middle && i < before.high {
                                    assert(pairs[middle as int] < pairs[i]);
                                }
                            }
                        }
                    }
                },
            }
        }
        Ok(Some(self.low))
    }
}

/// How many of the first members were captured.
pub open spec fn captured_below(rows: Seq<RowModel>, n: int) -> int
    decreases n,
{
    if n <= 0 {
        0
    } else {
        captured_below(rows, n - 1) + (if Keep::Captured.keeps(rows[n - 1].coverage) {
            1int
        } else {
            0int
        })
    }
}

proof fn lemma_captured_grows(rows: Seq<RowModel>, m: int, n: int)
    requires
        m <= n,
    ensures
        0 <= captured_below(rows, m) <= captured_below(rows, n),
    decreases n - m, n,
{
    if m < n && n > 0 {
        lemma_captured_grows(rows, m, n - 1);
    } else if n > 0 {
        lemma_captured_grows(rows, m - 1, n - 1);
    }
}

proof fn lemma_captured_count(rows: Seq<RowModel>, k: int)
    requires
        0 <= k <= rows.len(),
    ensures
        captured_below(rows, k) + kept_from(rows, Keep::Captured, k).len() == captured_below(
            rows,
            rows.len() as int,
        ),
    decreases rows.len() - k,
{
    if k < rows.len() {
        lemma_captured_count(rows, k + 1);
    }
}

/// One of three.
pub open spec fn third<T>(three: (T, T, T), i: int) -> T {
    if i == 0 {
        three.0
    } else if i == 1 {
        three.1
    } else {
        three.2
    }
}

/// The intersection of three lists over verified pages.
#[derive(Clone, Copy, Debug)]
pub struct PagedPostingCandidates {
    pub keys: (u32, u32, u32),
    pub lists: (Stretch, Stretch, Stretch),
    pub driver: Stretch,
    /// How many of the six ends of the lists are known.
    pub prepared: usize,
    pub fallback_next: usize,
    /// The smallest member that the lists may still name.
    pub floor: usize,
    pub text: bool,
    pub short: bool,
    pub bound: Option<LowerBound>,
    /// The member that is looked for in the lists.
    pub checking: Option<usize>,
    pub check_list: usize,
    pub check_position: Option<usize>,
    pub stats: PostingProbeStats,
    pub failure: Option<PagedPostingError>,
}

impl PagedPostingCandidates {
    /// The smallest pair at or behind which an end of a list lies.
    pub open spec fn end_target(self, i: int) -> int {
        packed(third(self.keys, i / 2) + i % 2, 0)
    }

    /// An end of a list.
    pub open spec fn end_of(self, i: int) -> int {
        if i % 2 == 0 {
            third(self.lists, i / 2).start as int
        } else {
            third(self.lists, i / 2).end as int
        }
    }

    /// The pair that is looked for in a list.
    pub open spec fn check_target(self) -> int {
        packed(third(self.keys, self.check_list as int) as int, self.checking->0 as int)
    }

    /// What holds whatever the pages turn out to be.
    pub open spec fn wf(self, source: PagedPostings) -> bool {
        &&& source.wf()
        &&& self.keys.0 <= MAX_GRAM && self.keys.1 <= MAX_GRAM && self.keys.2 <= MAX_GRAM
        &&& self.prepared <= 6
        &&& self.lists.0.start <= source.total && self.lists.0.end <= source.total
        &&& self.lists.1.start <= source.total && self.lists.1.end <= source.total
        &&& self.lists.2.start <= source.total && self.lists.2.end <= source.total
        &&& self.driver.start <= source.total && self.driver.end <= source.total
        &&& self.fallback_next <= source.table(Seq::empty()).fallback(self.short, self.text).len()
        &&& self.short ==> self.prepared == 6 && self.driver.start >= self.driver.end
            && self.checking is None
        &&& self.bound matches Some(bound) ==> bound.low <= bound.high <= source.total
        &&& self.check_list <= 3
        &&& self.checking matches Some(file) ==> file < source.rows@.len() && self.prepared == 6
            && self.check_list < 3 && 0 < self.driver.start
        &&& self.check_position matches Some(at) ==> at <= source.total
        &&& self.prepared < 6 ==> self.checking is None && self.check_position is None
            && self.fallback_next == 0 && self.stats.posting_entries_visited == 0
        &&& self.checking is None && self.prepared == 6 ==> self.bound is None
            && self.check_position is None
        &&& self.check_position is Some ==> self.bound is None
        &&& self.stats.fallback_emitted == self.fallback_next
        &&& self.stats.posting_entries_visited <= self.driver.start
        &&& self.stats.candidates_emitted <= self.stats.posting_entries_visited
        &&& self.checking is None ==> self.stats.membership_lookups <= 3
            * self.stats.posting_entries_visited
        &&& self.checking is Some ==> self.stats.posting_entries_visited > 0
            && self.stats.candidates_emitted < self.stats.posting_entries_visited
            && self.looked_so_far() <= self.stats.membership_lookups <= 3 * (
        self.stats.posting_entries_visited - 1) + self.looked_so_far()
        &&& self.in_order(source)
    }

    /// What was named lies below what is still to be named, and is no more than
    /// was captured there.
    pub open spec fn in_order(self, source: PagedPostings) -> bool {
        let list = source.table(Seq::empty()).fallback(self.short, self.text);
        &&& self.floor <= source.rows@.len()
        &&& self.prepared < 6 ==> self.floor == 0
        &&& self.fallback_next < list.len() ==> self.floor <= list[self.fallback_next as int]
        &&& self.checking matches Some(file) ==> self.floor == file + 1
        &&& self.stats.candidates_emitted + self.stats.fallback_emitted + (
        if self.checking is Some {
            1int
        } else {
            0int
        }) <= captured_below(views(source.rows@), self.floor as int)
    }

    /// The smallest member that may still be named.
    pub open spec fn least(self) -> int {
        match self.checking {
            Some(file) => file as int,
            None => self.floor as int,
        }
    }

    /// Whether all members have been named, failed or not.
    pub open spec fn ended(self, source: PagedPostings) -> bool {
        self.prepared == 6 && self.checking is None && self.driver.start >= self.driver.end
            && self.fallback_next == source.table(Seq::empty()).fallback(
            self.short,
            self.text,
        ).len()
    }

    /// What an answer of a step tells of the steps before and behind it: members
    /// come in order, less is left to do each time, an end is an end, and a failure
    /// stays.
    pub open spec fn answers(
        self,
        source: PagedPostings,
        r: Result<PostingStep, PagedPostingError>,
        end: PagedPostingCandidates,
        after: PagedPostings,
    ) -> bool {
        &&& after.same_index(source)
        &&& match r {
            Err(e) => end.failure == Some(e) && (self.failure matches Some(f) ==> f == e && end
                == self),
            Ok(step) => {
                &&& self.failure is None
                &&& end.failure is None
                &&& self.least() <= end.least()
                &&& step is Finished ==> end.finished(after)
                &&& !(step is Finished) ==> less_work(end.work(after), self.work(source))
                &&& self.finished(source) ==> step is Finished && end == self
                &&& step matches PostingStep::Candidate { ordinal, .. } ==> self.least() <= ordinal
                    < end.least()
            },
        }
    }

    /// What is left to do: ends of lists to find, entries of the driver and of the
    /// fallback list to take, lists to look into for the member at hand, its place
    /// in the list, and the stretch in which the place lies.
    pub open spec fn work(self, source: PagedPostings) -> (int, int, int, int, int, int) {
        (
            6 - self.prepared,
            source.total - self.driver.start,
            source.table(Seq::empty()).fallback(self.short, self.text).len() - self.fallback_next,
            if self.checking is Some {
                4 - self.check_list
            } else {
                0
            },
            if self.check_position is None {
                1
            } else {
                0
            },
            match self.bound {
                Some(bound) => bound.high - bound.low,
                None => source.total + 1,
            },
        )
    }

    /// How many lists have been looked at for the member.
    pub open spec fn looked_so_far(self) -> int {
        self.check_list + if self.bound is Some || self.check_position is Some {
            1int
        } else {
            0int
        }
    }

    /// The intersection over a table that these steps have got to.
    pub open spec fn reached(self, pairs: Seq<u64>) -> CandidateCursor {
        if self.prepared < 6 {
            let lists = (
                stretch_of(pairs, self.keys.0),
                stretch_of(pairs, self.keys.1),
                stretch_of(pairs, self.keys.2),
            );
            CandidateCursor {
                keys: self.keys,
                lists,
                driver: rarest(lists.0, lists.1, lists.2),
                fallback_next: self.fallback_next,
                text: self.text,
                short: self.short,
                stats: self.stats,
            }
        } else if self.checking is Some {
            CandidateCursor {
                keys: self.keys,
                lists: self.lists,
                driver: Stretch { start: (self.driver.start - 1) as usize, ..self.driver },
                fallback_next: self.fallback_next,
                text: self.text,
                short: self.short,
                stats: PostingProbeStats {
                    posting_entries_visited: (self.stats.posting_entries_visited - 1) as usize,
                    membership_lookups: (self.stats.membership_lookups - self.looked_so_far()) as
                        usize,
                    ..self.stats
                },
            }
        } else {
            CandidateCursor {
                keys: self.keys,
                lists: self.lists,
                driver: self.driver,
                fallback_next: self.fallback_next,
                text: self.text,
                short: self.short,
                stats: self.stats,
            }
        }
    }

    /// Whether the rest of the driver names members in order, and none again.
    pub open spec fn paced(self, pairs: Seq<u64>) -> bool {
        &&& forall|i: int|
            self.driver.start <= i < self.driver.end ==> self.floor <= ordinal_of(
                #[trigger] pairs[i],
            )
        &&& forall|i: int, j: int|
            self.driver.start <= i < j < self.driver.end ==> ordinal_of(#[trigger] pairs[i])
                < ordinal_of(#[trigger] pairs[j])
    }

    /// Whether no table explains the pages seen.
    pub open spec fn unexplained(self, source: PagedPostings, after: PagedPostings) -> bool {
        forall|pairs: Seq<u64>|
            source.agrees(pairs) && (#[trigger] after.agrees(pairs)) ==> !self.consistent(
                source,
                pairs,
            )
    }

    /// Why a step may fail: it was told to stop, a page failed, or the pages do
    /// not add up to a table.
    pub open spec fn step_failure<
        T,
        R: FnMut(u64, usize) -> ReadReply,
        H: Fn(&Vec<u8>, usize) -> Sha256Digest,
        C: FnMut() -> bool,
    >(
        self,
        source: PagedPostings,
        r: Result<T, PagedPostingError>,
        read: R,
        hash: H,
        after: PagedPostings,
        canceled: C,
    ) -> bool {
        page_failure(r, source, read, hash, after, canceled) || r == Err::<T, PagedPostingError>(
            PagedPostingError::Index(SnapshotIndexError::Format),
        ) && self.unexplained(source, after) && after.failed == source.failed
    }

    /// Whether what is known so far is true of a table.
    pub open spec fn consistent(self, source: PagedPostings, pairs: Seq<u64>) -> bool {
        &&& self.prepared < 6 ==> forall|i: int|
            0 <= i < self.prepared ==> #[trigger] self.end_of(i) == bound_from(
                pairs,
                self.end_target(i),
                0,
            )
        &&& self.prepared < 6 ==> (self.bound matches Some(bound) ==> bound.value
            == self.end_target(self.prepared as int) && bound.holds(pairs))
        &&& self.prepared == 6 && !self.short ==> self.lists == (
            stretch_of(pairs, self.keys.0),
            stretch_of(pairs, self.keys.1),
            stretch_of(pairs, self.keys.2),
        ) && self.driver.start <= self.driver.end
        &&& self.prepared == 6 ==> self.paced(pairs)
        &&& self.checking matches Some(file) ==> self.checks(source, pairs, file as int)
    }

    /// Whether the member at hand is the one that the table has there, and what
    /// is known of it is true.
    pub open spec fn checks(self, source: PagedPostings, pairs: Seq<u64>, file: int) -> bool {
        let list = source.table(pairs).fallback(self.short, self.text);
        &&& ordinal_of(pairs[self.driver.start - 1]) == file
        &&& self.driver.start <= self.driver.end
        &&& self.fallback_next < list.len() ==> list[self.fallback_next as int] > file
        &&& self.text ==> source.rows@[file].coverage is Utf8
        &&& forall|j: int|
            0 <= j < self.check_list ==> posted(pairs, #[trigger] third(self.keys, j), file)
        &&& self.bound matches Some(bound) ==> bound.value == self.check_target() && bound.holds(
            pairs,
        )
        &&& self.check_position matches Some(at) ==> at == bound_from(
            pairs,
            self.check_target(),
            0,
        )
    }

    /// Whether steps keep faith with every table that agrees with the pages that
    /// they saw: what they did is nothing yet, or one step of the intersection.
    /// Nothing is said to be done yet only where a page was loaded.
    pub open spec fn follows(
        self,
        source: PagedPostings,
        end: PagedPostingCandidates,
        after: PagedPostings,
        step: Option<PostingStep>,
        loaded: bool,
    ) -> bool {
        forall|pairs: Seq<u64>|
            source.agrees(pairs) && (#[trigger] after.agrees(pairs)) && self.consistent(
                source,
                pairs,
            ) ==> end.consistent(after, pairs) && {
                let now = self.reached(pairs);
                let done = end.reached(pairs);
                ||| done == now && (step is None || step == Some(PostingStep::Pending) && loaded)
                ||| step matches Some(said) && (done, said) == now.stepped(source.table(pairs))
            }
    }
}

/// A fresh search is consistent with whatever the pages turn out to be.
proof fn lemma_prepared(
    before: PagedPostingCandidates,
    end: PagedPostingCandidates,
    source: PagedPostings,
    pairs: Seq<u64>,
)
    requires
        source.wf(),
        source.agrees(pairs),
        before.wf(source),
        before.prepared < 6,
        before.consistent(source, pairs),
        end.keys == before.keys,
        end.text == before.text,
        end.short == before.short,
        end.prepared == before.prepared + 1,
        end.stats == before.stats,
        end.fallback_next == before.fallback_next,
        end.floor == before.floor,
        end.checking is None,
        end.bound is None,
        end.check_position is None,
        forall|i: int| 0 <= i < before.prepared ==> #[trigger] end.end_of(i) == before.end_of(i),
        end.end_of(before.prepared as int) == bound_from(
            pairs,
            before.end_target(before.prepared as int),
            0,
        ),
        end.prepared == 6 ==> end.driver == rarest(end.lists.0, end.lists.1, end.lists.2),
    ensures
        end.consistent(source, pairs),
        end.reached(pairs) == before.reached(pairs),
{
    assert forall|i: int| 0 <= i < end.prepared implies #[trigger] end.end_of(i) == bound_from(
        pairs,
        end.end_target(i),
        0,
    ) by {
        assert(end.end_target(i) == before.end_target(i));
        if i < before.prepared {
            assert(end.end_of(i) == before.end_of(i));
        }
    }
    if end.prepared == 6 {
        assert(end.end_of(0) == bound_from(pairs, end.end_target(0), 0));
        assert(end.end_of(1) == bound_from(pairs, end.end_target(1), 0));
        assert(end.end_of(2) == bound_from(pairs, end.end_target(2), 0));
        assert(end.end_of(3) == bound_from(pairs, end.end_target(3), 0));
        assert(end.end_of(4) == bound_from(pairs, end.end_target(4), 0));
        assert(end.end_of(5) == bound_from(pairs, end.end_target(5), 0));
        lemma_stretch(pairs, end.keys.0);
        lemma_stretch(pairs, end.keys.1);
        lemma_stretch(pairs, end.keys.2);
        assert(end.lists.0 == stretch_of(pairs, end.keys.0));
        assert(end.lists.1 == stretch_of(pairs, end.keys.1));
        assert(end.lists.2 == stretch_of(pairs, end.keys.2));
        lemma_stretch_in_order(source.table(pairs), end.keys.0);
        lemma_stretch_in_order(source.table(pairs), end.keys.1);
        lemma_stretch_in_order(source.table(pairs), end.keys.2);
    }
}

/// The members of a trigram's list are in order.
proof fn lemma_stretch_in_order(postings: PostingsModel, gram: u32)
    requires
        postings.wf(),
        gram <= MAX_GRAM,
    ensures
        forall|i: int, j: int|
            stretch_of(postings.pairs, gram).start <= i < j < stretch_of(postings.pairs, gram).end
                ==> ordinal_of(#[trigger] postings.pairs[i]) < ordinal_of(
                #[trigger] postings.pairs[j],
            ),
{
    let pairs = postings.pairs;
    lemma_gram_stretch(postings, gram);
    assert forall|i: int, j: int|
        stretch_of(pairs, gram).start <= i < j < stretch_of(pairs, gram).end implies ordinal_of(
        #[trigger] pairs[i],
    ) < ordinal_of(#[trigger] pairs[j]) by {
        assert(pairs[i] < pairs[j]);
        assert(gram_of(pairs[i]) == gram && gram_of(pairs[j]) == gram);
    }
}

/// The ends of a list are in order.
proof fn lemma_stretch(pairs: Seq<u64>, gram: u32)
    requires
        pairs.len() <= MAX_INDEX_GRAMS,
    ensures
        stretch_of(pairs, gram).start == bound_from(pairs, packed(gram as int, 0), 0),
        stretch_of(pairs, gram).end == bound_from(pairs, packed(gram + 1, 0), 0),
        stretch_of(pairs, gram).start <= stretch_of(pairs, gram).end <= pairs.len(),
{
    lemma_bound_range(pairs, packed(gram as int, 0), 0);
    lemma_bound_range(pairs, packed(gram + 1, 0), 0);
    let start = bound_from(pairs, packed(gram as int, 0), 0);
    let end = bound_from(pairs, packed(gram + 1, 0), 0);
    if end < start {
        assert(pairs[end] < packed(gram as int, 0));
    }
}

impl PagedPostingCandidates {
    fn key(&self, i: usize) -> (r: u32)
        ensures
            r == third(self.keys, i as int),
    {
        if i == 0 {
            self.keys.0
        } else if i == 1 {
            self.keys.1
        } else {
            self.keys.2
        }
    }

    fn list(&self, i: usize) -> (r: Stretch)
        ensures
            r == third(self.lists, i as int),
    {
        if i == 0 {
            self.lists.0
        } else if i == 1 {
            self.lists.1
        } else {
            self.lists.2
        }
    }

    /// Sets the next end of a list.
    fn set_end(&mut self, at: usize)
        requires
            old(self).prepared < 6,
        ensures
            *final(self) == (PagedPostingCandidates { lists: final(self).lists, ..*old(self) }),
            final(self).end_of(old(self).prepared as int) == at,
            forall|i: int|
                0 <= i < 6 && i != old(self).prepared ==> #[trigger] final(self).end_of(i)
                    == old(self).end_of(i),
    {
        if self.prepared == 0 {
            self.lists.0.start = at;
        } else if self.prepared == 1 {
            self.lists.0.end = at;
        } else if self.prepared == 2 {
            self.lists.1.start = at;
        } else if self.prepared == 3 {
            self.lists.1.end = at;
        } else if self.prepared == 4 {
            self.lists.2.start = at;
        } else {
            self.lists.2.end = at;
        }
    }

    /// Finds the six ends of the lists, as far as one page allows. Tells whether
    /// all are known.
    #[verifier::rlimit(60)]
    fn prepare<
        R: FnMut(u64, usize) -> ReadReply,
        H: Fn(&Vec<u8>, usize) -> Sha256Digest,
        C: FnMut() -> bool,
    >(
        &mut self,
        source: &mut PagedPostings,
        loads: &mut usize,
        read: &mut R,
        hash: &H,
        canceled: &mut C,
    ) -> (r: Result<bool, PagedPostingError>)
        requires
            old(self).wf(*old(source)),
            *old(loads) <= 1,
            forall|at: u64, n: usize| call_requires(*old(read), (at, n)),
            forall|bytes: &Vec<u8>, n: usize|
                n <= bytes@.len() ==> call_requires(*hash, (bytes, n)),
            call_requires(*old(canceled), ()),
        ensures
            *final(read) == *old(read),
            *final(canceled) == *old(canceled),
            page_failure(
                r,
                *old(source),
                *old(read),
                *hash,
                *final(source),
                *old(canceled),
            ),
            final(source).wf(),
            final(source).same_index(*old(source)),
            final(self).failure == old(self).failure,
            r is Ok ==> final(self).wf(*final(source)) && moved(
                *old(source),
                *old(loads),
                *final(source),
                *final(loads),
            ) && old(self).follows(
                *old(source),
                *final(self),
                *final(source),
                None,
                *final(loads) == 0,
            ),
            pages_counted(*old(source), *old(loads), *final(source), *final(loads)),
            r is Ok ==> less_work(final(self).work(*final(source)), old(self).work(*old(source)))
                || final(self).work(*final(source)) == old(self).work(*old(source)),
            r is Ok && *final(loads) < *old(loads) ==> less_work(
                final(self).work(*final(source)),
                old(self).work(*old(source)),
            ),
            r matches Ok(false) ==> *final(loads) == 0,
            r matches Ok(done) ==> done == (final(self).prepared == 6) && final(self).least()
                == old(self).least(),
            old(self).prepared == 6 ==> r == Ok::<bool, PagedPostingError>(true) && *final(self)
                == *old(self),
    {
        let ghost start = *source;
        let ghost allowed = *loads;
        let ghost first = *self;
        while self.prepared < 6
            invariant
                start == *old(source),
                allowed == *old(loads),
                first == *old(self),
                allowed <= 1,
                source.wf(),
                source.same_index(start),
                self.wf(*source),
                self.failure == first.failure,
                self.least() == first.least(),
                less_work(self.work(*source), first.work(start)) || *self == first && *loads
                    == allowed,
                first.prepared == 6 ==> *self == first && *source == start && *loads == allowed,
                moved(start, allowed, *source, *loads),
                first.follows(start, *self, *source, None, *loads == 0),
                *read == *old(read),
                *canceled == *old(canceled),
                forall|at: u64, n: usize| call_requires(*read, (at, n)),
                forall|bytes: &Vec<u8>, n: usize|
                    n <= bytes@.len() ==> call_requires(*hash, (bytes, n)),
                call_requires(*canceled, ()),
            decreases 6 - self.prepared,
        {
            let ghost here = *source;
            let ghost left = *loads;
            let ghost before = *self;
            let key: u32 = self.key(self.prepared / 2) + (self.prepared % 2) as u32;
            let target: u64 = pack(key, 0);
            let mut bound = match self.bound {
                Some(bound) => bound,
                None => {
                    let (low, high) = source.bracket(target);
                    LowerBound { low, high, value: target }
                },
            };
            let ghost opened = bound;
            assert forall|pairs: Seq<u64>|
                #[trigger] here.agrees(pairs) && before.consistent(here, pairs) implies opened.holds(
                pairs,
            ) && opened.value == before.end_target(before.prepared as int) by {
                if before.bound is None {
                    lemma_bracket(here, pairs, opened);
                }
            }
            match bound.poll(source, loads, read, hash, canceled) {
                Err(e) => {
                    return Err(e);
                },
                Ok(None) => {
                    self.bound = Some(bound);
                    proof {
                        assert forall|pairs: Seq<u64>|
                            start.agrees(pairs) && (#[trigger] source.agrees(pairs))
                                && first.consistent(start, pairs) implies self.consistent(
                            *source,
                            pairs,
                        ) && self.reached(pairs) == first.reached(pairs) by {
                            lemma_between(start, allowed, here, left, *source, *loads, pairs);
                            assert(before.consistent(here, pairs));
                            assert(bound.holds(pairs));
                            assert forall|i: int| 0 <= i < self.prepared implies
                                #[trigger] self.end_of(i) == bound_from(
                                pairs,
                                self.end_target(i),
                                0,
                            ) by {
                                assert(before.end_of(i) == bound_from(
                                    pairs,
                                    before.end_target(i),
                                    0,
                                ));
                            }
                        }
                    }
                    return Ok(false);
                },
                Ok(Some(at)) => {
                    self.bound = None;
                    self.set_end(at);
                    let ghost set = *self;
                    self.prepared = self.prepared + 1;
                    if self.prepared == 6 {
                        let x: usize = self.lists.0.len();
                        let y: usize = self.lists.1.len();
                        let z: usize = self.lists.2.len();
                        self.driver = if x <= y && x <= z {
                            self.lists.0
                        } else if y <= z {
                            self.lists.1
                        } else {
                            self.lists.2
                        };
                    }
                    proof {
                        assert(set.end_of(before.prepared as int) == at);
                        assert forall|i: int| 0 <= i < 6 && i != before.prepared implies
                            #[trigger] self.end_of(i) == before.end_of(i) by {
                            assert(set.end_of(i) == before.end_of(i));
                        }
                        assert(self.end_of(before.prepared as int) == at);
                        assert(self.end_of(0) <= source.total && self.end_of(1) <= source.total);
                        assert(self.end_of(2) <= source.total && self.end_of(3) <= source.total);
                        assert(self.end_of(4) <= source.total && self.end_of(5) <= source.total);
                        assert(self.wf(*source));
                        assert forall|pairs: Seq<u64>|
                            start.agrees(pairs) && (#[trigger] source.agrees(pairs))
                                && first.consistent(start, pairs) implies self.consistent(
                            *source,
                            pairs,
                        ) && self.reached(pairs) == first.reached(pairs) by {
                            lemma_between(start, allowed, here, left, *source, *loads, pairs);
                            assert(before.consistent(here, pairs));
                            assert(bound.holds(pairs));
                            lemma_met(bound, pairs);
                            assert(before.consistent(*source, pairs));
                            lemma_prepared(before, *self, *source, pairs);
                        }
                    }
                },
            }
        }
        Ok(true)
    }
}

/// A pair that a source gave is one of its pages in memory.
pub open spec fn shows(source: PagedPostings, index: int, pair: u64) -> bool {
    exists|s: int|
        0 <= s < source.slots@.len() && #[trigger] source.slots@[s] == Some(
            (index / (POSTING_PAGE_PAIRS as int)) as usize,
        ) && source.cache@[s]@[index % (POSTING_PAGE_PAIRS as int)] == pair
}

proof fn lemma_shows(source: PagedPostings, pairs: Seq<u64>, index: int, pair: u64)
    requires
        source.wf(),
        source.agrees(pairs),
        0 <= index < source.total,
        shows(source, index, pair),
    ensures
        pairs[index] == pair,
        pair_ok(pair, source.table(pairs).rows),
{
    let s = choose|s: int|
        0 <= s < source.slots@.len() && #[trigger] source.slots@[s] == Some(
            (index / (POSTING_PAGE_PAIRS as int)) as usize,
        ) && source.cache@[s]@[index % (POSTING_PAGE_PAIRS as int)] == pair;
    lemma_in_memory(source, pairs, index, s);
}

proof fn lemma_shown_valid(source: PagedPostings, index: int, pair: u64)
    requires
        source.wf(),
        0 <= index < source.total,
        shows(source, index, pair),
    ensures
        ordinal_of(pair) < source.rows@.len(),
        Keep::Captured.keeps(views(source.rows@)[ordinal_of(pair)].coverage),
{
    let s = choose|s: int|
        0 <= s < source.slots@.len() && #[trigger] source.slots@[s] == Some(
            (index / (POSTING_PAGE_PAIRS as int)) as usize,
        ) && source.cache@[s]@[index % (POSTING_PAGE_PAIRS as int)] == pair;
    lemma_page_of(source.total as int, index);
    let page = index / (POSTING_PAGE_PAIRS as int);
    lemma_pages(source.total as int, page);
    assert(source.slots@[s] matches Some(found) && found == page);
    assert(page_fits(source.cache@[s]@, views(source.pages@)[page], views(source.rows@)));
    assert(source.manifest().pages[page].count == page_size(source.total as int, page));
    assert(valid_pair_spec(
        source.cache@[s]@[index % (POSTING_PAGE_PAIRS as int)],
        views(source.rows@),
    ));
}

/// A list of members is in order, and all on it were captured.
proof fn lemma_fallback(source: PagedPostings, short: bool, text: bool)
    requires
        source.wf(),
    ensures
        ({
            let list = source.table(Seq::empty()).fallback(short, text);
            &&& list.len() <= MAX_INDEX_MEMBERS
            &&& forall|i: int|
                0 <= i < list.len() ==> (#[trigger] list[i]) < source.rows@.len()
                    && Keep::Captured.keeps(views(source.rows@)[list[i] as int].coverage)
            &&& forall|i: int, j: int|
                0 <= i < j < list.len() ==> #[trigger] list[i] < #[trigger] list[j]
        }),
{
    let rows = views(source.rows@);
    lemma_kept_list(rows, Keep::Captured, 0);
    lemma_kept_list(rows, Keep::RawFallback, 0);
    lemma_kept_list(rows, Keep::TextFallback, 0);
}

impl PagedPostingCandidates {
    /// Whether what a step says comes in order.
    pub open spec fn names(self, step: PostingStep, end: PagedPostingCandidates) -> bool {
        &&& self.least() <= end.least()
        &&& step matches PostingStep::Candidate { ordinal, .. } ==> self.least() <= ordinal
            < end.least()
    }
}

/// Whether a pair is posted shows at its place.
proof fn lemma_posted_at(pairs: Seq<u64>, gram: u32, file: int)
    requires
        ascending(pairs),
        gram <= MAX_GRAM,
        0 <= file < SPAN,
    ensures
        ({
            let at = bound_from(pairs, packed(gram as int, file), 0);
            posted(pairs, gram, file) == (at < pairs.len() && pairs[at] == packed(
                gram as int,
                file,
            ))
        }),
{
    let value = packed(gram as int, file);
    lemma_bound_range(pairs, value, 0);
    lemma_pack(gram as int, file);
    let at = bound_from(pairs, value, 0);
    if at < pairs.len() && pairs[at] == value {
        assert(pairs[at] == value as u64);
        assert(pairs.contains(value as u64));
    }
    if pairs.contains(value as u64) {
        let i = choose|i: int| 0 <= i < pairs.len() && pairs[i] == value as u64;
        if i > at {
            assert(pairs[at] < pairs[i]);
        }
    }
}

impl PagedPostingCandidates {
    /// Takes the next member: from the fallback list, or from the driver to be
    /// looked for. Gives nothing in the latter case.
    #[verifier::rlimit(60)]
    fn take_next<
        R: FnMut(u64, usize) -> ReadReply,
        H: Fn(&Vec<u8>, usize) -> Sha256Digest,
        C: FnMut() -> bool,
    >(
        &mut self,
        source: &mut PagedPostings,
        loads: &mut usize,
        read: &mut R,
        hash: &H,
        canceled: &mut C,
    ) -> (r: Result<Option<PostingStep>, PagedPostingError>)
        requires
            old(self).wf(*old(source)),
            old(self).prepared == 6,
            old(self).checking is None,
            *old(loads) <= 1,
            forall|at: u64, n: usize| call_requires(*old(read), (at, n)),
            forall|bytes: &Vec<u8>, n: usize|
                n <= bytes@.len() ==> call_requires(*hash, (bytes, n)),
            call_requires(*old(canceled), ()),
        ensures
            *final(read) == *old(read),
            *final(canceled) == *old(canceled),
            old(self).step_failure(
                *old(source),
                r,
                *old(read),
                *hash,
                *final(source),
                *old(canceled),
            ),
            page_failure(
                r,
                *old(source),
                *old(read),
                *hash,
                *final(source),
                *old(canceled),
            ) || moved(
                *old(source),
                *old(loads),
                *final(source),
                *final(loads),
            ),
            final(source).wf(),
            final(source).same_index(*old(source)),
            final(self).failure == old(self).failure,
            r is Ok ==> final(self).wf(*final(source)) && final(self).prepared == 6 && moved(
                *old(source),
                *old(loads),
                *final(source),
                *final(loads),
            ),
            r matches Ok(step) ==> old(self).follows(
                *old(source),
                *final(self),
                *final(source),
                step,
                *final(loads) == 0,
            ),
            pages_counted(*old(source), *old(loads), *final(source), *final(loads)),
            r is Ok && r != Ok::<Option<PostingStep>, PagedPostingError>(
                Some(PostingStep::Finished),
            ) ==> less_work(
                final(self).work(*final(source)),
                old(self).work(*old(source)),
            ) || *old(loads) == 0 && *final(self) == *old(self),
            r matches Ok(None) ==> final(self).checking is Some && old(self).least() <= final(self).least(),
            r matches Ok(Some(step)) ==> old(self).names(step, *final(self)),
            r matches Ok(Some(step)) ==> (step is Finished <==> old(self).ended(*old(source))),
            old(self).ended(*old(source)) ==> r matches Ok(Some(_)),
            r matches Ok(Some(PostingStep::Finished)) ==> *final(self) == *old(self),
    {
        let ghost start = *source;
        let ghost allowed = *loads;
        let ghost first = *self;
        let listed = self.driver.start < self.driver.end;
        let mut posting: usize = 0;
        if listed {
            match source.pair(self.driver.start, loads, read, hash, canceled) {
                Err(e) => {
                    return Err(e);
                },
                Ok(None) => {
                    return Ok(Some(PostingStep::Pending));
                },
                Ok(Some(pair)) => {
                    assert(shows(*source, self.driver.start as int, pair));
                    proof {
                        lemma_shown_valid(*source, self.driver.start as int, pair);
                        assert forall|pairs: Seq<u64>| #[trigger] source.agrees(pairs) implies
                            pairs[self.driver.start as int] == pair by {
                            lemma_shows(*source, pairs, self.driver.start as int, pair);
                        }
                    }
                    posting = ordinal(pair);
                    // Pages that name a member again are no table.
                    if posting < self.floor {
                        assert(self.unexplained(start, *source));
                        return Err(PagedPostingError::Index(SnapshotIndexError::Format));
                    }
                },
            }
        }
        assert(moved(start, allowed, *source, *loads));
        assert forall|pairs: Seq<u64>| #[trigger] source.agrees(pairs) && listed implies ordinal_of(
            pairs[first.driver.start as int],
        ) == posting by {}
        let list = source.fallback(self.short, self.text);
        let next: usize = self.fallback_next;
        let ghost rows = views(source.rows@);
        proof {
            lemma_fallback(*source, self.short, self.text);
        }
        if next < list.len() {
            let file: usize = list[next] as usize;
            if !listed || file <= posting {
                proof {
                    lemma_captured_grows(rows, self.floor as int, file as int);
                }
                self.fallback_next = next + 1;
                self.floor = file + 1;
                if listed && posting == file {
                    self.driver.start = self.driver.start + 1;
                    self.stats.posting_entries_visited = self.stats.posting_entries_visited + 1;
                }
                self.stats.fallback_emitted = self.stats.fallback_emitted + 1;
                return Ok(
                    Some(
                        PostingStep::Candidate { ordinal: file, decision: IndexDecision::Fallback },
                    ),
                );
            }
        }
        if !listed {
            return Ok(Some(PostingStep::Finished));
        }
        proof {
            lemma_captured_grows(rows, self.floor as int, posting as int);
        }
        self.driver.start = self.driver.start + 1;
        self.floor = posting + 1;
        self.stats.posting_entries_visited = self.stats.posting_entries_visited + 1;
        assert(views(source.rows@)[posting as int] == source.rows@[posting as int]@);
        if self.text {
            match source.rows[posting].coverage {
                Coverage::Utf8 => {},
                _ => {
                    return Ok(Some(PostingStep::Pending));
                },
            }
        }
        self.checking = Some(posting);
        self.check_list = 0;
        Ok(None)
    }
}

/// What the last look at a list settles: the member is missing from it, or it
/// is in all three.
proof fn lemma_settled(
    before: PagedPostingCandidates,
    end: PagedPostingCandidates,
    source: PagedPostings,
    pairs: Seq<u64>,
    matches: bool,
)
    requires
        source.wf(),
        source.agrees(pairs),
        before.wf(source),
        before.checking is Some,
        before.check_position is Some,
        before.consistent(source, pairs),
        matches == posted(
            pairs,
            third(before.keys, before.check_list as int),
            before.checking->0 as int,
        ),
        matches ==> before.check_list == 2,
        end == (PagedPostingCandidates {
            checking: None,
            check_position: None,
            stats: PostingProbeStats {
                candidates_emitted: if matches {
                    (before.stats.candidates_emitted + 1) as usize
                } else {
                    before.stats.candidates_emitted
                },
                ..before.stats
            },
            ..before
        }),
    ensures
        end.consistent(source, pairs),
        (
            end.reached(pairs),
            if matches {
                PostingStep::Candidate {
                    ordinal: before.checking->0,
                    decision: IndexDecision::Verify,
                }
            } else {
                PostingStep::Pending
            },
        ) == before.reached(pairs).stepped(source.table(pairs)),
{
    let now = before.reached(pairs);
    let file = before.checking->0 as int;
    let list = before.check_list as int;
    if list > 0 {
        assert(posted(pairs, third(before.keys, 0), file));
    }
    if list > 1 {
        assert(posted(pairs, third(before.keys, 1), file));
    }
    assert(now.looked(source.table(pairs), file) == list + 1);
    assert(now.survives(source.table(pairs), file) == matches);
    assert(source.table(pairs).rows[file] == source.rows@[file]@);
}

/// Work that follows work that keeps faith keeps faith.
proof fn lemma_chain(
    first: PagedPostingCandidates,
    start: PagedPostings,
    loads: usize,
    middle: PagedPostingCandidates,
    here: PagedPostings,
    left: usize,
    end: PagedPostingCandidates,
    after: PagedPostings,
    rest: usize,
    step: Option<PostingStep>,
)
    requires
        loads <= 1,
        moved(start, loads, here, left),
        moved(here, left, after, rest),
        first.follows(start, middle, here, None, left == 0),
        middle.follows(here, end, after, step, rest == 0),
    ensures
        moved(start, loads, after, rest),
        first.follows(start, end, after, step, rest == 0),
{
    assert forall|pairs: Seq<u64>|
        start.agrees(pairs) && (#[trigger] after.agrees(pairs)) && first.consistent(
            start,
            pairs,
        ) implies end.consistent(after, pairs) && {
        let now = first.reached(pairs);
        let done = end.reached(pairs);
        ||| done == now && (step is None || step == Some(PostingStep::Pending) && rest == 0)
        ||| step matches Some(said) && (done, said) == now.stepped(start.table(pairs))
    } by {
        lemma_between(start, loads, here, left, after, rest, pairs);
        assert(here.agrees(pairs));
        assert(middle.consistent(here, pairs));
        assert(start.table(pairs) == here.table(pairs));
    }
}

/// Work that fails behind work that keeps faith fails for a reason.
proof fn lemma_chain_failure<
    R: FnMut(u64, usize) -> ReadReply,
    H: Fn(&Vec<u8>, usize) -> Sha256Digest,
    C: FnMut() -> bool,
>(
    first: PagedPostingCandidates,
    start: PagedPostings,
    loads: usize,
    middle: PagedPostingCandidates,
    here: PagedPostings,
    left: usize,
    after: PagedPostings,
    rest: usize,
    r: Result<(), PagedPostingError>,
    read: R,
    hash: H,
    canceled: C,
)
    requires
        loads <= 1,
        moved(start, loads, here, left),
        first.follows(start, middle, here, None, left == 0),
        middle.step_failure(here, r, read, hash, after, canceled),
        page_failure(r, here, read, hash, after, canceled) || moved(here, left, after, rest),
        pages_counted(here, left, after, rest),
    ensures
        first.step_failure(start, r, read, hash, after, canceled),
        page_failure(r, start, read, hash, after, canceled) || moved(start, loads, after, rest),
        pages_counted(start, loads, after, rest),
{
    if !page_failure(r, here, read, hash, after, canceled) {
        assert forall|pairs: Seq<u64>|
            start.agrees(pairs) && (#[trigger] after.agrees(pairs)) implies !first.consistent(
            start,
            pairs,
        ) by {
            lemma_between(start, loads, here, left, after, rest, pairs);
            assert(here.agrees(pairs));
            if first.consistent(start, pairs) {
                assert(middle.consistent(here, pairs));
            }
        }
    }
}

impl PagedPostingCandidates {
    /// Finds the place of the pair at hand in a list. Tells whether it is known.
    fn place<
        R: FnMut(u64, usize) -> ReadReply,
        H: Fn(&Vec<u8>, usize) -> Sha256Digest,
        C: FnMut() -> bool,
    >(
        &mut self,
        source: &mut PagedPostings,
        loads: &mut usize,
        read: &mut R,
        hash: &H,
        canceled: &mut C,
    ) -> (r: Result<bool, PagedPostingError>)
        requires
            old(self).wf(*old(source)),
            old(self).checking is Some,
            *old(loads) <= 1,
            forall|at: u64, n: usize| call_requires(*old(read), (at, n)),
            forall|bytes: &Vec<u8>, n: usize|
                n <= bytes@.len() ==> call_requires(*hash, (bytes, n)),
            call_requires(*old(canceled), ()),
        ensures
            *final(read) == *old(read),
            *final(canceled) == *old(canceled),
            page_failure(
                r,
                *old(source),
                *old(read),
                *hash,
                *final(source),
                *old(canceled),
            ),
            final(source).wf(),
            final(source).same_index(*old(source)),
            final(self).failure == old(self).failure,
            r is Ok ==> final(self).wf(*final(source)) && moved(
                *old(source),
                *old(loads),
                *final(source),
                *final(loads),
            ),
            pages_counted(*old(source), *old(loads), *final(source), *final(loads)),
            r is Ok ==> less_work(final(self).work(*final(source)), old(self).work(*old(source)))
                || final(self).work(*final(source)) == old(self).work(*old(source)),
            r is Ok && *final(loads) < *old(loads) ==> less_work(
                final(self).work(*final(source)),
                old(self).work(*old(source)),
            ),
            r matches Ok(false) ==> *final(loads) == 0,
            r matches Ok(known) ==> old(self).follows(
                *old(source),
                *final(self),
                *final(source),
                None,
                *final(loads) == 0,
            ) && final(self).checking == old(self).checking && final(self).check_list
                == old(self).check_list && known == (final(self).check_position is Some)
                && final(self).floor == old(self).floor,
    {
        if self.check_position.is_some() {
            return Ok(true);
        }
        let ghost start = *source;
        let ghost first = *self;
        let file: usize = match self.checking {
            Some(file) => file,
            None => 0,
        };
        let key: u32 = self.key(self.check_list);
        let target: u64 = pack(key, file);
        let mut bound = match self.bound {
            Some(bound) => bound,
            None => {
                let list = self.list(self.check_list);
                LowerBound { low: list.start, high: list.end, value: target }
            },
        };
        if self.bound.is_none() {
            self.stats.membership_lookups = self.stats.membership_lookups + 1;
        }
        if bound.low > bound.high {
            bound.high = bound.low;
        }
        let ghost opened = bound;
        assert forall|pairs: Seq<u64>|
            #[trigger] start.agrees(pairs) && first.consistent(start, pairs) implies opened.holds(
            pairs,
        ) && opened.value == first.check_target() by {
            if first.bound is None {
                lemma_stretch(pairs, key);
                lemma_list_holds(pairs, key, file as int, opened);
            }
        }
        match bound.poll(source, loads, read, hash, canceled) {
            Err(e) => Err(e),
            Ok(None) => {
                self.bound = Some(bound);
                proof {
                    assert(self.wf(*source));
                    assert forall|pairs: Seq<u64>|
                        start.agrees(pairs) && (#[trigger] source.agrees(pairs))
                            && first.consistent(start, pairs) implies self.consistent(
                        *source,
                        pairs,
                    ) && self.reached(pairs) == first.reached(pairs) by {
                        assert(bound.holds(pairs));
                        lemma_kept(first, *self, start, *source, pairs);
                    }
                }
                Ok(false)
            },
            Ok(Some(at)) => {
                self.bound = None;
                self.check_position = Some(at);
                proof {
                    assert(self.wf(*source));
                    assert forall|pairs: Seq<u64>|
                        start.agrees(pairs) && (#[trigger] source.agrees(pairs))
                            && first.consistent(start, pairs) implies self.consistent(
                        *source,
                        pairs,
                    ) && self.reached(pairs) == first.reached(pairs) by {
                        assert(bound.holds(pairs));
                        lemma_met(bound, pairs);
                        lemma_kept(first, *self, start, *source, pairs);
                    }
                }
                Ok(true)
            },
        }
    }

    /// Looks at the place of the pair at hand. Gives nothing if the member is in
    /// this list and is to be looked for in the next.
    fn settle<
        R: FnMut(u64, usize) -> ReadReply,
        H: Fn(&Vec<u8>, usize) -> Sha256Digest,
        C: FnMut() -> bool,
    >(
        &mut self,
        source: &mut PagedPostings,
        loads: &mut usize,
        read: &mut R,
        hash: &H,
        canceled: &mut C,
    ) -> (r: Result<Option<PostingStep>, PagedPostingError>)
        requires
            old(self).wf(*old(source)),
            old(self).checking is Some,
            old(self).check_position is Some,
            *old(loads) <= 1,
            forall|at: u64, n: usize| call_requires(*old(read), (at, n)),
            forall|bytes: &Vec<u8>, n: usize|
                n <= bytes@.len() ==> call_requires(*hash, (bytes, n)),
            call_requires(*old(canceled), ()),
        ensures
            *final(read) == *old(read),
            *final(canceled) == *old(canceled),
            old(self).step_failure(
                *old(source),
                r,
                *old(read),
                *hash,
                *final(source),
                *old(canceled),
            ),
            page_failure(
                r,
                *old(source),
                *old(read),
                *hash,
                *final(source),
                *old(canceled),
            ) || moved(
                *old(source),
                *old(loads),
                *final(source),
                *final(loads),
            ),
            final(source).wf(),
            final(source).same_index(*old(source)),
            final(self).failure == old(self).failure,
            r is Ok ==> final(self).wf(*final(source)) && moved(
                *old(source),
                *old(loads),
                *final(source),
                *final(loads),
            ),
            r matches Ok(step) ==> old(self).follows(
                *old(source),
                *final(self),
                *final(source),
                step,
                *final(loads) == 0,
            ),
            pages_counted(*old(source), *old(loads), *final(source), *final(loads)),
            r is Ok ==> less_work(final(self).work(*final(source)), old(self).work(*old(source)))
                || *old(loads) == 0 && *final(self) == *old(self),
            r matches Ok(None) ==> final(self).checking is Some && final(self).check_list
                == old(self).check_list + 1 && final(self).least() == old(self).least(),
            r matches Ok(Some(step)) ==> !(step is Finished) && old(self).names(
                step,
                *final(self),
            ),
    {
        let ghost start = *source;
        let ghost first = *self;
        let file: usize = match self.checking {
            Some(file) => file,
            None => 0,
        };
        let key: u32 = self.key(self.check_list);
        let target: u64 = pack(key, file);
        let at: usize = match self.check_position {
            Some(at) => at,
            None => 0,
        };
        let matches = if at == self.list(self.check_list).end {
            false
        } else {
            match source.pair(at, loads, read, hash, canceled) {
                Err(e) => {
                    proof {
                        if at >= start.total {
                            assert forall|pairs: Seq<u64>|
                                start.agrees(pairs) && (
                                #[trigger] source.agrees(pairs)) implies !first.consistent(
                                start,
                                pairs,
                            ) by {
                                lemma_stretch(pairs, key);
                                lemma_list_end(pairs, key, file as int);
                            }
                        }
                    }
                    return Err(e);
                },
                Ok(None) => {
                    return Ok(Some(PostingStep::Pending));
                },
                Ok(Some(pair)) => {
                    assert(shows(*source, at as int, pair));
                    assert forall|pairs: Seq<u64>| #[trigger] source.agrees(pairs) implies pairs[
                        at as int
                    ] == pair by {
                        lemma_shows(*source, pairs, at as int, pair);
                    }
                    pair == target
                },
            }
        };
        assert forall|pairs: Seq<u64>|
            start.agrees(pairs) && (#[trigger] source.agrees(pairs)) && first.consistent(
                start,
                pairs,
            ) implies first.consistent(*source, pairs) && matches == posted(
            pairs,
            key,
            file as int,
        ) && start.table(pairs) == source.table(pairs) by {
            lemma_posted_at(pairs, key, file as int);
            lemma_list_end(pairs, key, file as int);
        }
        self.check_position = None;
        if !matches {
            self.checking = None;
            assert forall|pairs: Seq<u64>|
                start.agrees(pairs) && (#[trigger] source.agrees(pairs)) && first.consistent(
                    start,
                    pairs,
                ) implies self.consistent(*source, pairs) && (
                self.reached(pairs),
                PostingStep::Pending,
            ) == first.reached(pairs).stepped(start.table(pairs)) by {
                lemma_settled(first, *self, *source, pairs, false);
            }
            return Ok(Some(PostingStep::Pending));
        }
        if self.check_list == 2 {
            self.checking = None;
            self.stats.candidates_emitted = self.stats.candidates_emitted + 1;
            let step = PostingStep::Candidate { ordinal: file, decision: IndexDecision::Verify };
            assert forall|pairs: Seq<u64>|
                start.agrees(pairs) && (#[trigger] source.agrees(pairs)) && first.consistent(
                    start,
                    pairs,
                ) implies self.consistent(*source, pairs) && (self.reached(pairs), step)
                == first.reached(pairs).stepped(start.table(pairs)) by {
                lemma_settled(first, *self, *source, pairs, true);
            }
            return Ok(Some(step));
        }
        self.check_list = self.check_list + 1;
        assert forall|pairs: Seq<u64>|
            start.agrees(pairs) && (#[trigger] source.agrees(pairs)) && first.consistent(
                start,
                pairs,
            ) implies self.consistent(*source, pairs) && self.reached(pairs)
            == first.reached(pairs) by {
            assert(posted(pairs, third(self.keys, first.check_list as int), file as int));
            assert forall|j: int| 0 <= j < self.check_list implies posted(
                pairs,
                #[trigger] third(self.keys, j),
                file as int,
            ) by {
                if j < first.check_list {
                    assert(posted(pairs, third(first.keys, j), file as int));
                }
            }
        }
        Ok(None)
    }

    /// Looks for the member at hand in the lists, as far as one page allows.
    fn check<
        R: FnMut(u64, usize) -> ReadReply,
        H: Fn(&Vec<u8>, usize) -> Sha256Digest,
        C: FnMut() -> bool,
    >(
        &mut self,
        source: &mut PagedPostings,
        loads: &mut usize,
        read: &mut R,
        hash: &H,
        canceled: &mut C,
    ) -> (r: Result<PostingStep, PagedPostingError>)
        requires
            old(self).wf(*old(source)),
            old(self).checking is Some,
            *old(loads) <= 1,
            forall|at: u64, n: usize| call_requires(*old(read), (at, n)),
            forall|bytes: &Vec<u8>, n: usize|
                n <= bytes@.len() ==> call_requires(*hash, (bytes, n)),
            call_requires(*old(canceled), ()),
        ensures
            *final(read) == *old(read),
            *final(canceled) == *old(canceled),
            old(self).step_failure(
                *old(source),
                r,
                *old(read),
                *hash,
                *final(source),
                *old(canceled),
            ),
            page_failure(
                r,
                *old(source),
                *old(read),
                *hash,
                *final(source),
                *old(canceled),
            ) || moved(
                *old(source),
                *old(loads),
                *final(source),
                *final(loads),
            ),
            final(source).wf(),
            final(source).same_index(*old(source)),
            final(self).failure == old(self).failure,
            r is Ok ==> final(self).wf(*final(source)) && moved(
                *old(source),
                *old(loads),
                *final(source),
                *final(loads),
            ),
            r matches Ok(step) ==> old(self).follows(
                *old(source),
                *final(self),
                *final(source),
                Some(step),
                *final(loads) == 0,
            ),
            pages_counted(*old(source), *old(loads), *final(source), *final(loads)),
            r is Ok ==> less_work(final(self).work(*final(source)), old(self).work(*old(source)))
                || *old(loads) == 0 && final(self).work(*final(source)) == old(self).work(*old(source)),
            r matches Ok(step) ==> !(step is Finished) && old(self).names(step, *final(self)),
    {
        let ghost start = *source;
        let ghost allowed = *loads;
        let ghost first = *self;
        loop
            invariant
                start == *old(source),
                allowed == *old(loads),
                first == *old(self),
                allowed <= 1,
                source.same_index(start),
                self.wf(*source),
                self.checking is Some,
                self.least() == first.least(),
                less_work(self.work(*source), first.work(start)) || self.work(*source)
                    == first.work(start) && *loads == allowed,
                self.failure == first.failure,
                moved(start, allowed, *source, *loads),
                first.follows(start, *self, *source, None, *loads == 0),
                *read == *old(read),
                *canceled == *old(canceled),
                forall|at: u64, n: usize| call_requires(*read, (at, n)),
                forall|bytes: &Vec<u8>, n: usize|
                    n <= bytes@.len() ==> call_requires(*hash, (bytes, n)),
                call_requires(*canceled, ()),
            decreases 3 - self.check_list,
        {
            let ghost here = *source;
            let ghost left = *loads;
            let ghost before = *self;
            match self.place(source, loads, read, hash, canceled) {
                Err(e) => {
                    return Err(e);
                },
                Ok(known) => {
                    proof {
                        lemma_chain(
                            first,
                            start,
                            allowed,
                            before,
                            here,
                            left,
                            *self,
                            *source,
                            *loads,
                            None,
                        );
                    }
                    if !known {
                        return Ok(PostingStep::Pending);
                    }
                },
            }
            let ghost there = *source;
            let ghost rest = *loads;
            let ghost placed = *self;
            match self.settle(source, loads, read, hash, canceled) {
                Err(e) => {
                    proof {
                        lemma_chain_failure(
                            first,
                            start,
                            allowed,
                            placed,
                            there,
                            rest,
                            *source,
                            *loads,
                            Err::<(), PagedPostingError>(e),
                            *old(read),
                            *hash,
                            *old(canceled),
                        );
                    }
                    return Err(e);
                },
                Ok(step) => {
                    proof {
                        lemma_chain(
                            first,
                            start,
                            allowed,
                            placed,
                            there,
                            rest,
                            *self,
                            *source,
                            *loads,
                            step,
                        );
                    }
                    if let Some(said) = step {
                        return Ok(said);
                    }
                },
            }
        }
    }

    fn advance<
        R: FnMut(u64, usize) -> ReadReply,
        H: Fn(&Vec<u8>, usize) -> Sha256Digest,
        C: FnMut() -> bool,
    >(
        &mut self,
        source: &mut PagedPostings,
        read: &mut R,
        hash: &H,
        canceled: &mut C,
    ) -> (r: Result<PostingStep, PagedPostingError>)
        requires
            old(self).wf(*old(source)),
            forall|at: u64, n: usize| call_requires(*old(read), (at, n)),
            forall|bytes: &Vec<u8>, n: usize|
                n <= bytes@.len() ==> call_requires(*hash, (bytes, n)),
            call_requires(*old(canceled), ()),
        ensures
            *final(read) == *old(read),
            *final(canceled) == *old(canceled),
            old(self).step_failure(
                *old(source),
                r,
                *old(read),
                *hash,
                *final(source),
                *old(canceled),
            ),
            final(source).wf(),
            final(source).same_index(*old(source)),
            final(self).failure == old(self).failure,
            r is Ok ==> final(self).wf(*final(source)) && final(source).failed == old(source).failed,
            r matches Ok(step) ==> old(self).follows(
                *old(source),
                *final(self),
                *final(source),
                Some(step),
                loaded_one(*old(source), *final(source)),
            ),
            pages_counted(*old(source), 1, *final(source), 0),
            r matches Ok(step) ==> (step is Finished || less_work(
                final(self).work(*final(source)),
                old(self).work(*old(source)),
            )),
            r matches Ok(step) ==> old(self).names(step, *final(self)) && (
            old(self).ended(*old(source)) ==> step is Finished) && (step is Finished ==> final(self).ended(*final(source)) && (old(self).ended(*old(source)) ==> *final(self)
                == *old(self))),
    {
        let mut loads: usize = 1;
        let ghost start = *source;
        let ghost first = *self;
        match self.prepare(source, &mut loads, read, hash, canceled) {
            Err(e) => {
                return Err(e);
            },
            Ok(done) => {
                if !done {
                    return Ok(PostingStep::Pending);
                }
            },
        }
        if self.checking.is_none() {
            let ghost here = *source;
            let ghost left = loads;
            let ghost before = *self;
            match self.take_next(source, &mut loads, read, hash, canceled) {
                Err(e) => {
                    proof {
                        lemma_chain_failure(
                            first,
                            start,
                            1,
                            before,
                            here,
                            left,
                            *source,
                            loads,
                            Err::<(), PagedPostingError>(e),
                            *old(read),
                            *hash,
                            *old(canceled),
                        );
                    }
                    return Err(e);
                },
                Ok(step) => {
                    proof {
                        lemma_chain(
                            first,
                            start,
                            1,
                            before,
                            here,
                            left,
                            *self,
                            *source,
                            loads,
                            step,
                        );
                    }
                    if let Some(said) = step {
                        return Ok(said);
                    }
                },
            }
        }
        let ghost here = *source;
        let ghost left = loads;
        let ghost before = *self;
        match self.check(source, &mut loads, read, hash, canceled) {
            Err(e) => {
                proof {
                    lemma_chain_failure(
                        first,
                        start,
                        1,
                        before,
                        here,
                        left,
                        *source,
                        loads,
                        Err::<(), PagedPostingError>(e),
                        *old(read),
                        *hash,
                        *old(canceled),
                    );
                }
                Err(e)
            },
            Ok(step) => {
                proof {
                    lemma_chain(
                        first,
                        start,
                        1,
                        before,
                        here,
                        left,
                        *self,
                        *source,
                        loads,
                        Some(step),
                    );
                }
                Ok(step)
            },
        }
    }

    /// Goes on by no more than one page. A failure stays: it never becomes a
    /// statement about a member.
    pub fn step<
        R: FnMut(u64, usize) -> ReadReply,
        H: Fn(&Vec<u8>, usize) -> Sha256Digest,
        C: FnMut() -> bool,
    >(
        &mut self,
        source: &mut PagedPostings,
        read: &mut R,
        hash: &H,
        canceled: &mut C,
    ) -> (r: Result<PostingStep, PagedPostingError>)
        requires
            old(self).failure is None ==> old(self).wf(*old(source)),
            old(source).wf(),
            forall|at: u64, n: usize| call_requires(*old(read), (at, n)),
            forall|bytes: &Vec<u8>, n: usize|
                n <= bytes@.len() ==> call_requires(*hash, (bytes, n)),
            call_requires(*old(canceled), ()),
        ensures
            *final(read) == *old(read),
            *final(canceled) == *old(canceled),
            old(self).failure is None ==> old(self).step_failure(
                *old(source),
                r,
                *old(read),
                *hash,
                *final(source),
                *old(canceled),
            ),
            final(source).wf(),
            final(source).same_index(*old(source)),
            old(self).failure matches Some(e) ==> r == Err::<PostingStep, PagedPostingError>(e)
                && *final(self) == *old(self) && *final(source) == *old(source),
            match r {
                Ok(step) => old(self).failure is None && final(self).failure is None
                    && final(self).wf(*final(source)) && old(self).follows(
                    *old(source),
                    *final(self),
                    *final(source),
                    Some(step),
                    loaded_one(*old(source), *final(source)),
                ),
                Err(e) => final(self).failure == Some(e),
            },
            old(self).answers(*old(source), r, *final(self), *final(source)),
            pages_counted(*old(source), 1, *final(source), 0),
    {
        if let Some(error) = self.failure {
            return Err(error);
        }
        let mut result = if canceled() {
            Err(PagedPostingError::Index(SnapshotIndexError::Canceled))
        } else {
            self.advance(source, read, hash, canceled)
        };
        if result.is_ok() && canceled() {
            result = Err(PagedPostingError::Index(SnapshotIndexError::Canceled));
        }
        if let Err(error) = result {
            self.failure = Some(error);
        }
        result
    }

    pub fn stats(&self) -> (r: PostingProbeStats)
        ensures
            r == self.stats,
    {
        self.stats
    }

    /// Whether all members have been named.
    pub open spec fn finished(self, source: PagedPostings) -> bool {
        self.failure is None && self.ended(source)
    }

    pub fn is_finished(&self, source: &PagedPostings) -> (r: bool)
        ensures
            r == self.finished(*source),
    {
        self.failure.is_none() && self.prepared == 6 && self.checking.is_none()
            && self.driver.start >= self.driver.end && self.fallback_next == source.fallback(
            self.short,
            self.text,
        ).len()
    }

    /// The members proved not to hold the needle; known only when finished.
    pub fn excluded_files(&self, source: &PagedPostings) -> (r: Option<usize>)
        requires
            self.failure is None ==> self.wf(*source),
        ensures
            r is Some <==> self.finished(*source),
            r matches Some(n) ==> n + self.stats.candidates_emitted + self.stats.fallback_emitted
                == source.captured@.len(),
            r == (if self.finished(*source) {
                Some(
                    (source.captured@.len() - self.stats.candidates_emitted
                        - self.stats.fallback_emitted) as usize,
                )
            } else {
                None
            }),
    {
        if self.is_finished(source) {
            proof {
                let rows = views(source.rows@);
                lemma_captured_count(rows, 0);
                lemma_captured_grows(rows, self.floor as int, rows.len() as int);
            }
            Some(
                source.captured.len() - self.stats.candidates_emitted - self.stats.fallback_emitted,
            )
        } else {
            None
        }
    }
}

impl PagedPostings {
    pub fn raw_candidates(&self, needle: &[u8]) -> (r: PagedPostingCandidates)
        requires
            self.wf(),
        ensures
            r.wf(*self),
            r.failure is None,
            forall|pairs: Seq<u64>|
                #[trigger] self.agrees(pairs) ==> r.consistent(*self, pairs) && r.reached(pairs)
                    == CandidateCursor::fresh(self.table(pairs), needle@, false),
    {
        self.candidates(needle, false)
    }

    pub fn text_candidates(&self, needle: &str) -> (r: PagedPostingCandidates)
        requires
            self.wf(),
        ensures
            r.wf(*self),
            r.failure is None,
            forall|pairs: Seq<u64>|
                #[trigger] self.agrees(pairs) ==> r.consistent(*self, pairs) && r.reached(pairs)
                    == CandidateCursor::fresh(
                    self.table(pairs),
                    vstd::utf8::encode_utf8(needle@),
                    true,
                ),
    {
        self.candidates(needle.as_bytes(), true)
    }

    pub fn candidates(&self, needle: &[u8], text: bool) -> (r: PagedPostingCandidates)
        requires
            self.wf(),
        ensures
            r.wf(*self),
            r.failure is None,
            forall|pairs: Seq<u64>|
                #[trigger] self.agrees(pairs) ==> r.consistent(*self, pairs) && r.reached(pairs)
                    == CandidateCursor::fresh(self.table(pairs), needle@, text),
    {
        let n: usize = needle.len();
        let short = n < 3;
        let none = Stretch { start: 0, end: 0 };
        let mut keys: (u32, u32, u32) = (0, 0, 0);
        if !short {
            keys = (gram_at(needle, 0), gram_at(needle, (n - 3) / 2), gram_at(needle, n - 3));
        }
        let r = PagedPostingCandidates {
            keys,
            lists: (none, none, none),
            driver: none,
            prepared: if short {
                6
            } else {
                0
            },
            fallback_next: 0,
            floor: 0,
            text,
            short,
            bound: None,
            checking: None,
            check_list: 0,
            check_position: None,
            stats: PostingProbeStats {
                list_lookups: if short {
                    0
                } else {
                    3
                },
                posting_entries_visited: 0,
                membership_lookups: 0,
                candidates_emitted: 0,
                fallback_emitted: 0,
            },
            failure: None,
        };
        r
    }
}

/// The list of a trigram holds the place of each of its pairs.
proof fn lemma_list_holds(pairs: Seq<u64>, gram: u32, file: int, bound: LowerBound)
    requires
        ascending(pairs),
        pairs.len() <= MAX_INDEX_GRAMS,
        gram <= MAX_GRAM,
        0 <= file < SPAN,
        bound.value == packed(gram as int, file),
        bound.low == stretch_of(pairs, gram).start,
        bound.high == stretch_of(pairs, gram).end,
    ensures
        bound.holds(pairs),
{
    lemma_stretch(pairs, gram);
    lemma_bound_range(pairs, packed(gram as int, 0), 0);
    lemma_bound_range(pairs, packed(gram + 1, 0), 0);
    assert forall|i: int| bound.high <= i < pairs.len() implies #[trigger] pairs[i]
        >= bound.value by {
        if i > bound.high {
            assert(pairs[bound.high as int] < pairs[i]);
        }
    }
}

/// A place at the end of a trigram's list is no pair of it.
proof fn lemma_list_end(pairs: Seq<u64>, gram: u32, file: int)
    requires
        ascending(pairs),
        pairs.len() <= MAX_INDEX_GRAMS,
        gram <= MAX_GRAM,
        0 <= file < SPAN,
    ensures
        bound_from(pairs, packed(gram as int, file), 0) == stretch_of(pairs, gram).end ==> !posted(
            pairs,
            gram,
            file,
        ),
        bound_from(pairs, packed(gram as int, file), 0) <= stretch_of(pairs, gram).end,
{
    lemma_stretch(pairs, gram);
    lemma_posted_at(pairs, gram, file);
    lemma_bound_range(pairs, packed(gram + 1, 0), 0);
    lemma_bound_range(pairs, packed(gram as int, file), 0);
    let end = stretch_of(pairs, gram).end as int;
    let at = bound_from(pairs, packed(gram as int, file), 0);
    if at > end {
        assert(pairs[end] < packed(gram as int, file));
        assert(pairs[end] >= packed(gram + 1, 0));
    }
}

/// What a search that goes on leaves as it was.
proof fn lemma_kept(
    before: PagedPostingCandidates,
    end: PagedPostingCandidates,
    here: PagedPostings,
    source: PagedPostings,
    pairs: Seq<u64>,
)
    requires
        before.wf(here),
        end.wf(source),
        source.same_index(here),
        before.checking is Some,
        before.check_position is None,
        before.consistent(here, pairs),
        end == (PagedPostingCandidates {
            bound: end.bound,
            check_position: end.check_position,
            stats: end.stats,
            ..before
        }),
        end.bound is Some || end.check_position is Some,
        end.stats == (PostingProbeStats {
            membership_lookups: (before.stats.membership_lookups + if before.bound is Some {
                0int
            } else {
                1int
            }) as usize,
            ..before.stats
        }),
        end.bound matches Some(bound) ==> bound.value == before.check_target() && bound.holds(pairs),
        end.check_position matches Some(at) ==> at == bound_from(pairs, before.check_target(), 0),
    ensures
        end.consistent(source, pairs),
        end.reached(pairs) == before.reached(pairs),
{
    let file = before.checking->0 as int;
    assert forall|j: int| 0 <= j < end.check_list implies posted(
        pairs,
        #[trigger] third(end.keys, j),
        file,
    ) by {
        assert(posted(pairs, third(before.keys, j), file));
    }
    assert(source.table(pairs) == here.table(pairs));
}

} // verus!
