//! Stepping through candidates misses no member and names each one once.
use vstd::prelude::*;

use crate::search::snapshot_index::postings::transposition::lists_agree_with_the_index;
use crate::search::snapshot_index::postings::{
    gram_of, kept_from, lemma_bound_range, lemma_pack, ordinal_of, packed, pair_ok, posted,
    stretch_of, transposes, CandidateCursor, Keep, PostingStep, PostingsModel,
};
use crate::search::snapshot_index::{
    IndexDecision, RowModel, SegmentsModel, MAX_GRAM, MAX_INDEX_MEMBERS,
};

verus! {

/// How many steps a cursor has left at most.
pub open spec fn steps_left(cursor: CandidateCursor, postings: PostingsModel) -> nat {
    let list = postings.fallback(cursor.short, cursor.text);
    ((if cursor.driver.start < cursor.driver.end {
        cursor.driver.end - cursor.driver.start
    } else {
        0
    }) + (if cursor.fallback_next < list.len() <= MAX_INDEX_MEMBERS {
        list.len() - cursor.fallback_next
    } else {
        0
    })) as nat
}

/// The candidates that stepping a cursor to its end gives, in order.
pub open spec fn emitted(cursor: CandidateCursor, postings: PostingsModel) -> Seq<
    (int, IndexDecision),
>
    decreases steps_left(cursor, postings),
{
    if postings.fallback(cursor.short, cursor.text).len() > MAX_INDEX_MEMBERS || steps_left(
        cursor,
        postings,
    ) == 0 {
        Seq::empty()
    } else {
        let (next, step) = cursor.stepped(postings);
        match step {
            PostingStep::Candidate { ordinal, decision } => seq![(ordinal as int, decision)]
                + emitted(next, postings),
            _ => emitted(next, postings),
        }
    }
}

/// Whether a member is on a list from a position on.
pub open spec fn waits(list: Seq<u32>, next: int, k: int) -> bool {
    exists|j: int| next <= j < list.len() && #[trigger] list[j] == k
}

/// Whether a stretch of pairs names a member.
pub open spec fn drives(pairs: Seq<u64>, start: int, end: int, k: int) -> bool {
    exists|i: int| start <= i < end && ordinal_of(#[trigger] pairs[i]) == k
}

/// Whether a cursor has yet to say this of a member.
pub open spec fn due(
    cursor: CandidateCursor,
    postings: PostingsModel,
    k: int,
    decision: IndexDecision,
) -> bool {
    match decision {
        IndexDecision::Fallback => waits(
            postings.fallback(cursor.short, cursor.text),
            cursor.fallback_next as int,
            k,
        ),
        IndexDecision::Verify => drives(
            postings.pairs,
            cursor.driver.start as int,
            cursor.driver.end as int,
            k,
        ) && cursor.survives(postings, k) && (cursor.text ==> postings.rows[k].coverage is Utf8),
        IndexDecision::Excluded => false,
    }
}

/// What the postings keep of members is in order and complete.
pub proof fn lemma_kept_list(rows: Seq<RowModel>, keep: Keep, k: int)
    requires
        0 <= k <= rows.len() <= MAX_INDEX_MEMBERS,
    ensures
        kept_from(rows, keep, k).len() <= rows.len() - k,
        forall|i: int, j: int|
            0 <= i < j < kept_from(rows, keep, k).len() ==> #[trigger] kept_from(rows, keep, k)[i]
                < #[trigger] kept_from(rows, keep, k)[j],
        forall|i: int|
            0 <= i < kept_from(rows, keep, k).len() ==> k <= #[trigger] kept_from(rows, keep, k)[i]
                < rows.len() && keep.keeps(rows[kept_from(rows, keep, k)[i] as int].coverage),
        forall|n: int|
            k <= n < rows.len() && keep.keeps((#[trigger] rows[n]).coverage) ==> waits(
                kept_from(rows, keep, k),
                0,
                n,
            ),
    decreases rows.len() - k,
{
    if k < rows.len() {
        lemma_kept_list(rows, keep, k + 1);
        let rest = kept_from(rows, keep, k + 1);
        let all = kept_from(rows, keep, k);
        if keep.keeps(rows[k].coverage) {
            assert(all =~= seq![k as u32] + rest);
            assert forall|i: int| 0 <= i < all.len() implies k <= #[trigger] all[i] < rows.len()
                && keep.keeps(rows[all[i] as int].coverage) by {
                if i > 0 {
                    assert(all[i] == rest[i - 1]);
                }
            }
            assert forall|i: int, j: int| 0 <= i < j < all.len() implies #[trigger] all[i]
                < #[trigger] all[j] by {
                assert(all[j] == rest[j - 1]);
                if i > 0 {
                    assert(all[i] == rest[i - 1]);
                }
            }
            assert forall|n: int|
                k <= n < rows.len() && keep.keeps((#[trigger] rows[n]).coverage) implies waits(
                all,
                0,
                n,
            ) by {
                if n == k {
                    assert(all[0] == n);
                } else {
                    assert(waits(rest, 0, n));
                    let j = choose|j: int| 0 <= j < rest.len() && #[trigger] rest[j] == n;
                    assert(all[j + 1] == n);
                }
            }
        }
    }
}

/// Which members a cursor's list is for.
pub open spec fn list_for(cursor: CandidateCursor) -> Keep {
    if cursor.short {
        Keep::Captured
    } else if cursor.text {
        Keep::TextFallback
    } else {
        Keep::RawFallback
    }
}

proof fn lemma_list(cursor: CandidateCursor, postings: PostingsModel)
    requires
        postings.wf(),
    ensures
        postings.fallback(cursor.short, cursor.text) == kept_from(
            postings.rows,
            list_for(cursor),
            0,
        ),
        postings.fallback(cursor.short, cursor.text).len() <= MAX_INDEX_MEMBERS,
{
    lemma_kept_list(postings.rows, list_for(cursor), 0);
}

/// What one step says was due, and what is due afterwards is what was due
/// before without it and comes behind it.
proof fn lemma_step(
    cursor: CandidateCursor,
    postings: PostingsModel,
    gram: int,
    k: int,
    decision: IndexDecision,
)
    requires
        cursor.wf(postings),
        forall|i: int|
            cursor.driver.start <= i < cursor.driver.end ==> gram_of(#[trigger] postings.pairs[i])
                == gram,
        steps_left(cursor, postings) > 0,
    ensures
        ({
            let (next, step) = cursor.stepped(postings);
            match step {
                PostingStep::Candidate { ordinal, decision: said } => {
                    &&& due(cursor, postings, k, decision) <==> (k == ordinal && decision == said
                        || due(next, postings, k, decision))
                    &&& due(next, postings, k, decision) ==> k > ordinal
                },
                _ => due(cursor, postings, k, decision) <==> due(next, postings, k, decision),
            }
        }),
{
    let pairs = postings.pairs;
    let list = postings.fallback(cursor.short, cursor.text);
    let start = cursor.driver.start as int;
    let end = cursor.driver.end as int;
    let at = cursor.fallback_next as int;
    lemma_list(cursor, postings);
    lemma_kept_list(postings.rows, list_for(cursor), 0);
    let listed = start < end;
    let more = at < list.len();
    if listed {
        assert(pair_ok(pairs[start], postings.rows));
        assert forall|i: int| start < i < end implies ordinal_of(#[trigger] pairs[i]) > ordinal_of(
            pairs[start],
        ) by {
            assert(pairs[start] < pairs[i]);
            assert(gram_of(pairs[start]) == gram && gram_of(pairs[i]) == gram);
        }
        assert(drives(pairs, start, end, k) <==> k == ordinal_of(pairs[start]) || drives(
            pairs,
            start + 1,
            end,
            k,
        )) by {
            if drives(pairs, start, end, k) {
                let i = choose|i: int| start <= i < end && ordinal_of(#[trigger] pairs[i]) == k;
                if i > start {
                    assert(ordinal_of(pairs[i]) == k);
                }
            }
            if drives(pairs, start + 1, end, k) {
                let i = choose|i: int| start + 1 <= i < end && ordinal_of(#[trigger] pairs[i]) == k;
                assert(ordinal_of(pairs[i]) == k);
            }
        }
        assert(drives(pairs, start + 1, end, k) ==> k > ordinal_of(pairs[start]));
    }
    if more {
        assert(waits(list, at, k) <==> k == list[at] || waits(list, at + 1, k)) by {
            if waits(list, at, k) {
                let j = choose|j: int| at <= j < list.len() && #[trigger] list[j] == k;
                if j > at {
                    assert(list[j] == k);
                }
            }
            if waits(list, at + 1, k) {
                let j = choose|j: int| at + 1 <= j < list.len() && #[trigger] list[j] == k;
                assert(list[j] == k);
            }
        }
        assert(waits(list, at + 1, k) ==> k > list[at]);
        assert(list_for(cursor).keeps(postings.rows[list[at] as int].coverage));
    }
}

/// What stepping to the end says is what is due, in the order of the members.
proof fn lemma_emitted(cursor: CandidateCursor, postings: PostingsModel, gram: int)
    requires
        cursor.wf(postings),
        forall|i: int|
            cursor.driver.start <= i < cursor.driver.end ==> gram_of(#[trigger] postings.pairs[i])
                == gram,
    ensures
        forall|k: int, decision: IndexDecision|
            emitted(cursor, postings).contains((k, decision)) <==> #[trigger] due(
                cursor,
                postings,
                k,
                decision,
            ),
        forall|i: int, j: int|
            0 <= i < j < emitted(cursor, postings).len() ==> (#[trigger] emitted(
                cursor,
                postings,
            )[i]).0 < (#[trigger] emitted(cursor, postings)[j]).0,
    decreases steps_left(cursor, postings),
{
    let all = emitted(cursor, postings);
    lemma_list(cursor, postings);
    if steps_left(cursor, postings) == 0 {
        assert forall|k: int, decision: IndexDecision| !#[trigger] due(
            cursor,
            postings,
            k,
            decision,
        ) by {}
    } else {
        let (next, step) = cursor.stepped(postings);
        lemma_stepped_wf(cursor, postings);
        lemma_emitted(next, postings, gram);
        let rest = emitted(next, postings);
        assert forall|k: int, decision: IndexDecision|
            all.contains((k, decision)) <==> #[trigger] due(cursor, postings, k, decision) by {
            lemma_step(cursor, postings, gram, k, decision);
            assert(rest.contains((k, decision)) <==> due(next, postings, k, decision));
            match step {
                PostingStep::Candidate { ordinal, decision: said } => {
                    assert(all =~= seq![(ordinal as int, said)] + rest);
                    if all.contains((k, decision)) {
                        let i = choose|i: int| 0 <= i < all.len() && all[i] == (k, decision);
                        if i > 0 {
                            assert(rest[i - 1] == (k, decision));
                        }
                    }
                    if k == ordinal && decision == said {
                        assert(all[0] == (k, decision));
                    }
                    if rest.contains((k, decision)) {
                        let i = choose|i: int| 0 <= i < rest.len() && rest[i] == (k, decision);
                        assert(all[i + 1] == (k, decision));
                    }
                },
                _ => {},
            }
        }
        match step {
            PostingStep::Candidate { ordinal, decision: said } => {
                assert forall|i: int, j: int| 0 <= i < j < all.len() implies (#[trigger] all[i]).0
                    < (#[trigger] all[j]).0 by {
                    assert(all[j] == rest[j - 1]);
                    if i > 0 {
                        assert(all[i] == rest[i - 1]);
                    } else {
                        assert(rest.contains(rest[j - 1]));
                        assert(rest[j - 1] == (rest[j - 1].0, rest[j - 1].1));
                        assert(due(next, postings, rest[j - 1].0, rest[j - 1].1));
                        lemma_step(cursor, postings, gram, rest[j - 1].0, rest[j - 1].1);
                    }
                }
            },
            _ => {},
        }
    }
}

/// A step leaves a cursor of the same postings with fewer steps left.
proof fn lemma_stepped_wf(cursor: CandidateCursor, postings: PostingsModel)
    requires
        cursor.wf(postings),
        steps_left(cursor, postings) > 0,
    ensures
        cursor.stepped(postings).0.wf(postings),
        cursor.stepped(postings).0.driver.end == cursor.driver.end,
        cursor.stepped(postings).0.driver.start >= cursor.driver.start,
        steps_left(cursor.stepped(postings).0, postings) < steps_left(cursor, postings),
{
    lemma_list(cursor, postings);
}

/// The pairs of a trigram, and no others, are in the trigram's stretch.
pub proof fn lemma_gram_stretch(postings: PostingsModel, gram: u32)
    requires
        postings.wf(),
        gram <= MAX_GRAM,
    ensures
        stretch_of(postings.pairs, gram).start <= stretch_of(postings.pairs, gram).end
            <= postings.pairs.len(),
        forall|i: int|
            stretch_of(postings.pairs, gram).start <= i < stretch_of(postings.pairs, gram).end
                ==> gram_of(#[trigger] postings.pairs[i]) == gram,
        forall|k: int|
            0 <= k < postings.rows.len() && #[trigger] posted(postings.pairs, gram, k) ==> drives(
                postings.pairs,
                stretch_of(postings.pairs, gram).start as int,
                stretch_of(postings.pairs, gram).end as int,
                k,
            ),
{
    let pairs = postings.pairs;
    let low = crate::search::snapshot_index::postings::bound_from(pairs, packed(gram as int, 0), 0);
    let high = crate::search::snapshot_index::postings::bound_from(pairs, packed(gram + 1, 0), 0);
    lemma_bound_range(pairs, packed(gram as int, 0), 0);
    lemma_bound_range(pairs, packed(gram + 1, 0), 0);
    if high < low {
        assert(pairs[high] >= packed(gram + 1, 0));
        assert(pairs[high] < packed(gram as int, 0));
    }
    assert forall|i: int| low <= i < high implies gram_of(#[trigger] pairs[i]) == gram by {
        if i > low {
            assert(pairs[low] < pairs[i]);
        }
    }
    assert forall|k: int|
        0 <= k < postings.rows.len() && #[trigger] posted(pairs, gram, k) implies drives(
        pairs,
        low,
        high,
        k,
    ) by {
        lemma_pack(gram as int, k);
        let pair = packed(gram as int, k) as u64;
        let i = choose|i: int| 0 <= i < pairs.len() && pairs[i] == pair;
        if i >= high {
            assert(pairs[high] >= packed(gram + 1, 0));
            if i > high {
                assert(pairs[high] < pairs[i]);
            }
        }
        assert(ordinal_of(pairs[i]) == k);
    }
}

/// Stepping a fresh cursor to its end says what is due, in order.
proof fn lemma_fresh(postings: PostingsModel, needle: Seq<u8>, text: bool)
    requires
        postings.wf(),
    ensures
        ({
            let cursor = CandidateCursor::fresh(postings, needle, text);
            let said = emitted(cursor, postings);
            &&& cursor.wf(postings)
            &&& forall|k: int, decision: IndexDecision|
                said.contains((k, decision)) <==> #[trigger] due(cursor, postings, k, decision)
            &&& forall|i: int, j: int|
                0 <= i < j < said.len() ==> (#[trigger] said[i]).0 < (#[trigger] said[j]).0
            &&& needle.len() >= 3 ==> forall|k: int|
                0 <= k < postings.rows.len() && #[trigger] cursor.survives(postings, k) ==> drives(
                    postings.pairs,
                    cursor.driver.start as int,
                    cursor.driver.end as int,
                    k,
                )
        }),
{
    let cursor = CandidateCursor::fresh(postings, needle, text);
    let short = needle.len() < 3;
    lemma_list(cursor, postings);
    let gram = if short {
        0
    } else {
        lemma_gram_stretch(postings, cursor.keys.0);
        lemma_gram_stretch(postings, cursor.keys.1);
        lemma_gram_stretch(postings, cursor.keys.2);
        if cursor.driver == cursor.lists.0 {
            cursor.keys.0
        } else if cursor.driver == cursor.lists.1 {
            cursor.keys.1
        } else {
            cursor.keys.2
        }
    };
    assert(cursor.wf(postings));
    lemma_emitted(cursor, postings, gram as int);
    if !short {
        assert forall|k: int|
            0 <= k < postings.rows.len() && #[trigger] cursor.survives(postings, k) implies drives(
            postings.pairs,
            cursor.driver.start as int,
            cursor.driver.end as int,
            k,
        ) by {
            assert(posted(postings.pairs, cursor.keys.0, k));
            assert(posted(postings.pairs, cursor.keys.1, k));
            assert(posted(postings.pairs, cursor.keys.2, k));
        }
    }
}

/// What a cursor has said and has yet to say is no more than was captured.
pub open spec fn counted(cursor: CandidateCursor, postings: PostingsModel) -> bool {
    cursor.stats.candidates_emitted + cursor.stats.fallback_emitted + emitted(
        cursor,
        postings,
    ).len() <= postings.captured.len()
}

/// Numbers in order that are all on a list in order are no more than the list.
proof fn lemma_no_more(said: Seq<(int, IndexDecision)>, list: Seq<u32>, from: int)
    requires
        0 <= from <= list.len(),
        forall|i: int, j: int| 0 <= i < j < list.len() ==> #[trigger] list[i] < #[trigger] list[j],
        forall|i: int, j: int|
            0 <= i < j < said.len() ==> (#[trigger] said[i]).0 < (#[trigger] said[j]).0,
        forall|i: int| 0 <= i < said.len() ==> waits(list, from, (#[trigger] said[i]).0),
    ensures
        said.len() <= list.len() - from,
    decreases said.len(),
{
    if said.len() > 0 {
        assert(waits(list, from, said[0].0));
        let n = choose|n: int| from <= n < list.len() && #[trigger] list[n] == said[0].0;
        let rest = said.subrange(1, said.len() as int);
        assert forall|i: int| 0 <= i < rest.len() implies waits(
            list,
            n + 1,
            (#[trigger] rest[i]).0,
        ) by {
            assert(rest[i] == said[i + 1]);
            assert(waits(list, from, said[i + 1].0));
            let m = choose|m: int| from <= m < list.len() && #[trigger] list[m] == said[i + 1].0;
            assert(said[0].0 < said[i + 1].0);
            if m < n {
                assert(list[m] < list[n]);
            }
            assert(list[m] == rest[i].0);
        }
        lemma_no_more(rest, list, n + 1);
    }
}

/// A fresh cursor says no more than was captured.
pub proof fn lemma_fresh_counted(postings: PostingsModel, needle: Seq<u8>, text: bool)
    requires
        postings.wf(),
    ensures
        CandidateCursor::fresh(postings, needle, text).wf(postings),
        counted(CandidateCursor::fresh(postings, needle, text), postings),
{
    let cursor = CandidateCursor::fresh(postings, needle, text);
    let said = emitted(cursor, postings);
    let rows = postings.rows;
    lemma_fresh(postings, needle, text);
    lemma_list(cursor, postings);
    lemma_kept_list(rows, list_for(cursor), 0);
    lemma_kept_list(rows, Keep::Captured, 0);
    let list = postings.fallback(cursor.short, cursor.text);
    assert forall|i: int| 0 <= i < said.len() implies waits(
        postings.captured,
        0,
        (#[trigger] said[i]).0,
    ) by {
        let (k, decision) = said[i];
        assert(said.contains((k, decision)));
        assert(due(cursor, postings, k, decision));
        if decision is Fallback {
            let j = choose|j: int| 0 <= j < list.len() && #[trigger] list[j] == k;
            assert(list_for(cursor).keeps(rows[list[j] as int].coverage));
        } else {
            let n = choose|n: int|
                cursor.driver.start <= n < cursor.driver.end && ordinal_of(
                    #[trigger] postings.pairs[n],
                ) == k;
            assert(pair_ok(postings.pairs[n], rows));
        }
        assert(Keep::Captured.keeps(rows[k].coverage));
    }
    lemma_no_more(said, postings.captured, 0);
}

/// A step counts what it says.
pub proof fn lemma_step_counted(cursor: CandidateCursor, postings: PostingsModel)
    requires
        cursor.wf(postings),
        counted(cursor, postings),
    ensures
        counted(cursor.stepped(postings).0, postings),
{
    lemma_list(cursor, postings);
    if steps_left(cursor, postings) > 0 {
        lemma_stepped_wf(cursor, postings);
    }
}

/// What an index says of a needle in a member.
pub open spec fn answer(index: SegmentsModel, k: int, needle: Seq<u8>, text: bool) -> IndexDecision {
    if text {
        index.text_answer(k, Some(needle))
    } else {
        index.raw_answer(k, needle)
    }
}

/// Stepping through the candidates of a needle names, in the order of the
/// members and each once, exactly the members that were captured and that the
/// index does not exclude, and says of each what the index says.
pub proof fn candidates_are_all_but_the_excluded(
    index: SegmentsModel,
    postings: PostingsModel,
    needle: Seq<u8>,
    text: bool,
)
    requires
        index.wf(),
        postings.wf(),
        postings.rows == index.rows,
        transposes(index, postings.pairs),
    ensures
        ({
            let said = emitted(CandidateCursor::fresh(postings, needle, text), postings);
            &&& forall|k: int, decision: IndexDecision| #[trigger]
                said.contains((k, decision)) <==> {
                    &&& 0 <= k < index.rows.len()
                    &&& !(index.rows[k].coverage is Unavailable)
                    &&& decision == answer(index, k, needle, text)
                    &&& decision != IndexDecision::Excluded
                }
            &&& forall|i: int, j: int|
                0 <= i < j < said.len() ==> (#[trigger] said[i]).0 < (#[trigger] said[j]).0
        }),
{
    let cursor = CandidateCursor::fresh(postings, needle, text);
    let said = emitted(cursor, postings);
    let rows = index.rows;
    let pairs = postings.pairs;
    let short = needle.len() < 3;
    let list = postings.fallback(short, text);
    lemma_list(cursor, postings);
    lemma_kept_list(rows, list_for(cursor), 0);
    lemma_fresh(postings, needle, text);
    assert forall|k: int, decision: IndexDecision| #[trigger]
        said.contains((k, decision)) <==> {
            &&& 0 <= k < rows.len()
            &&& !(rows[k].coverage is Unavailable)
            &&& decision == answer(index, k, needle, text)
            &&& decision != IndexDecision::Excluded
        } by {
        assert(said.contains((k, decision)) <==> due(cursor, postings, k, decision));
        if drives(pairs, cursor.driver.start as int, cursor.driver.end as int, k) {
            let i = choose|i: int|
                cursor.driver.start <= i < cursor.driver.end && ordinal_of(#[trigger] pairs[i])
                    == k;
            assert(pair_ok(pairs[i], rows));
        }
        if waits(list, 0, k) {
            let j = choose|j: int| 0 <= j < list.len() && #[trigger] list[j] == k;
            assert(list_for(cursor).keeps(rows[list[j] as int].coverage));
        }
        if 0 <= k < rows.len() {
            if list_for(cursor).keeps(rows[k].coverage) {
                assert(waits(list, 0, k));
            }
            if !short {
                lists_agree_with_the_index(index, postings, needle, text, k);
                lemma_lists_need_a_segment(index, postings, cursor.keys.0, k);
            }
        }
    }
}

/// Only members with a segment have trigrams posted.
proof fn lemma_lists_need_a_segment(
    index: SegmentsModel,
    postings: PostingsModel,
    gram: u32,
    k: int,
)
    requires
        postings.wf(),
        postings.rows == index.rows,
        0 <= k < index.rows.len(),
        gram <= MAX_GRAM,
    ensures
        posted(postings.pairs, gram, k) ==> index.rows[k].coverage.has_segment(),
{
    if posted(postings.pairs, gram, k) {
        lemma_pack(gram as int, k);
        let pair = packed(gram as int, k) as u64;
        let i = choose|i: int| 0 <= i < postings.pairs.len() && postings.pairs[i] == pair;
        assert(pair_ok(postings.pairs[i], postings.rows));
    }
}

} // verus!
