//! Postings are the segments of an index, by trigram instead of by member.
use vstd::prelude::*;

use crate::search::snapshot_index::postings::stored::{counts_match, heads_ok, named};
use crate::search::snapshot_index::postings::{
    gram_of, lemma_listed, lemma_pack, listed_from, ordinal_of, packed, posted, transposes,
    CandidateCursor, PostingsModel,
};
use crate::search::snapshot_index::round_trip::lemma_segment_heads;
use crate::search::snapshot_index::{
    probe_at, segments_row, trigram_at, IndexDecision, SegmentsModel, MAX_GRAM,
};

verus! {

/// Leaving out one pair leaves out one mention.
proof fn lemma_named_without(pairs: Seq<u64>, n: int, k: int, i: int)
    requires
        0 <= i < pairs.len(),
        0 <= n <= pairs.len(),
    ensures
        n <= i ==> named(pairs.remove(i), n, k) == named(pairs, n, k),
        n > i ==> named(pairs, n, k) == named(pairs.remove(i), n - 1, k) + if ordinal_of(pairs[i])
            == k {
            1int
        } else {
            0int
        },
    decreases n,
{
    let less = pairs.remove(i);
    if n > 0 {
        lemma_named_without(pairs, n - 1, k, i);
        if n <= i {
            assert(less[n - 1] == pairs[n - 1]);
        } else if n - 1 > i {
            assert(less[n - 2] == pairs[n - 1]);
        }
    }
}

/// The order of pairs does not matter to how often a member is named.
proof fn lemma_named_same(a: Seq<u64>, b: Seq<u64>, k: int)
    requires
        a.to_multiset() == b.to_multiset(),
    ensures
        a.len() == b.len(),
        named(a, a.len() as int, k) == named(b, b.len() as int, k),
    decreases a.len(),
{
    broadcast use vstd::seq_lib::group_to_multiset_ensures;

    assert(a.len() == a.to_multiset().len());
    assert(b.len() == b.to_multiset().len());
    if a.len() > 0 {
        let n = a.len() as int;
        let x = a[n - 1];
        assert(a.contains(x));
        assert(b.to_multiset().count(x) > 0);
        assert(b.contains(x));
        let i = choose|i: int| 0 <= i < b.len() && b[i] == x;
        let less = b.remove(i);
        assert(a.remove(n - 1).to_multiset() =~= a.to_multiset().remove(x));
        assert(less.to_multiset() =~= b.to_multiset().remove(x));
        lemma_named_same(a.remove(n - 1), less, k);
        lemma_named_without(a, n, k, n - 1);
        lemma_named_without(b, n, k, i);
    }
}

/// Mentions in pairs behind others add up.
proof fn lemma_named_add(a: Seq<u64>, b: Seq<u64>, n: int, k: int)
    requires
        0 <= n <= b.len(),
    ensures
        named(a + b, a.len() + n, k) == named(a, a.len() as int, k) + named(b, n, k),
    decreases n,
{
    if n > 0 {
        lemma_named_add(a, b, n - 1, k);
        assert((a + b)[a.len() + n - 1] == b[n - 1]);
    } else {
        lemma_named_prefix(a, b, a.len() as int, k);
    }
}

proof fn lemma_named_prefix(a: Seq<u64>, b: Seq<u64>, n: int, k: int)
    requires
        0 <= n <= a.len(),
    ensures
        named(a + b, n, k) == named(a, n, k),
    decreases n,
{
    if n > 0 {
        lemma_named_prefix(a, b, n - 1, k);
        assert((a + b)[n - 1] == a[n - 1]);
    }
}

/// Pairs of one member name it and no other.
proof fn lemma_named_block(block: Seq<u64>, n: int, j: int, k: int)
    requires
        0 <= n <= block.len(),
        forall|i: int| 0 <= i < block.len() ==> ordinal_of(#[trigger] block[i]) == j,
    ensures
        named(block, n, k) == if j == k {
            n
        } else {
            0
        },
    decreases n,
{
    if n > 0 {
        lemma_named_block(block, n - 1, j, k);
    }
}

/// The pairs of one row.
pub open spec fn block_of(index: SegmentsModel, k: int) -> Seq<u64> {
    Seq::new(
        index.rows[k].count as nat,
        |i: int| packed(index.grams[index.rows[k].start + i] as int, k) as u64,
    )
}

/// The pairs of a row name it and the row's trigrams.
proof fn lemma_block(index: SegmentsModel, j: int)
    requires
        index.wf(),
        0 <= j < index.rows.len(),
    ensures
        forall|i: int|
            0 <= i < block_of(index, j).len() ==> ordinal_of(#[trigger] block_of(index, j)[i]) == j
                && gram_of(block_of(index, j)[i]) == index.grams[index.rows[j].start + i],
{
    segments_row(index.rows, index.grams, j);
    assert forall|i: int| 0 <= i < block_of(index, j).len() implies ordinal_of(
        #[trigger] block_of(index, j)[i],
    ) == j && gram_of(block_of(index, j)[i]) == index.grams[index.rows[j].start + i] by {
        lemma_pack(index.grams[index.rows[j].start + i] as int, j);
    }
}

/// Every row is listed as often as it says.
proof fn lemma_named_listed(index: SegmentsModel, j: int, k: int)
    requires
        index.wf(),
        0 <= j <= index.rows.len(),
        0 <= k < index.rows.len(),
    ensures
        named(listed_from(index, j), listed_from(index, j).len() as int, k) == if j <= k {
            index.rows[k].count as int
        } else {
            0
        },
    decreases index.rows.len() - j,
{
    if j < index.rows.len() {
        let block = block_of(index, j);
        let rest = listed_from(index, j + 1);
        assert(listed_from(index, j) =~= block + rest);
        lemma_named_listed(index, j + 1, k);
        lemma_block(index, j);
        lemma_named_block(block, block.len() as int, j, k);
        lemma_named_add(block, rest, rest.len() as int, k);
    }
}

/// The pairs made of an index name every member as often as the index lists
/// trigrams of it, so they can be stored and opened again.
pub proof fn transposed_pairs_match(index: SegmentsModel, pairs: Seq<u64>)
    requires
        index.wf(),
        transposes(index, pairs),
    ensures
        pairs.len() == index.grams.len(),
        counts_match(index.rows, pairs),
        heads_ok(index.rows, pairs.len() as int),
{
    let all = listed_from(index, 0);
    assert forall|k: int| 0 <= k < index.rows.len() implies #[trigger] named(
        pairs,
        pairs.len() as int,
        k,
    ) == index.rows[k].count by {
        lemma_named_same(pairs, all, k);
        lemma_named_listed(index, 0, k);
    }
    lemma_named_same(pairs, all, 0);
    lemma_listed(index, 0);
    if index.rows.len() > 0 {
        segments_row(index.rows, index.grams, 0);
    }
    lemma_segment_heads(index.rows, index.grams, index.rows.len() as int);
}

/// A pair is listed exactly where its row lists its trigram.
proof fn lemma_listed_iff(index: SegmentsModel, j: int, gram: u32, k: int)
    requires
        index.wf(),
        0 <= j <= index.rows.len(),
        0 <= k < index.rows.len(),
        gram <= MAX_GRAM,
    ensures
        listed_from(index, j).contains(packed(gram as int, k) as u64) <==> j <= k && index.lists(
            k,
            gram,
        ),
    decreases index.rows.len() - j,
{
    let pair = packed(gram as int, k) as u64;
    lemma_pack(gram as int, k);
    if j < index.rows.len() {
        let block = block_of(index, j);
        let rest = listed_from(index, j + 1);
        let all = listed_from(index, j);
        let start = index.rows[j].start as int;
        assert(all =~= block + rest);
        lemma_listed_iff(index, j + 1, gram, k);
        lemma_block(index, j);
        segments_row(index.rows, index.grams, j);
        if all.contains(pair) {
            let i = choose|i: int| 0 <= i < all.len() && all[i] == pair;
            if i < block.len() {
                assert(block[i] == pair);
                assert(index.grams[start + i] == gram);
            } else {
                assert(rest[i - block.len()] == pair);
                assert(rest.contains(pair));
            }
        }
        if j <= k && index.lists(k, gram) {
            if j == k {
                let i = choose|i: int| start <= i < index.end_of(k) && #[trigger] index.grams[i]
                    == gram;
                assert(block[i - start] == pair);
                assert(all[i - start] == pair);
            } else {
                let i = choose|i: int| 0 <= i < rest.len() && rest[i] == pair;
                assert(all[block.len() + i] == pair);
            }
        }
    }
}

/// The postings of an index have a trigram for a member exactly where the index
/// lists it for the member.
pub proof fn postings_list_the_same(index: SegmentsModel, pairs: Seq<u64>, gram: u32, k: int)
    requires
        index.wf(),
        transposes(index, pairs),
        0 <= k < index.rows.len(),
        gram <= MAX_GRAM,
    ensures
        posted(pairs, gram, k) <==> index.lists(k, gram),
{
    broadcast use vstd::seq_lib::group_to_multiset_ensures;

    let pair = packed(gram as int, k) as u64;
    let all = listed_from(index, 0);
    lemma_listed_iff(index, 0, gram, k);
    assert(pairs.contains(pair) <==> pairs.to_multiset().count(pair) > 0);
    assert(all.contains(pair) <==> all.to_multiset().count(pair) > 0);
}

/// All three lists of a needle have a member exactly where the index says that
/// the member's bytes are to be looked at.
pub proof fn lists_agree_with_the_index(
    index: SegmentsModel,
    postings: PostingsModel,
    needle: Seq<u8>,
    text: bool,
    k: int,
)
    requires
        index.wf(),
        transposes(index, postings.pairs),
        needle.len() >= 3,
        0 <= k < index.rows.len(),
    ensures
        CandidateCursor::fresh(postings, needle, text).survives(postings, k) <==> index.probed(
            k,
            needle,
        ) == IndexDecision::Verify,
{
    let n = needle.len() as int;
    let a = trigram_at(needle, probe_at(n, 0));
    let b = trigram_at(needle, probe_at(n, 1));
    let c = trigram_at(needle, probe_at(n, 2));
    postings_list_the_same(index, postings.pairs, a, k);
    postings_list_the_same(index, postings.pairs, b, k);
    postings_list_the_same(index, postings.pairs, c, k);
    if CandidateCursor::fresh(postings, needle, text).survives(postings, k) {
        assert forall|p: int| 0 <= p < 3 implies index.lists(
            k,
            #[trigger] trigram_at(needle, probe_at(n, p)),
        ) by {
            if p == 0 {
            } else if p == 1 {
            } else {
                assert(p == 2);
            }
        }
    }
}

} // verus!
