//! When an index excludes a member.
use vstd::prelude::*;

use super::{trigram_at, SegmentsModel};

verus! {

/// A segment has the three bytes of a needle from a place on, as one number, the first
/// byte highest.
pub open spec fn has_three(index: SegmentsModel, k: int, needle: Seq<u8>, at: int) -> bool {
    exists|i: int|
        index.rows[k].start <= i < index.rows[k].start + index.rows[k].count
            && #[trigger] index.grams[i] == needle[at] * 65_536 + needle[at + 1] * 256 + needle[at
            + 2]
}

/// A member is excluded exactly if it has a segment that lacks the first three bytes of
/// the needle, or the last three, or those in the middle. It is left to be verified if the
/// segment has them all. Without a segment, for a needle of fewer than three bytes, and
/// for text in bytes that are no text, the index says nothing.
pub proof fn missing_trigrams_exclude(index: SegmentsModel, k: int, needle: Seq<u8>)
    requires
        0 <= k < index.rows.len(),
    ensures
        ({
            let n = needle.len() as int;
            let all = has_three(index, k, needle, 0) && has_three(index, k, needle, (n - 3) / 2)
                && has_three(index, k, needle, n - 3);
            let segment = index.rows[k].coverage is Utf8 || index.rows[k].coverage is Bytes;
            &&& index.raw_answer(k, needle) is Excluded <==> segment && n >= 3 && !all
            &&& index.raw_answer(k, needle) is Verify <==> segment && n >= 3 && all
            &&& index.raw_answer(k, needle) is Fallback <==> !segment || n < 3
            &&& index.text_answer(k, Some(needle)) is Excluded <==> index.rows[k].coverage is Utf8
                && n >= 3 && !all
            &&& index.text_answer(k, Some(needle)) is Verify <==> index.rows[k].coverage is Utf8
                && n >= 3 && all
            &&& index.text_answer(k, Some(needle)) is Fallback <==> !(index.rows[k].coverage
                is Utf8) || n < 3
            &&& index.text_answer(k, None) is Fallback
        }),
{
    let n = needle.len() as int;
    if n >= 3 {
        assert forall|at: int| 0 <= at <= n - 3 implies index.lists(
            k,
            #[trigger] trigram_at(needle, at),
        ) == has_three(index, k, needle, at) by {
            let gram = trigram_at(needle, at);
            assert(gram == needle[at] * 65_536 + needle[at + 1] * 256 + needle[at + 2]);
            if index.lists(k, gram) {
                let i = choose|i: int|
                    index.rows[k].start <= i < index.end_of(k) && #[trigger] index.grams[i] == gram;
                assert(index.grams[i] == gram);
            }
        }
        assert(trigram_at(needle, super::probe_at(n, 0)) == trigram_at(needle, 0));
        assert(trigram_at(needle, super::probe_at(n, 1)) == trigram_at(needle, (n - 3) / 2));
        assert(trigram_at(needle, super::probe_at(n, 2)) == trigram_at(needle, n - 3));
        let all = has_three(index, k, needle, 0) && has_three(index, k, needle, (n - 3) / 2)
            && has_three(index, k, needle, n - 3);
        if all {
            assert forall|p: int| 0 <= p < 3 implies index.lists(
                k,
                #[trigger] trigram_at(needle, super::probe_at(n, p)),
            ) by {
                assert(p == 0 || p == 1 || p == 2);
            }
        }
    }
}

} // verus!
