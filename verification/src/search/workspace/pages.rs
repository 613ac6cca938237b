//! Which of the files that are found a catalog holds.
use vstd::prelude::*;

use super::{is_key, CatalogModel, FoundModel, RulesModel, WorkspaceLimit, WorkspaceStage};

verus! {

/// A file that is not left out by a rule.
pub open spec fn wanted(found: FoundModel) -> bool {
    found.kind is File && !found.excluded
}

/// Places between two, in order: all of those with a wanted file, and no others.
pub open spec fn wanted_places(found: Seq<FoundModel>, from: int, to: int, at: Seq<int>) -> bool {
    &&& forall|k: int|
        0 <= k < at.len() ==> from <= #[trigger] at[k] < to && wanted(found[at[k]])
    &&& forall|k: int, l: int| 0 <= k < l < at.len() ==> #[trigger] at[k] < #[trigger] at[l]
    &&& forall|i: int| from <= i < to && wanted(#[trigger] found[i]) ==> at.contains(i)
}

/// A catalog goes on from an earlier one with the files at these places, each with its
/// path and its size as far as that is known.
pub open spec fn goes_on_with<E: Fn(&Vec<u8>) -> String>(
    after: CatalogModel,
    before: CatalogModel,
    found: Seq<FoundModel>,
    at: Seq<int>,
    escape: E,
) -> bool {
    let n = before.entries.len() as int;
    &&& after.entries.len() == n + at.len()
    &&& forall|i: int| 0 <= i < n ==> #[trigger] after.entries[i] == before.entries[i]
    &&& forall|k: int|
        0 <= k < at.len() ==> {
            let entry = #[trigger] after.entries[n + k];
            &&& entry.path == found[at[k]].path
            &&& found[at[k]].observed_len matches Some(length) ==> entry.observed_bytes == length
            &&& is_key(entry.search_key, entry.path, escape)
        }
}

/// A catalog takes the wanted files of a page, in order and each once: all of them, or as
/// many as the limits allow. Then it says which limit it ran into, and no more was wanted
/// than what did not fit.
pub proof fn pages_are_taken_whole_or_to_a_limit<E: Fn(&Vec<u8>) -> String>(
    after: CatalogModel,
    before: CatalogModel,
    found: Seq<FoundModel>,
    i: int,
    stopped: bool,
    escape: E,
) -> (r: (int, Seq<int>))
    requires
        0 <= i <= found.len(),
        after.collects(before, found, i, stopped, escape),
        before.path_bytes <= before.limits.max_total_path_bytes,
    ensures
        i <= r.0 <= found.len(),
        wanted_places(found, i, r.0, r.1),
        goes_on_with(after, before, found, r.1, escape),
        after.limits == before.limits,
        !stopped ==> r.0 == found.len() && after.limit == before.limit,
        stopped ==> r.0 < found.len() && wanted(found[r.0]) && (after.limit == Some(
            WorkspaceLimit::Files,
        ) && after.entries.len() == before.limits.max_files || after.limit == Some(
            WorkspaceLimit::Paths,
        ) && after.path_bytes + found[r.0].path.len() > before.limits.max_total_path_bytes),
    decreases found.len() - i,
{
    if i >= found.len() {
        (i, Seq::empty())
    } else if !wanted(found[i]) {
        pages_are_taken_whole_or_to_a_limit(after, before, found, i + 1, stopped, escape)
    } else if before.entries.len() == before.limits.max_files || found[i].path.len()
        > before.limits.max_total_path_bytes - before.path_bytes {
        (i, Seq::empty())
    } else {
        let key = choose|key: Seq<char>| #[trigger]
            is_key(key, found[i].path, escape) && after.collects(
                before.with_file(found[i], key),
                found,
                i + 1,
                stopped,
                escape,
            );
        let next = before.with_file(found[i], key);
        let (n, rest) = pages_are_taken_whole_or_to_a_limit(
            after,
            next,
            found,
            i + 1,
            stopped,
            escape,
        );
        let at = seq![i] + rest;
        let m = before.entries.len() as int;
        assert forall|j: int| 0 <= j < m implies #[trigger] after.entries[j]
            == before.entries[j] by {
            assert(after.entries[j] == next.entries[j]);
        }
        assert(after.entries[m] == next.entries[m]);
        assert forall|k: int| 0 <= k < at.len() implies {
            let entry = #[trigger] after.entries[m + k];
            &&& entry.path == found[at[k]].path
            &&& found[at[k]].observed_len matches Some(length) ==> entry.observed_bytes == length
            &&& is_key(entry.search_key, entry.path, escape)
        } by {
            if k > 0 {
                assert(at[k] == rest[k - 1]);
                assert(after.entries[m + 1 + (k - 1)] == after.entries[m + k]);
            }
        }
        assert forall|p: int| i <= p < n && wanted(#[trigger] found[p]) implies at.contains(p) by {
            if p == i {
                assert(at[0] == i);
            } else {
                let k = choose|k: int| 0 <= k < rest.len() && rest[k] == p;
                assert(at[k + 1] == p);
            }
        }
        assert forall|k: int, l: int| 0 <= k < l < at.len() implies #[trigger] at[k]
            < #[trigger] at[l] by {
            assert(at[l] == rest[l - 1]);
            if k > 0 {
                assert(at[k] == rest[k - 1]);
            }
        }
        assert forall|k: int| 0 <= k < at.len() implies i <= #[trigger] at[k] < n && wanted(
            found[at[k]],
        ) by {
            if k > 0 {
                assert(at[k] == rest[k - 1]);
            }
        }
        (n, at)
    }
}

/// A catalog that is frozen holds the files that it held, and is complete exactly if the
/// walk was closed, ran into no limit and no failure, left nothing out, and read all its
/// rules.
pub proof fn frozen_catalogs_hold_the_same_files<F: FnOnce(&Vec<u8>) -> String>(
    before: CatalogModel,
    after: CatalogModel,
    closed: bool,
    rules: Option<RulesModel>,
    fingerprint: F,
)
    requires
        after.freezes(before, closed, rules, Ok(WorkspaceStage::Ready), fingerprint),
    ensures
        forall|k: int|
            0 <= k < before.entries.len() ==> after.entries.contains(#[trigger] before.entries[k]),
        after.entries.len() == before.entries.len(),
        after.stage is Ready,
        after.discovery_complete <==> closed && before.limit is None && before.discovery_error
            is None && before.aggregate.unavailable == 0 && before.aggregate.cycles == 0
            && before.aggregate.depth_limited == 0 && before.aggregate.path_limited == 0
            && before.aggregate.queue_refused == 0 && (rules matches Some(read) ==> read.complete),
{
    before.entries.to_multiset_ensures();
    after.entries.to_multiset_ensures();
    assert forall|k: int| 0 <= k < before.entries.len() implies after.entries.contains(
        #[trigger] before.entries[k],
    ) by {
        assert(before.entries.contains(before.entries[k]));
        assert(before.entries.to_multiset().count(before.entries[k]) > 0);
    }
}

} // verus!
