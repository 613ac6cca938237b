//! What a comparison tells of the paths of two snapshots.
use vstd::prelude::*;

use super::{
    in_path_order, reports_are_about_the_right_paths, steps_stay_aligned, SnapshotChange,
    SnapshotChangeKind, SnapshotComparison, SnapshotComparisonStats,
};
use crate::search::archive::{DirectoryModel, MemberModel, PagedMemberData};

verus! {

/// The length and digest of a member that was saved.
pub open spec fn saved(member: MemberModel) -> Option<(usize, Seq<u8>)> {
    match member.data {
        PagedMemberData::Captured { byte_length, digest } => Some((byte_length, digest)),
        PagedMemberData::Unavailable => None,
    }
}

/// A path that both snapshots have is reported as unchanged exactly if both saved it
/// with the same length and the same digest, as changed exactly if both saved it and
/// one of the two differs, and as unavailable otherwise.
pub proof fn shared_paths_change_with_their_bytes(
    c: SnapshotComparison,
    before: DirectoryModel,
    after: DirectoryModel,
)
    requires
        c.wf(before, after),
    ensures
        c.stepped(before, after).1 matches Some(change) ==> (change.before matches Some(i) ==> (
        change.after matches Some(j) ==> {
            let one = saved(before.members[i as int]);
            let other = saved(after.members[j as int]);
            &&& change.kind == SnapshotChangeKind::Unchanged <==> one is Some && one == other
            &&& change.kind == SnapshotChangeKind::Changed <==> one is Some && other is Some
                && one != other
            &&& change.kind == SnapshotChangeKind::Unavailable <==> one is None || other is None
        })),
{
}

/// A path of one snapshot alone is an addition or a removal exactly if it was saved,
/// the policies are the same and the other snapshot is complete. Else it is only said
/// to be on its side, or unavailable where it was not saved.
pub proof fn lone_paths_are_claimed_only_against_complete_snapshots(
    c: SnapshotComparison,
    before: DirectoryModel,
    after: DirectoryModel,
)
    requires
        c.wf(before, after),
    ensures
        c.stepped(before, after).1 matches Some(change) ==> {
            &&& (change.before matches Some(i) && change.after is None) ==> {
                let one = saved(before.members[change.before->0 as int]);
                change.kind == (if one is None {
                    SnapshotChangeKind::Unavailable
                } else if c.policies_match && after.discovery_complete {
                    SnapshotChangeKind::Removed
                } else {
                    SnapshotChangeKind::OnlyBefore
                })
            }
            &&& (change.after matches Some(j) && change.before is None) ==> {
                let other = saved(after.members[change.after->0 as int]);
                change.kind == (if other is None {
                    SnapshotChangeKind::Unavailable
                } else if c.policies_match && before.discovery_complete {
                    SnapshotChangeKind::Added
                } else {
                    SnapshotChangeKind::OnlyAfter
                })
            }
        },
{
}

/// What was counted under a kind.
pub open spec fn tally(stats: SnapshotComparisonStats, kind: SnapshotChangeKind) -> int {
    match kind {
        SnapshotChangeKind::Unchanged => stats.unchanged as int,
        SnapshotChangeKind::Changed => stats.changed as int,
        SnapshotChangeKind::Added => stats.added as int,
        SnapshotChangeKind::Removed => stats.removed as int,
        SnapshotChangeKind::OnlyBefore => stats.only_before as int,
        SnapshotChangeKind::OnlyAfter => stats.only_after as int,
        SnapshotChangeKind::Unavailable => stats.unavailable as int,
    }
}

/// A change is counted once, under its kind and no other.
pub proof fn changes_are_counted_under_their_kind(
    c: SnapshotComparison,
    before: DirectoryModel,
    after: DirectoryModel,
    kind: SnapshotChangeKind,
)
    requires
        c.wf(before, after),
    ensures
        ({
            let (next, said) = c.stepped(before, after);
            &&& tally(next.stats, kind) == tally(c.stats, kind) + if said is Some && said->0.kind
                == kind {
                1int
            } else {
                0int
            }
            &&& next.stats.compared_paths == c.stats.compared_paths + if said is Some {
                1int
            } else {
                0int
            }
        }),
{
}

/// No member has this path.
pub open spec fn lacks(directory: DirectoryModel, path: Seq<u8>) -> bool {
    forall|i: int| 0 <= i < directory.members.len() ==> (#[trigger] directory.members[i]).path != path
}

/// A comparison from its start to its end: where it stood, and what it said.
pub ghost struct Walk {
    pub places: Seq<SnapshotComparison>,
    pub changes: Seq<SnapshotChange>,
}

impl Walk {
    /// It starts at the first paths, goes on one report at a time, and ends where
    /// nothing more is reported.
    pub open spec fn valid(self, before: DirectoryModel, after: DirectoryModel) -> bool {
        &&& self.places.len() == self.changes.len() + 1
        &&& before.members.len() + after.members.len() <= usize::MAX
        &&& in_path_order(before.members)
        &&& in_path_order(after.members)
        &&& self.places[0].before == 0 && self.places[0].after == 0 && !self.places[0].finished
        &&& self.places[0].stats.compared_paths == 0 && self.places[0].stats.adds_up()
        &&& forall|k: int|
            0 <= k < self.changes.len() ==> (self.places[k + 1], Some(#[trigger] self.changes[k]))
                == self.places[k].stepped(before, after)
        &&& self.places.last().stepped(before, after).1 is None
    }

    /// A path of the first snapshot was told of, before so many reports.
    pub open spec fn told_before(self, n: int, i: int) -> bool {
        exists|k: int|
            0 <= k < n && (#[trigger] self.changes[k]).before == Some(i as usize)
                && self.places[k].before == i
    }

    /// A path of the second snapshot was told of, before so many reports.
    pub open spec fn told_after(self, n: int, j: int) -> bool {
        exists|k: int|
            0 <= k < n && (#[trigger] self.changes[k]).after == Some(j as usize)
                && self.places[k].after == j
    }
}

proof fn lemma_walk(walk: Walk, before: DirectoryModel, after: DirectoryModel, n: int)
    requires
        walk.valid(before, after),
        0 <= n <= walk.changes.len(),
    ensures
        walk.places[n].wf(before, after),
        walk.places[n].aligned(before, after),
        !walk.places[n].finished,
        walk.places[n].policies_match == walk.places[0].policies_match,
        forall|i: int| 0 <= i < walk.places[n].before ==> #[trigger] walk.told_before(n, i),
        forall|j: int| 0 <= j < walk.places[n].after ==> #[trigger] walk.told_after(n, j),
    decreases n,
{
    if n > 0 {
        lemma_walk(walk, before, after, n - 1);
        let here = walk.places[n - 1];
        let said = walk.changes[n - 1];
        steps_stay_aligned(here, before, after);
        assert(walk.places[n] == here.stepped(before, after).0);
        assert forall|i: int| 0 <= i < walk.places[n].before implies #[trigger] walk.told_before(
            n,
            i,
        ) by {
            if i >= here.before {
                assert(walk.changes[n - 1].before == Some(i as usize));
            } else {
                assert(walk.told_before(n - 1, i));
                let k = choose|k: int|
                    0 <= k < n - 1 && (#[trigger] walk.changes[k]).before == Some(i as usize)
                        && walk.places[k].before == i;
                assert(walk.changes[k].before == Some(i as usize));
            }
        }
        assert forall|j: int| 0 <= j < walk.places[n].after implies #[trigger] walk.told_after(
            n,
            j,
        ) by {
            if j >= here.after {
                assert(walk.changes[n - 1].after == Some(j as usize));
            } else {
                assert(walk.told_after(n - 1, j));
                let k = choose|k: int|
                    0 <= k < n - 1 && (#[trigger] walk.changes[k]).after == Some(j as usize)
                        && walk.places[k].after == j;
                assert(walk.changes[k].after == Some(j as usize));
            }
        }
    }
}

/// Places only go on.
proof fn lemma_onward(walk: Walk, before: DirectoryModel, after: DirectoryModel, m: int, n: int)
    requires
        walk.valid(before, after),
        0 <= m <= n <= walk.changes.len(),
    ensures
        walk.places[m].before <= walk.places[n].before,
        walk.places[m].after <= walk.places[n].after,
    decreases n - m,
{
    if m < n {
        lemma_onward(walk, before, after, m, n - 1);
        lemma_walk(walk, before, after, n - 1);
        let said = walk.changes[n - 1];
        assert(walk.places[n] == walk.places[n - 1].stepped(before, after).0);
    }
}

/// A comparison that came to its end has told of every path of the first snapshot
/// exactly once: together with the same path of the second where that has it, and
/// alone where it has not.
pub proof fn every_earlier_path_is_told_of_once(
    walk: Walk,
    before: DirectoryModel,
    after: DirectoryModel,
    i: int,
)
    requires
        walk.valid(before, after),
        0 <= i < before.members.len(),
    ensures
        exists|k: int|
            {
                &&& 0 <= k < walk.changes.len()
                &&& (#[trigger] walk.changes[k]).before == Some(i as usize)
                &&& match walk.changes[k].after {
                    Some(j) => j < after.members.len() && after.members[j as int].path
                        == before.members[i].path,
                    None => lacks(after, before.members[i].path),
                }
            },
        forall|k: int, l: int|
            0 <= k < walk.changes.len() && 0 <= l < walk.changes.len() && (
            #[trigger] walk.changes[k]).before == Some(i as usize) && (
            #[trigger] walk.changes[l]).before == Some(i as usize) ==> k == l,
{
    let n = walk.changes.len() as int;
    lemma_walk(walk, before, after, n);
    assert(walk.places[n].before == before.members.len());
    assert(walk.told_before(n, i));
    let k = choose|k: int|
        0 <= k < n && (#[trigger] walk.changes[k]).before == Some(i as usize)
            && walk.places[k].before == i;
    lemma_walk(walk, before, after, k);
    reports_are_about_the_right_paths(walk.places[k], before, after);
    assert(walk.changes[k].before == Some(i as usize));
    assert forall|k: int, l: int|
        0 <= k < walk.changes.len() && 0 <= l < walk.changes.len() && (
        #[trigger] walk.changes[k]).before == Some(i as usize) && (
        #[trigger] walk.changes[l]).before == Some(i as usize) implies k == l by {
        lemma_walk(walk, before, after, k);
        lemma_walk(walk, before, after, l);
        if k < l {
            lemma_onward(walk, before, after, k + 1, l);
        }
        if l < k {
            lemma_onward(walk, before, after, l + 1, k);
        }
    }
}

/// A comparison that came to its end has told of every path of the second snapshot
/// exactly once, in the same way.
pub proof fn every_later_path_is_told_of_once(
    walk: Walk,
    before: DirectoryModel,
    after: DirectoryModel,
    j: int,
)
    requires
        walk.valid(before, after),
        0 <= j < after.members.len(),
    ensures
        exists|k: int|
            {
                &&& 0 <= k < walk.changes.len()
                &&& (#[trigger] walk.changes[k]).after == Some(j as usize)
                &&& match walk.changes[k].before {
                    Some(i) => i < before.members.len() && before.members[i as int].path
                        == after.members[j].path,
                    None => lacks(before, after.members[j].path),
                }
            },
        forall|k: int, l: int|
            0 <= k < walk.changes.len() && 0 <= l < walk.changes.len() && (
            #[trigger] walk.changes[k]).after == Some(j as usize) && (
            #[trigger] walk.changes[l]).after == Some(j as usize) ==> k == l,
{
    let n = walk.changes.len() as int;
    lemma_walk(walk, before, after, n);
    assert(walk.places[n].after == after.members.len());
    assert(walk.told_after(n, j));
    let k = choose|k: int|
        0 <= k < n && (#[trigger] walk.changes[k]).after == Some(j as usize)
            && walk.places[k].after == j;
    lemma_walk(walk, before, after, k);
    reports_are_about_the_right_paths(walk.places[k], before, after);
    assert(walk.changes[k].after == Some(j as usize));
    assert forall|k: int, l: int|
        0 <= k < walk.changes.len() && 0 <= l < walk.changes.len() && (
        #[trigger] walk.changes[k]).after == Some(j as usize) && (
        #[trigger] walk.changes[l]).after == Some(j as usize) implies k == l by {
        lemma_walk(walk, before, after, k);
        lemma_walk(walk, before, after, l);
        if k < l {
            lemma_onward(walk, before, after, k + 1, l);
        }
        if l < k {
            lemma_onward(walk, before, after, l + 1, k);
        }
    }
}

} // verus!
