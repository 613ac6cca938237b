//! What an archive gives back.
use vstd::prelude::*;

use super::{
    is_restored, missing_upto, saved_upto, saves, SavedData, SavedEntry, SavedMember,
    SnapshotData, SnapshotEntry,
};
use crate::identity::{FileId, SourceRevision};
use crate::search::workspace::captures::{CaptureSlot, WorkspaceCaptures};

verus! {

/// The host gave an entry back as it was given to it.
pub open spec fn given_back(entry: SnapshotEntry, found: SavedEntry) -> bool {
    &&& found.path@ == entry.path@
    &&& found.observed_bytes == entry.observed_bytes
    &&& match entry.data {
        SnapshotData::Captured(bytes) => found.data matches SavedData::Captured(kept) && kept@
            == bytes@,
        SnapshotData::Unavailable(_) => found.data is Unavailable,
    }
}

/// A workspace that is saved and read back has its files under their paths, in order,
/// each with the bytes that were captured of it, or without any if there were none.
pub proof fn saved_files_are_read_back<S: Fn(&Vec<u8>) -> String>(
    entry: SnapshotEntry,
    captures: WorkspaceCaptures,
    i: int,
    found: SavedEntry,
    member: SavedMember,
    first_file: FileId,
    first_revision: SourceRevision,
    escape: S,
)
    requires
        saves(entry, captures, i),
        given_back(entry, found),
        is_restored(member, found, first_file, first_revision, i, escape),
        0 <= i,
        first_file.value + i <= u64::MAX,
        first_revision.value + i <= u64::MAX,
    ensures
        member.path@ == captures.catalog@.entries[i].path,
        member.file.owner == first_file.owner,
        member.file.value == first_file.value + i,
        member.source is Some <==> captures.slots@[i] is Ready,
        member.unavailable is Some <==> captures.slots@[i] is Unavailable,
        captures.slots@[i] matches CaptureSlot::Ready(capture) ==> {
            &&& member.source->Some_0.bytes@ == capture.bytes@
            &&& member.observed_bytes == capture.bytes@.len()
            &&& member.source->Some_0@.file == member.file
            &&& member.source->Some_0@.revision.value == first_revision.value + i
        },
{
}

/// Places among the first, in order: all at which there is, or is not, something, and no
/// others.
pub open spec fn places(n: int, there: spec_fn(int) -> bool, at: Seq<int>) -> bool {
    &&& forall|k: int| 0 <= k < at.len() ==> 0 <= #[trigger] at[k] < n && there(at[k])
    &&& forall|k: int, l: int| 0 <= k < l < at.len() ==> #[trigger] at[k] < #[trigger] at[l]
    &&& forall|i: int| 0 <= i < n && #[trigger] there(i) ==> at.contains(i)
}

pub proof fn lemma_more(n: int, there: spec_fn(int) -> bool, at: Seq<int>) -> (more: Seq<int>)
    requires
        0 <= n,
        places(n, there, at),
    ensures
        places(n + 1, there, more),
        more == if there(n) {
            at.push(n)
        } else {
            at
        },
{
    if there(n) {
        let more = at.push(n);
        assert forall|i: int| 0 <= i < n + 1 && #[trigger] there(i) implies more.contains(i) by {
            if i == n {
                assert(more[at.len() as int] == n);
            } else {
                let k = choose|k: int| 0 <= k < at.len() && at[k] == i;
                assert(more[k] == i);
            }
        }
        more
    } else {
        at
    }
}

/// A search of an archive sees every file with bytes, in order and with these bytes, and
/// is told of every file without any.
pub proof fn saved_inputs_are_the_files(members: Seq<SavedMember>, n: int) -> (r: (
    Seq<int>,
    Seq<int>,
))
    requires
        0 <= n <= members.len(),
    ensures
        places(n, |i: int| members[i].source is Some, r.0),
        places(n, |i: int| members[i].source is None, r.1),
        saved_upto(members, n).len() == r.0.len(),
        missing_upto(members, n).len() == r.1.len(),
        forall|k: int|
            0 <= k < r.0.len() ==> (#[trigger] saved_upto(members, n)[k]).file
                == members[r.0[k]].file && saved_upto(members, n)[k].source.bytes
                == members[r.0[k]].source->Some_0.bytes@,
        forall|k: int|
            0 <= k < r.1.len() ==> #[trigger] missing_upto(members, n)[k] == members[r.1[k]].file,
    decreases n,
{
    let some = |i: int| members[i].source is Some;
    let none = |i: int| members[i].source is None;
    if n > 0 {
        let (a, b) = saved_inputs_are_the_files(members, n - 1);
        let c = lemma_more(n - 1, some, a);
        let d = lemma_more(n - 1, none, b);
        (c, d)
    } else {
        (Seq::empty(), Seq::empty())
    }
}

} // verus!
