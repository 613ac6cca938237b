//! What the selections of a trail name.
use vstd::prelude::*;

use super::{is_pinned, resolved, selectable, TrailEntry, TrailNavigator, TrailReadError};
use crate::envelope::Sha256Digest;
use crate::identity::ByteRange;
use crate::search::archive::paths::paths_are_found;
use crate::search::archive::{DirectoryModel, PagedMemberData, PagedSnapshotError};
use crate::search::member_scan::VerifiedMember;

verus! {

/// A member has the bytes that a selection was made of, under its path, and the range.
pub open spec fn named(entry: TrailEntry, directory: DirectoryModel, k: int) -> bool {
    &&& entry.archive.data() == directory.digest
    &&& 0 <= k < directory.members.len()
    &&& directory.members[k].path == entry.path@
    &&& directory.members[k].data matches PagedMemberData::Captured { byte_length, digest }
    &&& digest == entry.source.data()
    &&& byte_length == entry.source_length
    &&& entry.range.end <= byte_length
}

/// A selection is resolved to the member that it names, and only to that one.
pub proof fn selections_resolve_to_what_they_name(entry: TrailEntry, directory: DirectoryModel, k: int)
    requires
        directory.members.len() <= usize::MAX,
    ensures
        resolved(entry, directory) matches Ok(n) ==> named(entry, directory, n as int),
        named(entry, directory, k) && (forall|j: int|
            0 <= j < directory.members.len() && j != k ==> (#[trigger] directory.members[j]).path
                != entry.path@) ==> resolved(entry, directory) == Ok::<usize, TrailReadError>(
            k as usize,
        ),
{
    paths_are_found(directory.members, entry.path@, 0);
}

/// A selection that was made of a member of an archive names that member, with the range
/// and the note that were asked for, and is resolved to it.
pub proof fn selections_name_what_was_selected<
    L: FnOnce(usize) -> Result<VerifiedMember, PagedSnapshotError>,
    C: FnOnce() -> bool,
>(
    entry: TrailEntry,
    archive: Sha256Digest,
    directory: DirectoryModel,
    path: Seq<u8>,
    range: ByteRange,
    rationale: Seq<char>,
    load: L,
    canceled: C,
)
    requires
        directory.members.len() <= usize::MAX,
        archive.data() == directory.digest,
        selectable(directory, path, range) matches Ok((ordinal, length, digest)) && is_pinned(
            Ok(entry),
            archive,
            path,
            range,
            rationale,
            ordinal,
            length,
            digest,
            load,
            canceled,
        ),
    ensures
        entry.path@ == path,
        entry.range == range,
        entry.rationale@ == rationale,
        resolved(entry, directory) matches Ok(n) && named(entry, directory, n as int),
{
    paths_are_found(directory.members, path, 0);
}

/// A trail is walked one selection at a time, in order, and not beyond its ends.
pub proof fn trails_are_walked_in_order(navigator: TrailNavigator, at: usize)
    requires
        navigator.wf(),
        navigator.current == Some(at),
        navigator.view.entries@.len() <= usize::MAX,
        navigator.generation.value < u64::MAX,
    ensures
        navigator.moved(navigator.following()) matches Ok((there, went)) && (if at + 1
            < navigator.view.entries@.len() {
            went && there.current == Some((at + 1) as usize) && there.generation.value
                == navigator.generation.value + 1 && there.view == navigator.view
        } else {
            !went && there == navigator
        }),
        navigator.moved(navigator.preceding()) matches Ok((there, went)) && (if at > 0 {
            went && there.current == Some((at - 1) as usize) && there.generation.value
                == navigator.generation.value + 1 && there.view == navigator.view
        } else {
            !went && there == navigator
        }),
{
}

} // verus!
