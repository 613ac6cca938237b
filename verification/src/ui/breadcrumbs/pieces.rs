//! What a trail says of a path.
use vstd::prelude::*;

use super::{joined, parts_from, path_parts, BreadcrumbsModel};

verus! {

/// A path without empty pieces: no slash at its start or end, and none behind another.
pub open spec fn clean(path: Seq<char>) -> bool {
    &&& path.len() > 0
    &&& path[0] != '/'
    &&& path.last() != '/'
    &&& forall|i: int, j: int|
        0 <= i < j < path.len() && j == i + 1 && #[trigger] path[i] == '/' ==> #[trigger] path[j]
            != '/'
}

spec fn joined_from(parts: Seq<Seq<char>>, i: int) -> Seq<char>
    decreases parts.len() - i,
{
    if i < 0 || i >= parts.len() {
        Seq::empty()
    } else if i + 1 == parts.len() {
        parts[i]
    } else {
        parts[i] + seq!['/'] + joined_from(parts, i + 1)
    }
}

proof fn lemma_joined(parts: Seq<Seq<char>>, n: nat)
    requires
        1 <= n <= parts.len(),
    ensures
        joined_from(parts, 0) == if n == parts.len() {
            joined(parts, n)
        } else {
            joined(parts, n) + seq!['/'] + joined_from(parts, n as int)
        },
    decreases n,
{
    if n > 1 {
        lemma_joined(parts, (n - 1) as nat);
        assert(joined(parts, (n - 1) as nat) + seq!['/'] + joined_from(parts, n - 1) =~= if n
            == parts.len() {
            joined(parts, n)
        } else {
            joined(parts, n) + seq!['/'] + joined_from(parts, n as int)
        });
    }
}

proof fn lemma_shift(part: Seq<char>, rest: Seq<Seq<char>>, i: int)
    requires
        0 <= i,
    ensures
        joined_from(seq![part] + rest, i + 1) == joined_from(rest, i),
    decreases rest.len() - i,
{
    if i < rest.len() {
        lemma_shift(part, rest, i + 1);
    }
}

proof fn lemma_parts(path: Seq<char>, start: int, at: int)
    requires
        clean(path),
        0 <= start <= at <= path.len(),
        start < path.len(),
        path[start] != '/',
        forall|j: int| start <= j < at ==> path[j] != '/',
    ensures
        parts_from(path, start, at).len() > 0,
        joined_from(parts_from(path, start, at), 0) == path.subrange(start, path.len() as int),
    decreases path.len() - at,
{
    if at < path.len() && path[at] == '/' {
        assert(at + 1 < path.len());
        assert(path[at + 1] != '/');
        lemma_parts(path, at + 1, at + 1);
        let rest = parts_from(path, at + 1, at + 1);
        lemma_shift(path.subrange(start, at), rest, 0);
        assert(path.subrange(start, at) + seq!['/'] + path.subrange(at + 1, path.len() as int)
            =~= path.subrange(start, path.len() as int));
    } else if at < path.len() {
        lemma_parts(path, start, at + 1);
    }
}

/// The pieces of a path, joined by single slashes, are the path.
pub proof fn pieces_join_to_the_path(path: Seq<char>)
    requires
        clean(path),
    ensures
        path_parts(path).len() > 0,
        joined(path_parts(path), path_parts(path).len()) == path,
{
    lemma_parts(path, 0, 0);
    lemma_joined(path_parts(path), path_parts(path).len());
    assert(path.subrange(0, path.len() as int) =~= path);
}

/// The trail of a path starts at the root and has a segment for each piece. The last one
/// is named by the whole path and is the only current one, and it has the keyboard.
pub proof fn trails_end_at_the_path(path: Seq<char>)
    requires
        clean(path),
        path_parts(path).len() < usize::MAX,
    ensures
        ({
            let trail = BreadcrumbsModel::of_path(path);
            let last = trail.segments.len() - 1;
            &&& last >= 1
            &&& trail.segments[last].id == path
            &&& trail.focused_index == Some(last as usize)
            &&& trail.segments[0].id == "root"@
            &&& forall|i: int|
                0 <= i <= last ==> (#[trigger] trail.segments[i]).is_current == (i == last)
                    && trail.segments[i].depth == i
        }),
{
    pieces_join_to_the_path(path);
}

/// Going up to a segment leaves the segments up to it as they are, except that it is the
/// only current one, and drops the others.
pub proof fn going_up_keeps_the_way(trail: BreadcrumbsModel, index: usize)
    requires
        index < trail.segments.len(),
    ensures
        ({
            let after = trail.truncate_to(index);
            &&& after.segments.len() == index + 1
            &&& after.focused_index == Some(index)
            &&& forall|i: int|
                0 <= i <= index ==> (#[trigger] after.segments[i]).id == trail.segments[i].id
                    && after.segments[i].label == trail.segments[i].label
                    && after.segments[i].depth == trail.segments[i].depth
                    && after.segments[i].is_current == (i == index)
        }),
{
}

} // verus!
