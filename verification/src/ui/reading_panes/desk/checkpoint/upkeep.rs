//! A desk stays whole: whatever is done to it, a checkpoint can hold it.
use vstd::prelude::*;

use super::round_trip::{kept_whole, pane_kept, placed, retainable};
use super::{layout_usable, scalar_usable};
use crate::capture::{text_len, CaptureModel};
use crate::identity::{ArenaOwnerId, ByteRange, FileId, SourceRevision};
use crate::scalar::{stagger_position, staggered_panes_are_on_screen, Scalar};
use crate::ui::reading_panes::desk::retention::{
    lemma_bookmark_found, lemma_needed_is_referenced, lemma_retire_keeps, lemma_source_found,
};
use crate::ui::reading_panes::desk::{
    bookmark_from, lemma_bytes_push, lemma_needed_bytes, offset_from, offsets_without,
    selection_bounds, source_from, DeskCommand, DeskError, DeskLimits, DeskLocation, DeskModel,
    DeskPaneId, DeskStateModel, OpenAnswers, RetainedModel, RetainedSource,
    MAX_BOOKMARK_LABEL_BYTES,
};
use crate::ui::reading_panes::{
    fresh_pane, lemma_pane_found, pane_from, top_unpinned, unpinned_from, PaneModel, PanesModel,
    ReadingPane, MAX_READING_PATH_BYTES,
};

verus! {

/// A pane with this layout stands in a retained capture at its viewport
/// position.
pub open spec fn pane_stands(
    pane: PaneModel,
    offsets: Seq<(u64, u64)>,
    sources: Seq<RetainedModel>,
    owner: ArenaOwnerId,
) -> bool {
    &&& pane.id != 0
    &&& layout_usable(pane.position, pane.size, pane.scroll_offset)
    &&& offset_from(offsets, pane.id, 0) matches Some(o)
    &&& pane.revision matches Some(revision)
    &&& placed(sources, pane_place(pane, revision, offsets[o].1, owner))
}

/// Where a pane stands, given its revision and its viewport position.
pub open spec fn pane_place(
    pane: PaneModel,
    revision: SourceRevision,
    offset: u64,
    owner: ArenaOwnerId,
) -> DeskLocation {
    DeskLocation {
        file: pane.file_id,
        revision,
        offset,
        selection: match pane.selection {
            Some((start, end)) => Some(ByteRange { start: start as u64, end: end as u64 }),
            None => None,
        },
        preferred_pane: DeskPaneId { owner, value: pane.id },
    }
}

/// Numbers in use lie below the next one, so that a new pane is a new pane.
pub open spec fn numbered(state: DeskStateModel) -> bool {
    &&& forall|k: int|
        0 <= k < state.panes.panes.len() ==> (#[trigger] state.panes.panes[k]).id
            < state.panes.next_id
    &&& forall|k: int|
        0 <= k < state.offsets.len() ==> (#[trigger] state.offsets[k]).0 < state.panes.next_id
}

/// Each pane has its own number.
pub open spec fn apart(panes: Seq<PaneModel>) -> bool {
    forall|j: int, k: int|
        0 <= j < k < panes.len() ==> (#[trigger] panes[j]).id != (#[trigger] panes[k]).id
}

/// Some pane is active unless there is none.
pub open spec fn focused(panes: PanesModel) -> bool {
    &&& (panes.active is None <==> panes.panes.len() == 0)
    &&& panes.active matches Some(id) ==> exists|k: int|
        0 <= k < panes.panes.len() && (#[trigger] panes.panes[k]).id == id
}

/// The panes are numbered, apart and stand in the sources, all but one.
pub open spec fn panes_stand(
    state: DeskStateModel,
    owner: ArenaOwnerId,
    limits: DeskLimits,
    but: Option<u64>,
) -> bool {
    &&& state.panes.panes.len() <= limits.panes
    &&& apart(state.panes.panes)
    &&& numbered(state)
    &&& forall|k: int|
        0 <= k < state.panes.panes.len() && Some((#[trigger] state.panes.panes[k]).id) != but
            ==> pane_stands(state.panes.panes[k], state.offsets, state.sources, owner)
}

/// What is remembered lies in the sources and within the limits.
pub open spec fn memory_stands(
    state: DeskStateModel,
    owner: ArenaOwnerId,
    limits: DeskLimits,
) -> bool {
    &&& retainable(state.sources, owner, limits)
    &&& state.history.len() <= limits.history
    &&& state.bookmarks.len() <= limits.bookmarks
    &&& state.cursor_valid()
    &&& (state.cursor is None <==> state.history.len() == 0)
    &&& forall|k: int|
        0 <= k < state.history.len() ==> placed(state.sources, #[trigger] state.history[k])
    &&& forall|k: int|
        0 <= k < state.bookmarks.len() ==> {
            let mark = #[trigger] state.bookmarks[k];
            &&& placed(state.sources, mark.location)
            &&& mark.label.len() > 0
            &&& text_len(mark.label) <= MAX_BOOKMARK_LABEL_BYTES
        }
}

/// A state between two publications: as one that is kept whole, but captures
/// that nothing needs may still be there.
pub open spec fn upheld(state: DeskStateModel, owner: ArenaOwnerId, limits: DeskLimits) -> bool {
    &&& limits.valid()
    &&& panes_stand(state, owner, limits, None)
    &&& memory_stands(state, owner, limits)
    &&& focused(state.panes)
}

pub proof fn lemma_first_pane(panes: Seq<PaneModel>, k: int, i: int)
    requires
        apart(panes),
        0 <= i <= k < panes.len(),
    ensures
        pane_from(panes, panes[k].id, i) == Some(k),
    decreases k - i,
{
    if i < k {
        assert(panes[i].id != panes[k].id);
        lemma_first_pane(panes, k, i + 1);
    }
}

/// A pane stands exactly where its location is one of the sources.
proof fn lemma_stands(state: DeskStateModel, owner: ArenaOwnerId, k: int)
    requires
        apart(state.panes.panes),
        0 <= k < state.panes.panes.len(),
    ensures
        pane_stands(state.panes.panes[k], state.offsets, state.sources, owner) <==> pane_kept(
            state,
            owner,
            state.panes.panes[k],
        ),
        pane_stands(state.panes.panes[k], state.offsets, state.sources, owner) ==> state.location(
            owner,
            DeskPaneId { owner, value: state.panes.panes[k].id },
        ) == Ok::<DeskLocation, DeskError>(
            pane_place(
                state.panes.panes[k],
                state.panes.panes[k].revision->0,
                state.offsets[offset_from(
                    state.offsets,
                    state.panes.panes[k].id,
                    0,
                )->0].1,
                owner,
            ),
        ),
{
    lemma_first_pane(state.panes.panes, k, 0);
}

/// The location of a pane of an upheld state is in the sources.
proof fn lemma_located(state: DeskStateModel, owner: ArenaOwnerId, limits: DeskLimits, id: DeskPaneId)
    requires
        panes_stand(state, owner, limits, None),
        state.location(owner, id) is Ok,
    ensures
        placed(state.sources, state.location(owner, id)->Ok_0),
        pane_from(state.panes.panes, id.value, 0) matches Some(k) && 0 <= k
            < state.panes.panes.len() && state.panes.panes[k].id == id.value && pane_stands(
            state.panes.panes[k],
            state.offsets,
            state.sources,
            owner,
        ),
        id.owner == owner,
{
    lemma_pane_found(state.panes.panes, id.value, 0);
    let k = pane_from(state.panes.panes, id.value, 0)->0;
    lemma_stands(state, owner, k);
}

pub(crate) proof fn lemma_offset_found(offsets: Seq<(u64, u64)>, id: u64, i: int)
    requires
        0 <= i,
    ensures
        offset_from(offsets, id, i) matches Some(o) ==> i <= o < offsets.len() && offsets[o].0
            == id,
        (forall|o: int| i <= o < offsets.len() ==> (#[trigger] offsets[o]).0 != id)
            ==> offset_from(offsets, id, i) is None,
    decreases offsets.len() - i,
{
    if i < offsets.len() {
        lemma_offset_found(offsets, id, i + 1);
    }
}

proof fn lemma_offset_update(offsets: Seq<(u64, u64)>, at: int, value: u64, id: u64, i: int)
    requires
        0 <= i,
        0 <= at < offsets.len(),
    ensures
        offset_from(offsets.update(at, (offsets[at].0, value)), id, i) == offset_from(
            offsets,
            id,
            i,
        ),
    decreases offsets.len() - i,
{
    if i < offsets.len() {
        lemma_offset_update(offsets, at, value, id, i + 1);
    }
}

pub(crate) proof fn lemma_offset_push(offsets: Seq<(u64, u64)>, entry: (u64, u64), id: u64, i: int)
    requires
        0 <= i <= offsets.len(),
    ensures
        offset_from(offsets.push(entry), id, i) == (match offset_from(offsets, id, i) {
            Some(o) => Some(o),
            None => if entry.0 == id {
                Some(offsets.len() as int)
            } else {
                None
            },
        }),
    decreases offsets.len() - i,
{
    let now = offsets.push(entry);
    if i < offsets.len() {
        assert(now[i] == offsets[i]);
        lemma_offset_push(offsets, entry, id, i + 1);
    } else {
        assert(now[i] == entry);
        assert(offset_from(now, id, i + 1) is None);
    }
}

proof fn lemma_offset_cons(first: (u64, u64), rest: Seq<(u64, u64)>, id: u64, i: int)
    requires
        0 <= i <= rest.len(),
    ensures
        offset_from(seq![first] + rest, id, i + 1) == (match offset_from(rest, id, i) {
            Some(o) => Some(o + 1),
            None => None,
        }),
    decreases rest.len() - i,
{
    if i < rest.len() {
        assert((seq![first] + rest)[i + 1] == rest[i]);
        lemma_offset_cons(first, rest, id, i + 1);
    }
}

/// The viewport positions of the other panes stay when one closes.
proof fn lemma_offset_without(offsets: Seq<(u64, u64)>, pane: u64, id: u64, i: int)
    requires
        0 <= i <= offsets.len(),
        id != pane,
    ensures
        match offset_from(offsets, id, i) {
            Some(o) => i <= o < offsets.len() && (offset_from(
                offsets_without(offsets, pane, i),
                id,
                0,
            ) matches Some(n) && 0 <= n < offsets_without(offsets, pane, i).len()
                && offsets_without(offsets, pane, i)[n].1 == offsets[o].1),
            None => offset_from(offsets_without(offsets, pane, i), id, 0) is None,
        },
    decreases offsets.len() - i,
{
    if i < offsets.len() {
        lemma_offset_without(offsets, pane, id, i + 1);
        if offsets[i].0 != pane {
            let rest = offsets_without(offsets, pane, i + 1);
            let all = seq![offsets[i]] + rest;
            assert(all[0] == offsets[i]);
            lemma_offset_cons(offsets[i], rest, id, 0);
            if offsets[i].0 != id {
                assert(offset_from(all, id, 0) == offset_from(all, id, 1));
                if let Some(n) = offset_from(rest, id, 0) {
                    assert(all[n + 1] == rest[n]);
                }
            }
        }
    }
}

proof fn lemma_without_bound(offsets: Seq<(u64, u64)>, pane: u64, i: int, next_id: u64)
    requires
        0 <= i <= offsets.len(),
        forall|k: int| 0 <= k < offsets.len() ==> (#[trigger] offsets[k]).0 < next_id,
    ensures
        forall|k: int|
            0 <= k < offsets_without(offsets, pane, i).len() ==> (#[trigger] offsets_without(
                offsets,
                pane,
                i,
            )[k]).0 < next_id,
    decreases offsets.len() - i,
{
    let all = offsets_without(offsets, pane, i);
    if i < offsets.len() {
        lemma_without_bound(offsets, pane, i + 1, next_id);
        let rest = offsets_without(offsets, pane, i + 1);
        assert forall|k: int| 0 <= k < all.len() implies (#[trigger] all[k]).0 < next_id by {
            if offsets[i].0 == pane {
                assert(all[k] == rest[k]);
            } else {
                assert(all == seq![offsets[i]] + rest);
                if k > 0 {
                    assert(all[k] == rest[k - 1]);
                } else {
                    assert(all[k] == offsets[i]);
                }
            }
        }
    } else {
        assert(all.len() == 0);
    }
}

/// Rewriting one pane and its viewport position keeps the others standing.
proof fn lemma_rewrite(
    state: DeskStateModel,
    owner: ArenaOwnerId,
    limits: DeskLimits,
    at: int,
    o: int,
    pane: PaneModel,
    offset: u64,
    next: DeskStateModel,
)
    requires
        0 <= at < state.panes.panes.len(),
        panes_stand(state, owner, limits, Some(state.panes.panes[at].id)),
        offset_from(state.offsets, pane.id, 0) == Some(o),
        pane.id == state.panes.panes[at].id,
        next.panes.panes == state.panes.panes.update(at, pane),
        next.panes.next_id == state.panes.next_id,
        next.offsets == state.offsets.update(o, (pane.id, offset)),
        next.sources == state.sources,
        pane_stands(pane, next.offsets, next.sources, owner) || (pane.id != 0 && layout_usable(
            pane.position,
            pane.size,
            pane.scroll_offset,
        ) && pane.revision is Some && placed(
            state.sources,
            pane_place(pane, pane.revision->0, offset, owner),
        )),
    ensures
        panes_stand(next, owner, limits, None),
{
    let panes = state.panes.panes;
    let now = next.panes.panes;
    lemma_offset_found(state.offsets, pane.id, 0);
    assert forall|j: int, k: int| 0 <= j < k < now.len() implies (#[trigger] now[j]).id != (
    #[trigger] now[k]).id by {
        assert(panes[j].id != panes[k].id);
    }
    assert forall|k: int| 0 <= k < now.len() implies (#[trigger] now[k]).id < next.panes.next_id by {
        assert(panes[k].id < state.panes.next_id);
    }
    assert forall|k: int| 0 <= k < next.offsets.len() implies (#[trigger] next.offsets[k]).0
        < next.panes.next_id by {
        assert(state.offsets[k].0 < state.panes.next_id);
    }
    assert forall|k: int| 0 <= k < now.len() implies pane_stands(
        #[trigger] now[k],
        next.offsets,
        next.sources,
        owner,
    ) by {
        lemma_offset_update(state.offsets, o, offset, now[k].id, 0);
        if k == at {
            assert(now[k] == pane);
        } else {
            assert(now[k] == panes[k]);
            if k < at {
                assert(panes[k].id != panes[at].id);
            } else {
                assert(panes[at].id != panes[k].id);
            }
            assert(pane_stands(panes[k], state.offsets, state.sources, owner));
            lemma_offset_found(state.offsets, panes[k].id, 0);
        }
    }
}

/// A state whose panes all stand stands without any one of them, too.
proof fn lemma_all_but(state: DeskStateModel, owner: ArenaOwnerId, limits: DeskLimits, but: Option<u64>)
    requires
        panes_stand(state, owner, limits, None),
    ensures
        panes_stand(state, owner, limits, but),
{
}

/// Room for a new pane keeps the others standing.
proof fn lemma_new_pane(
    state: DeskStateModel,
    owner: ArenaOwnerId,
    limits: DeskLimits,
    at: DeskLocation,
)
    requires
        limits.valid(),
        panes_stand(state, owner, limits, None),
        state.new_pane(limits, at) is Ok,
    ensures
        ({
            let (roomier, id) = state.new_pane(limits, at)->Ok_0;
            &&& panes_stand(roomier, owner, limits, Some(id))
            &&& id != 0
            &&& pane_from(roomier.panes.panes, id, 0) == Some(state.panes.panes.len() as int)
            &&& roomier.panes.panes.len() == state.panes.panes.len() + 1
            &&& roomier.panes.panes[state.panes.panes.len() as int] == fresh_pane(
                id,
                at.file,
                Seq::empty(),
                stagger_position(state.panes.panes.len()),
            )
            &&& offset_from(roomier.offsets, id, 0) == Some(state.offsets.len() as int)
        }),
{
    let (roomier, id) = state.new_pane(limits, at)->Ok_0;
    let panes = state.panes.panes;
    let now = roomier.panes.panes;
    let last = panes.len() as int;
    assert forall|j: int, k: int| 0 <= j < k < now.len() implies (#[trigger] now[j]).id != (
    #[trigger] now[k]).id by {
        assert(now[j] == panes[j]);
        if k < last {
            assert(now[k] == panes[k]);
        }
    }
    assert forall|k: int| 0 <= k < now.len() implies (#[trigger] now[k]).id
        < roomier.panes.next_id by {
        if k < last {
            assert(now[k] == panes[k]);
        }
    }
    assert forall|k: int| 0 <= k < roomier.offsets.len() implies (#[trigger] roomier.offsets[k]).0
        < roomier.panes.next_id by {
        if k < state.offsets.len() {
            assert(roomier.offsets[k] == state.offsets[k]);
        }
    }
    assert forall|k: int|
        0 <= k < now.len() && Some((#[trigger] now[k]).id) != Some(id) implies pane_stands(
        now[k],
        roomier.offsets,
        roomier.sources,
        owner,
    ) by {
        assert(now[k] == panes[k]);
        lemma_offset_push(state.offsets, (id, at.offset), panes[k].id, 0);
        lemma_offset_found(state.offsets, panes[k].id, 0);
    }
    assert(now[last].id == id);
    lemma_first_pane(now, last, 0);
    lemma_offset_push(state.offsets, (id, at.offset), id, 0);
    lemma_offset_found(state.offsets, id, 0);
}

/// Showing a location in a pane makes it stand there.
proof fn lemma_place_stands(
    state: DeskStateModel,
    owner: ArenaOwnerId,
    limits: DeskLimits,
    id: u64,
    at: DeskLocation,
    path: Seq<char>,
    selection: Option<(usize, usize)>,
    k: int,
)
    requires
        panes_stand(state, owner, limits, Some(id)),
        id != 0,
        pane_from(state.panes.panes, id, 0) == Some(k),
        scalar_usable(state.panes.panes[k].position.0),
        scalar_usable(state.panes.panes[k].position.1),
        scalar_usable(state.panes.panes[k].size.0),
        scalar_usable(state.panes.panes[k].size.1),
        (Scalar { bits: 0 }).below(state.panes.panes[k].size.0),
        (Scalar { bits: 0 }).below(state.panes.panes[k].size.1),
        selection_bounds(at.selection) == Ok::<Option<(usize, usize)>, DeskError>(selection),
        placed(state.sources, at),
        state.place(owner, id, at, path, selection) is Ok,
    ensures
        ({
            let (next, there) = state.place(owner, id, at, path, selection)->Ok_0;
            &&& panes_stand(next, owner, limits, None)
            &&& focused(next.panes)
            &&& placed(next.sources, there)
            &&& next.sources == state.sources
            &&& next.history == state.history
            &&& next.cursor == state.cursor
            &&& next.bookmarks == state.bookmarks
        }),
{
    let (next, there) = state.place(owner, id, at, path, selection)->Ok_0;
    lemma_pane_found(state.panes.panes, id, 0);
    let pane = ReadingPane {
        file_id: at.file,
        revision: Some(at.revision),
        path,
        selection,
        target_line: None,
        scroll_offset: (Scalar { bits: 0 }, Scalar { bits: 0 }),
        ..state.panes.panes[k]
    };
    let o = offset_from(state.offsets, id, 0)->0;
    assert(pane_place(pane, at.revision, at.offset, owner).selection == at.selection);
    lemma_rewrite(state, owner, limits, k, o, pane, at.offset, next);
    assert(next.panes.panes[k].id == id);
}

/// Opening a location keeps a state upheld.
proof fn lemma_open_location(
    state: DeskStateModel,
    owner: ArenaOwnerId,
    limits: DeskLimits,
    at: DeskLocation,
    duplicate: bool,
)
    requires
        upheld(state, owner, limits),
        at.selection matches Some(range) ==> range.start <= range.end,
        state.open_location(owner, limits, at, duplicate) is Ok,
    ensures
        ({
            let (next, there) = state.open_location(owner, limits, at, duplicate)->Ok_0;
            &&& upheld(next, owner, limits)
            &&& placed(next.sources, there)
            &&& next.sources == state.sources
            &&& next.history == state.history
            &&& next.cursor == state.cursor
            &&& next.bookmarks == state.bookmarks
        }),
{
    let capture = state.source(at.file, at.revision)->0;
    let selection = selection_bounds(at.selection)->Ok_0;
    let panes = state.panes.panes;
    lemma_source_found(state.sources, at.file, at.revision, 0);
    assert(placed(state.sources, at));
    match state.preferred(at) {
        Some(id) if !duplicate => {
            lemma_preferred(state, at);
            lemma_pane_found(panes, id, 0);
            let k = pane_from(panes, id, 0)->0;
            assert(pane_stands(panes[k], state.offsets, state.sources, owner));
            lemma_all_but(state, owner, limits, Some(id));
            lemma_place_stands(
                state,
                owner,
                limits,
                id,
                at,
                capture.logical_path,
                selection,
                k,
            );
        },
        _ => {
            let (roomier, id) = state.new_pane(limits, at)->Ok_0;
            lemma_new_pane(state, owner, limits, at);
            staggered_panes_are_on_screen(panes.len());
            lemma_place_stands(
                roomier,
                owner,
                limits,
                id,
                at,
                capture.logical_path,
                selection,
                panes.len() as int,
            );
        },
    }
}

/// A pane that a location takes over is open.
proof fn lemma_preferred(state: DeskStateModel, at: DeskLocation)
    ensures
        state.preferred(at) matches Some(id) ==> pane_from(state.panes.panes, id, 0) is Some,
{
    let panes = state.panes.panes;
    if pane_from(panes, at.preferred_pane.value, 0) is Some {
        lemma_pane_found(panes, at.preferred_pane.value, 0);
    }
    if let Some(id) = state.panes.active {
        if pane_from(panes, id, 0) is Some {
            lemma_pane_found(panes, id, 0);
        }
    }
    lemma_unpinned(panes, 0);
}

proof fn lemma_unpinned(panes: Seq<PaneModel>, i: int)
    requires
        0 <= i,
    ensures
        unpinned_from(panes, i) matches Some(id) ==> pane_from(panes, id, 0) is Some,
    decreases panes.len() - i,
{
    if i < panes.len() {
        if !panes[i].is_pinned {
            lemma_pane_present(panes, i, 0);
        } else {
            lemma_unpinned(panes, i + 1);
        }
    }
}

proof fn lemma_pane_present(panes: Seq<PaneModel>, k: int, i: int)
    requires
        0 <= i <= k < panes.len(),
    ensures
        pane_from(panes, panes[k].id, i) is Some,
    decreases k - i,
{
    if i < k {
        lemma_pane_present(panes, k, i + 1);
    }
}

/// Recording a visit keeps a state upheld.
proof fn lemma_record(
    state: DeskStateModel,
    owner: ArenaOwnerId,
    limits: DeskLimits,
    at: DeskLocation,
)
    requires
        upheld(state, owner, limits),
        placed(state.sources, at),
    ensures
        upheld(state.record(limits.history, at), owner, limits),
{
    let next = state.record(limits.history, at);
    let past = state.past(limits.history);
    if next.history != state.history || next.cursor != state.cursor {
        let kept = match state.cursor {
            Some(i) => state.history.subrange(0, i + 1),
            None => state.history,
        };
        assert forall|k: int| 0 <= k < next.history.len() implies placed(
            next.sources,
            #[trigger] next.history[k],
        ) by {
            if k < past.len() {
                assert(next.history[k] == past[k]);
                if kept.len() == limits.history {
                    assert(past[k] == kept[k + 1]);
                    assert(kept[k + 1] == state.history[k + 1]);
                } else {
                    assert(past[k] == state.history[k]);
                }
            }
        }
    }
}

/// Closing a pane keeps a state upheld.
proof fn lemma_without(state: DeskStateModel, owner: ArenaOwnerId, limits: DeskLimits, id: u64)
    requires
        upheld(state, owner, limits),
        pane_from(state.panes.panes, id, 0) is Some,
    ensures
        upheld(state.without_pane(id), owner, limits),
{
    let next = state.without_pane(id);
    let panes = state.panes.panes;
    let now = next.panes.panes;
    lemma_pane_found(panes, id, 0);
    let at = pane_from(panes, id, 0)->0;
    assert(now == panes.remove(at));
    lemma_without_bound(state.offsets, id, 0, state.panes.next_id);
    assert forall|k: int| 0 <= k < now.len() implies (#[trigger] now[k]).id != id && pane_stands(
        now[k],
        next.offsets,
        next.sources,
        owner,
    ) && now[k].id < next.panes.next_id by {
        let j = if k < at {
            k
        } else {
            k + 1
        };
        assert(now[k] == panes[j]);
        if j < at {
            assert(panes[j].id != panes[at].id);
        } else {
            assert(panes[at].id != panes[j].id);
        }
        assert(pane_stands(panes[j], state.offsets, state.sources, owner));
        lemma_offset_without(state.offsets, id, panes[j].id, 0);
    }
    assert forall|j: int, k: int| 0 <= j < k < now.len() implies (#[trigger] now[j]).id != (
    #[trigger] now[k]).id by {
        let a = if j < at {
            j
        } else {
            j + 1
        };
        let b = if k < at {
            k
        } else {
            k + 1
        };
        assert(now[j] == panes[a] && now[k] == panes[b]);
    }
    if state.panes.active == Some(id) {
        if now.len() > 0 {
            assert(now[now.len() - 1].id == now.last().id);
        }
    } else {
        let active = state.panes.active->0;
        let k = choose|k: int| 0 <= k < panes.len() && (#[trigger] panes[k]).id == active;
        assert(panes[at].id == id);
        assert(state.panes.active is Some);
        let n = if k < at {
            k
        } else {
            k - 1
        };
        assert(now[n] == panes[k]);
    }
}

proof fn lemma_focus(state: DeskStateModel, owner: ArenaOwnerId, limits: DeskLimits, pane: DeskPaneId)
    requires
        upheld(state, owner, limits),
        state.focus(owner, limits, pane) is Ok,
    ensures
        upheld(state.focus(owner, limits, pane)->Ok_0.0, owner, limits),
{
    reveal(DeskStateModel::focus);
    let at = state.location(owner, pane)->Ok_0;
    lemma_located(state, owner, limits, pane);
    let moved = DeskStateModel {
        panes: PanesModel { active: Some(pane.value), ..state.panes },
        ..state
    };
    assert(upheld(moved, owner, limits)) by {
        let k = pane_from(state.panes.panes, pane.value, 0)->0;
        assert(moved.panes.panes[k].id == pane.value);
    }
    lemma_record(moved, owner, limits, at);
}

proof fn lemma_visit(
    state: DeskStateModel,
    owner: ArenaOwnerId,
    limits: DeskLimits,
    at: DeskLocation,
    duplicate: bool,
)
    requires
        upheld(state, owner, limits),
        at.selection matches Some(range) ==> range.start <= range.end,
        state.visit(owner, limits, at, duplicate) is Ok,
    ensures
        upheld(state.visit(owner, limits, at, duplicate)->Ok_0.0, owner, limits),
{
    lemma_open_location(state, owner, limits, at, duplicate);
    let (opened, there) = state.open_location(owner, limits, at, duplicate)->Ok_0;
    lemma_record(opened, owner, limits, there);
}

/// Rewriting the flags or the layout of a pane keeps a state upheld.
proof fn lemma_same_place(
    state: DeskStateModel,
    owner: ArenaOwnerId,
    limits: DeskLimits,
    id: u64,
    pane: PaneModel,
)
    requires
        upheld(state, owner, limits),
        pane_from(state.panes.panes, id, 0) matches Some(k) && pane == (ReadingPane {
            is_pinned: pane.is_pinned,
            position: pane.position,
            size: pane.size,
            ..state.panes.panes[k]
        }),
        layout_usable(pane.position, pane.size, pane.scroll_offset),
    ensures
        upheld(
            DeskStateModel { panes: state.panes.with_pane(id, pane), ..state },
            owner,
            limits,
        ),
{
    let next = DeskStateModel { panes: state.panes.with_pane(id, pane), ..state };
    lemma_pane_found(state.panes.panes, id, 0);
    let k = pane_from(state.panes.panes, id, 0)->0;
    let old_pane = state.panes.panes[k];
    assert(pane_stands(old_pane, state.offsets, state.sources, owner));
    lemma_offset_found(state.offsets, id, 0);
    let o = offset_from(state.offsets, id, 0)->0;
    assert(state.offsets.update(o, (id, state.offsets[o].1)) =~= state.offsets);
    lemma_all_but(state, owner, limits, Some(id));
    lemma_rewrite(state, owner, limits, k, o, pane, state.offsets[o].1, next);
    assert forall|j: int| 0 <= j < state.panes.panes.len() implies (#[trigger] next.panes.panes[j]).id
        == state.panes.panes[j].id by {}
    let active = state.panes.active->0;
    let n = choose|n: int|
        0 <= n < state.panes.panes.len() && (#[trigger] state.panes.panes[n]).id == active;
    assert(next.panes.panes[n].id == active);
}

proof fn lemma_pin(
    state: DeskStateModel,
    owner: ArenaOwnerId,
    limits: DeskLimits,
    id: u64,
    pinned: bool,
)
    requires
        upheld(state, owner, limits),
    ensures
        upheld(
            DeskStateModel { panes: state.panes.set_pinned(id, pinned), ..state },
            owner,
            limits,
        ),
{
    if let Some(k) = pane_from(state.panes.panes, id, 0) {
        lemma_pane_found(state.panes.panes, id, 0);
        let pane = ReadingPane { is_pinned: pinned, ..state.panes.panes[k] };
        assert(pane_stands(state.panes.panes[k], state.offsets, state.sources, owner));
        lemma_same_place(state, owner, limits, id, pane);
    }
}

proof fn lemma_duplicate(
    state: DeskStateModel,
    owner: ArenaOwnerId,
    limits: DeskLimits,
    pane: DeskPaneId,
)
    requires
        upheld(state, owner, limits),
        state.duplicate(owner, limits, pane) is Ok,
    ensures
        upheld(state.duplicate(owner, limits, pane)->Ok_0.0, owner, limits),
{
    reveal(DeskStateModel::duplicate);
    let at = state.location(owner, pane)->Ok_0;
    lemma_located(state, owner, limits, pane);
    lemma_open_location(state, owner, limits, at, true);
    let (opened, there) = state.open_location(owner, limits, at, true)->Ok_0;
    lemma_pin(opened, owner, limits, there.preferred_pane.value, true);
    let pinned = DeskStateModel {
        panes: opened.panes.set_pinned(there.preferred_pane.value, true),
        ..opened
    };
    lemma_record(pinned, owner, limits, there);
}

proof fn lemma_scroll(
    state: DeskStateModel,
    owner: ArenaOwnerId,
    limits: DeskLimits,
    pane: DeskPaneId,
    offset: u64,
)
    requires
        upheld(state, owner, limits),
        state.scroll(owner, pane, offset) is Ok,
    ensures
        upheld(state.scroll(owner, pane, offset)->Ok_0.0, owner, limits),
{
    reveal(DeskStateModel::scroll);
    let at = state.location(owner, pane)->Ok_0;
    let next = state.scroll(owner, pane, offset)->Ok_0.0;
    let panes = state.panes.panes;
    lemma_located(state, owner, limits, pane);
    let k = pane_from(panes, pane.value, 0)->0;
    lemma_first_pane(panes, k, 0);
    lemma_stands(state, owner, k);
    lemma_offset_found(state.offsets, pane.value, 0);
    let o = offset_from(state.offsets, pane.value, 0)->0;
    let there = DeskLocation { offset, ..at };
    assert(pane == (DeskPaneId { owner, value: panes[k].id }));
    assert(placed(state.sources, there));
    assert(panes.update(k, panes[k]) =~= panes);
    lemma_all_but(state, owner, limits, Some(pane.value));
    assert(there == pane_place(panes[k], at.revision, offset, owner));
    lemma_rewrite(state, owner, limits, k, o, panes[k], offset, next);
    assert forall|j: int| 0 <= j < next.history.len() implies placed(
        next.sources,
        #[trigger] next.history[j],
    ) by {
        assert(placed(state.sources, state.history[j]));
        if next.history[j] != state.history[j] {
            assert(next.history[j] == there);
        }
    }
}

proof fn lemma_revisit(
    state: DeskStateModel,
    owner: ArenaOwnerId,
    limits: DeskLimits,
    target: Option<usize>,
)
    requires
        upheld(state, owner, limits),
        target matches Some(i) ==> i < state.history.len(),
        state.revisit(owner, limits, target) is Ok,
    ensures
        upheld(state.revisit(owner, limits, target)->Ok_0.0, owner, limits),
{
    reveal(DeskStateModel::revisit);
    let i = target->0 as int;
    let next = state.revisit(owner, limits, target)->Ok_0.0;
    assert(placed(state.sources, state.history[i]));
    lemma_open_location(state, owner, limits, state.history[i], false);
    let (opened, there) = state.open_location(owner, limits, state.history[i], false)->Ok_0;
    assert forall|j: int| 0 <= j < next.history.len() implies placed(
        next.sources,
        #[trigger] next.history[j],
    ) by {
        assert(placed(state.sources, state.history[j]));
        if j != i {
            assert(next.history[j] == state.history[j]);
        }
    }
}

proof fn lemma_marks(
    state: DeskStateModel,
    owner: ArenaOwnerId,
    limits: DeskLimits,
    pane: DeskPaneId,
    label: Seq<char>,
)
    requires
        upheld(state, owner, limits),
        state.bookmark(owner, limits, pane, label) is Ok,
    ensures
        upheld(state.bookmark(owner, limits, pane, label)->Ok_0.0, owner, limits),
{
    reveal(DeskStateModel::bookmark);
    let next = state.bookmark(owner, limits, pane, label)->Ok_0.0;
    lemma_located(state, owner, limits, pane);
    assert forall|k: int| 0 <= k < next.bookmarks.len() implies ({
        let mark = #[trigger] next.bookmarks[k];
        &&& placed(next.sources, mark.location)
        &&& mark.label.len() > 0
        &&& text_len(mark.label) <= MAX_BOOKMARK_LABEL_BYTES
    }) by {
        if k < state.bookmarks.len() {
            assert(next.bookmarks[k] == state.bookmarks[k]);
        }
    }
}

proof fn lemma_forget(state: DeskStateModel, owner: ArenaOwnerId, limits: DeskLimits, id: u64)
    requires
        upheld(state, owner, limits),
        state.forget(id) is Ok,
    ensures
        upheld(state.forget(id)->Ok_0.0, owner, limits),
{
    reveal(DeskStateModel::forget);
    lemma_bookmark_found(state.bookmarks, id, 0);
    let at = bookmark_from(state.bookmarks, id, 0)->0;
    let next = state.forget(id)->Ok_0.0;
    assert forall|k: int| 0 <= k < next.bookmarks.len() implies ({
        let mark = #[trigger] next.bookmarks[k];
        &&& placed(next.sources, mark.location)
        &&& mark.label.len() > 0
        &&& text_len(mark.label) <= MAX_BOOKMARK_LABEL_BYTES
    }) by {
        if k < at {
            assert(next.bookmarks[k] == state.bookmarks[k]);
        } else {
            assert(next.bookmarks[k] == state.bookmarks[k + 1]);
        }
    }
}

proof fn lemma_clear(state: DeskStateModel, owner: ArenaOwnerId, limits: DeskLimits)
    requires
        upheld(state, owner, limits),
        state.clear_history(owner, limits) is Ok,
    ensures
        upheld(state.clear_history(owner, limits)->Ok_0.0, owner, limits),
{
    reveal(DeskStateModel::clear_history);
    let cleared = DeskStateModel { history: Seq::empty(), cursor: None, ..state };
    assert(upheld(cleared, owner, limits));
    if let Some(value) = state.panes.active {
        let id = DeskPaneId { owner, value };
        lemma_located(state, owner, limits, id);
        lemma_record(cleared, owner, limits, state.location(owner, id)->Ok_0);
    }
}

proof fn lemma_top(panes: Seq<PaneModel>, n: int)
    requires
        n <= panes.len(),
    ensures
        top_unpinned(panes, n) matches Some(id) ==> pane_from(panes, id, 0) is Some,
    decreases n,
{
    if n > 0 {
        if !panes[n - 1].is_pinned {
            lemma_pane_present(panes, n - 1, 0);
        } else {
            lemma_top(panes, n - 1);
        }
    }
}

proof fn lemma_close(state: DeskStateModel, owner: ArenaOwnerId, limits: DeskLimits, pane: DeskPaneId)
    requires
        upheld(state, owner, limits),
    ensures
        state.close(owner, pane) matches Ok((next, _)) ==> upheld(next, owner, limits),
        state.escape() matches Ok((next, _)) ==> upheld(next, owner, limits),
{
    reveal(DeskStateModel::close);
    reveal(DeskStateModel::escape);
    if state.close(owner, pane) is Ok {
        lemma_located(state, owner, limits, pane);
        lemma_without(state, owner, limits, pane.value);
    }
    if let Some(id) = state.panes.closing() {
        lemma_top(state.panes.panes, state.panes.panes.len() as int);
        lemma_without(state, owner, limits, id);
    }
}

proof fn lemma_arrange(
    state: DeskStateModel,
    owner: ArenaOwnerId,
    limits: DeskLimits,
    command: DeskCommand<Seq<char>>,
)
    requires
        upheld(state, owner, limits),
        command is Arrange || command is Pin,
        state.command(owner, limits, command) is Ok,
    ensures
        upheld(state.command(owner, limits, command)->Ok_0.0, owner, limits),
{
    reveal(DeskStateModel::arrange);
    reveal(DeskStateModel::pin);
    match command {
        DeskCommand::Arrange { pane, position, size } => {
            lemma_located(state, owner, limits, pane);
            let k = pane_from(state.panes.panes, pane.value, 0)->0;
            lemma_same_place(
                state,
                owner,
                limits,
                pane.value,
                ReadingPane { position, size, ..state.panes.panes[k] },
            );
        },
        DeskCommand::Pin { pane, pinned } => {
            lemma_pin(state, owner, limits, pane.value, pinned);
        },
        _ => {},
    }
}

/// Selections that a command carries are not reversed.
pub open spec fn ordered(command: DeskCommand<Seq<char>>) -> bool {
    command matches DeskCommand::Navigate { pane, offset, selection } ==> (selection matches Some(
        range,
    ) ==> range.start <= range.end)
}

proof fn lemma_command(
    state: DeskStateModel,
    owner: ArenaOwnerId,
    limits: DeskLimits,
    command: DeskCommand<Seq<char>>,
)
    requires
        upheld(state, owner, limits),
        ordered(command),
        state.command(owner, limits, command) is Ok,
    ensures
        upheld(state.command(owner, limits, command)->Ok_0.0, owner, limits),
{
    match command {
        DeskCommand::Focus(pane) => lemma_focus(state, owner, limits, pane),
        DeskCommand::Navigate { pane, offset, selection } => {
            reveal(DeskStateModel::navigate);
            let at = state.location(owner, pane)->Ok_0;
            lemma_visit(state, owner, limits, DeskLocation { offset, selection, ..at }, false);
        },
        DeskCommand::Scroll { pane, offset } => lemma_scroll(state, owner, limits, pane, offset),
        DeskCommand::Pin { pane, pinned } => lemma_arrange(state, owner, limits, command),
        DeskCommand::Duplicate(pane) => lemma_duplicate(state, owner, limits, pane),
        DeskCommand::Close(pane) => lemma_close(state, owner, limits, pane),
        DeskCommand::Escape => lemma_close(state, owner, limits, DeskPaneId { owner, value: 0 }),
        DeskCommand::Back => {
            let target = match state.cursor {
                Some(i) if i > 0 => Some((i - 1) as usize),
                _ => None,
            };
            lemma_revisit(state, owner, limits, target);
        },
        DeskCommand::Forward => {
            let target = match state.cursor {
                Some(i) if i + 1 < state.history.len() => Some((i + 1) as usize),
                _ => None,
            };
            lemma_revisit(state, owner, limits, target);
        },
        DeskCommand::Bookmark { pane, label } => lemma_marks(state, owner, limits, pane, label),
        DeskCommand::RecallBookmark(id) => {
            reveal(DeskStateModel::recall);
            lemma_bookmark_found(state.bookmarks, id, 0);
            let k = bookmark_from(state.bookmarks, id, 0)->0;
            lemma_visit(state, owner, limits, state.bookmarks[k].location, false);
        },
        DeskCommand::ForgetBookmark(id) => lemma_forget(state, owner, limits, id),
        DeskCommand::ClearHistory => lemma_clear(state, owner, limits),
        DeskCommand::Arrange { pane, position, size } => lemma_arrange(
            state,
            owner,
            limits,
            command,
        ),
    }
}

/// A location that something refers to stays in the sources when the captures
/// that nothing needs leave.
proof fn lemma_still_placed(state: DeskStateModel, at: DeskLocation)
    requires
        placed(state.sources, at),
        state.referenced(at.file, at.revision),
    ensures
        placed(state.retire().sources, at),
{
    lemma_retire_keeps(state, at.file, at.revision, 0);
}

/// Captures that stay were there before, in the same order.
proof fn lemma_needed_known(state: DeskStateModel, i: int, k: int) -> (n: int)
    requires
        0 <= i <= state.sources.len(),
        0 <= k < state.needed_from(i).len(),
    ensures
        i <= n < state.sources.len(),
        state.needed_from(i)[k] == state.sources[n],
        k > 0 ==> n > i,
    decreases state.sources.len() - i,
{
    if state.referenced(state.sources[i].capture.file, state.sources[i].capture.revision) {
        let rest = state.needed_from(i + 1);
        assert(state.needed_from(i) == seq![state.sources[i]] + rest);
        if k == 0 {
            i
        } else {
            assert(state.needed_from(i)[k] == rest[k - 1]);
            lemma_needed_known(state, i + 1, k - 1)
        }
    } else {
        lemma_needed_known(state, i + 1, k)
    }
}

proof fn lemma_needed_apart(state: DeskStateModel, owner: ArenaOwnerId, limits: DeskLimits, i: int)
    requires
        0 <= i <= state.sources.len(),
        retainable(state.sources, owner, limits),
    ensures
        forall|j: int, k: int|
            0 <= j < k < state.needed_from(i).len() ==> ((#[trigger] state.needed_from(
                i,
            )[j]).capture.file != (#[trigger] state.needed_from(i)[k]).capture.file
                || state.needed_from(i)[j].capture.revision != state.needed_from(
                i,
            )[k].capture.revision),
    decreases state.sources.len() - i,
{
    if i < state.sources.len() {
        lemma_needed_apart(state, owner, limits, i + 1);
        let first = state.sources[i];
        let rest = state.needed_from(i + 1);
        let all = state.needed_from(i);
        if state.referenced(first.capture.file, first.capture.revision) {
            assert(all == seq![first] + rest);
            assert forall|j: int, k: int| 0 <= j < k < all.len() implies ((
            #[trigger] all[j]).capture.file != (#[trigger] all[k]).capture.file
                || all[j].capture.revision != all[k].capture.revision) by {
                assert(all[k] == rest[k - 1]);
                if j > 0 {
                    assert(all[j] == rest[j - 1]);
                } else {
                    let n = lemma_needed_known(state, i + 1, k - 1);
                    assert(all[0] == state.sources[i]);
                    assert(rest[k - 1] == state.sources[n]);
                }
            }
        }
    }
}

/// What is published of an upheld state is kept whole.
pub(crate) proof fn lemma_published(
    state: DeskStateModel,
    owner: ArenaOwnerId,
    limits: DeskLimits,
    revision: u64,
)
    requires
        upheld(state, owner, limits),
    ensures
        kept_whole(DeskStateModel { revision, ..state.retire() }, owner, limits),
        numbered(DeskStateModel { revision, ..state.retire() }),
{
    let next = DeskStateModel { revision, ..state.retire() };
    let panes = state.panes.panes;
    lemma_needed_bytes(state, 0);
    lemma_needed_apart(state, owner, limits, 0);
    assert(retainable(next.sources, owner, limits)) by {
        assert forall|k: int| 0 <= k < next.sources.len() implies ({
            let capture = (#[trigger] next.sources[k]).capture;
            &&& capture.file.owner == owner
            &&& capture.revision.owner == owner
            &&& capture.file.value != 0
            &&& capture.revision.value != 0
            &&& capture.logical_path.len() > 0
            &&& text_len(capture.logical_path) <= MAX_READING_PATH_BYTES
            &&& capture.bytes.len() <= limits.source_bytes
        }) by {
            let n = lemma_needed_known(state, 0, k);
            assert(next.sources[k] == state.sources[n]);
        }
    }
    assert forall|k: int| 0 <= k < panes.len() implies pane_kept(next, owner, #[trigger] panes[k]) by {
        assert(pane_stands(panes[k], state.offsets, state.sources, owner));
        let o = offset_from(state.offsets, panes[k].id, 0)->0;
        let at = pane_place(panes[k], panes[k].revision->0, state.offsets[o].1, owner);
        assert(panes[k].file_id == at.file);
        assert(state.shown(at.file, at.revision));
        lemma_still_placed(state, at);
        lemma_stands(next, owner, k);
        assert(next.panes.panes[k] == panes[k]);
    }
    assert forall|k: int| 0 <= k < next.history.len() implies placed(
        next.sources,
        #[trigger] next.history[k],
    ) by {
        let at = state.history[k];
        assert(state.history[k].file == at.file);
        assert(state.visited(at.file, at.revision));
        lemma_still_placed(state, at);
    }
    assert forall|k: int| 0 <= k < next.bookmarks.len() implies ({
        let mark = #[trigger] next.bookmarks[k];
        &&& placed(next.sources, mark.location)
        &&& mark.label.len() > 0
        &&& text_len(mark.label) <= MAX_BOOKMARK_LABEL_BYTES
    }) by {
        let at = state.bookmarks[k].location;
        assert(state.bookmarks[k].location.file == at.file);
        assert(state.marked(at.file, at.revision));
        lemma_still_placed(state, at);
    }
    assert(next.all_referenced()) by {
        assert forall|i: int| 0 <= i < next.sources.len() implies next.referenced(
            (#[trigger] next.sources[i]).capture.file,
            next.sources[i].capture.revision,
        ) by {
            lemma_needed_is_referenced(state, 0, i);
            let (f, r) = (next.sources[i].capture.file, next.sources[i].capture.revision);
            assert(state.shown(f, r) == next.shown(f, r));
            assert(state.visited(f, r) == next.visited(f, r));
            assert(state.marked(f, r) == next.marked(f, r));
        }
    }
    reveal(kept_whole);
}

/// A desk whose state is kept whole and whose numbers are fresh.
pub open spec fn desk_whole(desk: DeskModel) -> bool {
    &&& desk.limits.valid()
    &&& kept_whole(desk.state, desk.owner, desk.limits)
    &&& numbered(desk.state)
}

proof fn lemma_upheld(desk: DeskModel)
    requires
        desk_whole(desk),
    ensures
        upheld(desk.state, desk.owner, desk.limits),
{
    reveal(kept_whole);
    let panes = desk.state.panes.panes;
    assert(apart(panes));
    assert forall|k: int| 0 <= k < panes.len() implies pane_stands(
        #[trigger] panes[k],
        desk.state.offsets,
        desk.state.sources,
        desk.owner,
    ) by {
        assert(pane_kept(desk.state, desk.owner, panes[k]));
        lemma_stands(desk.state, desk.owner, k);
    }
}

/// A new desk is whole.
pub proof fn new_desks_are_whole(owner: ArenaOwnerId, limits: DeskLimits)
    requires
        limits.valid(),
    ensures
        desk_whole(DeskModel::fresh(owner, limits)),
{
    reveal(kept_whole);
}

/// Whatever a command does, and whether it is refused, canceled or published,
/// a whole desk stays whole, so that a checkpoint of it restores.
pub proof fn commands_keep_desks_whole(
    desk: DeskModel,
    expected: u64,
    attempt: u64,
    command: DeskCommand<Seq<char>>,
    canceled_first: bool,
    canceled_last: bool,
)
    requires
        desk_whole(desk),
        ordered(command),
    ensures
        desk_whole(desk.apply(expected, attempt, command, canceled_first, canceled_last).0),
{
    lemma_upheld(desk);
    if let Ok((next, created)) = desk.state.command(desk.owner, desk.limits, command) {
        lemma_command(desk.state, desk.owner, desk.limits, command);
        lemma_published(next, desk.owner, desk.limits, attempt);
    }
}

/// Captures that can be opened: of the desk's owner, with a name.
pub open spec fn named_capture(capture: CaptureModel, owner: ArenaOwnerId) -> bool {
    &&& capture.owner == owner ==> capture.file.owner == owner && capture.revision.owner == owner
    &&& capture.file.value != 0
    &&& capture.revision.value != 0
    &&& capture.logical_path.len() > 0
}

proof fn lemma_source_push(
    sources: Seq<RetainedModel>,
    added: RetainedModel,
    file: FileId,
    revision: SourceRevision,
    i: int,
)
    requires
        0 <= i <= sources.len(),
    ensures
        source_from(sources, file, revision, i) is Some ==> source_from(
            sources.push(added),
            file,
            revision,
            i,
        ) == source_from(sources, file, revision, i),
    decreases sources.len() - i,
{
    if i < sources.len() {
        assert(sources.push(added)[i] == sources[i]);
        lemma_source_push(sources, added, file, revision, i + 1);
    }
}

proof fn lemma_source_absent(sources: Seq<RetainedModel>, k: int, i: int)
    requires
        0 <= i <= k < sources.len(),
    ensures
        source_from(sources, sources[k].capture.file, sources[k].capture.revision, i) is Some,
    decreases k - i,
{
    if i < k {
        lemma_source_absent(sources, k, i + 1);
    }
}

proof fn lemma_placed_push(sources: Seq<RetainedModel>, added: RetainedModel, at: DeskLocation)
    requires
        placed(sources, at),
    ensures
        placed(sources.push(added), at),
{
    lemma_source_found(sources, at.file, at.revision, 0);
    lemma_source_push(sources, added, at.file, at.revision, 0);
}

/// Taking in a capture keeps a state upheld.
proof fn lemma_taken_in(desk: DeskModel, capture: CaptureModel, allocation: u64)
    requires
        upheld(desk.state, desk.owner, desk.limits),
        capture.owner == desk.owner,
        named_capture(capture, desk.owner),
        text_len(capture.logical_path) <= MAX_READING_PATH_BYTES,
        desk.taken_in(capture, allocation, true) is Ok,
    ensures
        upheld(desk.taken_in(capture, allocation, true)->Ok_0, desk.owner, desk.limits),
{
    let state = desk.state;
    let next = desk.taken_in(capture, allocation, true)->Ok_0;
    if state.source(capture.file, capture.revision) is None {
        let added = RetainedSource { capture, allocation };
        lemma_bytes_push(state.sources, added, 0);
        assert forall|j: int, k: int| 0 <= j < k < next.sources.len() implies ((
        #[trigger] next.sources[j]).capture.file != (#[trigger] next.sources[k]).capture.file
            || next.sources[j].capture.revision != next.sources[k].capture.revision) by {
            assert(next.sources[j] == state.sources[j]);
            if k < state.sources.len() {
                assert(next.sources[k] == state.sources[k]);
            } else {
                lemma_source_absent(state.sources, j, 0);
            }
        }
        assert forall|k: int| 0 <= k < next.sources.len() implies ({
            let capture = (#[trigger] next.sources[k]).capture;
            &&& capture.file.owner == desk.owner
            &&& capture.revision.owner == desk.owner
            &&& capture.file.value != 0
            &&& capture.revision.value != 0
            &&& capture.logical_path.len() > 0
            &&& text_len(capture.logical_path) <= MAX_READING_PATH_BYTES
            &&& capture.bytes.len() <= desk.limits.source_bytes
        }) by {
            if k < state.sources.len() {
                assert(next.sources[k] == state.sources[k]);
            }
        }
        assert forall|k: int| 0 <= k < next.panes.panes.len() implies pane_stands(
            #[trigger] next.panes.panes[k],
            next.offsets,
            next.sources,
            desk.owner,
        ) by {
            let pane = state.panes.panes[k];
            assert(pane_stands(pane, state.offsets, state.sources, desk.owner));
            let o = offset_from(state.offsets, pane.id, 0)->0;
            lemma_placed_push(
                state.sources,
                added,
                pane_place(pane, pane.revision->0, state.offsets[o].1, desk.owner),
            );
        }
        assert forall|k: int| 0 <= k < next.history.len() implies placed(
            next.sources,
            #[trigger] next.history[k],
        ) by {
            lemma_placed_push(state.sources, added, state.history[k]);
        }
        assert forall|k: int| 0 <= k < next.bookmarks.len() implies ({
            let mark = #[trigger] next.bookmarks[k];
            &&& placed(next.sources, mark.location)
            &&& mark.label.len() > 0
            &&& text_len(mark.label) <= MAX_BOOKMARK_LABEL_BYTES
        }) by {
            lemma_placed_push(state.sources, added, state.bookmarks[k].location);
        }
    }
}

/// Opening a capture, whether it is refused, canceled or published, leaves a
/// whole desk whole.
pub proof fn opens_keep_desks_whole(
    desk: DeskModel,
    expected: u64,
    attempt: u64,
    capture: CaptureModel,
    offset: u64,
    selection: Option<ByteRange>,
    allocation: u64,
    answers: OpenAnswers,
)
    requires
        desk_whole(desk),
        named_capture(capture, desk.owner),
        selection matches Some(range) ==> range.start <= range.end,
    ensures
        desk_whole(
            desk.open(expected, attempt, capture, offset, selection, allocation, answers).0,
        ),
{
    lemma_upheld(desk);
    if desk.capture_refusal(capture, offset, selection) is None {
        if let Ok(ready) = desk.taken_in(capture, allocation, answers.granted) {
            assert(desk.taken_in(capture, allocation, true) == desk.taken_in(
                capture,
                allocation,
                answers.granted,
            ));
            lemma_taken_in(desk, capture, allocation);
            let at = desk.entry(capture, offset, selection);
            if let Ok((next, there)) = ready.visit(desk.owner, desk.limits, at, false) {
                lemma_visit(ready, desk.owner, desk.limits, at, false);
                lemma_published(next, desk.owner, desk.limits, attempt);
            }
        }
    }
}

} // verus!
