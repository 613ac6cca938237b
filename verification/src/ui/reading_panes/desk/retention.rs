//! What a desk guarantees about the captures it keeps.
use vstd::prelude::*;

use super::{
    source_from, BookmarkModel, DeskChange, DeskCommand, DeskError, DeskLimits, DeskLocation,
    DeskModel, DeskPaneId, DeskStateModel, OpenAnswers, RetainedModel,
};
use crate::capture::CaptureModel;
use crate::identity::{ArenaOwnerId, ByteRange, FileId, SourceRevision};
use crate::ui::reading_panes::{
    lemma_pane_found, lemma_update_keeps_pane, pane_from, PaneModel, PanesModel, ReadingPane,
};

verus! {

impl DeskStateModel {
    /// Pane numbers in use lie below the next one.
    pub open spec fn fresh_numbers(self) -> bool {
        forall|i: int|
            0 <= i < self.panes.panes.len() ==> (#[trigger] self.panes.panes[i]).id
                < self.panes.next_id
    }

    /// Whatever a pane shows, a visit recalls or a bookmark marks is retained.
    pub open spec fn complete(self) -> bool {
        &&& self.fresh_numbers()
        &&& forall|i: int|
            0 <= i < self.panes.panes.len() ==> self.shows_retained(#[trigger] self.panes.panes[i])
        &&& forall|i: int|
            0 <= i < self.history.len() ==> self.holds(#[trigger] self.history[i])
        &&& forall|i: int|
            0 <= i < self.bookmarks.len() ==> self.holds(
                (#[trigger] self.bookmarks[i]).location,
            )
    }

    /// A pane shows a retained capture.
    pub open spec fn shows_retained(self, pane: PaneModel) -> bool {
        pane.revision matches Some(revision) && self.source(pane.file_id, revision) is Some
    }

    /// A location's capture is retained.
    pub open spec fn holds(self, at: DeskLocation) -> bool {
        self.source(at.file, at.revision) is Some
    }

    /// Every retained capture is needed by something.
    pub open spec fn lean(self) -> bool {
        forall|i: int|
            0 <= i < self.sources.len() ==> self.referenced(
                (#[trigger] self.sources[i]).capture.file,
                self.sources[i].capture.revision,
            )
    }
}

pub proof fn lemma_source_found(sources: Seq<RetainedModel>, file: FileId, revision: SourceRevision, i: int)
    requires
        0 <= i,
    ensures
        source_from(sources, file, revision, i) matches Some(k) ==> i <= k < sources.len()
            && sources[k].capture.file == file && sources[k].capture.revision == revision,
    decreases sources.len() - i,
{
    if i < sources.len() {
        lemma_source_found(sources, file, revision, i + 1);
    }
}

proof fn lemma_source_cons(
    first: RetainedModel,
    rest: Seq<RetainedModel>,
    file: FileId,
    revision: SourceRevision,
    i: int,
)
    requires
        0 <= i,
    ensures
        source_from(seq![first] + rest, file, revision, i + 1) == match source_from(
            rest,
            file,
            revision,
            i,
        ) {
            Some(k) => Some(k + 1),
            None => None,
        },
    decreases rest.len() - i,
{
    if i < rest.len() {
        assert((seq![first] + rest)[i + 1] == rest[i]);
        lemma_source_cons(first, rest, file, revision, i + 1);
    }
}

/// Retirement keeps the capture of every referenced revision.
pub proof fn lemma_retire_keeps(state: DeskStateModel, file: FileId, revision: SourceRevision, i: int)
    requires
        0 <= i <= state.sources.len(),
        state.referenced(file, revision),
    ensures
        match source_from(state.sources, file, revision, i) {
            Some(k) => {
                let kept = source_from(state.needed_from(i), file, revision, 0);
                kept is Some && state.needed_from(i)[kept->0] == state.sources[k]
            },
            None => source_from(state.needed_from(i), file, revision, 0) is None,
        },
    decreases state.sources.len() - i,
{
    if i < state.sources.len() {
        lemma_retire_keeps(state, file, revision, i + 1);
        let first = state.sources[i];
        let rest = state.needed_from(i + 1);
        let kept = state.needed_from(i);
        if state.referenced(first.capture.file, first.capture.revision) {
            assert(kept == seq![first] + rest);
            assert(kept[0] == first);
            lemma_source_cons(first, rest, file, revision, 0);
            lemma_source_found(rest, file, revision, 0);
            if !(first.capture.file == file && first.capture.revision == revision) {
                assert(source_from(kept, file, revision, 0) == source_from(kept, file, revision, 1));
            }
        }
    }
}

pub proof fn lemma_needed_is_referenced(state: DeskStateModel, i: int, k: int)
    requires
        0 <= i <= state.sources.len(),
        0 <= k < state.needed_from(i).len(),
    ensures
        state.referenced(
            state.needed_from(i)[k].capture.file,
            state.needed_from(i)[k].capture.revision,
        ),
    decreases state.sources.len() - i,
{
    if i < state.sources.len() {
        if state.referenced(state.sources[i].capture.file, state.sources[i].capture.revision) {
            if k > 0 {
                lemma_needed_is_referenced(state, i + 1, k - 1);
                assert(state.needed_from(i)[k] == state.needed_from(i + 1)[k - 1]);
            }
        } else {
            lemma_needed_is_referenced(state, i + 1, k);
        }
    }
}

/// What is published keeps every capture that is still needed, byte for byte,
/// and nothing else.
pub proof fn publication_retains_exactly_the_needed(state: DeskStateModel)
    requires
        state.complete(),
    ensures
        state.retire().complete(),
        state.retire().lean(),
        forall|file: FileId, revision: SourceRevision|
            state.referenced(file, revision) ==> #[trigger] state.retire().source(file, revision)
                == state.source(file, revision),
{
    let after = state.retire();
    assert forall|file: FileId, revision: SourceRevision|
        state.referenced(file, revision) implies #[trigger] after.source(file, revision)
        == state.source(file, revision) by {
        lemma_retire_keeps(state, file, revision, 0);
    }
    assert forall|i: int| 0 <= i < after.panes.panes.len() implies after.shows_retained(
        #[trigger] after.panes.panes[i],
    ) by {
        let pane = state.panes.panes[i];
        assert(state.shows_retained(pane));
        assert(state.panes.panes[i].file_id == pane.file_id);
        assert(state.shown(pane.file_id, pane.revision->0));
        assert(after.source(pane.file_id, pane.revision->0) is Some);
    }
    assert forall|i: int| 0 <= i < after.history.len() implies after.holds(
        #[trigger] after.history[i],
    ) by {
        let at = state.history[i];
        assert(state.history[i].file == at.file);
        assert(state.visited(at.file, at.revision));
        assert(after.source(at.file, at.revision) is Some);
    }
    assert forall|i: int| 0 <= i < after.bookmarks.len() implies after.holds(
        (#[trigger] after.bookmarks[i]).location,
    ) by {
        let at = state.bookmarks[i].location;
        assert(state.bookmarks[i].location.file == at.file);
        assert(state.marked(at.file, at.revision));
        assert(after.source(at.file, at.revision) is Some);
    }
    assert forall|i: int| 0 <= i < after.sources.len() implies after.referenced(
        (#[trigger] after.sources[i]).capture.file,
        after.sources[i].capture.revision,
    ) by {
        lemma_needed_is_referenced(state, 0, i);
        let (f, r) = (after.sources[i].capture.file, after.sources[i].capture.revision);
        assert(state.shown(f, r) == after.shown(f, r));
        assert(state.visited(f, r) == after.visited(f, r));
        assert(state.marked(f, r) == after.marked(f, r));
    }
}

proof fn lemma_place_complete(
    state: DeskStateModel,
    owner: ArenaOwnerId,
    id: u64,
    at: DeskLocation,
    path: Seq<char>,
    selection: Option<(usize, usize)>,
)
    requires
        state.fresh_numbers(),
        state.holds(at),
        forall|i: int|
            0 <= i < state.panes.panes.len() ==> state.shows_retained(
                #[trigger] state.panes.panes[i],
            ) || state.panes.panes[i].id == id && pane_from(state.panes.panes, id, 0) == Some(i),
        forall|i: int| 0 <= i < state.history.len() ==> state.holds(#[trigger] state.history[i]),
        forall|i: int|
            0 <= i < state.bookmarks.len() ==> state.holds(
                (#[trigger] state.bookmarks[i]).location,
            ),
    ensures
        state.place(owner, id, at, path, selection) matches Ok((next, place)) ==> {
            &&& next.complete()
            &&& next.sources == state.sources
            &&& next.holds(place)
            &&& next.panes.active == Some(id)
            &&& next.history == state.history
            &&& next.cursor == state.cursor
            &&& next.panes.active_pane() matches Some(pane) && pane.file_id == at.file
                && pane.revision == Some(at.revision) && pane.selection == selection
        },
{
    if let Ok((next, place)) = state.place(owner, id, at, path, selection) {
        lemma_pane_found(state.panes.panes, id, 0);
        let k = pane_from(state.panes.panes, id, 0)->0;
        lemma_update_keeps_pane(state.panes.panes, k, next.panes.panes[k], id);
        assert forall|i: int| 0 <= i < next.panes.panes.len() implies next.shows_retained(
            #[trigger] next.panes.panes[i],
        ) by {
            if i != k {
                assert(next.panes.panes[i] == state.panes.panes[i]);
                assert(state.shows_retained(state.panes.panes[i]));
            }
            assert(state.source(at.file, at.revision) is Some);
        }
        assert forall|i: int| 0 <= i < next.panes.panes.len() implies (
        #[trigger] next.panes.panes[i]).id < next.panes.next_id by {
            assert(state.panes.panes[i].id < state.panes.next_id);
        }
        assert forall|i: int| 0 <= i < next.history.len() implies next.holds(
            #[trigger] next.history[i],
        ) by {
            assert(state.holds(state.history[i]));
        }
        assert forall|i: int| 0 <= i < next.bookmarks.len() implies next.holds(
            (#[trigger] next.bookmarks[i]).location,
        ) by {
            assert(state.holds(state.bookmarks[i].location));
        }
    }
}

proof fn lemma_pane_absent(panes: Seq<PaneModel>, id: u64, i: int)
    requires
        0 <= i <= panes.len(),
        forall|j: int| i <= j < panes.len() ==> (#[trigger] panes[j]).id != id,
    ensures
        pane_from(panes, id, i) is None,
    decreases panes.len() - i,
{
    if i < panes.len() {
        lemma_pane_absent(panes, id, i + 1);
    }
}

proof fn lemma_pane_pushed(panes: Seq<PaneModel>, pane: PaneModel, i: int)
    requires
        0 <= i <= panes.len(),
        forall|j: int| 0 <= j < panes.len() ==> (#[trigger] panes[j]).id != pane.id,
    ensures
        pane_from(panes.push(pane), pane.id, i) == Some(panes.len() as int),
    decreases panes.len() - i,
{
    if i < panes.len() {
        assert(panes.push(pane)[i] == panes[i]);
        lemma_pane_pushed(panes, pane, i + 1);
    }
}

/// Showing a location keeps the desk complete, and the pane that becomes active
/// shows exactly that location.
pub proof fn opening_shows_the_location(
    state: DeskStateModel,
    owner: ArenaOwnerId,
    limits: DeskLimits,
    at: DeskLocation,
    duplicate: bool,
)
    requires
        state.complete(),
    ensures
        state.open_location(owner, limits, at, duplicate) matches Ok((next, place)) ==> {
            &&& next.complete()
            &&& next.sources == state.sources
            &&& next.history == state.history
            &&& next.cursor == state.cursor
            &&& next.bookmarks == state.bookmarks
            &&& next.holds(place)
            &&& place == (DeskLocation { preferred_pane: place.preferred_pane, ..at })
            &&& next.panes.active == Some(place.preferred_pane.value)
            &&& next.panes.active_pane() matches Some(pane) && pane.file_id == at.file
                && pane.revision == Some(at.revision)
        },
{
    if let Ok((next, place)) = state.open_location(owner, limits, at, duplicate) {
        let capture = state.source(at.file, at.revision)->0;
        let selection = super::selection_bounds(at.selection)->Ok_0;
        match state.preferred(at) {
            Some(id) if !duplicate => {
                lemma_place_complete(state, owner, id, at, capture.logical_path, selection);
            },
            _ => {
                let (roomier, id) = state.new_pane(limits, at)->Ok_0;
                let pushed = roomier.panes.panes.last();
                assert(roomier.panes.panes == state.panes.panes.push(pushed));
                assert forall|j: int| 0 <= j < state.panes.panes.len() implies (
                #[trigger] state.panes.panes[j]).id != id by {
                    assert(state.panes.panes[j].id < state.panes.next_id);
                }
                lemma_pane_pushed(state.panes.panes, pushed, 0);
                assert forall|i: int| 0 <= i < roomier.panes.panes.len() implies
                    roomier.shows_retained(#[trigger] roomier.panes.panes[i])
                    || roomier.panes.panes[i].id == id && pane_from(roomier.panes.panes, id, 0)
                    == Some(i) by {
                    if i < state.panes.panes.len() {
                        assert(roomier.panes.panes[i] == state.panes.panes[i]);
                        assert(state.shows_retained(state.panes.panes[i]));
                    }
                }
                assert forall|i: int| 0 <= i < roomier.panes.panes.len() implies (
                #[trigger] roomier.panes.panes[i]).id < roomier.panes.next_id by {
                    if i < state.panes.panes.len() {
                        assert(roomier.panes.panes[i] == state.panes.panes[i]);
                        assert(state.panes.panes[i].id < state.panes.next_id);
                    }
                }
                assert forall|i: int| 0 <= i < roomier.history.len() implies roomier.holds(
                    #[trigger] roomier.history[i],
                ) by {
                    assert(state.holds(state.history[i]));
                }
                assert forall|i: int| 0 <= i < roomier.bookmarks.len() implies roomier.holds(
                    (#[trigger] roomier.bookmarks[i]).location,
                ) by {
                    assert(state.holds(state.bookmarks[i].location));
                }
                assert(roomier.holds(at));
                lemma_place_complete(roomier, owner, id, at, capture.logical_path, selection);
            },
        }
    }
}

/// Recording a visit keeps the desk complete and the history within its bound.
pub proof fn recording_is_bounded(state: DeskStateModel, limit: usize, at: DeskLocation)
    requires
        state.complete(),
        state.holds(at),
        state.cursor_valid(),
        0 < limit,
        state.history.len() <= limit,
    ensures
        state.record(limit, at).complete(),
        state.record(limit, at).cursor_valid(),
        state.record(limit, at).history.len() <= limit,
        state.record(limit, at).cursor matches Some(i) && state.record(limit, at).history[i as int]
            == at,
        state.record(limit, at).sources == state.sources,
{
    let next = state.record(limit, at);
    let past = state.past(limit);
    assert forall|i: int| 0 <= i < next.history.len() implies next.holds(
        #[trigger] next.history[i],
    ) by {
        if next.history != state.history {
            let kept = match state.cursor {
                Some(c) => state.history.subrange(0, c + 1),
                None => state.history,
            };
            if i < past.len() {
                let j = if kept.len() == limit {
                    i + 1
                } else {
                    i
                };
                assert(next.history[i] == state.history[j]);
                assert(state.holds(state.history[j]));
            } else {
                assert(next.history[i] == at);
            }
        } else {
            assert(state.holds(state.history[i]));
        }
    }
    assert forall|i: int| 0 <= i < next.panes.panes.len() implies next.shows_retained(
        #[trigger] next.panes.panes[i],
    ) by {
        assert(state.shows_retained(state.panes.panes[i]));
    }
    assert forall|i: int| 0 <= i < next.bookmarks.len() implies next.holds(
        (#[trigger] next.bookmarks[i]).location,
    ) by {
        assert(state.holds(state.bookmarks[i].location));
    }
}

/// Going back shows the recorded visit: the active pane shows its file and
/// revision, the captures are untouched, and the cursor stands on it.
pub proof fn back_shows_the_recorded_visit(
    state: DeskStateModel,
    owner: ArenaOwnerId,
    limits: DeskLimits,
)
    requires
        state.complete(),
        state.cursor_valid(),
    ensures
        state.command(owner, limits, DeskCommand::Back) matches Ok((next, _)) ==> {
            let target = (state.cursor->0 - 1) as int;
            let visit = state.history[target];
            &&& state.cursor matches Some(i) && i > 0
            &&& next.cursor == Some(target as usize)
            &&& next.complete()
            &&& next.sources == state.sources
            &&& next.panes.active_pane() matches Some(pane) && pane.file_id == visit.file
                && pane.revision == Some(visit.revision)
            &&& next.source(visit.file, visit.revision) == state.source(visit.file, visit.revision)
            &&& next.history[target] == (DeskLocation {
                preferred_pane: next.history[target].preferred_pane,
                ..visit
            })
        },
{
    reveal(DeskStateModel::revisit);
    if let Ok((next, _)) = state.command(owner, limits, DeskCommand::Back) {
        let target = (state.cursor->0 - 1) as int;
        let visit = state.history[target];
        opening_shows_the_location(state, owner, limits, visit, false);
        let (opened, place) = state.open_location(owner, limits, visit, false)->Ok_0;
        assert forall|i: int| 0 <= i < next.history.len() implies next.holds(
            #[trigger] next.history[i],
        ) by {
            if i != target {
                assert(next.history[i] == opened.history[i]);
                assert(opened.holds(opened.history[i]));
            }
        }
        assert forall|i: int| 0 <= i < next.panes.panes.len() implies next.shows_retained(
            #[trigger] next.panes.panes[i],
        ) by {
            assert(opened.shows_retained(opened.panes.panes[i]));
        }
        assert forall|i: int| 0 <= i < next.bookmarks.len() implies next.holds(
            (#[trigger] next.bookmarks[i]).location,
        ) by {
            assert(opened.holds(opened.bookmarks[i].location));
        }
    }
}

/// A refused, stale or canceled command leaves everything visible as it was;
/// only the attempt number may be used up.
pub proof fn refused_commands_change_nothing(
    desk: DeskModel,
    expected: u64,
    attempt: u64,
    command: DeskCommand<Seq<char>>,
    first: bool,
    last: bool,
)
    ensures
        desk.apply(expected, attempt, command, first, last).1 is Err ==> {
            let after = desk.apply(expected, attempt, command, first, last).0;
            &&& after.state == desk.state
            &&& after.source_high_water == desk.source_high_water
            &&& after.last_attempt == desk.last_attempt || after.last_attempt == attempt
        },
        desk.apply(expected, attempt, command, first, last).1 is Ok ==> {
            let after = desk.apply(expected, attempt, command, first, last).0;
            &&& after.state.revision == attempt
            &&& after.last_attempt == attempt
            &&& attempt > desk.last_attempt
        },
{
}

/// A refused open leaves everything visible as it was, and numbers once seen
/// are never forgotten.
pub proof fn refused_opens_change_nothing(
    desk: DeskModel,
    expected: u64,
    attempt: u64,
    capture: CaptureModel,
    offset: u64,
    selection: Option<ByteRange>,
    allocation: u64,
    answers: OpenAnswers,
)
    ensures
        ({
            let (after, result) = desk.open(
                expected,
                attempt,
                capture,
                offset,
                selection,
                allocation,
                answers,
            );
            &&& result is Err ==> after.state == desk.state
            &&& after.source_high_water >= desk.source_high_water
            &&& result is Ok ==> after.source_high_water >= capture.file.value
                && after.source_high_water >= capture.revision.value
        }),
{
}

/// The same identity with other bytes is always an error.
pub proof fn identities_are_never_rebound(
    desk: DeskModel,
    expected: u64,
    attempt: u64,
    capture: CaptureModel,
    offset: u64,
    selection: Option<ByteRange>,
    allocation: u64,
    answers: OpenAnswers,
)
    requires
        desk.state.source(capture.file, capture.revision) matches Some(old) && old.bytes
            != capture.bytes,
    ensures
        desk.open(expected, attempt, capture, offset, selection, allocation, answers).1 is Err,
{
}

/// A numbered attempt is used at most once.
pub proof fn attempts_are_used_once(
    desk: DeskModel,
    expected: u64,
    attempt: u64,
    command: DeskCommand<Seq<char>>,
    first: bool,
    last: bool,
    again: DeskCommand<Seq<char>>,
)
    requires
        desk.staleness(expected, attempt) is None,
    ensures
        ({
            let after = desk.apply(expected, attempt, command, first, last).0;
            after.apply(after.state.revision, attempt, again, false, false) == (
                after,
                Err::<DeskChange, DeskError>(DeskError::StaleAttempt),
            )
        }),
{
}

/// A pane of the new list shows what a pane of the old list showed.
spec fn derived(old_panes: Seq<PaneModel>, pane: PaneModel) -> bool {
    exists|j: int|
        0 <= j < old_panes.len() && (#[trigger] old_panes[j]).id == pane.id && old_panes[j].file_id
            == pane.file_id && old_panes[j].revision == pane.revision
}

proof fn lemma_panes_derived(state: DeskStateModel, next: DeskStateModel)
    requires
        state.complete(),
        next.sources == state.sources,
        next.history == state.history,
        next.bookmarks == state.bookmarks,
        next.panes.next_id == state.panes.next_id,
        forall|i: int|
            0 <= i < next.panes.panes.len() ==> derived(
                state.panes.panes,
                #[trigger] next.panes.panes[i],
            ),
    ensures
        next.complete(),
{
    assert forall|i: int| 0 <= i < next.panes.panes.len() implies next.shows_retained(
        #[trigger] next.panes.panes[i],
    ) && next.panes.panes[i].id < next.panes.next_id by {
        assert(derived(state.panes.panes, next.panes.panes[i]));
        let pane = next.panes.panes[i];
        let j = choose|j: int|
            0 <= j < state.panes.panes.len() && (#[trigger] state.panes.panes[j]).id == pane.id
                && state.panes.panes[j].file_id == pane.file_id && state.panes.panes[j].revision
                == pane.revision;
        assert(state.shows_retained(state.panes.panes[j]));
    }
    assert forall|i: int| 0 <= i < next.history.len() implies next.holds(
        #[trigger] next.history[i],
    ) by {
        assert(state.holds(state.history[i]));
    }
    assert forall|i: int| 0 <= i < next.bookmarks.len() implies next.holds(
        (#[trigger] next.bookmarks[i]).location,
    ) by {
        assert(state.holds(state.bookmarks[i].location));
    }
}

/// Rewriting a pane without touching what it shows keeps the desk complete.
proof fn lemma_rewrite_complete(state: DeskStateModel, id: u64, pane: PaneModel, active: Option<u64>)
    requires
        state.complete(),
        state.panes.pane(id) matches Some(old) ==> pane.id == old.id && pane.file_id == old.file_id
            && pane.revision == old.revision,
    ensures
        (DeskStateModel {
            panes: PanesModel { active, ..state.panes.with_pane(id, pane) },
            ..state
        }).complete(),
{
    let next = DeskStateModel {
        panes: PanesModel { active, ..state.panes.with_pane(id, pane) },
        ..state
    };
    if pane_from(state.panes.panes, id, 0) is Some {
        lemma_pane_found(state.panes.panes, id, 0);
    }
    assert forall|i: int| 0 <= i < next.panes.panes.len() implies derived(
        state.panes.panes,
        #[trigger] next.panes.panes[i],
    ) by {
        assert(state.panes.panes[i].id == next.panes.panes[i].id);
    }
    lemma_panes_derived(state, next);
}

proof fn lemma_close_complete(state: DeskStateModel, id: u64)
    requires
        state.complete(),
    ensures
        state.without_pane(id).complete(),
{
    let next = state.without_pane(id);
    let k = pane_from(state.panes.panes, id, 0);
    if k is Some {
        lemma_pane_found(state.panes.panes, id, 0);
    }
    assert forall|i: int| 0 <= i < next.panes.panes.len() implies derived(
        state.panes.panes,
        #[trigger] next.panes.panes[i],
    ) by {
        let j = if k is Some && i >= k->0 {
            i + 1
        } else {
            i
        };
        assert(state.panes.panes[j] == next.panes.panes[i]);
        assert(state.panes.panes[j].id == next.panes.panes[i].id);
    }
    lemma_panes_derived(state, next);
}

proof fn lemma_location_held(state: DeskStateModel, owner: ArenaOwnerId, id: DeskPaneId)
    requires
        state.complete(),
    ensures
        state.location(owner, id) matches Ok(at) ==> state.holds(at),
{
    if state.location(owner, id) is Ok {
        lemma_pane_found(state.panes.panes, id.value, 0);
        assert(state.shows_retained(state.panes.panes[pane_from(state.panes.panes, id.value, 0)->0]));
    }
}

/// Every command keeps the desk complete: nothing that a pane, a visit or a
/// bookmark needs is ever missing.
pub proof fn commands_keep_complete(
    state: DeskStateModel,
    owner: ArenaOwnerId,
    limits: DeskLimits,
    command: DeskCommand<Seq<char>>,
)
    requires
        state.complete(),
        state.cursor_valid(),
        0 < limits.history,
        state.history.len() <= limits.history,
    ensures
        state.command(owner, limits, command) matches Ok((next, _)) ==> next.complete()
            && next.cursor_valid() && next.history.len() <= limits.history,
{
    if let Ok((next, _)) = state.command(owner, limits, command) {
        match command {
            DeskCommand::Focus(pane) => {
                reveal(DeskStateModel::focus);
                lemma_location_held(state, owner, pane);
                let at = state.location(owner, pane)->Ok_0;
                let focused = DeskStateModel {
                    panes: PanesModel { active: Some(pane.value), ..state.panes },
                    ..state
                };
                assert forall|i: int| 0 <= i < focused.panes.panes.len() implies derived(
                    state.panes.panes,
                    #[trigger] focused.panes.panes[i],
                ) by {
                    assert(state.panes.panes[i].id == focused.panes.panes[i].id);
                }
                lemma_panes_derived(state, focused);
                assert(focused.holds(at));
                recording_is_bounded(focused, limits.history, at);
            },
            DeskCommand::Navigate { pane, offset, selection } => {
                reveal(DeskStateModel::navigate);
                let at = DeskLocation { offset, selection, ..state.location(owner, pane)->Ok_0 };
                lemma_visit_complete(state, owner, limits, at);
            },
            DeskCommand::Scroll { pane, offset } => {
                reveal(DeskStateModel::scroll);
                lemma_location_held(state, owner, pane);
                assert forall|i: int| 0 <= i < next.history.len() implies next.holds(
                    #[trigger] next.history[i],
                ) by {
                    assert(state.holds(state.history[i]));
                }
                assert forall|i: int| 0 <= i < next.panes.panes.len() implies next.shows_retained(
                    #[trigger] next.panes.panes[i],
                ) by {
                    assert(state.shows_retained(state.panes.panes[i]));
                }
                assert forall|i: int| 0 <= i < next.bookmarks.len() implies next.holds(
                    (#[trigger] next.bookmarks[i]).location,
                ) by {
                    assert(state.holds(state.bookmarks[i].location));
                }
            },
            DeskCommand::Pin { pane, pinned } => {
                reveal(DeskStateModel::pin);
                lemma_rewrite_complete(
                    state,
                    pane.value,
                    ReadingPane { is_pinned: pinned, ..state.panes.pane(pane.value)->0 },
                    state.panes.active,
                );
                assert(next.panes =~= PanesModel {
                    active: state.panes.active,
                    ..state.panes.with_pane(
                        pane.value,
                        ReadingPane { is_pinned: pinned, ..state.panes.pane(pane.value)->0 },
                    )
                });
            },
            DeskCommand::Duplicate(pane) => {
                reveal(DeskStateModel::duplicate);
                let at = state.location(owner, pane)->Ok_0;
                opening_shows_the_location(state, owner, limits, at, true);
                let (opened, place) = state.open_location(owner, limits, at, true)->Ok_0;
                let id = place.preferred_pane.value;
                let pinned = DeskStateModel { panes: opened.panes.set_pinned(id, true), ..opened };
                lemma_rewrite_complete(
                    opened,
                    id,
                    ReadingPane { is_pinned: true, ..opened.panes.pane(id)->0 },
                    opened.panes.active,
                );
                assert(pinned.panes =~= PanesModel {
                    active: opened.panes.active,
                    ..opened.panes.with_pane(
                        id,
                        ReadingPane { is_pinned: true, ..opened.panes.pane(id)->0 },
                    )
                });
                assert(pinned.holds(place));
                recording_is_bounded(pinned, limits.history, place);
            },
            DeskCommand::Close(pane) => {
                reveal(DeskStateModel::close);
                lemma_close_complete(state, pane.value);
            },
            DeskCommand::Escape => {
                reveal(DeskStateModel::escape);
                lemma_close_complete(state, state.panes.closing()->0);
            },
            DeskCommand::Back => {
                lemma_revisit_complete(state, owner, limits, (state.cursor->0 - 1) as usize);
                reveal(DeskStateModel::revisit);
            },
            DeskCommand::Forward => {
                lemma_revisit_complete(state, owner, limits, (state.cursor->0 + 1) as usize);
                reveal(DeskStateModel::revisit);
            },
            DeskCommand::Bookmark { pane, label } => {
                reveal(DeskStateModel::bookmark);
                lemma_location_held(state, owner, pane);
                assert forall|i: int| 0 <= i < next.history.len() implies next.holds(
                    #[trigger] next.history[i],
                ) by {
                    assert(state.holds(state.history[i]));
                }
                assert forall|i: int| 0 <= i < next.panes.panes.len() implies next.shows_retained(
                    #[trigger] next.panes.panes[i],
                ) by {
                    assert(state.shows_retained(state.panes.panes[i]));
                }
                assert forall|i: int| 0 <= i < next.bookmarks.len() implies next.holds(
                    (#[trigger] next.bookmarks[i]).location,
                ) by {
                    if i < state.bookmarks.len() {
                        assert(next.bookmarks[i] == state.bookmarks[i]);
                        assert(state.holds(state.bookmarks[i].location));
                    }
                }
            },
            DeskCommand::RecallBookmark(id) => {
                reveal(DeskStateModel::recall);
                let k = super::bookmark_from(state.bookmarks, id, 0)->0;
                lemma_visit_complete(state, owner, limits, state.bookmarks[k].location);
            },
            DeskCommand::ForgetBookmark(id) => {
                reveal(DeskStateModel::forget);
                let k = super::bookmark_from(state.bookmarks, id, 0)->0;
                lemma_bookmark_found(state.bookmarks, id, 0);
                assert forall|i: int| 0 <= i < next.history.len() implies next.holds(
                    #[trigger] next.history[i],
                ) by {
                    assert(state.holds(state.history[i]));
                }
                assert forall|i: int| 0 <= i < next.panes.panes.len() implies next.shows_retained(
                    #[trigger] next.panes.panes[i],
                ) by {
                    assert(state.shows_retained(state.panes.panes[i]));
                }
                assert forall|i: int| 0 <= i < next.bookmarks.len() implies next.holds(
                    (#[trigger] next.bookmarks[i]).location,
                ) by {
                    let j = if i < k {
                        i
                    } else {
                        i + 1
                    };
                    assert(next.bookmarks[i] == state.bookmarks[j]);
                    assert(state.holds(state.bookmarks[j].location));
                }
            },
            DeskCommand::ClearHistory => {
                reveal(DeskStateModel::clear_history);
                let cleared = DeskStateModel { history: Seq::empty(), cursor: None, ..state };
                assert forall|i: int| 0 <= i < cleared.panes.panes.len() implies
                    cleared.shows_retained(#[trigger] cleared.panes.panes[i]) by {
                    assert(state.shows_retained(state.panes.panes[i]));
                }
                assert forall|i: int| 0 <= i < cleared.bookmarks.len() implies cleared.holds(
                    (#[trigger] cleared.bookmarks[i]).location,
                ) by {
                    assert(state.holds(state.bookmarks[i].location));
                }
                assert(cleared.complete());
                if let Some(value) = state.panes.active {
                    lemma_location_held(state, owner, DeskPaneId { owner, value });
                    let at = state.location(owner, DeskPaneId { owner, value })->Ok_0;
                    assert(cleared.holds(at));
                    recording_is_bounded(cleared, limits.history, at);
                }
            },
            DeskCommand::Arrange { pane, position, size } => {
                reveal(DeskStateModel::arrange);
                let moved = ReadingPane { position, size, ..state.panes.pane(pane.value)->0 };
                lemma_rewrite_complete(state, pane.value, moved, state.panes.active);
                assert(next.panes =~= PanesModel {
                    active: state.panes.active,
                    ..state.panes.with_pane(pane.value, moved)
                });
            },
        }
    }
}

pub proof fn lemma_bookmark_found(bookmarks: Seq<BookmarkModel>, id: u64, i: int)
    requires
        0 <= i,
    ensures
        super::bookmark_from(bookmarks, id, i) matches Some(k) ==> i <= k < bookmarks.len(),
    decreases bookmarks.len() - i,
{
    if i < bookmarks.len() {
        lemma_bookmark_found(bookmarks, id, i + 1);
    }
}

proof fn lemma_visit_complete(
    state: DeskStateModel,
    owner: ArenaOwnerId,
    limits: DeskLimits,
    at: DeskLocation,
)
    requires
        state.complete(),
        state.cursor_valid(),
        0 < limits.history,
        state.history.len() <= limits.history,
    ensures
        state.visit(owner, limits, at, false) matches Ok((next, _)) ==> next.complete()
            && next.cursor_valid() && next.history.len() <= limits.history,
{
    opening_shows_the_location(state, owner, limits, at, false);
    if let Ok((opened, place)) = state.open_location(owner, limits, at, false) {
        recording_is_bounded(opened, limits.history, place);
    }
}

proof fn lemma_revisit_complete(
    state: DeskStateModel,
    owner: ArenaOwnerId,
    limits: DeskLimits,
    target: usize,
)
    requires
        state.complete(),
        state.cursor_valid(),
    ensures
        target < state.history.len() ==> (state.revisit(owner, limits, Some(target)) matches Ok(
            (next, _),
        ) ==> next.complete() && next.cursor_valid() && next.history.len() == state.history.len()),
{
    reveal(DeskStateModel::revisit);
    if target < state.history.len() {
        if let Ok((next, _)) = state.revisit(owner, limits, Some(target)) {
            let visit = state.history[target as int];
            opening_shows_the_location(state, owner, limits, visit, false);
            let (opened, place) = state.open_location(owner, limits, visit, false)->Ok_0;
            assert forall|i: int| 0 <= i < next.history.len() implies next.holds(
                #[trigger] next.history[i],
            ) by {
                if i != target {
                    assert(next.history[i] == opened.history[i]);
                    assert(opened.holds(opened.history[i]));
                }
            }
            assert forall|i: int| 0 <= i < next.panes.panes.len() implies next.shows_retained(
                #[trigger] next.panes.panes[i],
            ) by {
                assert(opened.shows_retained(opened.panes.panes[i]));
            }
            assert forall|i: int| 0 <= i < next.bookmarks.len() implies next.holds(
                (#[trigger] next.bookmarks[i]).location,
            ) by {
                assert(opened.holds(opened.bookmarks[i].location));
            }
        }
    }
}

} // verus!
