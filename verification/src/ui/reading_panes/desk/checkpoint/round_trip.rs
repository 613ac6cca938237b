//! What a checkpoint holds is what restoring it gives back.
use vstd::prelude::*;
use vstd::utf8::{encode_utf8, encode_utf8_decode_utf8, encode_utf8_valid_utf8};

use super::encoding::{
    chain, field, flag, location_bytes, mark_records, number, pane_head, pane_record, pane_records,
    payload, plan_bytes, point_bytes, selection_bytes, source_record, source_records, text_field,
    visit_records,
};
use super::{
    bool_at, bytes_at, data_len, label_at, layout_usable, location_at, mapped_from, marks_at,
    pane_at, pane_head_at, panes_at, plan_at, point_at, rebased, record_at, recorded, records_at,
    remap, schema_spec, selection_at, u64_at, visits_at, PaneHead, PaneRows, PlanModel, RecordModel,
    MAX_CHECKPOINT_BYTES, NOWHERE,
};
use crate::capture::text_len;
use crate::envelope::{
    covered, field_holds, header, holds, holds_split, le_bytes, le_bytes_len, le_limits,
    sealed_frame_opens, Sha256Digest, HEADER_LEN,
};
use crate::identity::{ArenaOwnerId, ByteRange};
use crate::scalar::Point;
use crate::text::empty_text;
use crate::ui::reading_panes::desk::{
    location_valid, source_bytes_from, source_from, BookmarkModel, DeskBookmark, DeskLimits,
    DeskLocation, DeskModel, DeskPaneId, DeskStateModel, RetainedModel, MAX_BOOKMARK_LABEL_BYTES,
};
use crate::ui::reading_panes::{PaneModel, PanesModel, ReadingPane, MAX_READING_PATH_BYTES};

verus! {

proof fn lemma_number(d: Seq<u8>, i: int, n: u64)
    requires
        holds(d, i, number(n)),
    ensures
        u64_at(d, i) == Ok::<(u64, int), super::CheckpointError>((n, i + 8)),
        number(n).len() == 8,
{
    le_bytes_len(n as nat, 8);
    le_limits();
    field_holds(d, i, n as nat, 8);
}

proof fn lemma_flag(d: Seq<u8>, i: int, value: bool)
    requires
        holds(d, i, flag(value)),
    ensures
        bool_at(d, i) == Ok::<(bool, int), super::CheckpointError>((value, i + 1)),
        flag(value).len() == 1,
{
    assert(d.subrange(i, i + 1)[0] == flag(value)[0]);
}

proof fn lemma_point(d: Seq<u8>, i: int, point: Point)
    requires
        holds(d, i, point_bytes(point)),
    ensures
        point_at(d, i) == Ok::<(Point, int), super::CheckpointError>((point, i + 8)),
        point_bytes(point).len() == 8,
{
    le_bytes_len(point.0.bits as nat, 4);
    le_bytes_len(point.1.bits as nat, 4);
    le_limits();
    holds_split(d, i, le_bytes(point.0.bits as nat, 4), le_bytes(point.1.bits as nat, 4));
    field_holds(d, i, point.0.bits as nat, 4);
    field_holds(d, i + 4, point.1.bits as nat, 4);
}

proof fn lemma_bytes(d: Seq<u8>, i: int, bytes: Seq<u8>, limit: u64)
    requires
        holds(d, i, field(bytes)),
        bytes.len() <= limit,
    ensures
        bytes_at(d, i, limit) == Ok::<(Seq<u8>, int), super::CheckpointError>(
            (bytes, i + 8 + bytes.len()),
        ),
        field(bytes).len() == 8 + bytes.len(),
{
    le_bytes_len(bytes.len(), 8);
    holds_split(d, i, le_bytes(bytes.len(), 8), bytes);
    assert(number(bytes.len() as u64) == le_bytes(bytes.len(), 8));
    lemma_number(d, i, bytes.len() as u64);
}

proof fn lemma_label(d: Seq<u8>, i: int, text: Seq<char>, limit: usize)
    requires
        holds(d, i, text_field(text)),
        text.len() > 0,
        text_len(text) <= limit,
    ensures
        label_at(d, i, limit) == Ok::<(Seq<char>, int), super::CheckpointError>(
            (text, i + 8 + text_len(text)),
        ),
        text_field(text).len() == 8 + text_len(text),
{
    lemma_bytes(d, i, encode_utf8(text), limit as u64);
    empty_text(text);
    encode_utf8_valid_utf8(text);
    encode_utf8_decode_utf8(text);
}

proof fn lemma_selection(d: Seq<u8>, i: int, selection: Option<ByteRange>)
    requires
        holds(d, i, selection_bytes(selection)),
        selection matches Some(range) ==> range.start <= range.end,
    ensures
        selection_at(d, i) == Ok::<(Option<ByteRange>, int), super::CheckpointError>(
            (selection, i + selection_bytes(selection).len()),
        ),
{
    match selection {
        None => lemma_flag(d, i, false),
        Some(range) => {
            holds_split(d, i, flag(true) + number(range.start), number(range.end));
            holds_split(d, i, flag(true), number(range.start));
            lemma_flag(d, i, true);
            lemma_number(d, i + 1, range.start);
            lemma_number(d, i + 9, range.end);
        },
    }
}

/// A location is in its retained capture.
pub open spec fn placed(sources: Seq<RetainedModel>, at: DeskLocation) -> bool {
    &&& source_from(sources, at.file, at.revision, 0) matches Some(k)
    &&& location_valid(sources[k].capture.bytes, at.offset, at.selection)
    &&& at.selection matches Some(range) ==> range.start <= range.end
}

/// Where the capture of a location stands among the sources.
pub open spec fn place_of(sources: Seq<RetainedModel>, at: DeskLocation) -> int {
    source_from(sources, at.file, at.revision, 0)->0
}

/// A location under the identities of other captures with the same bytes.
pub open spec fn moved(
    sources: Seq<RetainedModel>,
    fresh: Seq<RetainedModel>,
    at: DeskLocation,
    pane: DeskPaneId,
) -> DeskLocation {
    let capture = fresh[place_of(sources, at)].capture;
    DeskLocation {
        file: capture.file,
        revision: capture.revision,
        offset: at.offset,
        selection: at.selection,
        preferred_pane: pane,
    }
}

/// Captures with the same labels and bytes, in the same order.
pub open spec fn same_contents(a: Seq<RetainedModel>, b: Seq<RetainedModel>) -> bool {
    &&& a.len() == b.len()
    &&& forall|k: int|
        0 <= k < a.len() ==> (#[trigger] a[k]).capture.bytes == b[k].capture.bytes
            && a[k].capture.logical_path == b[k].capture.logical_path
}

proof fn lemma_source_index(sources: Seq<RetainedModel>, at: DeskLocation, i: int)
    requires
        0 <= i,
    ensures
        source_from(sources, at.file, at.revision, i) matches Some(k) ==> i <= k < sources.len()
            && sources[k].capture.file == at.file && sources[k].capture.revision == at.revision,
    decreases sources.len() - i,
{
    if i < sources.len() {
        lemma_source_index(sources, at, i + 1);
    }
}

proof fn lemma_location(
    d: Seq<u8>,
    i: int,
    sources: Seq<RetainedModel>,
    fresh: Seq<RetainedModel>,
    owner: ArenaOwnerId,
    at: DeskLocation,
)
    requires
        placed(sources, at),
        same_contents(sources, fresh),
        sources.len() <= u64::MAX,
        holds(d, i, location_bytes(sources, at)->Ok_0),
    ensures
        location_bytes(sources, at) is Ok,
        location_at(d, i, fresh, owner) == Ok::<
            ((DeskLocation, u64), int),
            super::CheckpointError,
        >(
            (
                (
                    moved(sources, fresh, at, DeskPaneId { owner, value: 0 }),
                    at.preferred_pane.value,
                ),
                i + location_bytes(sources, at)->Ok_0.len(),
            ),
        ),
{
    lemma_source_index(sources, at, 0);
    let k = place_of(sources, at);
    let a = number(k as u64);
    let b = number(at.offset);
    let c = selection_bytes(at.selection);
    let e = number(at.preferred_pane.value);
    holds_split(d, i, a + b + c, e);
    holds_split(d, i, a + b, c);
    holds_split(d, i, a, b);
    lemma_number(d, i, k as u64);
    lemma_number(d, i + 8, at.offset);
    lemma_selection(d, i + 16, at.selection);
    lemma_number(d, i + 16 + c.len(), at.preferred_pane.value);
    assert(sources[k].capture.bytes == fresh[k].capture.bytes);
}

/// The sources as a document holds them.
pub open spec fn record_of(source: RetainedModel) -> RecordModel {
    RecordModel {
        file: source.capture.file.value,
        revision: source.capture.revision.value,
        label: source.capture.logical_path,
        data: source.capture.bytes,
    }
}

pub open spec fn record_models(sources: Seq<RetainedModel>) -> Seq<RecordModel> {
    Seq::new(sources.len(), |k: int| record_of(sources[k]))
}

/// Captures that a desk with these limits can retain.
pub open spec fn retainable(
    sources: Seq<RetainedModel>,
    owner: ArenaOwnerId,
    limits: DeskLimits,
) -> bool {
    &&& sources.len() <= limits.sources
    &&& source_bytes_from(sources, 0) <= limits.retained_bytes
    &&& forall|k: int|
        0 <= k < sources.len() ==> {
            let capture = (#[trigger] sources[k]).capture;
            &&& capture.file.owner == owner
            &&& capture.revision.owner == owner
            &&& capture.file.value != 0
            &&& capture.revision.value != 0
            &&& capture.logical_path.len() > 0
            &&& text_len(capture.logical_path) <= MAX_READING_PATH_BYTES
            &&& capture.bytes.len() <= limits.source_bytes
        }
    &&& forall|j: int, k: int|
        0 <= j < k < sources.len() ==> ((#[trigger] sources[j]).capture.file != (
        #[trigger] sources[k]).capture.file || sources[j].capture.revision
            != sources[k].capture.revision)
}

proof fn lemma_data_split(sources: Seq<RetainedModel>, j: int)
    requires
        0 <= j <= sources.len(),
    ensures
        data_len(record_models(sources).subrange(0, j)) + source_bytes_from(sources, j)
            == source_bytes_from(sources, 0),
    decreases j,
{
    let all = record_models(sources);
    if j > 0 {
        lemma_data_split(sources, j - 1);
        assert(all.subrange(0, j).drop_last() =~= all.subrange(0, j - 1));
        assert(all.subrange(0, j).last() == record_of(sources[j - 1]));
    } else {
        assert(all.subrange(0, 0) =~= Seq::empty());
    }
}

proof fn lemma_record(
    d: Seq<u8>,
    i: int,
    sources: Seq<RetainedModel>,
    owner: ArenaOwnerId,
    j: int,
    limits: DeskLimits,
)
    requires
        retainable(sources, owner, limits),
        0 <= j < sources.len(),
        holds(d, i, source_record(sources[j])),
    ensures
        record_at(d, i, record_models(sources).subrange(0, j), limits) == Ok::<
            (RecordModel, int),
            super::CheckpointError,
        >((record_of(sources[j]), i + source_record(sources[j]).len())),
{
    let capture = sources[j].capture;
    let a = number(capture.file.value);
    let b = number(capture.revision.value);
    let c = text_field(capture.logical_path);
    let e = field(capture.bytes);
    holds_split(d, i, a + b + c, e);
    holds_split(d, i, a + b, c);
    holds_split(d, i, a, b);
    lemma_number(d, i, capture.file.value);
    lemma_number(d, i + 8, capture.revision.value);
    lemma_label(d, i + 16, capture.logical_path, MAX_READING_PATH_BYTES);
    lemma_bytes(d, i + 16 + c.len(), capture.bytes, limits.source_bytes);
    let done = record_models(sources).subrange(0, j);
    if recorded(done, capture.file.value, capture.revision.value) {
        let k = choose|k: int|
            0 <= k < done.len() && (#[trigger] done[k]).file == capture.file.value
                && done[k].revision == capture.revision.value;
        assert(done[k] == record_of(sources[k]));
        assert(sources[k].capture.file == capture.file);
        assert(sources[k].capture.revision == capture.revision);
    }
    lemma_data_split(sources, j);
}

proof fn lemma_records(
    d: Seq<u8>,
    i: int,
    sources: Seq<RetainedModel>,
    owner: ArenaOwnerId,
    j: int,
    limits: DeskLimits,
)
    requires
        retainable(sources, owner, limits),
        0 <= j <= sources.len(),
        holds(d, i, source_records(sources, j)),
    ensures
        records_at(
            d,
            i,
            (sources.len() - j) as nat,
            record_models(sources).subrange(0, j),
            limits,
        ) == Ok::<(Seq<RecordModel>, int), super::CheckpointError>(
            (record_models(sources), i + source_records(sources, j).len()),
        ),
    decreases sources.len() - j,
{
    let all = record_models(sources);
    if j < sources.len() {
        let a = source_record(sources[j]);
        holds_split(d, i, a, source_records(sources, j + 1));
        lemma_record(d, i, sources, owner, j, limits);
        assert(all.subrange(0, j).push(record_of(sources[j])) =~= all.subrange(0, j + 1));
        lemma_records(d, i + a.len(), sources, owner, j + 1, limits);
    } else {
        assert(all.subrange(0, j) =~= all);
    }
}

/// A pane that a document can hold.
pub open spec fn pane_kept(state: DeskStateModel, owner: ArenaOwnerId, pane: PaneModel) -> bool {
    &&& pane.id != 0
    &&& layout_usable(pane.position, pane.size, pane.scroll_offset)
    &&& state.location(owner, DeskPaneId { owner, value: pane.id }) matches Ok(at)
    &&& placed(state.sources, at)
}

/// A state that a desk keeps whole: everything it shows or remembers lies in a
/// retained capture, and every retained capture is needed.
#[verifier::opaque]
pub open spec fn kept_whole(
    state: DeskStateModel,
    owner: ArenaOwnerId,
    limits: DeskLimits,
) -> bool {
    &&& retainable(state.sources, owner, limits)
    &&& state.panes.panes.len() <= limits.panes
    &&& state.history.len() <= limits.history
    &&& state.bookmarks.len() <= limits.bookmarks
    &&& state.cursor_valid()
    &&& (state.cursor is None <==> state.history.len() == 0)
    &&& (state.panes.active is None <==> state.panes.panes.len() == 0)
    &&& state.panes.active matches Some(id) ==> exists|k: int|
        0 <= k < state.panes.panes.len() && (#[trigger] state.panes.panes[k]).id == id
    &&& forall|k: int|
        0 <= k < state.panes.panes.len() ==> pane_kept(
            state,
            owner,
            #[trigger] state.panes.panes[k],
        )
    &&& forall|j: int, k: int|
        0 <= j < k < state.panes.panes.len() ==> (#[trigger] state.panes.panes[j]).id != (
        #[trigger] state.panes.panes[k]).id
    &&& forall|k: int|
        0 <= k < state.history.len() ==> placed(state.sources, #[trigger] state.history[k])
    &&& forall|k: int|
        0 <= k < state.bookmarks.len() ==> {
            let mark = #[trigger] state.bookmarks[k];
            &&& placed(state.sources, mark.location)
            &&& mark.label.len() > 0
            &&& text_len(mark.label) <= MAX_BOOKMARK_LABEL_BYTES
        }
    &&& state.all_referenced()
}

/// Where a pane stands.
pub open spec fn pane_location(
    state: DeskStateModel,
    owner: ArenaOwnerId,
    k: int,
) -> DeskLocation {
    state.location(owner, DeskPaneId { owner, value: state.panes.panes[k].id })->Ok_0
}

/// Which pane number becomes which.
pub open spec fn pane_map(state: DeskStateModel, next_id: u64) -> Seq<(u64, u64)> {
    Seq::new(
        state.panes.panes.len(),
        |k: int| (state.panes.panes[k].id, (next_id + k) as u64),
    )
}

/// The panes under new numbers, in captures with the same contents.
pub open spec fn carried_panes(
    state: DeskStateModel,
    owner: ArenaOwnerId,
    fresh: Seq<RetainedModel>,
    next_id: u64,
) -> Seq<PaneModel> {
    Seq::new(
        state.panes.panes.len(),
        |k: int|
            {
                let pane = state.panes.panes[k];
                let capture = fresh[place_of(
                    state.sources,
                    pane_location(state, owner, k),
                )].capture;
                ReadingPane {
                    id: (next_id + k) as u64,
                    file_id: capture.file,
                    revision: Some(capture.revision),
                    path: capture.logical_path,
                    target_line: None,
                    ..pane
                }
            },
    )
}

/// The viewport positions of the panes under new numbers.
pub open spec fn carried_offsets(
    state: DeskStateModel,
    owner: ArenaOwnerId,
    next_id: u64,
) -> Seq<(u64, u64)> {
    Seq::new(
        state.panes.panes.len(),
        |k: int| ((next_id + k) as u64, pane_location(state, owner, k).offset),
    )
}

/// A location in captures with the same contents, naming its pane's new number.
pub open spec fn carried_place(
    state: DeskStateModel,
    home: ArenaOwnerId,
    fresh: Seq<RetainedModel>,
    next_id: u64,
    at: DeskLocation,
) -> DeskLocation {
    moved(
        state.sources,
        fresh,
        at,
        DeskPaneId {
            owner: home,
            value: remap(pane_map(state, next_id), at.preferred_pane.value),
        },
    )
}

/// The state with everything in it, under new identities.
pub open spec fn carried(
    state: DeskStateModel,
    owner: ArenaOwnerId,
    home: ArenaOwnerId,
    fresh: Seq<RetainedModel>,
    revision: u64,
    next_id: u64,
    next_bookmark: u64,
) -> DeskStateModel {
    DeskStateModel {
        revision,
        panes: PanesModel {
            panes: carried_panes(state, owner, fresh, next_id),
            active: match state.panes.active {
                Some(id) => Some(remap(pane_map(state, next_id), id)),
                None => None,
            },
            next_id: (next_id + state.panes.panes.len()) as u64,
        },
        offsets: carried_offsets(state, owner, next_id),
        sources: fresh,
        history: Seq::new(
            state.history.len(),
            |k: int| carried_place(state, home, fresh, next_id, state.history[k]),
        ),
        cursor: state.cursor,
        bookmarks: Seq::new(
            state.bookmarks.len(),
            |k: int|
                DeskBookmark {
                    id: (next_bookmark + k) as u64,
                    label: state.bookmarks[k].label,
                    location: carried_place(
                        state,
                        home,
                        fresh,
                        next_id,
                        state.bookmarks[k].location,
                    ),
                },
        ),
        next_bookmark: (next_bookmark + state.bookmarks.len()) as u64,
    }
}

/// The panes read so far.
spec fn rows_upto(
    state: DeskStateModel,
    owner: ArenaOwnerId,
    fresh: Seq<RetainedModel>,
    next_id: u64,
    j: int,
) -> PaneRows {
    PaneRows {
        panes: PanesModel {
            panes: carried_panes(state, owner, fresh, next_id).subrange(0, j),
            active: None,
            next_id: (next_id + j) as u64,
        },
        offsets: carried_offsets(state, owner, next_id).subrange(0, j),
        map: pane_map(state, next_id).subrange(0, j),
    }
}

proof fn lemma_unmapped(map: Seq<(u64, u64)>, number: u64, i: int)
    requires
        0 <= i <= map.len(),
        forall|k: int| i <= k < map.len() ==> (#[trigger] map[k]).0 != number,
    ensures
        mapped_from(map, number, i) is None,
    decreases map.len() - i,
{
    if i < map.len() {
        lemma_unmapped(map, number, i + 1);
    }
}

proof fn lemma_mapped(map: Seq<(u64, u64)>, number: u64, i: int, k: int)
    requires
        0 <= i <= k < map.len(),
        map[k].0 == number,
        forall|j: int| i <= j < k ==> (#[trigger] map[j]).0 != number,
    ensures
        mapped_from(map, number, i) == Some(k),
    decreases k - i,
{
    if i < k {
        lemma_mapped(map, number, i + 1, k);
    }
}

/// New captures are told apart by their revisions.
pub open spec fn told_apart(fresh: Seq<RetainedModel>) -> bool {
    forall|j: int, k: int|
        0 <= j < k < fresh.len() ==> (#[trigger] fresh[j]).capture.revision != (
        #[trigger] fresh[k]).capture.revision
}

pub proof fn lemma_fresh_index(fresh: Seq<RetainedModel>, k: int, i: int)
    requires
        told_apart(fresh),
        0 <= i <= k < fresh.len(),
    ensures
        source_from(fresh, fresh[k].capture.file, fresh[k].capture.revision, i) == Some(k),
    decreases k - i,
{
    if i < k {
        lemma_fresh_index(fresh, k, i + 1);
        assert(fresh[i].capture.revision != fresh[k].capture.revision);
    }
}

proof fn lemma_pane_head(d: Seq<u8>, i: int, pane: PaneModel, map: Seq<(u64, u64)>)
    requires
        holds(d, i, pane_head(pane)),
        pane.id != 0,
        layout_usable(pane.position, pane.size, pane.scroll_offset),
        mapped_from(map, pane.id, 0) is None,
    ensures
        pane_head_at(d, i, map) == Ok::<(PaneHead, int), super::CheckpointError>(
            (
                PaneHead {
                    number: pane.id,
                    pinned: pane.is_pinned,
                    position: pane.position,
                    size: pane.size,
                    scroll: pane.scroll_offset,
                },
                i + 33,
            ),
        ),
        pane_head(pane).len() == 33,
{
    let a = number(pane.id);
    let b = flag(pane.is_pinned);
    let c = point_bytes(pane.position);
    let e = point_bytes(pane.size);
    let f = point_bytes(pane.scroll_offset);
    holds_split(d, i, a + b + c + e, f);
    holds_split(d, i, a + b + c, e);
    holds_split(d, i, a + b, c);
    holds_split(d, i, a, b);
    lemma_number(d, i, pane.id);
    lemma_flag(d, i + 8, pane.is_pinned);
    lemma_point(d, i + 9, pane.position);
    lemma_point(d, i + 17, pane.size);
    lemma_point(d, i + 25, pane.scroll_offset);
}

proof fn lemma_pane(
    d: Seq<u8>,
    i: int,
    state: DeskStateModel,
    owner: ArenaOwnerId,
    home: ArenaOwnerId,
    limits: DeskLimits,
    fresh: Seq<RetainedModel>,
    next_id: u64,
    j: int,
)
    requires
        kept_whole(state, owner, limits),
        same_contents(state.sources, fresh),
        told_apart(fresh),
        0 <= j < state.panes.panes.len(),
        next_id != 0,
        next_id + state.panes.panes.len() <= u64::MAX,
        holds(d, i, pane_record(state, owner, state.panes.panes[j])->Ok_0),
    ensures
        pane_record(state, owner, state.panes.panes[j]) is Ok,
        pane_at(d, i, rows_upto(state, owner, fresh, next_id, j), fresh, home) == Ok::<
            (PaneRows, int),
            super::CheckpointError,
        >(
            (
                rows_upto(state, owner, fresh, next_id, j + 1),
                i + pane_record(state, owner, state.panes.panes[j])->Ok_0.len(),
            ),
        ),
{
    reveal(kept_whole);
    let pane = state.panes.panes[j];
    let rows = rows_upto(state, owner, fresh, next_id, j);
    let at = pane_location(state, owner, j);
    assert(pane_kept(state, owner, pane));
    let place = location_bytes(state.sources, at)->Ok_0;
    holds_split(d, i, pane_head(pane), place);
    assert forall|k: int| 0 <= k < rows.map.len() implies (#[trigger] rows.map[k]).0 != pane.id by {
        assert(state.panes.panes[k].id != state.panes.panes[j].id);
    }
    lemma_unmapped(rows.map, pane.id, 0);
    lemma_pane_head(d, i, pane, rows.map);
    lemma_location(d, i + 33, state.sources, fresh, home, at);
    lemma_source_index(state.sources, at, 0);
    let k = place_of(state.sources, at);
    lemma_fresh_index(fresh, k, 0);
    lemma_own_pane(state, owner, j);
    let after = rows_upto(state, owner, fresh, next_id, j + 1);
    assert(after.panes.panes =~= rows.panes.panes.push(after.panes.panes[j]));
    assert(after.offsets =~= rows.offsets.push(after.offsets[j]));
    assert(after.map =~= rows.map.push(after.map[j]));
}

/// A pane's location is its own: its number finds it, and none before it.
proof fn lemma_own_pane(state: DeskStateModel, owner: ArenaOwnerId, j: int)
    requires
        0 <= j < state.panes.panes.len(),
        forall|j: int, k: int|
            0 <= j < k < state.panes.panes.len() ==> (#[trigger] state.panes.panes[j]).id != (
            #[trigger] state.panes.panes[k]).id,
        state.location(owner, DeskPaneId { owner, value: state.panes.panes[j].id }) is Ok,
    ensures
        ({
            let at = pane_location(state, owner, j);
            let pane = state.panes.panes[j];
            &&& at.preferred_pane == (DeskPaneId { owner, value: pane.id })
            &&& at.file == pane.file_id
            &&& pane.revision == Some(at.revision)
            &&& at.selection == match pane.selection {
                Some((start, end)) => Some(ByteRange { start: start as u64, end: end as u64 }),
                None => None,
            }
        }),
{
    lemma_pane_index(state.panes.panes, j, 0);
}

proof fn lemma_pane_index(panes: Seq<PaneModel>, j: int, i: int)
    requires
        0 <= i <= j < panes.len(),
        forall|j: int, k: int|
            0 <= j < k < panes.len() ==> (#[trigger] panes[j]).id != (#[trigger] panes[k]).id,
    ensures
        crate::ui::reading_panes::pane_from(panes, panes[j].id, i) == Some(j),
    decreases j - i,
{
    if i < j {
        lemma_pane_index(panes, j, i + 1);
        assert(panes[i].id != panes[j].id);
    }
}

proof fn lemma_panes(
    d: Seq<u8>,
    i: int,
    state: DeskStateModel,
    owner: ArenaOwnerId,
    home: ArenaOwnerId,
    limits: DeskLimits,
    fresh: Seq<RetainedModel>,
    next_id: u64,
    j: int,
)
    requires
        kept_whole(state, owner, limits),
        same_contents(state.sources, fresh),
        told_apart(fresh),
        0 <= j <= state.panes.panes.len(),
        next_id != 0,
        next_id + state.panes.panes.len() <= u64::MAX,
        pane_records(state, owner, j) is Ok,
        holds(d, i, pane_records(state, owner, j)->Ok_0),
    ensures
        panes_at(
            d,
            i,
            (state.panes.panes.len() - j) as nat,
            rows_upto(state, owner, fresh, next_id, j),
            fresh,
            home,
        ) == Ok::<(PaneRows, int), super::CheckpointError>(
            (
                rows_upto(state, owner, fresh, next_id, state.panes.panes.len() as int),
                i + pane_records(state, owner, j)->Ok_0.len(),
            ),
        ),
    decreases state.panes.panes.len() - j,
{
    if j < state.panes.panes.len() {
        let a = pane_record(state, owner, state.panes.panes[j])->Ok_0;
        let b = pane_records(state, owner, j + 1)->Ok_0;
        holds_split(d, i, a, b);
        lemma_pane(d, i, state, owner, home, limits, fresh, next_id, j);
        lemma_panes(d, i + a.len(), state, owner, home, limits, fresh, next_id, j + 1);
    }
}

proof fn lemma_visits(
    d: Seq<u8>,
    i: int,
    state: DeskStateModel,
    owner: ArenaOwnerId,
    home: ArenaOwnerId,
    limits: DeskLimits,
    fresh: Seq<RetainedModel>,
    next_id: u64,
    j: int,
)
    requires
        kept_whole(state, owner, limits),
        same_contents(state.sources, fresh),
        0 <= j <= state.history.len(),
        visit_records(state, j) is Ok,
        holds(d, i, visit_records(state, j)->Ok_0),
    ensures
        ({
            let all = carried(state, owner, home, fresh, 0, next_id, 0).history;
            visits_at(
                d,
                i,
                (state.history.len() - j) as nat,
                all.subrange(0, j),
                fresh,
                pane_map(state, next_id),
                home,
            ) == Ok::<(Seq<DeskLocation>, int), super::CheckpointError>(
                (all, i + visit_records(state, j)->Ok_0.len()),
            )
        }),
    decreases state.history.len() - j,
{
    reveal(kept_whole);
    let all = carried(state, owner, home, fresh, 0, next_id, 0).history;
    if j < state.history.len() {
        let at = state.history[j];
        let a = location_bytes(state.sources, at)->Ok_0;
        let b = visit_records(state, j + 1)->Ok_0;
        holds_split(d, i, a, b);
        lemma_location(d, i, state.sources, fresh, home, at);
        assert(all.subrange(0, j).push(all[j]) =~= all.subrange(0, j + 1));
        lemma_visits(d, i + a.len(), state, owner, home, limits, fresh, next_id, j + 1);
    } else {
        assert(all.subrange(0, j) =~= all);
    }
}

proof fn lemma_marks(
    d: Seq<u8>,
    i: int,
    state: DeskStateModel,
    owner: ArenaOwnerId,
    home: ArenaOwnerId,
    limits: DeskLimits,
    fresh: Seq<RetainedModel>,
    next_id: u64,
    next_bookmark: u64,
    j: int,
)
    requires
        kept_whole(state, owner, limits),
        same_contents(state.sources, fresh),
        0 <= j <= state.bookmarks.len(),
        next_bookmark != 0,
        next_bookmark + state.bookmarks.len() <= u64::MAX,
        mark_records(state, j) is Ok,
        holds(d, i, mark_records(state, j)->Ok_0),
    ensures
        ({
            let all = carried(state, owner, home, fresh, 0, next_id, next_bookmark).bookmarks;
            marks_at(
                d,
                i,
                (state.bookmarks.len() - j) as nat,
                all.subrange(0, j),
                (next_bookmark + j) as u64,
                fresh,
                pane_map(state, next_id),
                home,
            ) == Ok::<((Seq<BookmarkModel>, u64), int), super::CheckpointError>(
                (
                    (all, (next_bookmark + state.bookmarks.len()) as u64),
                    i + mark_records(state, j)->Ok_0.len(),
                ),
            )
        }),
    decreases state.bookmarks.len() - j,
{
    reveal(kept_whole);
    let all = carried(state, owner, home, fresh, 0, next_id, next_bookmark).bookmarks;
    if j < state.bookmarks.len() {
        let mark = state.bookmarks[j];
        let a = text_field(mark.label);
        let c = location_bytes(state.sources, mark.location)->Ok_0;
        let b = mark_records(state, j + 1)->Ok_0;
        holds_split(d, i, a + c, b);
        holds_split(d, i, a, c);
        lemma_label(d, i, mark.label, MAX_BOOKMARK_LABEL_BYTES);
        lemma_location(d, i + a.len(), state.sources, fresh, home, mark.location);
        assert(all.subrange(0, j).push(all[j]) =~= all.subrange(0, j + 1));
        lemma_marks(
            d,
            i + (a + c).len(),
            state,
            owner,
            home,
            limits,
            fresh,
            next_id,
            next_bookmark,
            j + 1,
        );
    } else {
        assert(all.subrange(0, j) =~= all);
    }
}

proof fn lemma_plan(
    d: Seq<u8>,
    i: int,
    state: DeskStateModel,
    owner: ArenaOwnerId,
    limits: DeskLimits,
)
    requires
        kept_whole(state, owner, limits),
        limits.valid(),
        holds(d, i, plan_bytes(state) + source_records(state.sources, 0)),
    ensures
        plan_at(d, i, limits) == Ok::<(PlanModel, int), super::CheckpointError>(
            (
                PlanModel {
                    panes: state.panes.panes.len(),
                    history: state.history.len(),
                    bookmarks: state.bookmarks.len(),
                    cursor: match state.cursor {
                        Some(at) => at as u64,
                        None => NOWHERE,
                    },
                    active: match state.panes.active {
                        Some(id) => id,
                        None => 0,
                    },
                    records: record_models(state.sources),
                },
                i + (plan_bytes(state) + source_records(state.sources, 0)).len(),
            ),
        ),
{
    reveal(kept_whole);
    let a = number(state.sources.len() as u64);
    let b = number(state.panes.panes.len() as u64);
    let c = number(state.history.len() as u64);
    let e = number(state.bookmarks.len() as u64);
    let cursor = match state.cursor {
        Some(at) => at as u64,
        None => NOWHERE,
    };
    let active = match state.panes.active {
        Some(id) => id,
        None => 0,
    };
    holds_split(d, i, plan_bytes(state), source_records(state.sources, 0));
    holds_split(d, i, a + b + c + e + number(cursor), number(active));
    holds_split(d, i, a + b + c + e, number(cursor));
    holds_split(d, i, a + b + c, e);
    holds_split(d, i, a + b, c);
    holds_split(d, i, a, b);
    lemma_number(d, i, state.sources.len() as u64);
    lemma_number(d, i + 8, state.panes.panes.len() as u64);
    lemma_number(d, i + 16, state.history.len() as u64);
    lemma_number(d, i + 24, state.bookmarks.len() as u64);
    lemma_number(d, i + 32, cursor);
    lemma_number(d, i + 40, active);
    assert(plan_bytes(state).len() == 48);
    lemma_records(d, i + 48, state.sources, owner, 0, limits);
    assert(record_models(state.sources).subrange(0, 0) =~= Seq::empty());
    if state.panes.panes.len() > 0 {
        let id = state.panes.active->0;
        let k = choose|k: int|
            0 <= k < state.panes.panes.len() && (#[trigger] state.panes.panes[k]).id == id;
        assert(pane_kept(state, owner, state.panes.panes[k]));
    }
}

pub proof fn lemma_fresh(
    sources: Seq<RetainedModel>,
    home: ArenaOwnerId,
    first: u64,
    allocation: u64,
)
    requires
        first + sources.len() <= u64::MAX,
    ensures
        same_contents(sources, rebased(record_models(sources), home, first, allocation)),
        told_apart(rebased(record_models(sources), home, first, allocation)),
{
}

/// The capture of a location is the only one with its identity.
proof fn lemma_place(sources: Seq<RetainedModel>, at: DeskLocation, k: int)
    requires
        forall|j: int, k: int|
            0 <= j < k < sources.len() ==> ((#[trigger] sources[j]).capture.file != (
            #[trigger] sources[k]).capture.file || sources[j].capture.revision
                != sources[k].capture.revision),
        placed(sources, at),
        0 <= k < sources.len(),
        sources[k].capture.file == at.file,
        sources[k].capture.revision == at.revision,
    ensures
        place_of(sources, at) == k,
{
    lemma_source_index(sources, at, 0);
    let j = place_of(sources, at);
    if j < k {
        assert(sources[j].capture.file != sources[k].capture.file || sources[j].capture.revision
            != sources[k].capture.revision);
    } else if k < j {
        assert(sources[k].capture.file != sources[j].capture.file || sources[k].capture.revision
            != sources[j].capture.revision);
    }
}

proof fn lemma_still_referenced(
    state: DeskStateModel,
    owner: ArenaOwnerId,
    home: ArenaOwnerId,
    limits: DeskLimits,
    fresh: Seq<RetainedModel>,
    revision: u64,
    next_id: u64,
    next_bookmark: u64,
)
    requires
        kept_whole(state, owner, limits),
        same_contents(state.sources, fresh),
    ensures
        carried(state, owner, home, fresh, revision, next_id, next_bookmark).all_referenced(),
{
    reveal(kept_whole);
    let after = carried(state, owner, home, fresh, revision, next_id, next_bookmark);
    assert forall|i: int| 0 <= i < after.sources.len() implies after.referenced(
        (#[trigger] after.sources[i]).capture.file,
        after.sources[i].capture.revision,
    ) by {
        let file = state.sources[i].capture.file;
        let rev = state.sources[i].capture.revision;
        let new_file = after.sources[i].capture.file;
        let new_rev = after.sources[i].capture.revision;
        assert(state.referenced(file, rev));
        if state.shown(file, rev) {
            let p = choose|p: int|
                0 <= p < state.panes.panes.len() && #[trigger] state.panes.panes[p].file_id == file
                    && state.panes.panes[p].revision == Some(rev);
            assert(pane_kept(state, owner, state.panes.panes[p]));
            lemma_own_pane(state, owner, p);
            lemma_place(state.sources, pane_location(state, owner, p), i);
            assert(after.panes.panes[p].file_id == new_file);
            assert(after.shown(new_file, new_rev));
        } else if state.visited(file, rev) {
            let p = choose|p: int|
                0 <= p < state.history.len() && #[trigger] state.history[p].file == file
                    && state.history[p].revision == rev;
            lemma_place(state.sources, state.history[p], i);
            assert(after.history[p].file == new_file);
            assert(after.visited(new_file, new_rev));
        } else {
            let p = choose|p: int|
                0 <= p < state.bookmarks.len() && #[trigger] state.bookmarks[p].location.file
                    == file && state.bookmarks[p].location.revision == rev;
            lemma_place(state.sources, state.bookmarks[p].location, i);
            assert(after.bookmarks[p].location.file == new_file);
            assert(after.marked(new_file, new_rev));
        }
    }
}

/// Nothing is retired where everything is needed.
proof fn lemma_nothing_retired(state: DeskStateModel, i: int)
    requires
        state.all_referenced(),
        0 <= i <= state.sources.len(),
    ensures
        state.needed_from(i) == state.sources.subrange(i, state.sources.len() as int),
    decreases state.sources.len() - i,
{
    if i < state.sources.len() {
        lemma_nothing_retired(state, i + 1);
        assert(seq![state.sources[i]] + state.sources.subrange(i + 1, state.sources.len() as int)
            =~= state.sources.subrange(i, state.sources.len() as int));
    } else {
        assert(state.sources.subrange(i, i) =~= Seq::empty());
    }
}

/// The active pane stays the active pane, and the cursor stays where it is.
proof fn lemma_active(
    state: DeskStateModel,
    owner: ArenaOwnerId,
    limits: DeskLimits,
    next_id: u64,
)
    requires
        kept_whole(state, owner, limits),
    ensures
        state.cursor is None <==> state.history.len() == 0,
        DeskStateModel::restored_active(
            pane_map(state, next_id),
            match state.panes.active {
                Some(id) => id,
                None => 0,
            },
        ) == Ok::<Option<u64>, super::CheckpointError>(
            match state.panes.active {
                Some(id) => Some(remap(pane_map(state, next_id), id)),
                None => None,
            },
        ),
{
    reveal(kept_whole);
    let map = pane_map(state, next_id);
    if let Some(id) = state.panes.active {
        let k = choose|k: int|
            0 <= k < state.panes.panes.len() && (#[trigger] state.panes.panes[k]).id == id;
        assert(pane_kept(state, owner, state.panes.panes[k]));
        assert forall|j: int| 0 <= j < k implies (#[trigger] map[j]).0 != id by {
            assert(state.panes.panes[j].id != state.panes.panes[k].id);
        }
        lemma_mapped(map, id, 0, k);
    }
}

/// Reading the payload of a checkpoint back gives everything that was in it.
#[verifier::rlimit(60)]
#[verifier::spinoff_prover]
proof fn lemma_rebuilt(
    d: Seq<u8>,
    state: DeskStateModel,
    owner: ArenaOwnerId,
    target: DeskModel,
    fresh: Seq<RetainedModel>,
    plan: PlanModel,
)
    requires
        kept_whole(state, owner, target.limits),
        target.limits.valid(),
        same_contents(state.sources, fresh),
        told_apart(fresh),
        payload(state, owner) is Ok,
        d.len() == HEADER_LEN + payload(state, owner)->Ok_0.len(),
        holds(d, HEADER_LEN as int, payload(state, owner)->Ok_0),
        target.state.panes.next_id != 0,
        target.state.panes.next_id + state.panes.panes.len() <= u64::MAX,
        target.state.next_bookmark != 0,
        target.state.next_bookmark + state.bookmarks.len() <= u64::MAX,
        plan_at(d, HEADER_LEN as int, target.limits) is Ok,
        plan == plan_at(d, HEADER_LEN as int, target.limits)->Ok_0.0,
    ensures
        plan.records == record_models(state.sources),
        target.state.rebuilt(
            target.owner,
            d,
            plan_at(d, HEADER_LEN as int, target.limits)->Ok_0.1,
            plan,
            fresh,
        ) == Ok::<DeskStateModel, super::CheckpointError>(
            carried(
                state,
                owner,
                target.owner,
                fresh,
                target.state.revision,
                target.state.panes.next_id,
                target.state.next_bookmark,
            ),
        ),
{
    let h = HEADER_LEN as int;
    let next_id = target.state.panes.next_id;
    let next_bookmark = target.state.next_bookmark;
    let home = target.owner;
    let limits = target.limits;
    let a = plan_bytes(state) + source_records(state.sources, 0);
    let b = pane_records(state, owner, 0)->Ok_0;
    let c = visit_records(state, 0)->Ok_0;
    let e = mark_records(state, 0)->Ok_0;
    holds_split(d, h, a, b + (c + e));
    holds_split(d, h + a.len(), b, c + e);
    holds_split(d, h + a.len() + b.len(), c, e);
    lemma_plan(d, h, state, owner, limits);
    lemma_panes(d, h + a.len(), state, owner, home, limits, fresh, next_id, 0);
    lemma_visits(d, h + a.len() + b.len(), state, owner, home, limits, fresh, next_id, 0);
    lemma_marks(
        d,
        h + a.len() + b.len() + c.len(),
        state,
        owner,
        home,
        limits,
        fresh,
        next_id,
        next_bookmark,
        0,
    );
    let after = carried(
        state,
        owner,
        home,
        fresh,
        target.state.revision,
        next_id,
        next_bookmark,
    );
    let n = state.panes.panes.len() as int;
    let rows = rows_upto(state, owner, fresh, next_id, n);
    let start = rows_upto(state, owner, fresh, next_id, 0);
    assert(start.panes.panes =~= Seq::empty());
    assert(start.offsets =~= Seq::empty());
    assert(start.map =~= Seq::empty());
    assert(rows.panes.panes =~= after.panes.panes);
    assert(rows.offsets =~= after.offsets);
    assert(rows.map =~= pane_map(state, next_id));
    assert(carried(state, owner, home, fresh, 0, next_id, 0).history.subrange(0, 0)
        =~= Seq::empty());
    assert(carried(state, owner, home, fresh, 0, next_id, 0).history =~= after.history);
    assert(carried(state, owner, home, fresh, 0, next_id, next_bookmark).bookmarks.subrange(0, 0)
        =~= Seq::empty());
    assert(carried(state, owner, home, fresh, 0, next_id, next_bookmark).bookmarks
        =~= after.bookmarks);
    lemma_active(state, owner, limits, next_id);
    lemma_still_referenced(
        state,
        owner,
        home,
        limits,
        fresh,
        target.state.revision,
        next_id,
        next_bookmark,
    );
}

/// Restoring a checkpoint gives back everything that the desk kept: each
/// capture byte for byte, each pane with its place and layout, each visit and
/// each bookmark, under identities that are new to the restoring desk.
#[verifier::rlimit(60)]
#[verifier::spinoff_prover]
pub proof fn restoring_gives_back_what_was_kept(
    source: DeskModel,
    target: DeskModel,
    taken: u64,
    digest: Sha256Digest,
    expected: u64,
    attempt: u64,
    allocation: u64,
)
    requires
        source.checkpoint(taken, true, digest) is Ok,
        target.limits.valid(),
        kept_whole(source.state, source.owner, target.limits),
        target.staleness(expected, attempt) is None,
        target.source_high_water + 1 + source.state.sources.len() <= u64::MAX,
        super::import_charge(record_models(source.state.sources)) <= u64::MAX,
        target.state.panes.next_id != 0,
        target.state.panes.next_id + source.state.panes.panes.len() <= u64::MAX,
        target.state.next_bookmark != 0,
        target.state.next_bookmark + source.state.bookmarks.len() <= u64::MAX,
    ensures
        ({
            let document = source.checkpoint(taken, true, digest)->Ok_0.0;
            let (after, r) = target.restore(expected, attempt, document, allocation, digest, true);
            let fresh = rebased(
                record_models(source.state.sources),
                target.owner,
                (target.source_high_water + 1) as u64,
                allocation,
            );
            &&& r is Ok
            &&& same_contents(source.state.sources, fresh)
            &&& after.state == carried(
                source.state,
                source.owner,
                target.owner,
                fresh,
                attempt,
                target.state.panes.next_id,
                target.state.next_bookmark,
            )
        }),
{
    let state = source.state;
    let body = payload(state, source.owner)->Ok_0;
    let document = source.checkpoint(taken, true, digest)->Ok_0.0;
    sealed_frame_opens(schema_spec(), body, digest, MAX_CHECKPOINT_BYTES);
    let d = covered(document);
    assert(header(schema_spec(), body.len()).len() == 24) by {
        le_limits();
        broadcast use le_bytes_len;

    }
    assert(d.subrange(24, 24int + body.len()) =~= body);
    assert(holds(d, 24, body));
    let first = (target.source_high_water + 1) as u64;
    let fresh = rebased(record_models(state.sources), target.owner, first, allocation);
    lemma_fresh(state.sources, target.owner, first, allocation);
    let a = plan_bytes(state) + source_records(state.sources, 0);
    let rest = chain(
        pane_records(state, source.owner, 0),
        chain(visit_records(state, 0), mark_records(state, 0)),
    )->Ok_0;
    holds_split(d, 24, a, rest);
    lemma_plan(d, 24, state, source.owner, target.limits);
    let plan = plan_at(d, 24, target.limits)->Ok_0.0;
    let begun = target.begun(attempt);
    lemma_rebuilt(d, state, source.owner, begun, fresh, plan);
    let next = carried(
        state,
        source.owner,
        target.owner,
        fresh,
        target.state.revision,
        target.state.panes.next_id,
        target.state.next_bookmark,
    );
    lemma_still_referenced(
        state,
        source.owner,
        target.owner,
        target.limits,
        fresh,
        target.state.revision,
        target.state.panes.next_id,
        target.state.next_bookmark,
    );
    lemma_nothing_retired(next, 0);
    assert(next.sources.subrange(0, next.sources.len() as int) =~= next.sources);
    let final_state = carried(
        state,
        source.owner,
        target.owner,
        fresh,
        attempt,
        target.state.panes.next_id,
        target.state.next_bookmark,
    );
    assert(next.history =~= final_state.history);
    assert(next.bookmarks =~= final_state.bookmarks);
}

} // verus!
