//! Whatever document a desk restores, the desk stays whole.
use vstd::prelude::*;
use vstd::utf8::{decode_utf8_encode_utf8, encode_utf8};

use super::round_trip::{placed, retainable};
use super::upkeep::{
    apart, desk_whole, focused, lemma_offset_found, lemma_offset_push, lemma_published,
    memory_stands, numbered, pane_place, pane_stands, panes_stand, upheld,
};
use super::{
    bytes_at, data_len, label_at, location_at, mapped_from, mark_at, marks_at, pane_at,
    pane_head_at, panes_at, place_at, plan_at, rebased, record_at, records_at, selection_at,
    slot_from, visits_at, PaneRows, PlanModel, RecordModel,
};
use crate::capture::text_len;
use crate::envelope::{covered, Sha256Digest, HEADER_LEN};
use crate::identity::ArenaOwnerId;
use crate::text::empty_text;
use crate::ui::reading_panes::desk::{
    lemma_bytes_push, selection_bounds, source_bytes_from, source_from, BookmarkModel, DeskLimits,
    DeskLocation, DeskModel, RetainedModel, MAX_BOOKMARK_LABEL_BYTES,
};
use crate::ui::reading_panes::{PanesModel, MAX_READING_PATH_BYTES};

verus! {

/// A label that was read is not empty and as long as its bytes.
proof fn lemma_label_read(d: Seq<u8>, i: int, limit: usize)
    ensures
        label_at(d, i, limit) matches Ok((label, j)) ==> label.len() > 0 && text_len(label)
            <= limit,
{
    if let Ok((bytes, j)) = bytes_at(d, i, limit as u64) {
        if let Ok((label, k)) = label_at(d, i, limit) {
            decode_utf8_encode_utf8(bytes);
            assert(encode_utf8(label) == bytes);
            empty_text(label);
        }
    }
}

/// A source that a document may hold.
spec fn record_fits(record: RecordModel, limits: DeskLimits) -> bool {
    &&& record.label.len() > 0
    &&& text_len(record.label) <= MAX_READING_PATH_BYTES
    &&& record.data.len() <= limits.source_bytes
}

proof fn lemma_records_read(
    d: Seq<u8>,
    i: int,
    n: nat,
    done: Seq<RecordModel>,
    limits: DeskLimits,
)
    requires
        forall|k: int| 0 <= k < done.len() ==> record_fits(#[trigger] done[k], limits),
        data_len(done) <= limits.retained_bytes,
    ensures
        records_at(d, i, n, done, limits) matches Ok((records, j)) ==> {
            &&& records.len() == done.len() + n
            &&& data_len(records) <= limits.retained_bytes
            &&& forall|k: int| 0 <= k < records.len() ==> record_fits(#[trigger] records[k], limits)
        },
    decreases n,
{
    if n > 0 {
        if let Ok((record, j)) = record_at(d, i, done, limits) {
            let more = done.push(record);
            lemma_label_read(d, i + 16, MAX_READING_PATH_BYTES);
            assert(more.drop_last() =~= done);
            assert forall|k: int| 0 <= k < more.len() implies record_fits(
                #[trigger] more[k],
                limits,
            ) by {
                if k < done.len() {
                    assert(more[k] == done[k]);
                }
            }
            lemma_records_read(d, j, (n - 1) as nat, more, limits);
        }
    }
}

/// Captures hold the bytes of the sources they are made of.
proof fn lemma_bytes_same(sources: Seq<RetainedModel>, records: Seq<RecordModel>)
    requires
        sources.len() == records.len(),
        forall|k: int|
            0 <= k < sources.len() ==> (#[trigger] sources[k]).capture.bytes == records[k].data,
    ensures
        source_bytes_from(sources, 0) == data_len(records),
    decreases sources.len(),
{
    if sources.len() > 0 {
        let fewer = sources.drop_last();
        let less = records.drop_last();
        assert forall|k: int| 0 <= k < fewer.len() implies (#[trigger] fewer[k]).capture.bytes
            == less[k].data by {
            assert(fewer[k] == sources[k]);
        }
        lemma_bytes_same(fewer, less);
        lemma_bytes_push(fewer, sources.last(), 0);
        assert(fewer.push(sources.last()) =~= sources);
        assert(sources[sources.len() - 1].capture.bytes == records.last().data);
    }
}

proof fn lemma_slot_bound(records: Seq<RecordModel>, file: u64, k: int)
    requires
        0 <= k <= records.len(),
    ensures
        k <= slot_from(records, file, k) <= records.len(),
    decreases records.len() - k,
{
    if k < records.len() && records[k].file != file {
        lemma_slot_bound(records, file, k + 1);
    }
}

/// The captures that a document's sources become can be retained.
proof fn lemma_rebased(
    records: Seq<RecordModel>,
    owner: ArenaOwnerId,
    first: u64,
    allocation: u64,
    limits: DeskLimits,
)
    requires
        records.len() <= limits.sources,
        data_len(records) <= limits.retained_bytes,
        forall|k: int| 0 <= k < records.len() ==> record_fits(#[trigger] records[k], limits),
        0 < first,
        first + records.len() <= u64::MAX,
    ensures
        retainable(rebased(records, owner, first, allocation), owner, limits),
{
    let sources = rebased(records, owner, first, allocation);
    lemma_bytes_same(sources, records);
    assert forall|k: int| 0 <= k < sources.len() implies ({
        let capture = (#[trigger] sources[k]).capture;
        &&& capture.file.owner == owner
        &&& capture.revision.owner == owner
        &&& capture.file.value != 0
        &&& capture.revision.value != 0
        &&& capture.logical_path.len() > 0
        &&& text_len(capture.logical_path) <= MAX_READING_PATH_BYTES
        &&& capture.bytes.len() <= limits.source_bytes
    }) by {
        lemma_slot_bound(records, records[k].file, 0);
        assert(record_fits(records[k], limits));
    }
}

proof fn lemma_first_source(
    sources: Seq<RetainedModel>,
    owner: ArenaOwnerId,
    limits: DeskLimits,
    k: int,
    i: int,
)
    requires
        retainable(sources, owner, limits),
        0 <= i <= k < sources.len(),
    ensures
        source_from(sources, sources[k].capture.file, sources[k].capture.revision, i) == Some(k),
    decreases k - i,
{
    if i < k {
        assert(sources[i].capture.file != sources[k].capture.file || sources[i].capture.revision
            != sources[k].capture.revision);
        lemma_first_source(sources, owner, limits, k, i + 1);
    }
}

/// A location that was read lies in the sources.
proof fn lemma_location_read(
    d: Seq<u8>,
    i: int,
    sources: Seq<RetainedModel>,
    owner: ArenaOwnerId,
    limits: DeskLimits,
)
    requires
        retainable(sources, owner, limits),
    ensures
        location_at(d, i, sources, owner) matches Ok(((at, hint), j)) ==> placed(sources, at),
{
    if let Ok((index, i1)) = super::u64_at(d, i) {
        if index < sources.len() {
            lemma_first_source(sources, owner, limits, index as int, 0);
            if let Ok((offset, i2)) = super::u64_at(d, i1) {
                if let Ok((selection, i3)) = selection_at(d, i2) {
                    assert(selection matches Some(range) ==> range.start <= range.end);
                }
            }
        }
    }
}

/// The panes that were read stand in the sources, each under its own number.
spec fn rows_stand(rows: PaneRows, sources: Seq<RetainedModel>, owner: ArenaOwnerId) -> bool {
    &&& apart(rows.panes.panes)
    &&& rows.offsets.len() == rows.panes.panes.len()
    &&& rows.map.len() == rows.panes.panes.len()
    &&& forall|k: int|
        0 <= k < rows.panes.panes.len() ==> {
            let pane = #[trigger] rows.panes.panes[k];
            &&& rows.offsets[k].0 == pane.id
            &&& rows.map[k].1 == pane.id
            &&& pane.id < rows.panes.next_id
            &&& pane_stands(pane, rows.offsets, sources, owner)
        }
}

proof fn lemma_pane_read(
    d: Seq<u8>,
    i: int,
    rows: PaneRows,
    sources: Seq<RetainedModel>,
    owner: ArenaOwnerId,
    limits: DeskLimits,
)
    requires
        retainable(sources, owner, limits),
        rows_stand(rows, sources, owner),
    ensures
        pane_at(d, i, rows, sources, owner) matches Ok((next, j)) ==> rows_stand(
            next,
            sources,
            owner,
        ) && next.panes.panes.len() == rows.panes.panes.len() + 1,
{
    if let Ok((next, j)) = pane_at(d, i, rows, sources, owner) {
        let (head, i1) = pane_head_at(d, i, rows.map)->Ok_0;
        let ((at, hint), i2) = location_at(d, i1, sources, owner)->Ok_0;
        lemma_location_read(d, i1, sources, owner, limits);
        let selection = selection_bounds(at.selection)->Ok_0;
        let id = rows.panes.next_id;
        let panes = rows.panes.panes;
        let now = next.panes.panes;
        let last = panes.len() as int;
        assert forall|a: int, b: int| 0 <= a < b < now.len() implies (#[trigger] now[a]).id != (
        #[trigger] now[b]).id by {
            assert(now[a] == panes[a]);
            if b < last {
                assert(now[b] == panes[b]);
            }
        }
        assert forall|o: int| 0 <= o < rows.offsets.len() implies (#[trigger] rows.offsets[o]).0
            != id by {
            assert(panes[o].id < rows.panes.next_id);
        }
        lemma_offset_found(rows.offsets, id, 0);
        lemma_offset_push(rows.offsets, (id, at.offset), id, 0);
        assert forall|k: int| 0 <= k < now.len() implies ({
            let pane = #[trigger] now[k];
            &&& next.offsets[k].0 == pane.id
            &&& next.map[k].1 == pane.id
            &&& pane.id < next.panes.next_id
            &&& pane_stands(pane, next.offsets, sources, owner)
        }) by {
            if k < last {
                assert(now[k] == panes[k]);
                lemma_offset_push(rows.offsets, (id, at.offset), panes[k].id, 0);
                lemma_offset_found(rows.offsets, panes[k].id, 0);
                assert(next.offsets[k] == rows.offsets[k]);
                assert(next.map[k] == rows.map[k]);
            } else {
                let there = pane_place(now[k], at.revision, at.offset, owner);
                assert(there.selection == at.selection);
                assert(placed(sources, there));
            }
        }
    }
}

proof fn lemma_panes_read(
    d: Seq<u8>,
    i: int,
    n: nat,
    rows: PaneRows,
    sources: Seq<RetainedModel>,
    owner: ArenaOwnerId,
    limits: DeskLimits,
)
    requires
        retainable(sources, owner, limits),
        rows_stand(rows, sources, owner),
    ensures
        panes_at(d, i, n, rows, sources, owner) matches Ok((all, j)) ==> rows_stand(
            all,
            sources,
            owner,
        ) && all.panes.panes.len() == rows.panes.panes.len() + n,
    decreases n,
{
    if n > 0 {
        lemma_pane_read(d, i, rows, sources, owner, limits);
        if let Ok((next, j)) = pane_at(d, i, rows, sources, owner) {
            lemma_panes_read(d, j, (n - 1) as nat, next, sources, owner, limits);
        }
    }
}

proof fn lemma_visits_read(
    d: Seq<u8>,
    i: int,
    n: nat,
    done: Seq<DeskLocation>,
    sources: Seq<RetainedModel>,
    map: Seq<(u64, u64)>,
    owner: ArenaOwnerId,
    limits: DeskLimits,
)
    requires
        retainable(sources, owner, limits),
        forall|k: int| 0 <= k < done.len() ==> placed(sources, #[trigger] done[k]),
    ensures
        visits_at(d, i, n, done, sources, map, owner) matches Ok((all, j)) ==> all.len()
            == done.len() + n && forall|k: int|
            0 <= k < all.len() ==> placed(sources, #[trigger] all[k]),
    decreases n,
{
    if n > 0 {
        lemma_location_read(d, i, sources, owner, limits);
        if let Ok((at, j)) = place_at(d, i, sources, map, owner) {
            let more = done.push(at);
            assert forall|k: int| 0 <= k < more.len() implies placed(sources, #[trigger] more[k]) by {
                if k < done.len() {
                    assert(more[k] == done[k]);
                }
            }
            lemma_visits_read(d, j, (n - 1) as nat, more, sources, map, owner, limits);
        }
    }
}

/// A bookmark that a desk may keep.
spec fn mark_fits(mark: BookmarkModel, sources: Seq<RetainedModel>) -> bool {
    &&& placed(sources, mark.location)
    &&& mark.label.len() > 0
    &&& text_len(mark.label) <= MAX_BOOKMARK_LABEL_BYTES
}

proof fn lemma_marks_read(
    d: Seq<u8>,
    i: int,
    n: nat,
    done: Seq<BookmarkModel>,
    next: u64,
    sources: Seq<RetainedModel>,
    map: Seq<(u64, u64)>,
    owner: ArenaOwnerId,
    limits: DeskLimits,
)
    requires
        retainable(sources, owner, limits),
        forall|k: int| 0 <= k < done.len() ==> mark_fits(#[trigger] done[k], sources),
    ensures
        marks_at(d, i, n, done, next, sources, map, owner) matches Ok(((all, number), j)) ==> all.len()
            == done.len() + n && forall|k: int|
            0 <= k < all.len() ==> mark_fits(#[trigger] all[k], sources),
    decreases n,
{
    if n > 0 {
        lemma_label_read(d, i, MAX_BOOKMARK_LABEL_BYTES);
        if let Ok((label, j)) = label_at(d, i, MAX_BOOKMARK_LABEL_BYTES) {
            lemma_location_read(d, j, sources, owner, limits);
        }
        if let Ok((mark, j)) = mark_at(d, i, next, sources, map, owner) {
            let more = done.push(mark);
            assert forall|k: int| 0 <= k < more.len() implies mark_fits(
                #[trigger] more[k],
                sources,
            ) by {
                if k < done.len() {
                    assert(more[k] == done[k]);
                }
            }
            lemma_marks_read(
                d,
                j,
                (n - 1) as nat,
                more,
                (next + 1) as u64,
                sources,
                map,
                owner,
                limits,
            );
        }
    }
}

proof fn lemma_mapped_found(map: Seq<(u64, u64)>, number: u64, i: int)
    requires
        0 <= i,
    ensures
        mapped_from(map, number, i) matches Some(k) ==> i <= k < map.len(),
    decreases map.len() - i,
{
    if i < map.len() {
        lemma_mapped_found(map, number, i + 1);
    }
}

/// What a plan promises of the counts and the sources.
spec fn plan_fits(plan: PlanModel, limits: DeskLimits) -> bool {
    &&& plan.panes <= limits.panes
    &&& plan.history <= limits.history
    &&& plan.bookmarks <= limits.bookmarks
    &&& plan.records.len() <= limits.sources
    &&& plan.history != 0 ==> plan.cursor < plan.history
    &&& (plan.panes == 0) == (plan.active == 0)
    &&& data_len(plan.records) <= limits.retained_bytes
    &&& forall|k: int|
        0 <= k < plan.records.len() ==> record_fits(#[trigger] plan.records[k], limits)
}

proof fn lemma_plan_read(d: Seq<u8>, i: int, limits: DeskLimits)
    ensures
        plan_at(d, i, limits) matches Ok((plan, j)) ==> plan_fits(plan, limits),
{
    if let Ok((plan, j)) = plan_at(d, i, limits) {
        let none = Seq::<RecordModel>::empty();
        lemma_records_read(d, i + 48, plan.records.len(), none, limits);
        if let Ok((sources, i1)) = super::count_at(d, i, limits.sources) {
            lemma_records_read(d, i + 48, sources, none, limits);
        }
    }
}

/// A state rebuilt of a document is upheld.
proof fn lemma_rebuilt_stands(
    desk: DeskModel,
    d: Seq<u8>,
    i: int,
    plan: PlanModel,
    sources: Seq<RetainedModel>,
)
    requires
        desk.limits.valid(),
        plan_fits(plan, desk.limits),
        retainable(sources, desk.owner, desk.limits),
    ensures
        desk.state.rebuilt(desk.owner, d, i, plan, sources) matches Ok(next) ==> upheld(
            next,
            desk.owner,
            desk.limits,
        ),
{
    let owner = desk.owner;
    let limits = desk.limits;
    let start = PaneRows {
        panes: PanesModel {
            panes: Seq::empty(),
            active: None,
            next_id: desk.state.panes.next_id,
        },
        offsets: Seq::empty(),
        map: Seq::empty(),
    };
    if let Ok(next) = desk.state.rebuilt(owner, d, i, plan, sources) {
        lemma_panes_read(d, i, plan.panes, start, sources, owner, limits);
        let (rows, i1) = panes_at(d, i, plan.panes, start, sources, owner)->Ok_0;
        let none = Seq::<DeskLocation>::empty();
        lemma_visits_read(d, i1, plan.history, none, sources, rows.map, owner, limits);
        let (history, i2) = visits_at(d, i1, plan.history, none, sources, rows.map, owner)->Ok_0;
        lemma_marks_read(
            d,
            i2,
            plan.bookmarks,
            Seq::empty(),
            desk.state.next_bookmark,
            sources,
            rows.map,
            owner,
            limits,
        );
        lemma_mapped_found(rows.map, plan.active, 0);
        assert(focused(next.panes)) by {
            if plan.active != 0 {
                let k = mapped_from(rows.map, plan.active, 0)->0;
                assert(next.panes.panes[k].id == rows.map[k].1);
            }
        }
        assert(numbered(next)) by {
            assert forall|k: int| 0 <= k < next.offsets.len() implies (
            #[trigger] next.offsets[k]).0 < next.panes.next_id by {
                assert(next.panes.panes[k].id < rows.panes.next_id);
            }
        }
        assert(panes_stand(next, owner, limits, None));
        assert forall|k: int| 0 <= k < next.bookmarks.len() implies ({
            let mark = #[trigger] next.bookmarks[k];
            &&& placed(next.sources, mark.location)
            &&& mark.label.len() > 0
            &&& text_len(mark.label) <= MAX_BOOKMARK_LABEL_BYTES
        }) by {
            assert(mark_fits(next.bookmarks[k], sources));
        }
        assert(memory_stands(next, owner, limits));
    }
}

/// Whatever document is restored, and whether it is accepted, a whole desk stays
/// whole.
pub proof fn restores_keep_desks_whole(
    desk: DeskModel,
    expected: u64,
    attempt: u64,
    document: Seq<u8>,
    allocation: u64,
    digest: Sha256Digest,
    granted: bool,
)
    requires
        desk_whole(desk),
    ensures
        desk_whole(
            desk.restore(expected, attempt, document, allocation, digest, granted).0,
        ),
{
    let d = covered(document);
    let begun = desk.begun(attempt);
    lemma_plan_read(d, HEADER_LEN as int, desk.limits);
    if let Ok((plan, i)) = plan_at(d, HEADER_LEN as int, desk.limits) {
        if let Some(first) = begun.import_numbers(plan.records.len()) {
            let sources = rebased(plan.records, desk.owner, first, allocation);
            lemma_rebased(plan.records, desk.owner, first, allocation, desk.limits);
            lemma_rebuilt_stands(begun, d, i, plan, sources);
            if let Ok(next) = begun.state.rebuilt(desk.owner, d, i, plan, sources) {
                lemma_published(next, desk.owner, desk.limits, attempt);
            }
        }
    }
}

} // verus!
