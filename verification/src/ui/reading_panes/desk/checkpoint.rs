//! Explicit, portable reading-desk checkpoints.
//!
//! Includes EACH retained capture once, including sources referenced only
//! by closed-pane history/bookmarks. Labels are not filesystem authority. This
//! module never opens files. Hosts must obtain consent before exporting sources.
//! Encoding/decoding are bounded worker operations; the host's digest pass is
//! synchronous, with cancellation checked before and after it.
pub mod encoding;
pub mod new_desk;
pub mod restoring;
pub mod round_trip;
pub mod upkeep;

use std::sync::Arc;

use vstd::layout::size_of;
use vstd::prelude::*;
use vstd::utf8::{decode_utf8, valid_utf8};

use super::{
    copy_range, location_valid, selection_bounds, shared_views, source_bytes_from, source_from,
    usize_bounds, validate_location, BookmarkModel, DeskBookmark, DeskChange, DeskError, DeskLimits,
    DeskLocation, DeskModel, DeskPaneId, DeskState, DeskStateModel, ReadingDesk, RetainedModel,
    RetainedSource, MAX_BOOKMARK_LABEL_BYTES,
};
use crate::capture::{byte_len, text_len, SourceCapture};
use crate::envelope::{
    check_frame, covered, frame_error, le_limits, le_value, le_value_bound, number_at, read_le,
    text_from_utf8, EnvelopeError, EnvelopeSchema, Sha256Digest, DIGEST_LEN, FRAME_LEN, HEADER_LEN,
};
use crate::identity::{ArenaOwnerId, ByteRange, FileId, SourceRevision};
use crate::memory::wide_size;
use crate::model::{group_views, views};
use crate::scalar::{Point, Scalar};
use crate::ui::reading_panes::{
    fresh_pane, PanesModel, ReadingPane, ReadingPaneManager, MAX_READING_PATH_BYTES,
};

verus! {

broadcast use group_views;

/// Largest checkpoint document.
pub const MAX_CHECKPOINT_BYTES: usize = 67_108_864;

/// The four letters that start a checkpoint.
pub const CHECKPOINT_MAGIC: u32 = 0x4b42_4346;

/// The schema number of a checkpoint.
pub const CHECKPOINT_SCHEMA: u32 = 0x4b53_4544;

/// Stands for a cursor that is nowhere.
pub const NOWHERE: u64 = 0xffff_ffff_ffff_ffff;

/// What a checkpoint frame holds.
pub open spec fn schema_spec() -> EnvelopeSchema {
    EnvelopeSchema { magic: CHECKPOINT_MAGIC, schema_id: CHECKPOINT_SCHEMA, major: 1, minor: 0 }
}

pub fn schema() -> (r: EnvelopeSchema)
    ensures
        r == schema_spec(),
{
    EnvelopeSchema { magic: CHECKPOINT_MAGIC, schema_id: CHECKPOINT_SCHEMA, major: 1, minor: 0 }
}

#[derive(Clone, Copy, Debug, PartialEq, Eq, Structural)]
pub enum CheckpointError {
    Desk(DeskError),
    InvalidDocument,
    Limit,
    UnsupportedVersion,
    Integrity,
}

impl CheckpointError {
    pub fn code(self) -> (r: &'static str)
        ensures
            r@ == match self {
                CheckpointError::Desk(e) => e.text(),
                CheckpointError::InvalidDocument => "DESK_CHECKPOINT_INVALID"@,
                CheckpointError::Limit => "DESK_CHECKPOINT_LIMIT"@,
                CheckpointError::UnsupportedVersion => "DESK_CHECKPOINT_VERSION"@,
                CheckpointError::Integrity => "DESK_CHECKPOINT_INTEGRITY"@,
            },
    {
        match self {
            CheckpointError::Desk(e) => e.code(),
            CheckpointError::InvalidDocument => "DESK_CHECKPOINT_INVALID",
            CheckpointError::Limit => "DESK_CHECKPOINT_LIMIT",
            CheckpointError::UnsupportedVersion => "DESK_CHECKPOINT_VERSION",
            CheckpointError::Integrity => "DESK_CHECKPOINT_INTEGRITY",
        }
    }

    pub fn is_canceled(self) -> (r: bool)
        ensures
            r == (self == CheckpointError::Desk(DeskError::Canceled)),
    {
        matches!(self, CheckpointError::Desk(DeskError::Canceled))
    }
}

/// What a frame error means for a checkpoint.
pub open spec fn frame_meaning(e: EnvelopeError) -> CheckpointError {
    match e {
        EnvelopeError::ChecksumMismatch => CheckpointError::Integrity,
        EnvelopeError::LimitExceeded => CheckpointError::Limit,
        EnvelopeError::BadMagic | EnvelopeError::SchemaMismatch | EnvelopeError::MajorMismatch
        | EnvelopeError::MinorOlder => CheckpointError::UnsupportedVersion,
        _ => CheckpointError::InvalidDocument,
    }
}

fn from_envelope(e: EnvelopeError) -> (r: CheckpointError)
    ensures
        r == frame_meaning(e),
{
    match e {
        EnvelopeError::ChecksumMismatch => CheckpointError::Integrity,
        EnvelopeError::LimitExceeded => CheckpointError::Limit,
        EnvelopeError::BadMagic | EnvelopeError::SchemaMismatch | EnvelopeError::MajorMismatch
        | EnvelopeError::MinorOlder => CheckpointError::UnsupportedVersion,
        _ => CheckpointError::InvalidDocument,
    }
}

#[derive(Clone, Copy, Debug, PartialEq, Eq)]
pub struct RestoredDesk {
    pub change: DeskChange,
    pub next_source_identity: u64,
}

// Reading: each field is looked for at a position of the covered part and
// yields its value with the position behind it.

/// The number at a position.
pub open spec fn u64_at(d: Seq<u8>, i: int) -> Result<(u64, int), CheckpointError> {
    if 0 <= i && i + 8 <= d.len() {
        Ok((le_value(d.subrange(i, i + 8)) as u64, i + 8))
    } else {
        Err(CheckpointError::InvalidDocument)
    }
}

/// The flag at a position.
pub open spec fn bool_at(d: Seq<u8>, i: int) -> Result<(bool, int), CheckpointError> {
    if 0 <= i < d.len() && d[i] <= 1 {
        Ok((d[i] == 1, i + 1))
    } else {
        Err(CheckpointError::InvalidDocument)
    }
}

/// The coordinate at a position.
pub open spec fn scalar_at(d: Seq<u8>, i: int) -> Result<(Scalar, int), CheckpointError> {
    if 0 <= i && i + 4 <= d.len() {
        Ok((Scalar { bits: le_value(d.subrange(i, i + 4)) as u32 }, i + 4))
    } else {
        Err(CheckpointError::InvalidDocument)
    }
}

/// The pair of coordinates at a position.
pub open spec fn point_at(d: Seq<u8>, i: int) -> Result<(Point, int), CheckpointError> {
    match scalar_at(d, i) {
        Err(e) => Err(e),
        Ok((x, j)) => match scalar_at(d, j) {
            Err(e) => Err(e),
            Ok((y, k)) => Ok(((x, y), k)),
        },
    }
}

/// The bytes at a position, where a length precedes them.
pub open spec fn bytes_at(d: Seq<u8>, i: int, limit: u64) -> Result<
    (Seq<u8>, int),
    CheckpointError,
> {
    match u64_at(d, i) {
        Err(e) => Err(e),
        Ok((length, j)) => if length > limit || length > d.len() - j {
            Err(CheckpointError::Limit)
        } else {
            Ok((d.subrange(j, j + length), j + length))
        },
    }
}

/// The label at a position: text that is not empty.
pub open spec fn label_at(d: Seq<u8>, i: int, limit: usize) -> Result<
    (Seq<char>, int),
    CheckpointError,
> {
    match bytes_at(d, i, limit as u64) {
        Err(e) => Err(e),
        Ok((bytes, j)) => if bytes.len() == 0 || !valid_utf8(bytes) {
            Err(CheckpointError::InvalidDocument)
        } else {
            Ok((decode_utf8(bytes), j))
        },
    }
}

/// A source as a document holds it.
pub ghost struct RecordModel {
    pub file: u64,
    pub revision: u64,
    pub label: Seq<char>,
    pub data: Seq<u8>,
}

/// A source with these numbers is among the first `n`.
pub open spec fn recorded(done: Seq<RecordModel>, file: u64, revision: u64) -> bool {
    exists|k: int|
        0 <= k < done.len() && (#[trigger] done[k]).file == file && done[k].revision == revision
}

/// Bytes of the sources.
pub open spec fn data_len(done: Seq<RecordModel>) -> nat
    decreases done.len(),
{
    if done.len() == 0 {
        0
    } else {
        data_len(done.drop_last()) + done.last().data.len()
    }
}

/// Bytes of the sources' labels.
pub open spec fn label_len(done: Seq<RecordModel>) -> nat
    decreases done.len(),
{
    if done.len() == 0 {
        0
    } else {
        label_len(done.drop_last()) + text_len(done.last().label)
    }
}

/// The source at a position, behind those already read.
pub open spec fn record_at(
    d: Seq<u8>,
    i: int,
    done: Seq<RecordModel>,
    limits: DeskLimits,
) -> Result<(RecordModel, int), CheckpointError> {
    match u64_at(d, i) {
        Err(e) => Err(e),
        Ok((file, j)) => match u64_at(d, j) {
            Err(e) => Err(e),
            Ok((revision, k)) => if file == 0 || revision == 0 || recorded(done, file, revision) {
                Err(CheckpointError::InvalidDocument)
            } else {
                match label_at(d, k, MAX_READING_PATH_BYTES) {
                    Err(e) => Err(e),
                    Ok((label, l)) => match bytes_at(d, l, limits.source_bytes) {
                        Err(e) => Err(e),
                        Ok((data, m)) => if data_len(done) + data.len() > limits.retained_bytes {
                            Err(CheckpointError::Limit)
                        } else {
                            Ok((RecordModel { file, revision, label, data }, m))
                        },
                    },
                }
            },
        },
    }
}

/// `n` more sources from a position on.
pub open spec fn records_at(
    d: Seq<u8>,
    i: int,
    n: nat,
    done: Seq<RecordModel>,
    limits: DeskLimits,
) -> Result<(Seq<RecordModel>, int), CheckpointError>
    decreases n,
{
    if n == 0 {
        Ok((done, i))
    } else {
        match record_at(d, i, done, limits) {
            Err(e) => Err(e),
            Ok((record, j)) => records_at(d, j, (n - 1) as nat, done.push(record), limits),
        }
    }
}

/// What precedes the panes of a document.
pub ghost struct PlanModel {
    pub panes: nat,
    pub history: nat,
    pub bookmarks: nat,
    pub cursor: u64,
    pub active: u64,
    pub records: Seq<RecordModel>,
}

/// The number at a position, unless it exceeds a limit.
pub open spec fn count_at(d: Seq<u8>, i: int, limit: usize) -> Result<
    (nat, int),
    CheckpointError,
> {
    match u64_at(d, i) {
        Err(e) => Err(e),
        Ok((n, j)) => if n > limit {
            Err(CheckpointError::Limit)
        } else {
            Ok((n as nat, j))
        },
    }
}

/// The counts, the cursor, the active pane and the sources of a document.
pub open spec fn plan_at(d: Seq<u8>, i: int, limits: DeskLimits) -> Result<
    (PlanModel, int),
    CheckpointError,
> {
    match count_at(d, i, limits.sources) {
        Err(e) => Err(e),
        Ok((sources, i1)) => match count_at(d, i1, limits.panes) {
            Err(e) => Err(e),
            Ok((panes, i2)) => match count_at(d, i2, limits.history) {
                Err(e) => Err(e),
                Ok((history, i3)) => match count_at(d, i3, limits.bookmarks) {
                    Err(e) => Err(e),
                    Ok((bookmarks, i4)) => match u64_at(d, i4) {
                        Err(e) => Err(e),
                        Ok((cursor, i5)) => match u64_at(d, i5) {
                            Err(e) => Err(e),
                            Ok((active, i6)) => if (history == 0 && cursor != NOWHERE) || (history
                                != 0 && cursor >= history) || ((panes == 0) != (active == 0)) {
                                Err(CheckpointError::InvalidDocument)
                            } else {
                                match records_at(d, i6, sources, Seq::empty(), limits) {
                                    Err(e) => Err(e),
                                    Ok((records, i7)) => Ok(
                                        (
                                            PlanModel {
                                                panes,
                                                history,
                                                bookmarks,
                                                cursor,
                                                active,
                                                records,
                                            },
                                            i7,
                                        ),
                                    ),
                                }
                            },
                        },
                    },
                },
            },
        },
    }
}

/// Position of the first source of a file, from `k` on.
pub open spec fn slot_from(records: Seq<RecordModel>, file: u64, k: int) -> int
    decreases records.len() - k,
{
    if k < 0 || k >= records.len() || records[k].file == file {
        k
    } else {
        slot_from(records, file, k + 1)
    }
}

/// The captures that the sources become: numbered from `first`, revisions of
/// one file keeping one file number.
pub open spec fn rebased(
    records: Seq<RecordModel>,
    owner: ArenaOwnerId,
    first: u64,
    allocation: u64,
) -> Seq<RetainedModel> {
    Seq::new(
        records.len(),
        |k: int|
            RetainedSource {
                capture: SourceCapture {
                    owner,
                    file: FileId {
                        owner,
                        value: (first + slot_from(records, records[k].file, 0)) as u64,
                    },
                    revision: SourceRevision { owner, value: (first + k) as u64 },
                    logical_path: records[k].label,
                    bytes: records[k].data,
                },
                allocation,
            },
    )
}

/// The range at a position.
pub open spec fn range_at(d: Seq<u8>, i: int) -> Result<(ByteRange, int), CheckpointError> {
    match u64_at(d, i) {
        Err(e) => Err(e),
        Ok((start, j)) => match u64_at(d, j) {
            Err(e) => Err(e),
            Ok((end, k)) => if start > end {
                Err(CheckpointError::InvalidDocument)
            } else {
                Ok((ByteRange { start, end }, k))
            },
        },
    }
}

/// The optional range at a position.
pub open spec fn selection_at(d: Seq<u8>, i: int) -> Result<
    (Option<ByteRange>, int),
    CheckpointError,
> {
    match bool_at(d, i) {
        Err(e) => Err(e),
        Ok((false, j)) => Ok((None, j)),
        Ok((true, j)) => match range_at(d, j) {
            Err(e) => Err(e),
            Ok((range, k)) => Ok((Some(range), k)),
        },
    }
}

/// The location at a position, and the pane number it names.
pub open spec fn location_at(
    d: Seq<u8>,
    i: int,
    sources: Seq<RetainedModel>,
    owner: ArenaOwnerId,
) -> Result<((DeskLocation, u64), int), CheckpointError> {
    match u64_at(d, i) {
        Err(e) => Err(e),
        Ok((index, i1)) => if index >= sources.len() {
            Err(CheckpointError::InvalidDocument)
        } else {
            let capture = sources[index as int].capture;
            match u64_at(d, i1) {
                Err(e) => Err(e),
                Ok((offset, i2)) => match selection_at(d, i2) {
                    Err(e) => Err(e),
                    Ok((selection, i3)) => if !location_valid(capture.bytes, offset, selection) {
                        Err(CheckpointError::Desk(DeskError::InvalidLocation))
                    } else {
                        match u64_at(d, i3) {
                            Err(e) => Err(e),
                            Ok((hint, i4)) => Ok(
                                (
                                    (
                                        DeskLocation {
                                            file: capture.file,
                                            revision: capture.revision,
                                            offset,
                                            selection,
                                            preferred_pane: DeskPaneId { owner, value: 0 },
                                        },
                                        hint,
                                    ),
                                    i4,
                                ),
                            ),
                        }
                    },
                },
            }
        },
    }
}

/// Position of a pane number among those already read, from `k` on.
pub open spec fn mapped_from(map: Seq<(u64, u64)>, number: u64, k: int) -> Option<int>
    decreases map.len() - k,
{
    if k < 0 || k >= map.len() {
        None
    } else if map[k].0 == number {
        Some(k)
    } else {
        mapped_from(map, number, k + 1)
    }
}

/// The new number of a pane, zero when it has none.
pub open spec fn remap(map: Seq<(u64, u64)>, number: u64) -> u64 {
    if number == 0 {
        0
    } else {
        match mapped_from(map, number, 0) {
            Some(k) => map[k].1,
            None => 0,
        }
    }
}

/// A coordinate that a document may hold.
pub open spec fn scalar_usable(value: Scalar) -> bool {
    value.finite() && !value.below(Scalar { bits: 0 })
}

/// A layout that a document may hold.
pub open spec fn layout_usable(position: Point, size: Point, scroll: Point) -> bool {
    &&& scalar_usable(position.0) && scalar_usable(position.1)
    &&& scalar_usable(size.0) && scalar_usable(size.1)
    &&& scalar_usable(scroll.0) && scalar_usable(scroll.1)
    &&& (Scalar { bits: 0 }).below(size.0) && (Scalar { bits: 0 }).below(size.1)
}

/// The number, pin and layout of a pane in a document.
pub ghost struct PaneHead {
    pub number: u64,
    pub pinned: bool,
    pub position: Point,
    pub size: Point,
    pub scroll: Point,
}

/// The number, pin and layout at a position.
pub open spec fn pane_head_at(d: Seq<u8>, i: int, map: Seq<(u64, u64)>) -> Result<
    (PaneHead, int),
    CheckpointError,
> {
    match u64_at(d, i) {
        Err(e) => Err(e),
        Ok((number, i1)) => if number == 0 || mapped_from(map, number, 0) is Some {
            Err(CheckpointError::InvalidDocument)
        } else {
            match bool_at(d, i1) {
                Err(e) => Err(e),
                Ok((pinned, i2)) => match point_at(d, i2) {
                    Err(e) => Err(e),
                    Ok((position, i3)) => match point_at(d, i3) {
                        Err(e) => Err(e),
                        Ok((size, i4)) => match point_at(d, i4) {
                            Err(e) => Err(e),
                            Ok((scroll, i5)) => if !layout_usable(position, size, scroll) {
                                Err(CheckpointError::InvalidDocument)
                            } else {
                                Ok((PaneHead { number, pinned, position, size, scroll }, i5))
                            },
                        },
                    },
                },
            }
        },
    }
}

/// The pane rows of a document as they are rebuilt: the panes with their
/// viewport positions, and which number became which.
pub ghost struct PaneRows {
    pub panes: PanesModel,
    pub offsets: Seq<(u64, u64)>,
    pub map: Seq<(u64, u64)>,
}

impl PaneRows {
    /// One more pane.
    pub open spec fn added(
        self,
        head: PaneHead,
        at: DeskLocation,
        path: Seq<char>,
        selection: Option<(usize, usize)>,
    ) -> PaneRows {
        let id = self.panes.next_id;
        PaneRows {
            panes: PanesModel {
                panes: self.panes.panes.push(
                    ReadingPane {
                        revision: Some(at.revision),
                        is_pinned: head.pinned,
                        size: head.size,
                        scroll_offset: head.scroll,
                        selection,
                        ..fresh_pane(id, at.file, path, head.position)
                    },
                ),
                next_id: (id + 1) as u64,
                ..self.panes
            },
            offsets: self.offsets.push((id, at.offset)),
            map: self.map.push((head.number, id)),
        }
    }
}

/// The pane at a position, added to the rows.
pub open spec fn pane_at(
    d: Seq<u8>,
    i: int,
    rows: PaneRows,
    sources: Seq<RetainedModel>,
    owner: ArenaOwnerId,
) -> Result<(PaneRows, int), CheckpointError> {
    match pane_head_at(d, i, rows.map) {
        Err(e) => Err(e),
        Ok((head, i1)) => match location_at(d, i1, sources, owner) {
            Err(e) => Err(e),
            Ok(((at, hint), i2)) => if hint != head.number {
                Err(CheckpointError::InvalidDocument)
            } else if rows.panes.next_id == 0 || rows.panes.next_id == u64::MAX {
                Err(CheckpointError::Desk(DeskError::IdentityExhausted))
            } else {
                match source_from(sources, at.file, at.revision, 0) {
                    None => Err(CheckpointError::Desk(DeskError::MissingSource)),
                    Some(k) => match selection_bounds(at.selection) {
                        Err(_) => Err(CheckpointError::InvalidDocument),
                        Ok(selection) => Ok(
                            (
                                rows.added(head, at, sources[k].capture.logical_path, selection),
                                i2,
                            ),
                        ),
                    },
                }
            },
        },
    }
}

/// `n` more panes from a position on.
pub open spec fn panes_at(
    d: Seq<u8>,
    i: int,
    n: nat,
    rows: PaneRows,
    sources: Seq<RetainedModel>,
    owner: ArenaOwnerId,
) -> Result<(PaneRows, int), CheckpointError>
    decreases n,
{
    if n == 0 {
        Ok((rows, i))
    } else {
        match pane_at(d, i, rows, sources, owner) {
            Err(e) => Err(e),
            Ok((next, j)) => panes_at(d, j, (n - 1) as nat, next, sources, owner),
        }
    }
}

/// The location at a position, naming the pane's new number.
pub open spec fn place_at(
    d: Seq<u8>,
    i: int,
    sources: Seq<RetainedModel>,
    map: Seq<(u64, u64)>,
    owner: ArenaOwnerId,
) -> Result<(DeskLocation, int), CheckpointError> {
    match location_at(d, i, sources, owner) {
        Err(e) => Err(e),
        Ok(((at, hint), j)) => Ok(
            (
                DeskLocation {
                    preferred_pane: DeskPaneId { owner, value: remap(map, hint) },
                    ..at
                },
                j,
            ),
        ),
    }
}

/// `n` more visits from a position on.
pub open spec fn visits_at(
    d: Seq<u8>,
    i: int,
    n: nat,
    done: Seq<DeskLocation>,
    sources: Seq<RetainedModel>,
    map: Seq<(u64, u64)>,
    owner: ArenaOwnerId,
) -> Result<(Seq<DeskLocation>, int), CheckpointError>
    decreases n,
{
    if n == 0 {
        Ok((done, i))
    } else {
        match place_at(d, i, sources, map, owner) {
            Err(e) => Err(e),
            Ok((at, j)) => visits_at(d, j, (n - 1) as nat, done.push(at), sources, map, owner),
        }
    }
}

/// The bookmark at a position.
pub open spec fn mark_at(
    d: Seq<u8>,
    i: int,
    id: u64,
    sources: Seq<RetainedModel>,
    map: Seq<(u64, u64)>,
    owner: ArenaOwnerId,
) -> Result<(BookmarkModel, int), CheckpointError> {
    match label_at(d, i, MAX_BOOKMARK_LABEL_BYTES) {
        Err(e) => Err(e),
        Ok((label, j)) => match place_at(d, j, sources, map, owner) {
            Err(e) => Err(e),
            Ok((location, k)) => if id == 0 || id == u64::MAX {
                Err(CheckpointError::Desk(DeskError::IdentityExhausted))
            } else {
                Ok((DeskBookmark { id, label, location }, k))
            },
        },
    }
}

/// `n` more bookmarks from a position on, numbered from `next` on.
pub open spec fn marks_at(
    d: Seq<u8>,
    i: int,
    n: nat,
    done: Seq<BookmarkModel>,
    next: u64,
    sources: Seq<RetainedModel>,
    map: Seq<(u64, u64)>,
    owner: ArenaOwnerId,
) -> Result<((Seq<BookmarkModel>, u64), int), CheckpointError>
    decreases n,
{
    if n == 0 {
        Ok(((done, next), i))
    } else {
        match mark_at(d, i, next, sources, map, owner) {
            Err(e) => Err(e),
            Ok((mark, j)) => marks_at(
                d,
                j,
                (n - 1) as nat,
                done.push(mark),
                (next + 1) as u64,
                sources,
                map,
                owner,
            ),
        }
    }
}

impl DeskStateModel {
    /// Every retained capture is needed by something.
    pub open spec fn all_referenced(self) -> bool {
        forall|i: int|
            0 <= i < self.sources.len() ==> self.referenced(
                (#[trigger] self.sources[i]).capture.file,
                self.sources[i].capture.revision,
            )
    }

    /// The number of the active pane after a restore.
    pub open spec fn restored_active(map: Seq<(u64, u64)>, active: u64) -> Result<
        Option<u64>,
        CheckpointError,
    > {
        if active == 0 {
            Ok(None)
        } else {
            match mapped_from(map, active, 0) {
                Some(k) => Ok(Some(map[k].1)),
                None => Err(CheckpointError::InvalidDocument),
            }
        }
    }

    /// The state that a document describes, continuing this state's numbering.
    pub open spec fn rebuilt(
        self,
        owner: ArenaOwnerId,
        d: Seq<u8>,
        i: int,
        plan: PlanModel,
        sources: Seq<RetainedModel>,
    ) -> Result<DeskStateModel, CheckpointError> {
        let start = PaneRows {
            panes: PanesModel {
                panes: Seq::empty(),
                active: None,
                next_id: self.panes.next_id,
            },
            offsets: Seq::empty(),
            map: Seq::empty(),
        };
        match panes_at(d, i, plan.panes, start, sources, owner) {
            Err(e) => Err(e),
            Ok((rows, i1)) => match DeskStateModel::restored_active(rows.map, plan.active) {
                Err(e) => Err(e),
                Ok(active) => match visits_at(
                    d,
                    i1,
                    plan.history,
                    Seq::empty(),
                    sources,
                    rows.map,
                    owner,
                ) {
                    Err(e) => Err(e),
                    Ok((history, i2)) => match marks_at(
                        d,
                        i2,
                        plan.bookmarks,
                        Seq::empty(),
                        self.next_bookmark,
                        sources,
                        rows.map,
                        owner,
                    ) {
                        Err(e) => Err(e),
                        Ok(((bookmarks, next_bookmark), i3)) => {
                            let next = DeskStateModel {
                                revision: self.revision,
                                panes: PanesModel { active, ..rows.panes },
                                offsets: rows.offsets,
                                sources,
                                history,
                                cursor: if plan.history == 0 {
                                    None
                                } else {
                                    Some(plan.cursor as usize)
                                },
                                bookmarks,
                                next_bookmark,
                            };
                            if i3 != d.len() || !next.all_referenced() {
                                Err(CheckpointError::InvalidDocument)
                            } else {
                                Ok(next)
                            }
                        },
                    },
                },
            },
        }
    }
}

/// Bytes charged for the captures of a document.
pub open spec fn import_charge(records: Seq<RecordModel>) -> nat {
    (2 * data_len(records) + 2 * label_len(records) + records.len() * (size_of::<RetainedSource>()
        + 128) + 4096) as nat
}

impl DeskModel {
    /// The document opens under the checkpoint schema and version.
    pub open spec fn document_error(document: Seq<u8>, digest: Sha256Digest) -> Option<
        CheckpointError,
    > {
        match frame_error(document, schema_spec(), MAX_CHECKPOINT_BYTES, digest) {
            Some(e) => Some(frame_meaning(e)),
            None => if number_at(document, 10, 12) != 0 || number_at(document, 12, 16) != 0 {
                Some(CheckpointError::UnsupportedVersion)
            } else {
                None
            },
        }
    }

    /// What restoring a document does when nothing is canceled, given its
    /// digest and whether memory was granted.
    pub open spec fn restore(
        self,
        expected: u64,
        attempt: u64,
        document: Seq<u8>,
        allocation: u64,
        digest: Sha256Digest,
        granted: bool,
    ) -> (DeskModel, Result<RestoredDesk, CheckpointError>) {
        let begun = self.begun(attempt);
        let d = covered(document);
        match self.staleness(expected, attempt) {
            Some(e) => (self, Err(CheckpointError::Desk(e))),
            None => match DeskModel::document_error(document, digest) {
                Some(e) => (begun, Err(e)),
                None => match plan_at(d, HEADER_LEN as int, self.limits) {
                    Err(e) => (begun, Err(e)),
                    Ok((plan, i)) => begun.import(d, i, plan, attempt, allocation, granted),
                },
            },
        }
    }

    /// The numbers that the imported captures get, unless they run out.
    pub open spec fn import_numbers(self, count: nat) -> Option<u64> {
        if self.source_high_water + 1 + count > u64::MAX {
            None
        } else {
            Some((self.source_high_water + 1) as u64)
        }
    }

    /// What taking in a planned document does.
    pub open spec fn import(
        self,
        d: Seq<u8>,
        i: int,
        plan: PlanModel,
        attempt: u64,
        allocation: u64,
        granted: bool,
    ) -> (DeskModel, Result<RestoredDesk, CheckpointError>) {
        match self.import_numbers(plan.records.len()) {
            None => (self, Err(CheckpointError::Desk(DeskError::IdentityExhausted))),
            Some(first) => {
                let next_source = (first + plan.records.len()) as u64;
                let raised = DeskModel { source_high_water: (next_source - 1) as u64, ..self };
                if import_charge(plan.records) > u64::MAX {
                    (raised, Err(CheckpointError::Limit))
                } else if !granted {
                    (raised, Err(CheckpointError::Desk(DeskError::ResourceDenied)))
                } else {
                    match self.state.rebuilt(
                        self.owner,
                        d,
                        i,
                        plan,
                        rebased(plan.records, self.owner, first, allocation),
                    ) {
                        Err(e) => (raised, Err(e)),
                        Ok(next) => {
                            let (after, change) = raised.publish(next, attempt, None, false);
                            (
                                after,
                                Ok(
                                    RestoredDesk {
                                        change: change->Ok_0,
                                        next_source_identity: next_source,
                                    },
                                ),
                            )
                        },
                    }
                }
            },
        }
    }
}

/// A position in the covered part of a document.
struct FieldReader<'a> {
    bytes: &'a Vec<u8>,
    at: usize,
    end: usize,
}

impl<'a> FieldReader<'a> {
    spec fn data(self) -> Seq<u8> {
        self.bytes@.subrange(0, self.end as int)
    }

    spec fn wf(self) -> bool {
        self.at <= self.end <= self.bytes.len()
    }

    spec fn same_document(self, other: Self) -> bool {
        self.bytes == other.bytes && self.end == other.end
    }

    fn get_u64(&mut self) -> (r: Result<u64, CheckpointError>)
        requires
            old(self).wf(),
        ensures
            final(self).wf(),
            final(self).same_document(*old(self)),
            match u64_at(old(self).data(), old(self).at as int) {
                Ok((value, at)) => r == Ok::<u64, CheckpointError>(value) && final(self).at == at,
                Err(e) => r == Err::<u64, CheckpointError>(e),
            },
    {
        if self.end - self.at < 8 {
            return Err(CheckpointError::InvalidDocument);
        }
        let value: u64 = read_le(self.bytes, self.at, 8);
        proof {
            assert(self.data().subrange(self.at as int, self.at + 8) =~= self.bytes@.subrange(
                self.at as int,
                self.at + 8,
            ));
        }
        self.at = self.at + 8;
        Ok(value)
    }

    fn get_bool(&mut self) -> (r: Result<bool, CheckpointError>)
        requires
            old(self).wf(),
        ensures
            final(self).wf(),
            final(self).same_document(*old(self)),
            match bool_at(old(self).data(), old(self).at as int) {
                Ok((value, at)) => r == Ok::<bool, CheckpointError>(value) && final(self).at == at,
                Err(e) => r == Err::<bool, CheckpointError>(e),
            },
    {
        if self.at == self.end {
            return Err(CheckpointError::InvalidDocument);
        }
        let byte: u8 = self.bytes[self.at];
        self.at = self.at + 1;
        if byte == 0 {
            Ok(false)
        } else if byte == 1 {
            Ok(true)
        } else {
            Err(CheckpointError::InvalidDocument)
        }
    }

    fn get_scalar(&mut self) -> (r: Result<Scalar, CheckpointError>)
        requires
            old(self).wf(),
        ensures
            final(self).wf(),
            final(self).same_document(*old(self)),
            match scalar_at(old(self).data(), old(self).at as int) {
                Ok((value, at)) => r == Ok::<Scalar, CheckpointError>(value) && final(self).at
                    == at,
                Err(e) => r == Err::<Scalar, CheckpointError>(e),
            },
    {
        if self.end - self.at < 4 {
            return Err(CheckpointError::InvalidDocument);
        }
        let value: u64 = read_le(self.bytes, self.at, 4);
        proof {
            let field = self.bytes@.subrange(self.at as int, self.at + 4);
            assert(self.data().subrange(self.at as int, self.at + 4) =~= field);
            le_value_bound(field);
            le_limits();
        }
        self.at = self.at + 4;
        Ok(Scalar { bits: value as u32 })
    }

    fn get_point(&mut self) -> (r: Result<Point, CheckpointError>)
        requires
            old(self).wf(),
        ensures
            final(self).wf(),
            final(self).same_document(*old(self)),
            match point_at(old(self).data(), old(self).at as int) {
                Ok((value, at)) => r == Ok::<Point, CheckpointError>(value) && final(self).at
                    == at,
                Err(e) => r == Err::<Point, CheckpointError>(e),
            },
    {
        let x = match self.get_scalar() {
            Ok(x) => x,
            Err(e) => {
                return Err(e);
            },
        };
        let y = match self.get_scalar() {
            Ok(y) => y,
            Err(e) => {
                return Err(e);
            },
        };
        Ok((x, y))
    }

    fn get_field(&mut self, limit: u64) -> (r: Result<(usize, usize), CheckpointError>)
        requires
            old(self).wf(),
        ensures
            final(self).wf(),
            final(self).same_document(*old(self)),
            match bytes_at(old(self).data(), old(self).at as int, limit) {
                Ok((value, at)) => r matches Ok((from, to)) && from <= to <= final(self).end
                    && final(self).at == at && value == final(self).data().subrange(
                    from as int,
                    to as int,
                ) && value == final(self).bytes@.subrange(from as int, to as int),
                Err(e) => r == Err::<(usize, usize), CheckpointError>(e),
            },
    {
        let length: u64 = match self.get_u64() {
            Ok(length) => length,
            Err(e) => {
                return Err(e);
            },
        };
        if length > limit || length > (self.end - self.at) as u64 {
            return Err(CheckpointError::Limit);
        }
        let from: usize = self.at;
        let to: usize = from + length as usize;
        self.at = to;
        assert(self.data().subrange(from as int, to as int) =~= self.bytes@.subrange(
            from as int,
            to as int,
        ));
        Ok((from, to))
    }

    fn get_label(&mut self, limit: usize) -> (r: Result<String, CheckpointError>)
        requires
            old(self).wf(),
        ensures
            final(self).wf(),
            final(self).same_document(*old(self)),
            match label_at(old(self).data(), old(self).at as int, limit) {
                Ok((value, at)) => r matches Ok(text) && text@ == value && final(self).at == at,
                Err(e) => r == Err::<String, CheckpointError>(e),
            },
    {
        let (from, to) = match self.get_field(limit as u64) {
            Ok(span) => span,
            Err(e) => {
                return Err(e);
            },
        };
        if from == to {
            return Err(CheckpointError::InvalidDocument);
        }
        match text_from_utf8(copy_range(self.bytes, from, to)) {
            Some(text) => Ok(text),
            None => Err(CheckpointError::InvalidDocument),
        }
    }

    fn get_count(&mut self, limit: usize) -> (r: Result<usize, CheckpointError>)
        requires
            old(self).wf(),
        ensures
            final(self).wf(),
            final(self).same_document(*old(self)),
            match count_at(old(self).data(), old(self).at as int, limit) {
                Ok((value, at)) => r matches Ok(n) && n == value && n <= limit && final(self).at
                    == at,
                Err(e) => r == Err::<usize, CheckpointError>(e),
            },
    {
        match self.get_u64() {
            Ok(n) => if n > limit as u64 {
                Err(CheckpointError::Limit)
            } else {
                Ok(n as usize)
            },
            Err(e) => Err(e),
        }
    }

    fn get_selection(&mut self) -> (r: Result<Option<ByteRange>, CheckpointError>)
        requires
            old(self).wf(),
        ensures
            final(self).wf(),
            final(self).same_document(*old(self)),
            match selection_at(old(self).data(), old(self).at as int) {
                Ok((value, at)) => r == Ok::<Option<ByteRange>, CheckpointError>(value)
                    && final(self).at == at,
                Err(e) => r == Err::<Option<ByteRange>, CheckpointError>(e),
            },
    {
        let present: bool = match self.get_bool() {
            Ok(present) => present,
            Err(e) => {
                return Err(e);
            },
        };
        if !present {
            return Ok(None);
        }
        let start: u64 = match self.get_u64() {
            Ok(n) => n,
            Err(e) => {
                return Err(e);
            },
        };
        let end: u64 = match self.get_u64() {
            Ok(n) => n,
            Err(e) => {
                return Err(e);
            },
        };
        if start > end {
            return Err(CheckpointError::InvalidDocument);
        }
        Ok(Some(ByteRange { start, end }))
    }

    fn get_location(&mut self, sources: &Vec<Arc<RetainedSource>>, owner: ArenaOwnerId) -> (r:
        Result<(DeskLocation, u64), CheckpointError>)
        requires
            old(self).wf(),
        ensures
            final(self).wf(),
            final(self).same_document(*old(self)),
            match location_at(
                old(self).data(),
                old(self).at as int,
                shared_views(sources@),
                owner,
            ) {
                Ok((value, at)) => r == Ok::<(DeskLocation, u64), CheckpointError>(value)
                    && final(self).at == at,
                Err(e) => r == Err::<(DeskLocation, u64), CheckpointError>(e),
            },
    {
        let index: u64 = match self.get_u64() {
            Ok(n) => n,
            Err(e) => {
                return Err(e);
            },
        };
        if index >= sources.len() as u64 {
            return Err(CheckpointError::InvalidDocument);
        }
        let capture = &sources[index as usize].capture;
        assert(shared_views(sources@)[index as int].capture == capture@);
        let offset: u64 = match self.get_u64() {
            Ok(n) => n,
            Err(e) => {
                return Err(e);
            },
        };
        let selection: Option<ByteRange> = match self.get_selection() {
            Ok(selection) => selection,
            Err(e) => {
                return Err(e);
            },
        };
        if !validate_location(&capture.bytes, offset, selection) {
            return Err(CheckpointError::Desk(DeskError::InvalidLocation));
        }
        let hint: u64 = match self.get_u64() {
            Ok(n) => n,
            Err(e) => {
                return Err(e);
            },
        };
        Ok(
            (
                DeskLocation {
                    file: capture.file,
                    revision: capture.revision,
                    offset,
                    selection,
                    preferred_pane: DeskPaneId { owner, value: 0 },
                },
                hint,
            ),
        )
    }
}

/// A source of a document, its bytes still in place.
struct SourceRecord {
    file: u64,
    revision: u64,
    label: String,
    from: usize,
    to: usize,
}

impl SourceRecord {
    spec fn model(self, bytes: Seq<u8>) -> RecordModel {
        RecordModel {
            file: self.file,
            revision: self.revision,
            label: self.label@,
            data: bytes.subrange(self.from as int, self.to as int),
        }
    }

    spec fn within(self, bytes: Seq<u8>) -> bool {
        self.from <= self.to <= bytes.len()
    }
}

spec fn models(records: Seq<SourceRecord>, bytes: Seq<u8>) -> Seq<RecordModel> {
    Seq::new(records.len(), |k: int| records[k].model(bytes))
}

proof fn lemma_models_push(records: Seq<SourceRecord>, record: SourceRecord, bytes: Seq<u8>)
    ensures
        models(records.push(record), bytes) == models(records, bytes).push(record.model(bytes)),
{
    assert(models(records.push(record), bytes) =~= models(records, bytes).push(
        record.model(bytes),
    ));
}

proof fn lemma_len_push(done: Seq<RecordModel>, record: RecordModel)
    ensures
        data_len(done.push(record)) == data_len(done) + record.data.len(),
        label_len(done.push(record)) == label_len(done) + text_len(record.label),
{
    assert(done.push(record).drop_last() =~= done);
}

/// Whether restoring a document may come to this: it was told to stop, or the host
/// hashed the document, granted memory or not, and the desk is the one that follows.
pub open spec fn is_restore<
    A: FnOnce(u64) -> bool,
    H: FnOnce(&Vec<u8>, usize) -> Sha256Digest,
    C: FnMut() -> bool,
>(
    before: DeskModel,
    expected: u64,
    attempt: u64,
    document: &Vec<u8>,
    allocation: u64,
    reserve: A,
    hash: H,
    canceled: C,
    after: DeskModel,
    r: Result<RestoredDesk, CheckpointError>,
) -> bool {
    (was_canceled(r, canceled) && before.restore_interrupted(expected, attempt, document@, after))
        || exists|digest: Sha256Digest, granted: bool|
        #![trigger before.restore(expected, attempt, document@, allocation, digest, granted)]
        restored_with(
            before,
            expected,
            attempt,
            document,
            allocation,
            reserve,
            hash,
            after,
            r,
            digest,
            granted,
        )
}

/// Whether the host's digest of a document and its word on memory come to this.
pub open spec fn restored_with<
    A: FnOnce(u64) -> bool,
    H: FnOnce(&Vec<u8>, usize) -> Sha256Digest,
>(
    before: DeskModel,
    expected: u64,
    attempt: u64,
    document: &Vec<u8>,
    allocation: u64,
    reserve: A,
    hash: H,
    after: DeskModel,
    r: Result<RestoredDesk, CheckpointError>,
    digest: Sha256Digest,
    granted: bool,
) -> bool {
    let opened = before.staleness(expected, attempt) is None && DeskModel::document_error(
        document@,
        digest,
    ) is None;
    let plan = plan_at(covered(document@), HEADER_LEN as int, before.limits);
    let asks = opened && (plan matches Ok((found, _)) && before.import_numbers(
        found.records.len(),
    ) is Some && import_charge(found.records) <= u64::MAX);
    &&& before.staleness(expected, attempt) is None && FRAME_LEN <= document@.len()
        <= MAX_CHECKPOINT_BYTES ==> call_ensures(
        hash,
        (document, (document@.len() - DIGEST_LEN) as usize),
        digest,
    )
    &&& asks ==> call_ensures(reserve, (import_charge(plan->Ok_0.0.records) as u64,), granted)
    &&& (after, r) == before.restore(expected, attempt, document@, allocation, digest, granted)
}

/// A request that the callback canceled.
pub open spec fn was_canceled<T, C: FnMut() -> bool>(r: Result<T, CheckpointError>, canceled: C) -> bool {
    r matches Err(e) && e == CheckpointError::Desk(DeskError::Canceled) && call_ensures(
        canceled,
        (),
        true,
    )
}

pub(crate) fn poll<C: FnMut() -> bool>(canceled: &mut C) -> (r: Result<(), CheckpointError>)
    requires
        call_requires(*old(canceled), ()),
    ensures
        *final(canceled) == *old(canceled),
        r is Err ==> was_canceled(r, *old(canceled)),
{
    if canceled() {
        Err(CheckpointError::Desk(DeskError::Canceled))
    } else {
        Ok(())
    }
}

fn is_recorded(records: &Vec<SourceRecord>, file: u64, revision: u64, Ghost(bytes): Ghost<Seq<u8>>) -> (r:
    bool)
    ensures
        r == recorded(models(records@, bytes), file, revision),
{
    let ghost done = models(records@, bytes);
    let mut k: usize = 0;
    while k < records.len()
        invariant
            k <= records.len(),
            done == models(records@, bytes),
            forall|j: int|
                0 <= j < k ==> !((#[trigger] done[j]).file == file && done[j].revision == revision),
        decreases records.len() - k,
    {
        if records[k].file == file && records[k].revision == revision {
            assert(done[k as int].file == file);
            return true;
        }
        k = k + 1;
    }
    false
}

impl<'a> FieldReader<'a> {
    fn get_record(&mut self, done: &Vec<SourceRecord>, total: u64, limits: DeskLimits) -> (r: Result<
        SourceRecord,
        CheckpointError,
    >)
        requires
            old(self).wf(),
            total == data_len(models(done@, old(self).bytes@)),
            total <= limits.retained_bytes,
        ensures
            final(self).wf(),
            final(self).same_document(*old(self)),
            match record_at(
                old(self).data(),
                old(self).at as int,
                models(done@, old(self).bytes@),
                limits,
            ) {
                Ok((record, at)) => r matches Ok(found) && found.model(old(self).bytes@) == record
                    && found.within(old(self).bytes@) && final(self).at == at,
                Err(e) => r matches Err(f) && f == e,
            },
    {
        let file: u64 = match self.get_u64() {
            Ok(n) => n,
            Err(e) => {
                return Err(e);
            },
        };
        let revision: u64 = match self.get_u64() {
            Ok(n) => n,
            Err(e) => {
                return Err(e);
            },
        };
        if file == 0 || revision == 0 || is_recorded(done, file, revision, Ghost(self.bytes@)) {
            return Err(CheckpointError::InvalidDocument);
        }
        let label: String = match self.get_label(MAX_READING_PATH_BYTES) {
            Ok(label) => label,
            Err(e) => {
                return Err(e);
            },
        };
        let (from, to) = match self.get_field(limits.source_bytes) {
            Ok(span) => span,
            Err(e) => {
                return Err(e);
            },
        };
        if (to - from) as u64 > limits.retained_bytes - total {
            return Err(CheckpointError::Limit);
        }
        Ok(SourceRecord { file, revision, label, from, to })
    }

    fn get_records<C: FnMut() -> bool>(
        &mut self,
        n: usize,
        limits: DeskLimits,
        canceled: &mut C,
    ) -> (r: Result<(Vec<SourceRecord>, u64), CheckpointError>)
        requires
            old(self).wf(),
            call_requires(*old(canceled), ()),
        ensures
            *final(canceled) == *old(canceled),
            final(self).wf(),
            final(self).same_document(*old(self)),
            was_canceled(r, *old(canceled)) || match records_at(
                old(self).data(),
                old(self).at as int,
                n as nat,
                Seq::empty(),
                limits,
            ) {
                Ok((records, at)) => r matches Ok((found, total)) && models(
                    found@,
                    old(self).bytes@,
                ) == records && final(self).at == at && total == data_len(records) && total
                    <= limits.retained_bytes && found.len() == n && forall|k: int|
                    0 <= k < found.len() ==> (#[trigger] found@[k]).within(old(self).bytes@),
                Err(e) => r matches Err(f) && f == e,
            },
    {
        let mut records: Vec<SourceRecord> = Vec::new();
        let mut total: u64 = 0;
        let mut k: usize = 0;
        let ghost bytes = self.bytes@;
        let ghost d = self.data();
        let ghost start = self.at as int;
        assert(models(records@, bytes) =~= Seq::empty());
        while k < n
            invariant
                k <= n,
                records.len() == k,
                self.wf(),
                self.same_document(*old(self)),
                bytes == self.bytes@,
                d == self.data(),
                *canceled == *old(canceled),
                call_requires(*canceled, ()),
                total == data_len(models(records@, bytes)),
                total <= limits.retained_bytes,
                forall|j: int| 0 <= j < k ==> (#[trigger] records@[j]).within(bytes),
                records_at(d, start, n as nat, Seq::empty(), limits) == records_at(
                    d,
                    self.at as int,
                    (n - k) as nat,
                    models(records@, bytes),
                    limits,
                ),
                start == old(self).at,
            decreases n - k,
        {
            match poll(canceled) {
                Ok(()) => {},
                Err(e) => {
                    return Err(e);
                },
            }
            match self.get_record(&records, total, limits) {
                Ok(record) => {
                    proof {
                        lemma_models_push(records@, record, bytes);
                        lemma_len_push(models(records@, bytes), record.model(bytes));
                    }
                    total = total + (record.to - record.from) as u64;
                    records.push(record);
                },
                Err(e) => {
                    return Err(e);
                },
            }
            k = k + 1;
        }
        Ok((records, total))
    }

    fn get_pane_head(&mut self, map: &Vec<(u64, u64)>) -> (r: Result<
        (u64, bool, Point, Point, Point),
        CheckpointError,
    >)
        requires
            old(self).wf(),
        ensures
            final(self).wf(),
            final(self).same_document(*old(self)),
            match pane_head_at(old(self).data(), old(self).at as int, map@) {
                Ok((head, at)) => r == Ok::<(u64, bool, Point, Point, Point), CheckpointError>(
                    (head.number, head.pinned, head.position, head.size, head.scroll),
                ) && final(self).at == at,
                Err(e) => r matches Err(f) && f == e,
            },
    {
        let number: u64 = match self.get_u64() {
            Ok(n) => n,
            Err(e) => {
                return Err(e);
            },
        };
        if number == 0 || find_mapped(map, number).is_some() {
            return Err(CheckpointError::InvalidDocument);
        }
        let pinned: bool = match self.get_bool() {
            Ok(pinned) => pinned,
            Err(e) => {
                return Err(e);
            },
        };
        let position = match self.get_point() {
            Ok(point) => point,
            Err(e) => {
                return Err(e);
            },
        };
        let size = match self.get_point() {
            Ok(point) => point,
            Err(e) => {
                return Err(e);
            },
        };
        let scroll = match self.get_point() {
            Ok(point) => point,
            Err(e) => {
                return Err(e);
            },
        };
        if !is_usable(position.0) || !is_usable(position.1) || !is_usable(size.0) || !is_usable(
            size.1,
        ) || !is_usable(scroll.0) || !is_usable(scroll.1) || !Scalar::zero().less(size.0)
            || !Scalar::zero().less(size.1) {
            return Err(CheckpointError::InvalidDocument);
        }
        Ok((number, pinned, position, size, scroll))
    }
}

fn is_usable(value: Scalar) -> (r: bool)
    ensures
        r == scalar_usable(value),
{
    value.is_finite() && !value.less(Scalar::zero())
}

fn find_mapped(map: &Vec<(u64, u64)>, number: u64) -> (r: Option<u64>)
    ensures
        match mapped_from(map@, number, 0) {
            Some(k) => r == Some(map@[k].1),
            None => r is None,
        },
{
    let mut k: usize = 0;
    while k < map.len()
        invariant
            k <= map.len(),
            mapped_from(map@, number, 0) == mapped_from(map@, number, k as int),
        decreases map.len() - k,
    {
        if map[k].0 == number {
            return Some(map[k].1);
        }
        k = k + 1;
    }
    None
}

fn remap_hint(map: &Vec<(u64, u64)>, number: u64) -> (r: u64)
    ensures
        r == remap(map@, number),
{
    if number == 0 {
        0
    } else {
        match find_mapped(map, number) {
            Some(id) => id,
            None => 0,
        }
    }
}

/// The pane rows of a document while they are rebuilt.
struct Rows {
    panes: ReadingPaneManager,
    offsets: Vec<(u64, u64)>,
    map: Vec<(u64, u64)>,
}

impl View for Rows {
    type V = PaneRows;

    closed spec fn view(&self) -> PaneRows {
        PaneRows { panes: self.panes@, offsets: self.offsets@, map: self.map@ }
    }
}

impl<'a> FieldReader<'a> {
    fn get_pane(&mut self, rows: &mut Rows, sources: &DeskState, owner: ArenaOwnerId) -> (r: Result<
        (),
        CheckpointError,
    >)
        requires
            old(self).wf(),
        ensures
            final(self).wf(),
            final(self).same_document(*old(self)),
            match pane_at(
                old(self).data(),
                old(self).at as int,
                old(rows)@,
                sources@.sources,
                owner,
            ) {
                Ok((next, at)) => r is Ok && final(rows)@ == next && final(self).at == at,
                Err(e) => r == Err::<(), CheckpointError>(e),
            },
    {
        let (number, pinned, position, size, scroll) = match self.get_pane_head(&rows.map) {
            Ok(head) => head,
            Err(e) => {
                return Err(e);
            },
        };
        let ghost head = PaneHead { number, pinned, position, size, scroll };
        let (at, hint) = match self.get_location(&sources.sources, owner) {
            Ok(found) => found,
            Err(e) => {
                return Err(e);
            },
        };
        if hint != number {
            return Err(CheckpointError::InvalidDocument);
        }
        let id: u64 = rows.panes.next_id();
        if id == 0 || id == u64::MAX {
            return Err(CheckpointError::Desk(DeskError::IdentityExhausted));
        }
        let k: usize = match sources.source_index(at.file, at.revision) {
            Some(k) => k,
            None => {
                return Err(CheckpointError::Desk(DeskError::MissingSource));
            },
        };
        let path: String = sources.sources[k].capture.logical_path.clone();
        assert(path@ == sources@.sources[k as int].capture.logical_path);
        let selection: Option<(usize, usize)> = match usize_bounds(at.selection) {
            Ok(selection) => selection,
            Err(_) => {
                return Err(CheckpointError::InvalidDocument);
            },
        };
        let mut pane = ReadingPane::new(id, at.file, path, position);
        pane.revision = Some(at.revision);
        pane.is_pinned = pinned;
        pane.size = size;
        pane.scroll_offset = scroll;
        pane.selection = selection;
        rows.panes.push_pane(pane);
        rows.offsets.push((id, at.offset));
        rows.map.push((number, id));
        Ok(())
    }

    fn get_panes<C: FnMut() -> bool>(
        &mut self,
        n: usize,
        rows: &mut Rows,
        sources: &DeskState,
        owner: ArenaOwnerId,
        canceled: &mut C,
    ) -> (r: Result<(), CheckpointError>)
        requires
            old(self).wf(),
            call_requires(*old(canceled), ()),
        ensures
            *final(canceled) == *old(canceled),
            final(self).wf(),
            final(self).same_document(*old(self)),
            was_canceled(r, *old(canceled)) || match panes_at(
                old(self).data(),
                old(self).at as int,
                n as nat,
                old(rows)@,
                sources@.sources,
                owner,
            ) {
                Ok((next, at)) => r is Ok && final(rows)@ == next && final(self).at == at,
                Err(e) => r == Err::<(), CheckpointError>(e),
            },
    {
        let mut k: usize = 0;
        let ghost d = self.data();
        while k < n
            invariant
                k <= n,
                self.wf(),
                self.same_document(*old(self)),
                d == self.data(),
                *canceled == *old(canceled),
                call_requires(*canceled, ()),
                panes_at(d, old(self).at as int, n as nat, old(rows)@, sources@.sources, owner)
                    == panes_at(
                    d,
                    self.at as int,
                    (n - k) as nat,
                    rows@,
                    sources@.sources,
                    owner,
                ),
            decreases n - k,
        {
            match poll(canceled) {
                Ok(()) => {},
                Err(e) => {
                    return Err(e);
                },
            }
            match self.get_pane(rows, sources, owner) {
                Ok(()) => {},
                Err(e) => {
                    return Err(e);
                },
            }
            k = k + 1;
        }
        Ok(())
    }

    fn get_place(
        &mut self,
        sources: &DeskState,
        map: &Vec<(u64, u64)>,
        owner: ArenaOwnerId,
    ) -> (r: Result<DeskLocation, CheckpointError>)
        requires
            old(self).wf(),
        ensures
            final(self).wf(),
            final(self).same_document(*old(self)),
            match place_at(old(self).data(), old(self).at as int, sources@.sources, map@, owner) {
                Ok((at, i)) => r == Ok::<DeskLocation, CheckpointError>(at) && final(self).at == i,
                Err(e) => r == Err::<DeskLocation, CheckpointError>(e),
            },
    {
        match self.get_location(&sources.sources, owner) {
            Ok((at, hint)) => Ok(
                DeskLocation {
                    preferred_pane: DeskPaneId { owner, value: remap_hint(map, hint) },
                    ..at
                },
            ),
            Err(e) => Err(e),
        }
    }

    fn get_visits(
        &mut self,
        n: usize,
        sources: &DeskState,
        map: &Vec<(u64, u64)>,
        owner: ArenaOwnerId,
    ) -> (r: Result<Vec<DeskLocation>, CheckpointError>)
        requires
            old(self).wf(),
        ensures
            final(self).wf(),
            final(self).same_document(*old(self)),
            match visits_at(
                old(self).data(),
                old(self).at as int,
                n as nat,
                Seq::empty(),
                sources@.sources,
                map@,
                owner,
            ) {
                Ok((history, at)) => r matches Ok(found) && found@ == history && found.len() == n
                    && final(self).at == at,
                Err(e) => r matches Err(f) && f == e,
            },
    {
        let mut history: Vec<DeskLocation> = Vec::new();
        let mut k: usize = 0;
        let ghost d = self.data();
        while k < n
            invariant
                k <= n,
                history.len() == k,
                self.wf(),
                self.same_document(*old(self)),
                d == self.data(),
                visits_at(
                    d,
                    old(self).at as int,
                    n as nat,
                    Seq::empty(),
                    sources@.sources,
                    map@,
                    owner,
                ) == visits_at(
                    d,
                    self.at as int,
                    (n - k) as nat,
                    history@,
                    sources@.sources,
                    map@,
                    owner,
                ),
            decreases n - k,
        {
            match self.get_place(sources, map, owner) {
                Ok(at) => history.push(at),
                Err(e) => {
                    return Err(e);
                },
            }
            k = k + 1;
        }
        Ok(history)
    }

    fn get_marks(
        &mut self,
        n: usize,
        first: u64,
        sources: &DeskState,
        map: &Vec<(u64, u64)>,
        owner: ArenaOwnerId,
    ) -> (r: Result<(Vec<DeskBookmark>, u64), CheckpointError>)
        requires
            old(self).wf(),
        ensures
            final(self).wf(),
            final(self).same_document(*old(self)),
            match marks_at(
                old(self).data(),
                old(self).at as int,
                n as nat,
                Seq::empty(),
                first,
                sources@.sources,
                map@,
                owner,
            ) {
                Ok(((marks, next), at)) => r matches Ok((found, after)) && views(found@) == marks
                    && after == next && final(self).at == at,
                Err(e) => r matches Err(f) && f == e,
            },
    {
        let mut marks: Vec<DeskBookmark> = Vec::new();
        let mut next: u64 = first;
        let mut k: usize = 0;
        let ghost d = self.data();
        assert(views(marks@) =~= Seq::empty());
        while k < n
            invariant
                k <= n,
                self.wf(),
                self.same_document(*old(self)),
                d == self.data(),
                marks_at(
                    d,
                    old(self).at as int,
                    n as nat,
                    Seq::empty(),
                    first,
                    sources@.sources,
                    map@,
                    owner,
                ) == marks_at(
                    d,
                    self.at as int,
                    (n - k) as nat,
                    views(marks@),
                    next,
                    sources@.sources,
                    map@,
                    owner,
                ),
            decreases n - k,
        {
            let label: String = match self.get_label(MAX_BOOKMARK_LABEL_BYTES) {
                Ok(label) => label,
                Err(e) => {
                    return Err(e);
                },
            };
            let location: DeskLocation = match self.get_place(sources, map, owner) {
                Ok(at) => at,
                Err(e) => {
                    return Err(e);
                },
            };
            if next == 0 || next == u64::MAX {
                return Err(CheckpointError::Desk(DeskError::IdentityExhausted));
            }
            marks.push(DeskBookmark { id: next, label, location });
            next = next + 1;
            k = k + 1;
        }
        Ok((marks, next))
    }
}

proof fn lemma_slot(records: Seq<RecordModel>, k: int, j: int)
    requires
        0 <= j <= k < records.len(),
    ensures
        j <= slot_from(records, records[k].file, j) <= k,
    decreases records.len() - j,
{
    if records[j].file != records[k].file {
        lemma_slot(records, k, j + 1);
    }
}

fn slot_of(records: &Vec<SourceRecord>, k: usize, Ghost(bytes): Ghost<Seq<u8>>) -> (r: usize)
    requires
        k < records.len(),
    ensures
        r == slot_from(models(records@, bytes), records@[k as int].file, 0),
        r <= k,
{
    let ghost all = models(records@, bytes);
    proof {
        lemma_slot(all, k as int, 0);
        assert(all[k as int].file == records@[k as int].file);
    }
    let mut j: usize = 0;
    while j < k && records[j].file != records[k].file
        invariant
            j <= k < records.len(),
            all == models(records@, bytes),
            slot_from(all, records@[k as int].file, 0) == slot_from(
                all,
                records@[k as int].file,
                j as int,
            ),
        decreases k - j,
    {
        j = j + 1;
    }
    assert(all[j as int].file == records@[j as int].file);
    j
}

fn rebase<C: FnMut() -> bool>(
    records: &Vec<SourceRecord>,
    bytes: &Vec<u8>,
    owner: ArenaOwnerId,
    first: u64,
    allocation: u64,
    canceled: &mut C,
) -> (r: Result<Vec<Arc<RetainedSource>>, CheckpointError>)
    requires
        call_requires(*old(canceled), ()),
        first + records.len() <= u64::MAX,
        first > 0,
        forall|k: int| 0 <= k < records.len() ==> (#[trigger] records@[k]).within(bytes@),
    ensures
        *final(canceled) == *old(canceled),
        match r {
            Ok(sources) => shared_views(sources@) == rebased(
                models(records@, bytes@),
                owner,
                first,
                allocation,
            ) && source_bytes_from(shared_views(sources@), 0) == data_len(
                models(records@, bytes@),
            ),
            Err(e) => was_canceled(r, *old(canceled)),
        },
{
    let ghost all = models(records@, bytes@);
    let ghost target = rebased(all, owner, first, allocation);
    let mut sources: Vec<Arc<RetainedSource>> = Vec::new();
    let mut k: usize = 0;
    assert(shared_views(sources@) =~= target.subrange(0, 0));
    assert(all.subrange(0, 0) =~= Seq::empty());
    while k < records.len()
        invariant
            k <= records.len(),
            all == models(records@, bytes@),
            target == rebased(all, owner, first, allocation),
            first + records.len() <= u64::MAX,
            first > 0,
            forall|j: int| 0 <= j < records.len() ==> (#[trigger] records@[j]).within(bytes@),
            *canceled == *old(canceled),
            call_requires(*canceled, ()),
            shared_views(sources@) == target.subrange(0, k as int),
            source_bytes_from(shared_views(sources@), 0) == data_len(all.subrange(0, k as int)),
        decreases records.len() - k,
    {
        match poll(canceled) {
            Ok(()) => {},
            Err(e) => {
                return Err(e);
            },
        }
        let record = &records[k];
        // Distinct captured revisions of one logical file keep that relation.
        let slot: usize = slot_of(records, k, Ghost(bytes@));
        assert(records@[k as int].within(bytes@));
        let capture = SourceCapture {
            owner,
            file: FileId { owner, value: first + slot as u64 },
            revision: SourceRevision { owner, value: first + k as u64 },
            logical_path: record.label.clone(),
            bytes: copy_range(bytes, record.from, record.to),
        };
        let ghost added = RetainedSource { capture: capture@, allocation };
        let ghost before = shared_views(sources@);
        proof {
            assert(all[k as int] == record.model(bytes@));
            assert(added == target[k as int]);
            super::lemma_bytes_push(before, added, 0);
            lemma_len_push(all.subrange(0, k as int), all[k as int]);
            assert(all.subrange(0, k + 1) =~= all.subrange(0, k as int).push(all[k as int]));
        }
        sources.push(Arc::new(RetainedSource { capture, allocation }));
        assert(shared_views(sources@) =~= before.push(added));
        assert(before.push(added) =~= target.subrange(0, k + 1));
        k = k + 1;
    }
    assert(target.subrange(0, target.len() as int) =~= target);
    assert(all.subrange(0, all.len() as int) =~= all);
    Ok(sources)
}

fn is_lean(state: &DeskState) -> (r: bool)
    ensures
        r == state@.all_referenced(),
{
    let mut k: usize = 0;
    while k < state.sources.len()
        invariant
            k <= state.sources.len(),
            forall|j: int|
                0 <= j < k ==> state@.referenced(
                    (#[trigger] state@.sources[j]).capture.file,
                    state@.sources[j].capture.revision,
                ),
        decreases state.sources.len() - k,
    {
        let source = &state.sources[k];
        assert(state@.sources[k as int] == source@);
        if !state.is_referenced(source.capture.file, source.capture.revision) {
            return false;
        }
        k = k + 1;
    }
    true
}

impl DeskModel {
    /// What a canceled request may leave: the desk as it was, or with numbers set
    /// aside for as many captures as the document holds.
    pub open spec fn interrupted(self, count: nat, after: DeskModel) -> bool {
        ||| after == self
        ||| self.import_numbers(count) matches Some(first) && after == (DeskModel {
            source_high_water: (first + count - 1) as u64,
            ..self
        })
    }

    /// What a canceled restore may leave: the attempt is used up, and so may be
    /// the numbers of the captures that the document announces. A stale request is
    /// answered before it can be canceled.
    pub open spec fn restore_interrupted(
        self,
        expected: u64,
        attempt: u64,
        document: Seq<u8>,
        after: DeskModel,
    ) -> bool {
        &&& self.staleness(expected, attempt) is None
        &&& match plan_at(covered(document), HEADER_LEN as int, self.limits) {
            Ok((plan, _)) => self.begun(attempt).interrupted(plan.records.len(), after),
            Err(_) => after == self.begun(attempt),
        }
    }
}

impl ReadingDesk {
    fn rebuild<C: FnMut() -> bool>(
        &self,
        reader: FieldReader<'_>,
        counts: (usize, usize, usize),
        marks: (u64, u64),
        sources: Vec<Arc<RetainedSource>>,
        canceled: &mut C,
        Ghost(plan): Ghost<PlanModel>,
    ) -> (r: Result<DeskState, CheckpointError>)
        requires
            reader.wf(),
            call_requires(*old(canceled), ()),
            plan.panes == counts.0,
            plan.history == counts.1,
            plan.bookmarks == counts.2,
            plan.cursor == marks.0,
            plan.active == marks.1,
            counts.1 != 0 ==> marks.0 < counts.1,
        ensures
            *final(canceled) == *old(canceled),
            was_canceled(r, *old(canceled)) || match self@.state.rebuilt(
                self@.owner,
                reader.data(),
                reader.at as int,
                plan,
                shared_views(sources@),
            ) {
                Ok(next) => r matches Ok(found) && found@ == next && next.cursor_valid(),
                Err(e) => r matches Err(f) && f == e,
            },
    {
        let (np, nh, nb) = counts;
        let (cursor, active) = marks;
        let mut reader = reader;
        let mut next = DeskState::empty();
        next.revision = self.state.revision;
        next.next_bookmark = self.state.next_bookmark;
        next.sources = sources;
        let mut rows = Rows {
            panes: ReadingPaneManager::from_parts(Vec::new(), None, self.state.panes.next_id()),
            offsets: Vec::new(),
            map: Vec::new(),
        };
        assert(rows@ == (PaneRows {
            panes: PanesModel {
                panes: Seq::empty(),
                active: None,
                next_id: self@.state.panes.next_id,
            },
            offsets: Seq::empty(),
            map: Seq::empty(),
        })) by {
            assert(rows@.panes.panes =~= Seq::empty());
            assert(rows@.offsets =~= Seq::empty());
            assert(rows@.map =~= Seq::empty());
        }
        match reader.get_panes(np, &mut rows, &next, self.owner, canceled) {
            Ok(()) => {},
            Err(e) => {
                return Err(e);
            },
        }
        let now_active: Option<u64> = if active == 0 {
            None
        } else {
            match find_mapped(&rows.map, active) {
                Some(id) => Some(id),
                None => {
                    return Err(CheckpointError::InvalidDocument);
                },
            }
        };
        let history: Vec<DeskLocation> = match reader.get_visits(
            nh,
            &next,
            &rows.map,
            self.owner,
        ) {
            Ok(history) => history,
            Err(e) => {
                return Err(e);
            },
        };
        let (bookmarks, next_bookmark) = match reader.get_marks(
            nb,
            self.state.next_bookmark,
            &next,
            &rows.map,
            self.owner,
        ) {
            Ok(found) => found,
            Err(e) => {
                return Err(e);
            },
        };
        if reader.at != reader.end {
            return Err(CheckpointError::InvalidDocument);
        }
        let mut panes = rows.panes;
        panes.set_active_pane_id(now_active);
        next.panes = panes;
        next.offsets = rows.offsets;
        next.history = history;
        next.cursor = if nh == 0 {
            None
        } else {
            Some(cursor as usize)
        };
        next.bookmarks = bookmarks;
        next.next_bookmark = next_bookmark;
        // Reject hidden/unreferenced source payloads, rather than silently
        // discarding part of an allegedly complete personal-state checkpoint.
        if !is_lean(&next) {
            return Err(CheckpointError::InvalidDocument);
        }
        Ok(next)
    }
}

impl ReadingDesk {
    /// Atomically replace a desk with a validated checkpoint. All source/pane/
    /// bookmark identities are freshly allocated in THIS owner domain. Old
    /// exported views remain valid, but their identities cannot alias the new
    /// model. Attempts and identity high-water marks are consumed on failure;
    /// visible state is not. Limits are the caller's, never imported policy.
    ///
    /// `hash` gives the digest of the first bytes of a document.
    pub fn restore_checkpoint<
        A: FnOnce(u64) -> bool,
        H: FnOnce(&Vec<u8>, usize) -> Sha256Digest,
        C: FnMut() -> bool,
    >(
        &mut self,
        expected: u64,
        attempt: u64,
        document: &Vec<u8>,
        allocation: u64,
        reserve: A,
        hash: H,
        mut canceled: C,
    ) -> (r: Result<RestoredDesk, CheckpointError>)
        requires
            old(self)@.wf(),
            forall|charge: u64| call_requires(reserve, (charge,)),
            forall|n: usize| n <= document.len() ==> call_requires(hash, (document, n)),
            call_requires(canceled, ()),
        ensures
            final(self)@.wf(),
            is_restore(
                old(self)@,
                expected,
                attempt,
                document,
                allocation,
                reserve,
                hash,
                canceled,
                final(self)@,
                r,
            ),
    {
        let ghost before = self@;
        let zero = Sha256Digest { bytes: [0u8; 32] };
        if expected != self.state.revision {
            assert((self@, Err::<RestoredDesk, CheckpointError>(
                CheckpointError::Desk(DeskError::StaleRevision),
            )) == before.restore(expected, attempt, document@, allocation, zero, false));
            return Err(CheckpointError::Desk(DeskError::StaleRevision));
        }
        if attempt == 0 || attempt <= self.last_attempt {
            assert((self@, Err::<RestoredDesk, CheckpointError>(
                CheckpointError::Desk(DeskError::StaleAttempt),
            )) == before.restore(expected, attempt, document@, allocation, zero, false));
            return Err(CheckpointError::Desk(DeskError::StaleAttempt));
        }
        self.last_attempt = attempt;
        match poll(&mut canceled) {
            Ok(()) => {},
            Err(e) => {
                return Err(e);
            },
        }
        let n: usize = document.len();
        let digest = if n >= FRAME_LEN && n <= MAX_CHECKPOINT_BYTES {
            hash(document, n - DIGEST_LEN)
        } else {
            zero
        };
        match check_frame(document, schema(), MAX_CHECKPOINT_BYTES, &digest) {
            Ok(()) => {},
            Err(e) => {
                let f = from_envelope(e);
                assert((self@, Err::<RestoredDesk, CheckpointError>(f)) == before.restore(
                    expected,
                    attempt,
                    document@,
                    allocation,
                    digest,
                    false,
                ));
                return Err(f);
            },
        }
        // This version accepts no extension fields or header flags.
        if read_le(document, 10, 2) != 0 || read_le(document, 12, 4) != 0 {
            assert((self@, Err::<RestoredDesk, CheckpointError>(
                CheckpointError::UnsupportedVersion,
            )) == before.restore(expected, attempt, document@, allocation, digest, false));
            return Err(CheckpointError::UnsupportedVersion);
        }
        match poll(&mut canceled) {
            Ok(()) => {},
            Err(e) => {
                return Err(e);
            },
        }
        let mut reader = FieldReader { bytes: document, at: HEADER_LEN, end: n - DIGEST_LEN };
        assert(reader.data() == covered(document@));
        match reader.get_plan(self.limits, &mut canceled) {
            Ok((counts, marks, records, total)) => {
                let (r, Ghost(granted)) = self.import(
                    reader,
                    counts,
                    marks,
                    &records,
                    total,
                    attempt,
                    allocation,
                    reserve,
                    &mut canceled,
                    Ghost(plan_at(covered(document@), HEADER_LEN as int, before.limits)->Ok_0.0),
                );
                proof {
                    if !was_canceled(r, canceled) {
                        assert((self@, r) == before.restore(
                            expected,
                            attempt,
                            document@,
                            allocation,
                            digest,
                            granted,
                        ));
                    }
                }
                r
            },
            Err(e) => {
                proof {
                    if !was_canceled(Err::<(), CheckpointError>(e), canceled) {
                        assert((self@, Err::<RestoredDesk, CheckpointError>(e)) == before.restore(
                            expected,
                            attempt,
                            document@,
                            allocation,
                            digest,
                            false,
                        ));
                    }
                }
                Err(e)
            },
        }
    }

    fn import<A: FnOnce(u64) -> bool, C: FnMut() -> bool>(
        &mut self,
        reader: FieldReader<'_>,
        counts: (usize, usize, usize),
        marks: (u64, u64),
        records: &Vec<SourceRecord>,
        total: u64,
        attempt: u64,
        allocation: u64,
        reserve: A,
        canceled: &mut C,
        Ghost(plan): Ghost<PlanModel>,
    ) -> (r: (Result<RestoredDesk, CheckpointError>, Ghost<bool>))
        requires
            old(self)@.wf(),
            reader.wf(),
            forall|charge: u64| call_requires(reserve, (charge,)),
            call_requires(*old(canceled), ()),
            plan.panes == counts.0,
            plan.history == counts.1,
            plan.bookmarks == counts.2,
            plan.cursor == marks.0,
            plan.active == marks.1,
            plan.records == models(records@, reader.bytes@),
            total == data_len(plan.records),
            total <= old(self)@.limits.retained_bytes,
            records.len() <= old(self)@.limits.sources,
            counts.1 != 0 ==> marks.0 < counts.1,
            forall|k: int|
                0 <= k < records.len() ==> (#[trigger] records@[k]).within(reader.bytes@),
        ensures
            *final(canceled) == *old(canceled),
            final(self)@.wf(),
            (was_canceled(r.0, *old(canceled)) && old(self)@.interrupted(
                plan.records.len(),
                final(self)@,
            )) || {
                let asks = old(self)@.import_numbers(plan.records.len()) is Some && import_charge(
                    plan.records,
                ) <= u64::MAX;
                &&& asks ==> call_ensures(reserve, (import_charge(plan.records) as u64,), r.1@)
                &&& (final(self)@, r.0) == old(self)@.import(
                    reader.data(),
                    reader.at as int,
                    plan,
                    attempt,
                    allocation,
                    r.1@,
                )
            },
    {
        let count: u64 = records.len() as u64;
        if self.source_high_water == u64::MAX {
            return (Err(CheckpointError::Desk(DeskError::IdentityExhausted)), Ghost(false));
        }
        let first: u64 = self.source_high_water + 1;
        if count > u64::MAX - first {
            return (Err(CheckpointError::Desk(DeskError::IdentityExhausted)), Ghost(false));
        }
        let next_source: u64 = first + count;
        self.source_high_water = next_source - 1;
        // Take in old + candidate overlap while the old desk is still retained.
        // Imported captures share one reservation, conservatively held until the
        // LAST source/exported view retires.
        let labels: u128 = labels_len(records, Ghost(reader.bytes@));
        let row: u128 = wide_size::<RetainedSource>() + 128;
        proof {
            assert(0 <= count * row <= 64 * 0x1_0000_0000_0000_007f) by (nonlinear_arith)
                requires
                    0 <= count <= 64,
                    0 <= row <= 0x1_0000_0000_0000_007f,
            ;
        }
        let charge: u128 = 2 * (total as u128) + 2 * labels + (count as u128) * row + 4096;
        assert(charge == import_charge(plan.records));
        if charge > u64::MAX as u128 {
            return (Err(CheckpointError::Limit), Ghost(false));
        }
        if !reserve(charge as u64) {
            return (Err(CheckpointError::Desk(DeskError::ResourceDenied)), Ghost(false));
        }
        let sources = match rebase(
            records,
            reader.bytes,
            self.owner,
            first,
            allocation,
            canceled,
        ) {
            Ok(sources) => sources,
            Err(e) => {
                return (Err(e), Ghost(true));
            },
        };
        let ghost taken = shared_views(sources@);
        let next: DeskState = match self.rebuild(
            reader,
            counts,
            marks,
            sources,
            canceled,
            Ghost(plan),
        ) {
            Ok(next) => next,
            Err(e) => {
                return (Err(e), Ghost(true));
            },
        };
        assert(next@.sources == taken);
        let last: bool = canceled();
        match self.publish(next, attempt, None, last) {
            Ok(change) => (
                Ok(RestoredDesk { change, next_source_identity: next_source }),
                Ghost(true),
            ),
            Err(e) => (Err(CheckpointError::Desk(e)), Ghost(true)),
        }
    }
}

fn labels_len(records: &Vec<SourceRecord>, Ghost(bytes): Ghost<Seq<u8>>) -> (r: u128)
    requires
        records.len() <= 64,
    ensures
        r == label_len(models(records@, bytes)),
        r <= 64 * 0xffff_ffff_ffff_ffff,
{
    let ghost all = models(records@, bytes);
    let mut total: u128 = 0;
    let mut k: usize = 0;
    assert(all.subrange(0, 0) =~= Seq::empty());
    while k < records.len()
        invariant
            k <= records.len() <= 64,
            all == models(records@, bytes),
            total == label_len(all.subrange(0, k as int)),
            total <= k * 0xffff_ffff_ffff_ffff,
        decreases records.len() - k,
    {
        proof {
            lemma_len_push(all.subrange(0, k as int), all[k as int]);
            assert(all.subrange(0, k + 1) =~= all.subrange(0, k as int).push(all[k as int]));
        }
        total = total + byte_len(&records[k].label) as u128;
        k = k + 1;
    }
    assert(all.subrange(0, all.len() as int) =~= all);
    total
}

impl<'a> FieldReader<'a> {
    fn get_plan<C: FnMut() -> bool>(&mut self, limits: DeskLimits, canceled: &mut C) -> (r: Result<
        ((usize, usize, usize), (u64, u64), Vec<SourceRecord>, u64),
        CheckpointError,
    >)
        requires
            old(self).wf(),
            call_requires(*old(canceled), ()),
        ensures
            *final(canceled) == *old(canceled),
            final(self).wf(),
            final(self).same_document(*old(self)),
            match r {
                Err(e) => was_canceled(Err::<(), CheckpointError>(e), *old(canceled)) || plan_at(
                    old(self).data(),
                    old(self).at as int,
                    limits,
                ) == Err::<(PlanModel, int), CheckpointError>(e),
                Ok((counts, marks, records, total)) => {
                    let plan = plan_at(old(self).data(), old(self).at as int, limits);
                    &&& plan is Ok
                    &&& plan->Ok_0.1 == final(self).at
                    &&& plan->Ok_0.0 == (PlanModel {
                        panes: counts.0 as nat,
                        history: counts.1 as nat,
                        bookmarks: counts.2 as nat,
                        cursor: marks.0,
                        active: marks.1,
                        records: models(records@, old(self).bytes@),
                    })
                    &&& total == data_len(models(records@, old(self).bytes@))
                    &&& total <= limits.retained_bytes
                    &&& records.len() <= limits.sources
                    &&& counts.1 != 0 ==> marks.0 < counts.1
                    &&& forall|k: int|
                        0 <= k < records.len() ==> (#[trigger] records@[k]).within(
                            old(self).bytes@,
                        )
                },
            },
    {
        let ns: usize = match self.get_count(limits.sources) {
            Ok(n) => n,
            Err(e) => {
                return Err(e);
            },
        };
        let np: usize = match self.get_count(limits.panes) {
            Ok(n) => n,
            Err(e) => {
                return Err(e);
            },
        };
        let nh: usize = match self.get_count(limits.history) {
            Ok(n) => n,
            Err(e) => {
                return Err(e);
            },
        };
        let nb: usize = match self.get_count(limits.bookmarks) {
            Ok(n) => n,
            Err(e) => {
                return Err(e);
            },
        };
        let cursor: u64 = match self.get_u64() {
            Ok(n) => n,
            Err(e) => {
                return Err(e);
            },
        };
        let active: u64 = match self.get_u64() {
            Ok(n) => n,
            Err(e) => {
                return Err(e);
            },
        };
        if (nh == 0 && cursor != NOWHERE) || (nh != 0 && cursor >= nh as u64) || ((np == 0) != (
        active == 0)) {
            return Err(CheckpointError::InvalidDocument);
        }
        match self.get_records(ns, limits, canceled) {
            Ok((records, total)) => Ok(((np, nh, nb), (cursor, active), records, total)),
            Err(e) => Err(e),
        }
    }
}

} // verus!
