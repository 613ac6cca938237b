//! Source-backed multi-reader navigation.
//!
//! A pane descriptor is not source retention. This worker-side controller owns
//! the exact captures referenced by panes, back/forward entries and bookmarks.
//! Duplicate panes share source bytes but have independent reading positions.
//! No path is reopened, and no capture is rebound to new bytes. All operations,
//! including retirement/drop, belong on the host worker, not an input callback.
//! The returned model revision is NOT a presented frame: the host still owns
//! rendering, presentation acknowledgment, pointer routing and accessibility.
//!
//! Memory is admitted by the host: a callback receives the charge in bytes and
//! says whether it was granted, and each retained source carries the number of
//! the reservation that its bytes are held under.
pub mod checkpoint;
pub mod retention;

use std::sync::Arc;

use vstd::layout::size_of;
use vstd::prelude::*;

use super::{unpinned_from, PanesModel, ReadingPane, ReadingPaneManager, MAX_READING_PATH_BYTES};
use crate::capture::{byte_len, same_bytes, text_len, CaptureModel, SourceCapture};
use crate::memory::{share, wide_size};
use crate::identity::{ArenaOwnerId, ByteRange, FileId, SourceRevision};
use crate::model::{group_views, views};
use crate::scalar::{stagger, stagger_position, Point, Scalar};

verus! {

broadcast use group_views;

pub const MAX_DESK_PANES: usize = 8;

pub const MAX_DESK_SOURCES: usize = 64;

pub const MAX_DESK_HISTORY: usize = 128;

pub const MAX_DESK_BOOKMARKS: usize = 64;

pub const MAX_BOOKMARK_LABEL_BYTES: usize = 256;

/// Largest admissible capture.
pub const MAX_SOURCE_BYTES: u64 = 67_108_864;

/// Largest admissible total of retained captures.
pub const MAX_RETAINED_BYTES: u64 = 268_435_456;

#[derive(Clone, Copy, Debug, PartialEq, Eq, Structural)]
pub struct DeskLimits {
    pub panes: usize,
    pub sources: usize,
    pub history: usize,
    pub bookmarks: usize,
    pub source_bytes: u64,
    pub retained_bytes: u64,
}

impl Default for DeskLimits {
    fn default() -> (r: Self)
        ensures
            r == (DeskLimits {
                panes: 8,
                sources: 32,
                history: 64,
                bookmarks: 32,
                source_bytes: 4_194_304,
                retained_bytes: 33_554_432,
            }),
    {
        DeskLimits {
            panes: 8,
            sources: 32,
            history: 64,
            bookmarks: 32,
            source_bytes: 4_194_304,
            retained_bytes: 33_554_432,
        }
    }
}

impl DeskLimits {
    /// Every limit is within its admissible range.
    pub open spec fn valid(self) -> bool {
        &&& 1 <= self.panes <= MAX_DESK_PANES
        &&& 1 <= self.sources <= MAX_DESK_SOURCES
        &&& 1 <= self.history <= MAX_DESK_HISTORY
        &&& self.bookmarks <= MAX_DESK_BOOKMARKS
        &&& self.source_bytes <= MAX_SOURCE_BYTES
        &&& self.retained_bytes <= MAX_RETAINED_BYTES
    }
}

#[derive(Clone, Copy, Debug, PartialEq, Eq, Structural)]
pub enum DeskError {
    InvalidLimits,
    OwnerMismatch,
    StaleRevision,
    StaleAttempt,
    InvalidLocation,
    MissingPane,
    MissingSource,
    MissingBookmark,
    NoActivePane,
    EmptyHistory,
    PaneLimit,
    SourceLimit,
    RetainedByteLimit,
    BookmarkLimit,
    InvalidLabel,
    IdentityConflict,
    IdentityExhausted,
    ResourceDenied,
    Canceled,
}

impl DeskError {
    /// The stable code of an error.
    pub open spec fn text(self) -> Seq<char> {
        match self {
            DeskError::InvalidLimits => "DESK_INVALID_LIMITS"@,
            DeskError::OwnerMismatch => "DESK_OWNER_MISMATCH"@,
            DeskError::StaleRevision => "DESK_STALE_REVISION"@,
            DeskError::StaleAttempt => "DESK_STALE_ATTEMPT"@,
            DeskError::InvalidLocation => "DESK_INVALID_LOCATION"@,
            DeskError::MissingPane => "DESK_MISSING_PANE"@,
            DeskError::MissingSource => "DESK_MISSING_SOURCE"@,
            DeskError::MissingBookmark => "DESK_MISSING_BOOKMARK"@,
            DeskError::NoActivePane => "DESK_NO_ACTIVE_PANE"@,
            DeskError::EmptyHistory => "DESK_EMPTY_HISTORY"@,
            DeskError::PaneLimit => "DESK_PANE_LIMIT"@,
            DeskError::SourceLimit => "DESK_SOURCE_LIMIT"@,
            DeskError::RetainedByteLimit => "DESK_RETAINED_BYTE_LIMIT"@,
            DeskError::BookmarkLimit => "DESK_BOOKMARK_LIMIT"@,
            DeskError::InvalidLabel => "DESK_INVALID_LABEL"@,
            DeskError::IdentityConflict => "DESK_IDENTITY_CONFLICT"@,
            DeskError::IdentityExhausted => "DESK_IDENTITY_EXHAUSTED"@,
            DeskError::ResourceDenied => "DESK_RESOURCE_DENIED"@,
            DeskError::Canceled => "DESK_CANCELED"@,
        }
    }

    pub fn code(self) -> (r: &'static str)
        ensures
            r@ == self.text(),
    {
        match self {
            DeskError::InvalidLimits => "DESK_INVALID_LIMITS",
            DeskError::OwnerMismatch => "DESK_OWNER_MISMATCH",
            DeskError::StaleRevision => "DESK_STALE_REVISION",
            DeskError::StaleAttempt => "DESK_STALE_ATTEMPT",
            DeskError::InvalidLocation => "DESK_INVALID_LOCATION",
            DeskError::MissingPane => "DESK_MISSING_PANE",
            DeskError::MissingSource => "DESK_MISSING_SOURCE",
            DeskError::MissingBookmark => "DESK_MISSING_BOOKMARK",
            DeskError::NoActivePane => "DESK_NO_ACTIVE_PANE",
            DeskError::EmptyHistory => "DESK_EMPTY_HISTORY",
            DeskError::PaneLimit => "DESK_PANE_LIMIT",
            DeskError::SourceLimit => "DESK_SOURCE_LIMIT",
            DeskError::RetainedByteLimit => "DESK_RETAINED_BYTE_LIMIT",
            DeskError::BookmarkLimit => "DESK_BOOKMARK_LIMIT",
            DeskError::InvalidLabel => "DESK_INVALID_LABEL",
            DeskError::IdentityConflict => "DESK_IDENTITY_CONFLICT",
            DeskError::IdentityExhausted => "DESK_IDENTITY_EXHAUSTED",
            DeskError::ResourceDenied => "DESK_RESOURCE_DENIED",
            DeskError::Canceled => "DESK_CANCELED",
        }
    }
}

/// Qualified by the desk, not just a recycled ordinal. Source IDs remain separate.
#[derive(Clone, Copy, Debug, PartialEq, Eq, Structural)]
pub struct DeskPaneId {
    pub owner: ArenaOwnerId,
    pub value: u64,
}

impl DeskPaneId {
    pub fn owner(self) -> (r: ArenaOwnerId)
        ensures
            r == self.owner,
    {
        self.owner
    }

    pub fn get(self) -> (r: u64)
        ensures
            r == self.value,
    {
        self.value
    }
}

#[derive(Clone, Copy, Debug, PartialEq, Eq)]
pub struct DeskLocation {
    pub file: FileId,
    pub revision: SourceRevision,
    /// Original-byte viewport anchor, not a visual row or decoded UTF-8 offset.
    pub offset: u64,
    pub selection: Option<ByteRange>,
    pub preferred_pane: DeskPaneId,
}

#[derive(Debug)]
pub struct DeskBookmark<T = String> {
    pub id: u64,
    pub label: T,
    pub location: DeskLocation,
}

/// The model of a bookmark.
pub type BookmarkModel = DeskBookmark<Seq<char>>;

impl View for DeskBookmark {
    type V = DeskBookmark<Seq<char>>;

    open spec fn view(&self) -> DeskBookmark<Seq<char>> {
        DeskBookmark { id: self.id, label: self.label@, location: self.location }
    }
}

impl Clone for DeskBookmark {
    fn clone(&self) -> (r: Self)
        ensures
            r == *self,
    {
        DeskBookmark { id: self.id, label: self.label.clone(), location: self.location }
    }
}

impl DeskBookmark {
    pub fn id(&self) -> (r: u64)
        ensures
            r == self@.id,
    {
        self.id
    }

    pub fn label(&self) -> (r: &String)
        ensures
            r@ == self@.label,
    {
        &self.label
    }

    pub fn location(&self) -> (r: DeskLocation)
        ensures
            r == self@.location,
    {
        self.location
    }
}

#[derive(Clone, Copy, Debug, PartialEq, Eq)]
pub struct DeskChange {
    pub revision: u64,
    pub active: Option<DeskPaneId>,
    pub created_bookmark: Option<u64>,
}

/// Semantic commands. Scrolling updates the current history entry rather than
/// appending every motion tick. Bookmarks are session-owned, not disk persistence.
#[allow(inconsistent_fields)]
pub enum DeskCommand<T = String> {
    Focus(DeskPaneId),
    Navigate { pane: DeskPaneId, offset: u64, selection: Option<ByteRange> },
    Scroll { pane: DeskPaneId, offset: u64 },
    Pin { pane: DeskPaneId, pinned: bool },
    Duplicate(DeskPaneId),
    Close(DeskPaneId),
    Escape,
    Back,
    Forward,
    Bookmark { pane: DeskPaneId, label: T },
    RecallBookmark(u64),
    ForgetBookmark(u64),
    ClearHistory,
    Arrange { pane: DeskPaneId, position: Point, size: Point },
}

impl View for DeskCommand {
    type V = DeskCommand<Seq<char>>;

    open spec fn view(&self) -> DeskCommand<Seq<char>> {
        match *self {
            DeskCommand::Focus(pane) => DeskCommand::Focus(pane),
            DeskCommand::Navigate { pane, offset, selection } => DeskCommand::Navigate {
                pane,
                offset,
                selection,
            },
            DeskCommand::Scroll { pane, offset } => DeskCommand::Scroll { pane, offset },
            DeskCommand::Pin { pane, pinned } => DeskCommand::Pin { pane, pinned },
            DeskCommand::Duplicate(pane) => DeskCommand::Duplicate(pane),
            DeskCommand::Close(pane) => DeskCommand::Close(pane),
            DeskCommand::Escape => DeskCommand::Escape,
            DeskCommand::Back => DeskCommand::Back,
            DeskCommand::Forward => DeskCommand::Forward,
            DeskCommand::Bookmark { pane, label } => DeskCommand::Bookmark { pane, label: label@ },
            DeskCommand::RecallBookmark(id) => DeskCommand::RecallBookmark(id),
            DeskCommand::ForgetBookmark(id) => DeskCommand::ForgetBookmark(id),
            DeskCommand::ClearHistory => DeskCommand::ClearHistory,
            DeskCommand::Arrange { pane, position, size } => DeskCommand::Arrange {
                pane,
                position,
                size,
            },
        }
    }
}

/// A retained capture and the reservation its bytes are held under.
pub struct RetainedSource<C = SourceCapture> {
    pub capture: C,
    pub allocation: u64,
}

/// The model of a retained capture.
pub type RetainedModel = RetainedSource<CaptureModel>;

impl View for RetainedSource {
    type V = RetainedSource<CaptureModel>;

    open spec fn view(&self) -> RetainedSource<CaptureModel> {
        RetainedSource { capture: self.capture@, allocation: self.allocation }
    }
}

/// The models of shared items, in order.
pub open spec fn shared_views(s: Seq<Arc<RetainedSource>>) -> Seq<RetainedModel> {
    Seq::new(s.len(), |i: int| s[i]@)
}

/// Position of the retained capture of a revision, from `i` on.
pub open spec fn source_from(
    sources: Seq<RetainedModel>,
    file: FileId,
    revision: SourceRevision,
    i: int,
) -> Option<int>
    decreases sources.len() - i,
{
    if i < 0 || i >= sources.len() {
        None
    } else if sources[i].capture.file == file && sources[i].capture.revision == revision {
        Some(i)
    } else {
        source_from(sources, file, revision, i + 1)
    }
}

/// Position of the viewport entry of a pane, from `i` on.
pub open spec fn offset_from(offsets: Seq<(u64, u64)>, pane: u64, i: int) -> Option<int>
    decreases offsets.len() - i,
{
    if i < 0 || i >= offsets.len() {
        None
    } else if offsets[i].0 == pane {
        Some(i)
    } else {
        offset_from(offsets, pane, i + 1)
    }
}

/// The viewport entries of the panes other than `pane`, from `i` on.
pub open spec fn offsets_without(offsets: Seq<(u64, u64)>, pane: u64, i: int) -> Seq<(u64, u64)>
    decreases offsets.len() - i,
{
    if i < 0 || i >= offsets.len() {
        Seq::empty()
    } else if offsets[i].0 == pane {
        offsets_without(offsets, pane, i + 1)
    } else {
        seq![offsets[i]] + offsets_without(offsets, pane, i + 1)
    }
}

/// Position of a bookmark, from `i` on.
pub open spec fn bookmark_from(bookmarks: Seq<BookmarkModel>, id: u64, i: int) -> Option<int>
    decreases bookmarks.len() - i,
{
    if i < 0 || i >= bookmarks.len() {
        None
    } else if bookmarks[i].id == id {
        Some(i)
    } else {
        bookmark_from(bookmarks, id, i + 1)
    }
}

/// How many source bytes the retained captures from `i` on hold.
pub open spec fn source_bytes_from(sources: Seq<RetainedModel>, i: int) -> nat
    decreases sources.len() - i,
{
    if i < 0 || i >= sources.len() {
        0
    } else {
        sources[i].capture.bytes.len() + source_bytes_from(sources, i + 1)
    }
}

/// A position and a selection lie within the captured bytes.
pub open spec fn location_valid(
    bytes: Seq<u8>,
    offset: u64,
    selection: Option<ByteRange>,
) -> bool {
    offset <= bytes.len() && (selection matches Some(range) ==> range.end <= bytes.len())
}

/// A selection as a pair of machine sizes, unless one end is too large.
pub open spec fn selection_bounds(selection: Option<ByteRange>) -> Result<
    Option<(usize, usize)>,
    DeskError,
> {
    match selection {
        None => Ok(None),
        Some(range) => if range.start > usize::MAX || range.end > usize::MAX {
            Err(DeskError::InvalidLocation)
        } else {
            Ok(Some((range.start as usize, range.end as usize)))
        },
    }
}

/// Everything a desk shows and keeps.
pub ghost struct DeskStateModel {
    pub revision: u64,
    pub panes: PanesModel,
    pub offsets: Seq<(u64, u64)>,
    pub sources: Seq<RetainedModel>,
    pub history: Seq<DeskLocation>,
    pub cursor: Option<usize>,
    pub bookmarks: Seq<BookmarkModel>,
    pub next_bookmark: u64,
}

impl DeskStateModel {
    /// Nothing is shown or kept, and all numbers are still to be given.
    pub open spec fn fresh() -> DeskStateModel {
        DeskStateModel {
            revision: 0,
            panes: PanesModel { panes: Seq::empty(), active: None, next_id: 1 },
            offsets: Seq::empty(),
            sources: Seq::empty(),
            history: Seq::empty(),
            cursor: None,
            bookmarks: Seq::empty(),
            next_bookmark: 1,
        }
    }

    /// The history cursor points into the history.
    pub open spec fn cursor_valid(self) -> bool {
        self.cursor matches Some(i) ==> i < self.history.len()
    }

    /// The retained capture of a revision.
    pub open spec fn source(self, file: FileId, revision: SourceRevision) -> Option<CaptureModel> {
        match source_from(self.sources, file, revision, 0) {
            Some(i) => Some(self.sources[i].capture),
            None => None,
        }
    }

    /// A pane shows this revision.
    pub open spec fn shown(self, file: FileId, revision: SourceRevision) -> bool {
        exists|i: int|
            0 <= i < self.panes.panes.len() && #[trigger] self.panes.panes[i].file_id == file
                && self.panes.panes[i].revision == Some(revision)
    }

    /// The history mentions this revision.
    pub open spec fn visited(self, file: FileId, revision: SourceRevision) -> bool {
        exists|i: int|
            0 <= i < self.history.len() && #[trigger] self.history[i].file == file
                && self.history[i].revision == revision
    }

    /// A bookmark marks this revision.
    pub open spec fn marked(self, file: FileId, revision: SourceRevision) -> bool {
        exists|i: int|
            0 <= i < self.bookmarks.len() && #[trigger] self.bookmarks[i].location.file == file
                && self.bookmarks[i].location.revision == revision
    }

    /// A pane, a visit or a bookmark still needs this revision.
    pub open spec fn referenced(self, file: FileId, revision: SourceRevision) -> bool {
        self.shown(file, revision) || self.visited(file, revision) || self.marked(file, revision)
    }

    /// The captures from `i` on that something still needs.
    pub open spec fn needed_from(self, i: int) -> Seq<RetainedModel>
        decreases self.sources.len() - i,
    {
        if i < 0 || i >= self.sources.len() {
            Seq::empty()
        } else if self.referenced(self.sources[i].capture.file, self.sources[i].capture.revision) {
            seq![self.sources[i]] + self.needed_from(i + 1)
        } else {
            self.needed_from(i + 1)
        }
    }

    /// The state without the captures that nothing needs.
    pub open spec fn retire(self) -> DeskStateModel {
        DeskStateModel { sources: self.needed_from(0), ..self }
    }

    /// Where a pane stands.
    pub open spec fn location(self, owner: ArenaOwnerId, id: DeskPaneId) -> Result<
        DeskLocation,
        DeskError,
    > {
        if id.owner != owner {
            Err(DeskError::OwnerMismatch)
        } else {
            match (self.panes.pane(id.value), offset_from(self.offsets, id.value, 0)) {
                (Some(pane), Some(k)) => match (pane.selection, pane.revision) {
                    (Some((start, end)), _) if start > end => Err(DeskError::InvalidLocation),
                    (_, None) => Err(DeskError::MissingSource),
                    (selection, Some(revision)) => Ok(
                        DeskLocation {
                            file: pane.file_id,
                            revision,
                            offset: self.offsets[k].1,
                            selection: match selection {
                                Some((start, end)) => Some(
                                    ByteRange { start: start as u64, end: end as u64 },
                                ),
                                None => None,
                            },
                            preferred_pane: id,
                        },
                    ),
                },
                _ => Err(DeskError::MissingPane),
            }
        }
    }

    /// The pane with another viewport position, where it has one.
    pub open spec fn set_offset(self, pane: u64, offset: u64) -> Option<DeskStateModel> {
        match offset_from(self.offsets, pane, 0) {
            Some(k) => Some(
                DeskStateModel { offsets: self.offsets.update(k, (pane, offset)), ..self },
            ),
            None => None,
        }
    }

    /// The open pane that a location may take over: the one it names unless
    /// pinned to something else, then the active one, then the first unpinned.
    pub open spec fn preferred(self, at: DeskLocation) -> Option<u64> {
        match self.panes.pane(at.preferred_pane.value) {
            Some(pane) if !pane.is_pinned || (pane.file_id == at.file && pane.revision == Some(
                at.revision,
            )) => Some(pane.id),
            _ => match self.panes.active_pane() {
                Some(pane) if !pane.is_pinned => Some(pane.id),
                _ => unpinned_from(self.panes.panes, 0),
            },
        }
    }

    /// The state with room for a new pane, and the pane's number.
    pub open spec fn new_pane(self, limits: DeskLimits, at: DeskLocation) -> Result<
        (DeskStateModel, u64),
        DeskError,
    > {
        let id = self.panes.next_id;
        if self.panes.panes.len() == limits.panes {
            Err(DeskError::PaneLimit)
        } else if id == 0 || id == u64::MAX {
            Err(DeskError::IdentityExhausted)
        } else {
            let pane = super::fresh_pane(
                id,
                at.file,
                Seq::empty(),
                stagger_position(self.panes.panes.len()),
            );
            Ok(
                (
                    DeskStateModel {
                        panes: PanesModel {
                            panes: self.panes.panes.push(pane),
                            next_id: (id + 1) as u64,
                            ..self.panes
                        },
                        offsets: self.offsets.push((id, at.offset)),
                        ..self
                    },
                    id,
                ),
            )
        }
    }

    /// The state with a pane showing a location of a capture.
    pub open spec fn place(
        self,
        owner: ArenaOwnerId,
        id: u64,
        at: DeskLocation,
        path: Seq<char>,
        selection: Option<(usize, usize)>,
    ) -> Result<(DeskStateModel, DeskLocation), DeskError> {
        match (self.panes.pane(id), self.set_offset(id, at.offset)) {
            (Some(pane), Some(moved)) => Ok(
                (
                    DeskStateModel {
                        panes: PanesModel {
                            active: Some(id),
                            ..self.panes.with_pane(
                                id,
                                ReadingPane {
                                    file_id: at.file,
                                    revision: Some(at.revision),
                                    path,
                                    selection,
                                    target_line: None,
                                    scroll_offset: (Scalar { bits: 0 }, Scalar { bits: 0 }),
                                    ..pane
                                },
                            )
                        },
                        ..moved
                    },
                    DeskLocation { preferred_pane: DeskPaneId { owner, value: id }, ..at },
                ),
            ),
            _ => Err(DeskError::MissingPane),
        }
    }

    /// The state after showing a location, in a new pane for a duplicate and
    /// whenever no open pane may be taken over.
    pub open spec fn open_location(
        self,
        owner: ArenaOwnerId,
        limits: DeskLimits,
        at: DeskLocation,
        duplicate: bool,
    ) -> Result<(DeskStateModel, DeskLocation), DeskError> {
        match self.source(at.file, at.revision) {
            None => Err(DeskError::MissingSource),
            Some(capture) => if !location_valid(capture.bytes, at.offset, at.selection) {
                Err(DeskError::InvalidLocation)
            } else {
                match selection_bounds(at.selection) {
                    Err(e) => Err(e),
                    Ok(selection) => match self.preferred(at) {
                        Some(id) if !duplicate => self.place(
                            owner,
                            id,
                            at,
                            capture.logical_path,
                            selection,
                        ),
                        _ => match self.new_pane(limits, at) {
                            Err(e) => Err(e),
                            Ok((roomier, id)) => roomier.place(
                                owner,
                                id,
                                at,
                                capture.logical_path,
                                selection,
                            ),
                        },
                    },
                }
            },
        }
    }

    /// The visits that stay when a new one is recorded.
    pub open spec fn past(self, limit: usize) -> Seq<DeskLocation> {
        let kept = match self.cursor {
            Some(i) => self.history.subrange(0, i + 1),
            None => self.history,
        };
        if kept.len() == limit {
            kept.remove(0)
        } else {
            kept
        }
    }

    /// The state after recording a visit: forward history is dropped, and the
    /// oldest visit leaves when the list is full. The current visit is not
    /// recorded twice.
    pub open spec fn record(self, limit: usize, at: DeskLocation) -> DeskStateModel {
        match self.cursor {
            Some(i) if self.history[i as int] == at => self,
            _ => DeskStateModel {
                history: self.past(limit).push(at),
                cursor: Some(self.past(limit).len() as usize),
                ..self
            },
        }
    }

    /// The state without a pane.
    pub open spec fn without_pane(self, id: u64) -> DeskStateModel {
        DeskStateModel {
            panes: self.panes.close_pane(id),
            offsets: offsets_without(self.offsets, id, 0),
            ..self
        }
    }

    /// A layout is usable: finite, on screen and not empty.
    pub open spec fn layout_valid(position: Point, size: Point) -> bool {
        &&& position.0.finite() && position.1.finite() && size.0.finite() && size.1.finite()
        &&& !position.0.below(Scalar { bits: 0 }) && !position.1.below(Scalar { bits: 0 })
        &&& (Scalar { bits: 0 }).below(size.0) && (Scalar { bits: 0 }).below(size.1)
    }

    /// Opens a location and records the visit.
    pub open spec fn visit(
        self,
        owner: ArenaOwnerId,
        limits: DeskLimits,
        at: DeskLocation,
        duplicate: bool,
    ) -> Result<(DeskStateModel, DeskLocation), DeskError> {
        match self.open_location(owner, limits, at, duplicate) {
            Err(e) => Err(e),
            Ok((opened, at)) => Ok((opened.record(limits.history, at), at)),
        }
    }

    /// What a command makes of the state, and the bookmark it created.
    pub open spec fn command(
        self,
        owner: ArenaOwnerId,
        limits: DeskLimits,
        command: DeskCommand<Seq<char>>,
    ) -> Result<(DeskStateModel, Option<u64>), DeskError> {
        match command {
            DeskCommand::Focus(pane) => self.focus(owner, limits, pane),
            DeskCommand::Navigate { pane, offset, selection } => self.navigate(
                owner,
                limits,
                pane,
                offset,
                selection,
            ),
            DeskCommand::Scroll { pane, offset } => self.scroll(owner, pane, offset),
            DeskCommand::Pin { pane, pinned } => self.pin(owner, pane, pinned),
            DeskCommand::Duplicate(pane) => self.duplicate(owner, limits, pane),
            DeskCommand::Close(pane) => self.close(owner, pane),
            DeskCommand::Escape => self.escape(),
            DeskCommand::Back => self.revisit(
                owner,
                limits,
                match self.cursor {
                    Some(i) if i > 0 => Some((i - 1) as usize),
                    _ => None,
                },
            ),
            DeskCommand::Forward => self.revisit(
                owner,
                limits,
                match self.cursor {
                    Some(i) if i + 1 < self.history.len() => Some((i + 1) as usize),
                    _ => None,
                },
            ),
            DeskCommand::Bookmark { pane, label } => self.bookmark(owner, limits, pane, label),
            DeskCommand::RecallBookmark(id) => self.recall(owner, limits, id),
            DeskCommand::ForgetBookmark(id) => self.forget(id),
            DeskCommand::ClearHistory => self.clear_history(owner, limits),
            DeskCommand::Arrange { pane, position, size } => self.arrange(
                owner,
                pane,
                position,
                size,
            ),
        }
    }

    /// A pane becomes active, which is a visit.
    #[verifier::opaque]
    pub open spec fn focus(
        self,
        owner: ArenaOwnerId,
        limits: DeskLimits,
        pane: DeskPaneId,
    ) -> Result<(DeskStateModel, Option<u64>), DeskError> {
        match self.location(owner, pane) {
            Err(e) => Err(e),
            Ok(at) => Ok(
                (
                    (DeskStateModel {
                        panes: PanesModel { active: Some(pane.value), ..self.panes },
                        ..self
                    }).record(limits.history, at),
                    None,
                ),
            ),
        }
    }

    /// A pane goes to another place of its capture.
    #[verifier::opaque]
    pub open spec fn navigate(
        self,
        owner: ArenaOwnerId,
        limits: DeskLimits,
        pane: DeskPaneId,
        offset: u64,
        selection: Option<ByteRange>,
    ) -> Result<(DeskStateModel, Option<u64>), DeskError> {
        match self.location(owner, pane) {
            Err(e) => Err(e),
            Ok(at) => match self.visit(
                owner,
                limits,
                DeskLocation { offset, selection, ..at },
                false,
            ) {
                Err(e) => Err(e),
                Ok((next, _)) => Ok((next, None)),
            },
        }
    }

    #[verifier::opaque]
    pub open spec fn pin(self, owner: ArenaOwnerId, pane: DeskPaneId, pinned: bool) -> Result<
        (DeskStateModel, Option<u64>),
        DeskError,
    > {
        match self.location(owner, pane) {
            Err(e) => Err(e),
            Ok(_) => Ok(
                (
                    DeskStateModel { panes: self.panes.set_pinned(pane.value, pinned), ..self },
                    None,
                ),
            ),
        }
    }

    /// A pinned pane shows the same place beside the first one.
    #[verifier::opaque]
    pub open spec fn duplicate(
        self,
        owner: ArenaOwnerId,
        limits: DeskLimits,
        pane: DeskPaneId,
    ) -> Result<(DeskStateModel, Option<u64>), DeskError> {
        match self.location(owner, pane) {
            Err(e) => Err(e),
            Ok(at) => match self.open_location(owner, limits, at, true) {
                Err(e) => Err(e),
                Ok((opened, at)) => Ok(
                    (
                        (DeskStateModel {
                            panes: opened.panes.set_pinned(at.preferred_pane.value, true),
                            ..opened
                        }).record(limits.history, at),
                        None,
                    ),
                ),
            },
        }
    }

    #[verifier::opaque]
    pub open spec fn close(self, owner: ArenaOwnerId, pane: DeskPaneId) -> Result<
        (DeskStateModel, Option<u64>),
        DeskError,
    > {
        match self.location(owner, pane) {
            Err(e) => Err(e),
            Ok(_) => Ok((self.without_pane(pane.value), None)),
        }
    }

    /// The pane that backing out closes leaves.
    #[verifier::opaque]
    pub open spec fn escape(self) -> Result<(DeskStateModel, Option<u64>), DeskError> {
        match self.panes.closing() {
            None => Err(DeskError::NoActivePane),
            Some(id) => Ok((self.without_pane(id), None)),
        }
    }

    /// A bookmarked place is shown again, which is a visit.
    #[verifier::opaque]
    pub open spec fn recall(self, owner: ArenaOwnerId, limits: DeskLimits, id: u64) -> Result<
        (DeskStateModel, Option<u64>),
        DeskError,
    > {
        match bookmark_from(self.bookmarks, id, 0) {
            None => Err(DeskError::MissingBookmark),
            Some(k) => match self.visit(owner, limits, self.bookmarks[k].location, false) {
                Err(e) => Err(e),
                Ok((next, _)) => Ok((next, None)),
            },
        }
    }

    #[verifier::opaque]
    pub open spec fn forget(self, id: u64) -> Result<(DeskStateModel, Option<u64>), DeskError> {
        match bookmark_from(self.bookmarks, id, 0) {
            None => Err(DeskError::MissingBookmark),
            Some(k) => Ok((DeskStateModel { bookmarks: self.bookmarks.remove(k), ..self }, None)),
        }
    }

    /// A pane gets a place and a size on screen.
    #[verifier::opaque]
    pub open spec fn arrange(
        self,
        owner: ArenaOwnerId,
        pane: DeskPaneId,
        position: Point,
        size: Point,
    ) -> Result<(DeskStateModel, Option<u64>), DeskError> {
        match self.location(owner, pane) {
            Err(e) => Err(e),
            Ok(_) => if DeskStateModel::layout_valid(position, size) {
                Ok(
                    (
                        DeskStateModel {
                            panes: self.panes.with_pane(
                                pane.value,
                                ReadingPane { position, size, ..self.panes.pane(pane.value)->0 },
                            ),
                            ..self
                        },
                        None,
                    ),
                )
            } else {
                Err(DeskError::InvalidLocation)
            },
        }
    }

    /// A scroll moves the viewport, and the current visit with it when it
    /// belongs to the scrolled pane.
    #[verifier::opaque]
    pub open spec fn scroll(self, owner: ArenaOwnerId, pane: DeskPaneId, offset: u64) -> Result<
        (DeskStateModel, Option<u64>),
        DeskError,
    > {
        match self.location(owner, pane) {
            Err(e) => Err(e),
            Ok(at) => match self.source(at.file, at.revision) {
                None => Err(DeskError::MissingSource),
                Some(capture) => if !location_valid(capture.bytes, offset, at.selection) {
                    Err(DeskError::InvalidLocation)
                } else {
                    match self.set_offset(pane.value, offset) {
                        None => Err(DeskError::MissingPane),
                        Some(moved) => Ok(
                            (
                                match self.cursor {
                                    Some(i) if self.history[i as int].preferred_pane == pane => {
                                        DeskStateModel {
                                            history: self.history.update(
                                                i as int,
                                                DeskLocation { offset, ..at },
                                            ),
                                            ..moved
                                        }
                                    },
                                    _ => moved,
                                },
                                None,
                            ),
                        ),
                    }
                },
            },
        }
    }

    /// A recorded visit is shown again and becomes the current one.
    #[verifier::opaque]
    pub open spec fn revisit(
        self,
        owner: ArenaOwnerId,
        limits: DeskLimits,
        target: Option<usize>,
    ) -> Result<(DeskStateModel, Option<u64>), DeskError> {
        match target {
            None => Err(DeskError::EmptyHistory),
            Some(i) => match self.open_location(owner, limits, self.history[i as int], false) {
                Err(e) => Err(e),
                Ok((opened, at)) => Ok(
                    (
                        DeskStateModel {
                            history: opened.history.update(i as int, at),
                            cursor: Some(i),
                            ..opened
                        },
                        None,
                    ),
                ),
            },
        }
    }

    #[verifier::opaque]
    pub open spec fn bookmark(
        self,
        owner: ArenaOwnerId,
        limits: DeskLimits,
        pane: DeskPaneId,
        label: Seq<char>,
    ) -> Result<(DeskStateModel, Option<u64>), DeskError> {
        let id = self.next_bookmark;
        match self.location(owner, pane) {
            Err(e) => Err(e),
            Ok(location) => if label.len() == 0 || text_len(label) > MAX_BOOKMARK_LABEL_BYTES {
                Err(DeskError::InvalidLabel)
            } else if self.bookmarks.len() == limits.bookmarks {
                Err(DeskError::BookmarkLimit)
            } else if id == u64::MAX {
                Err(DeskError::IdentityExhausted)
            } else {
                Ok(
                    (
                        DeskStateModel {
                            bookmarks: self.bookmarks.push(DeskBookmark { id, label, location }),
                            next_bookmark: (id + 1) as u64,
                            ..self
                        },
                        Some(id),
                    ),
                )
            },
        }
    }

    #[verifier::opaque]
    pub open spec fn clear_history(self, owner: ArenaOwnerId, limits: DeskLimits) -> Result<
        (DeskStateModel, Option<u64>),
        DeskError,
    > {
        let cleared = DeskStateModel { history: Seq::empty(), cursor: None, ..self };
        match self.panes.active {
            None => Ok((cleared, None)),
            Some(value) => match self.location(owner, DeskPaneId { owner, value }) {
                Err(e) => Err(e),
                Ok(at) => Ok((cleared.record(limits.history, at), None)),
            },
        }
    }
}

/// Everything a desk shows and keeps.
pub struct DeskState {
    pub revision: u64,
    pub panes: ReadingPaneManager,
    pub offsets: Vec<(u64, u64)>,
    pub sources: Vec<Arc<RetainedSource>>,
    pub history: Vec<DeskLocation>,
    pub cursor: Option<usize>,
    pub bookmarks: Vec<DeskBookmark>,
    pub next_bookmark: u64,
}

impl View for DeskState {
    type V = DeskStateModel;

    open spec fn view(&self) -> DeskStateModel {
        DeskStateModel {
            revision: self.revision,
            panes: self.panes@,
            offsets: self.offsets@,
            sources: shared_views(self.sources@),
            history: self.history@,
            cursor: self.cursor,
            bookmarks: views(self.bookmarks@),
            next_bookmark: self.next_bookmark,
        }
    }
}

fn same_pane(a: DeskPaneId, b: DeskPaneId) -> (r: bool)
    ensures
        r == (a == b),
{
    a == b
}

fn same_location(a: DeskLocation, b: DeskLocation) -> (r: bool)
    ensures
        r == (a == b),
{
    let same_selection = match (a.selection, b.selection) {
        (Some(x), Some(y)) => x == y,
        (None, None) => true,
        _ => false,
    };
    a.file == b.file && a.revision == b.revision && a.offset == b.offset && same_selection
        && a.preferred_pane == b.preferred_pane
}

fn is_revision(shown: Option<SourceRevision>, revision: SourceRevision) -> (r: bool)
    ensures
        r == (shown == Some(revision)),
{
    match shown {
        Some(x) => x == revision,
        None => false,
    }
}

/// Whether a position and a selection lie within the captured bytes.
pub fn validate_location(bytes: &Vec<u8>, offset: u64, selection: Option<ByteRange>) -> (r: bool)
    ensures
        r == location_valid(bytes@, offset, selection),
{
    let length: u64 = bytes.len() as u64;
    offset <= length && match selection {
        Some(range) => range.end <= length,
        None => true,
    }
}

pub(crate) fn usize_bounds(selection: Option<ByteRange>) -> (r: Result<
    Option<(usize, usize)>,
    DeskError,
>)
    ensures
        r == selection_bounds(selection),
{
    match selection {
        None => Ok(None),
        Some(range) => if range.start > usize::MAX as u64 || range.end > usize::MAX as u64 {
            Err(DeskError::InvalidLocation)
        } else {
            Ok(Some((range.start as usize, range.end as usize)))
        },
    }
}

impl DeskState {
    /// A state that shows and keeps nothing.
    pub fn empty() -> (r: Self)
        ensures
            r@ == DeskStateModel::fresh(),
    {
        let r = DeskState {
            revision: 0,
            panes: ReadingPaneManager::new(),
            offsets: Vec::new(),
            sources: Vec::new(),
            history: Vec::new(),
            cursor: None,
            bookmarks: Vec::new(),
            next_bookmark: 1,
        };
        assert(r@.sources =~= Seq::empty());
        assert(r@.bookmarks =~= Seq::empty());
        r
    }

    /// A copy that shares the captured bytes.
    pub fn fork(&self) -> (r: Self)
        ensures
            r@ == self@,
    {
        let mut offsets: Vec<(u64, u64)> = Vec::new();
        let mut i: usize = 0;
        while i < self.offsets.len()
            invariant
                i <= self.offsets.len(),
                offsets@ == self.offsets@.subrange(0, i as int),
            decreases self.offsets.len() - i,
        {
            offsets.push(self.offsets[i]);
            i = i + 1;
            assert(offsets@ =~= self.offsets@.subrange(0, i as int));
        }
        assert(offsets@ =~= self.offsets@);
        let mut sources: Vec<Arc<RetainedSource>> = Vec::new();
        i = 0;
        while i < self.sources.len()
            invariant
                i <= self.sources.len(),
                sources@ == self.sources@.subrange(0, i as int),
            decreases self.sources.len() - i,
        {
            sources.push(share(&self.sources[i]));
            i = i + 1;
            assert(sources@ =~= self.sources@.subrange(0, i as int));
        }
        assert(sources@ =~= self.sources@);
        let mut history: Vec<DeskLocation> = Vec::new();
        i = 0;
        while i < self.history.len()
            invariant
                i <= self.history.len(),
                history@ == self.history@.subrange(0, i as int),
            decreases self.history.len() - i,
        {
            history.push(self.history[i]);
            i = i + 1;
            assert(history@ =~= self.history@.subrange(0, i as int));
        }
        assert(history@ =~= self.history@);
        let mut bookmarks: Vec<DeskBookmark> = Vec::new();
        i = 0;
        while i < self.bookmarks.len()
            invariant
                i <= self.bookmarks.len(),
                bookmarks@ == self.bookmarks@.subrange(0, i as int),
            decreases self.bookmarks.len() - i,
        {
            bookmarks.push(self.bookmarks[i].clone());
            i = i + 1;
            assert(bookmarks@ =~= self.bookmarks@.subrange(0, i as int));
        }
        assert(bookmarks@ =~= self.bookmarks@);
        DeskState {
            revision: self.revision,
            panes: self.panes.clone(),
            offsets,
            sources,
            history,
            cursor: self.cursor,
            bookmarks,
            next_bookmark: self.next_bookmark,
        }
    }

    /// Position of the retained capture of a revision.
    pub fn source_index(&self, file: FileId, revision: SourceRevision) -> (r: Option<usize>)
        ensures
            r is Some <==> source_from(self@.sources, file, revision, 0) is Some,
            r matches Some(i) ==> Some(i as int) == source_from(self@.sources, file, revision, 0)
                && i < self.sources.len() && self@.sources[i as int].capture.file == file
                && self@.sources[i as int].capture.revision == revision,
    {
        let mut i: usize = 0;
        while i < self.sources.len()
            invariant
                i <= self.sources.len(),
                source_from(self@.sources, file, revision, 0) == source_from(
                    self@.sources,
                    file,
                    revision,
                    i as int,
                ),
            decreases self.sources.len() - i,
        {
            let source = &self.sources[i];
            assert(self@.sources[i as int] == source@);
            if source.capture.file == file && source.capture.revision == revision {
                return Some(i);
            }
            i = i + 1;
        }
        None
    }

    /// The retained capture of a revision.
    pub fn source(&self, file: FileId, revision: SourceRevision) -> (r: Result<
        &SourceCapture,
        DeskError,
    >)
        ensures
            match r {
                Ok(capture) => self@.source(file, revision) == Some(capture@),
                Err(e) => e == DeskError::MissingSource && self@.source(file, revision) is None,
            },
    {
        match self.source_index(file, revision) {
            Some(i) => Ok(&self.sources[i].capture),
            None => Err(DeskError::MissingSource),
        }
    }

    fn offset_index(&self, pane: u64) -> (r: Option<usize>)
        ensures
            r is Some <==> offset_from(self.offsets@, pane, 0) is Some,
            r matches Some(k) ==> Some(k as int) == offset_from(self.offsets@, pane, 0) && k
                < self.offsets.len() && self.offsets@[k as int].0 == pane,
    {
        let mut i: usize = 0;
        while i < self.offsets.len()
            invariant
                i <= self.offsets.len(),
                offset_from(self.offsets@, pane, 0) == offset_from(self.offsets@, pane, i as int),
            decreases self.offsets.len() - i,
        {
            if self.offsets[i].0 == pane {
                return Some(i);
            }
            i = i + 1;
        }
        None
    }

    fn bookmark_index(&self, id: u64) -> (r: Option<usize>)
        ensures
            r is Some <==> bookmark_from(self@.bookmarks, id, 0) is Some,
            r matches Some(k) ==> Some(k as int) == bookmark_from(self@.bookmarks, id, 0) && k
                < self.bookmarks.len(),
    {
        let mut i: usize = 0;
        while i < self.bookmarks.len()
            invariant
                i <= self.bookmarks.len(),
                bookmark_from(self@.bookmarks, id, 0) == bookmark_from(
                    self@.bookmarks,
                    id,
                    i as int,
                ),
            decreases self.bookmarks.len() - i,
        {
            if self.bookmarks[i].id == id {
                return Some(i);
            }
            i = i + 1;
        }
        None
    }

    /// Where a pane stands.
    pub fn location(&self, owner: ArenaOwnerId, id: DeskPaneId) -> (r: Result<
        DeskLocation,
        DeskError,
    >)
        ensures
            r == self@.location(owner, id),
    {
        if id.owner != owner {
            return Err(DeskError::OwnerMismatch);
        }
        let pane = match self.panes.get_pane(id.value) {
            Some(pane) => pane,
            None => {
                return Err(DeskError::MissingPane);
            },
        };
        let k: usize = match self.offset_index(id.value) {
            Some(k) => k,
            None => {
                return Err(DeskError::MissingPane);
            },
        };
        let selection: Option<ByteRange> = match pane.selection {
            Some((start, end)) => if start > end {
                return Err(DeskError::InvalidLocation);
            } else {
                Some(ByteRange { start: start as u64, end: end as u64 })
            },
            None => None,
        };
        match pane.revision {
            None => Err(DeskError::MissingSource),
            Some(revision) => Ok(
                DeskLocation {
                    file: pane.file_id,
                    revision,
                    offset: self.offsets[k].1,
                    selection,
                    preferred_pane: id,
                },
            ),
        }
    }

    fn set_offset(&mut self, pane: u64, offset: u64) -> (r: Result<(), DeskError>)
        ensures
            match r {
                Ok(()) => old(self)@.set_offset(pane, offset) == Some(final(self)@),
                Err(e) => e == DeskError::MissingPane && old(self)@.set_offset(pane, offset) is None
                    && final(self)@ == old(self)@,
            },
    {
        match self.offset_index(pane) {
            Some(k) => {
                self.offsets.set(k, (pane, offset));
                Ok(())
            },
            None => Err(DeskError::MissingPane),
        }
    }

    fn preferred(&self, at: DeskLocation) -> (r: Option<u64>)
        ensures
            r == self@.preferred(at),
    {
        if let Some(pane) = self.panes.get_pane(at.preferred_pane.value) {
            if !pane.is_pinned || (pane.file_id == at.file && is_revision(
                pane.revision,
                at.revision,
            )) {
                return Some(pane.id);
            }
        }
        if let Some(pane) = self.panes.active_pane() {
            if !pane.is_pinned {
                return Some(pane.id);
            }
        }
        self.panes.first_unpinned_id()
    }

    fn new_pane(&mut self, limits: DeskLimits, at: DeskLocation) -> (r: Result<u64, DeskError>)
        ensures
            match old(self)@.new_pane(limits, at) {
                Ok((next, id)) => r == Ok::<u64, DeskError>(id) && final(self)@ == next,
                Err(e) => r == Err::<u64, DeskError>(e) && final(self)@ == old(self)@,
            },
    {
        if self.panes.len() == limits.panes {
            return Err(DeskError::PaneLimit);
        }
        let id: u64 = self.panes.next_id();
        if id == 0 || id == u64::MAX {
            return Err(DeskError::IdentityExhausted);
        }
        let position = stagger(self.panes.len());
        self.panes.push_pane(ReadingPane::new(id, at.file, String::new(), position));
        self.offsets.push((id, at.offset));
        Ok(id)
    }

    fn place(
        &mut self,
        owner: ArenaOwnerId,
        id: u64,
        at: DeskLocation,
        path: String,
        selection: Option<(usize, usize)>,
    ) -> (r: Result<DeskLocation, DeskError>)
        ensures
            match old(self)@.place(owner, id, at, path@, selection) {
                Ok((next, place)) => r == Ok::<DeskLocation, DeskError>(place) && final(self)@
                    == next,
                Err(e) => r == Err::<DeskLocation, DeskError>(e),
            },
    {
        let ghost label = path@;
        match self.panes.get_pane_mut(id) {
            Some(pane) => {
                pane.file_id = at.file;
                pane.revision = Some(at.revision);
                pane.path = path;
                pane.selection = selection;
                // Derived by the exact reader, never guessed.
                pane.target_line = None;
                pane.scroll_offset = (Scalar::zero(), Scalar::zero());
            },
            None => {
                return Err(DeskError::MissingPane);
            },
        }
        match self.set_offset(id, at.offset) {
            Ok(()) => {},
            Err(e) => {
                return Err(e);
            },
        }
        self.panes.set_active_pane_id(Some(id));
        Ok(DeskLocation { preferred_pane: DeskPaneId { owner, value: id }, ..at })
    }

    /// Shows a location; on failure the state is of no further use.
    pub fn open_location(
        &mut self,
        owner: ArenaOwnerId,
        limits: DeskLimits,
        at: DeskLocation,
        duplicate: bool,
    ) -> (r: Result<DeskLocation, DeskError>)
        ensures
            match old(self)@.open_location(owner, limits, at, duplicate) {
                Ok((next, place)) => r == Ok::<DeskLocation, DeskError>(place) && final(self)@
                    == next,
                Err(e) => r == Err::<DeskLocation, DeskError>(e),
            },
    {
        let path: String = match self.source(at.file, at.revision) {
            Ok(capture) => {
                if !validate_location(&capture.bytes, at.offset, at.selection) {
                    return Err(DeskError::InvalidLocation);
                }
                capture.logical_path.clone()
            },
            Err(e) => {
                return Err(e);
            },
        };
        let selection: Option<(usize, usize)> = match usize_bounds(at.selection) {
            Ok(selection) => selection,
            Err(e) => {
                return Err(e);
            },
        };
        let preferred: Option<u64> = if duplicate {
            None
        } else {
            self.preferred(at)
        };
        let id: u64 = match preferred {
            Some(id) => id,
            None => match self.new_pane(limits, at) {
                Ok(id) => id,
                Err(e) => {
                    return Err(e);
                },
            },
        };
        self.place(owner, id, at, path, selection)
    }

    /// Records a visit.
    pub fn record(&mut self, limit: usize, at: DeskLocation)
        requires
            old(self)@.cursor_valid(),
            limit > 0,
        ensures
            final(self)@ == old(self)@.record(limit, at),
            final(self)@.cursor_valid(),
    {
        if let Some(i) = self.cursor {
            if same_location(self.history[i], at) {
                return;
            }
            assert(i < self.history.len());
            self.history.truncate(i + 1);
            assert(self.history@ =~= old(self).history@.subrange(0, i + 1));
        }
        if self.history.len() == limit {
            self.history.remove(0);
        }
        self.history.push(at);
        self.cursor = Some(self.history.len() - 1);
    }

    fn drop_offsets(&mut self, pane: u64)
        ensures
            final(self)@ == (DeskStateModel {
                offsets: offsets_without(old(self)@.offsets, pane, 0),
                ..old(self)@
            }),
    {
        let mut kept: Vec<(u64, u64)> = Vec::new();
        let mut i: usize = 0;
        while i < self.offsets.len()
            invariant
                i <= self.offsets.len(),
                *self == *old(self),
                kept@ + offsets_without(self.offsets@, pane, i as int) == offsets_without(
                    self.offsets@,
                    pane,
                    0,
                ),
            decreases self.offsets.len() - i,
        {
            let ghost before = kept@;
            if self.offsets[i].0 != pane {
                kept.push(self.offsets[i]);
                assert(kept@ + offsets_without(self.offsets@, pane, i + 1) =~= before
                    + offsets_without(self.offsets@, pane, i as int));
            }
            i = i + 1;
        }
        assert(kept@ =~= offsets_without(self.offsets@, pane, 0));
        self.offsets = kept;
    }

    fn is_referenced(&self, file: FileId, revision: SourceRevision) -> (r: bool)
        ensures
            r == self@.referenced(file, revision),
    {
        let panes = self.panes.iter();
        let mut i: usize = 0;
        while i < panes.len()
            invariant
                i <= panes.len(),
                views(panes@) == self@.panes.panes,
                forall|j: int|
                    0 <= j < i ==> !(#[trigger] self@.panes.panes[j].file_id == file
                        && self@.panes.panes[j].revision == Some(revision)),
            decreases panes.len() - i,
        {
            assert(self@.panes.panes[i as int] == panes@[i as int]@);
            if panes[i].file_id == file && is_revision(panes[i].revision, revision) {
                assert(self@.panes.panes[i as int].file_id == file);
                assert(self@.shown(file, revision));
                return true;
            }
            i = i + 1;
        }
        i = 0;
        while i < self.history.len()
            invariant
                i <= self.history.len(),
                forall|j: int|
                    0 <= j < i ==> !(#[trigger] self@.history[j].file == file
                        && self@.history[j].revision == revision),
            decreases self.history.len() - i,
        {
            if self.history[i].file == file && self.history[i].revision == revision {
                assert(self@.history[i as int].file == file);
                assert(self@.visited(file, revision));
                return true;
            }
            i = i + 1;
        }
        i = 0;
        while i < self.bookmarks.len()
            invariant
                i <= self.bookmarks.len(),
                forall|j: int|
                    0 <= j < i ==> !(#[trigger] self@.bookmarks[j].location.file == file
                        && self@.bookmarks[j].location.revision == revision),
            decreases self.bookmarks.len() - i,
        {
            assert(self@.bookmarks[i as int] == self.bookmarks@[i as int]@);
            if self.bookmarks[i].location.file == file && self.bookmarks[i].location.revision
                == revision {
                assert(self@.bookmarks[i as int].location.file == file);
                assert(self@.marked(file, revision));
                return true;
            }
            i = i + 1;
        }
        false
    }

    /// Lets go of the captures that nothing needs. Captures of closed panes stay
    /// while history or a bookmark still needs them.
    pub fn retire(&mut self)
        ensures
            final(self)@ == old(self)@.retire(),
    {
        let mut kept: Vec<Arc<RetainedSource>> = Vec::new();
        let mut i: usize = 0;
        let ghost all = self@;
        assert(shared_views(kept@) + all.needed_from(0) =~= all.needed_from(0));
        while i < self.sources.len()
            invariant
                i <= self.sources.len(),
                *self == *old(self),
                all == self@,
                shared_views(kept@) + all.needed_from(i as int) == all.needed_from(0),
            decreases self.sources.len() - i,
        {
            let source = &self.sources[i];
            assert(all.sources[i as int] == source@);
            let ghost before = kept@;
            if self.is_referenced(source.capture.file, source.capture.revision) {
                kept.push(share(source));
                assert(shared_views(kept@) =~= shared_views(before).push(source@));
                assert(shared_views(kept@) + all.needed_from(i + 1) =~= shared_views(before)
                    + all.needed_from(i as int));
            }
            i = i + 1;
        }
        assert(shared_views(kept@) =~= all.needed_from(0));
        self.sources = kept;
    }

    fn close(
        &mut self,
        owner: ArenaOwnerId,
        pane: DeskPaneId,
    ) -> (r: Result<Option<u64>, DeskError>)
        requires
            old(self)@.cursor_valid(),
        ensures
            match old(self)@.close(owner, pane) {
                Ok((next, created)) => r == Ok::<Option<u64>, DeskError>(created) && final(self)@
                    == next && next.cursor_valid(),
                Err(e) => r == Err::<Option<u64>, DeskError>(e),
            },
    {
        proof {
            reveal(DeskStateModel::close);
        }
        match self.location(owner, pane) {
            Ok(_) => {
                let _ = self.panes.close_pane(pane.value);
                self.drop_offsets(pane.value);
                Ok(None)
            },
            Err(e) => Err(e),
        }
    }

    fn escape(
        &mut self,
    ) -> (r: Result<Option<u64>, DeskError>)
        requires
            old(self)@.cursor_valid(),
        ensures
            match old(self)@.escape() {
                Ok((next, created)) => r == Ok::<Option<u64>, DeskError>(created) && final(self)@
                    == next && next.cursor_valid(),
                Err(e) => r == Err::<Option<u64>, DeskError>(e),
            },
    {
        proof {
            reveal(DeskStateModel::escape);
        }
        match self.panes.close_active_or_top_unpinned() {
            Some(id) => {
                self.drop_offsets(id);
                Ok(None)
            },
            None => Err(DeskError::NoActivePane),
        }
    }

    fn focus(
        &mut self,
        owner: ArenaOwnerId,
        limits: DeskLimits,
        pane: DeskPaneId,
    ) -> (r: Result<Option<u64>, DeskError>)
        requires
            old(self)@.cursor_valid(),
            limits.history > 0,
        ensures
            match old(self)@.focus(owner, limits, pane) {
                Ok((next, created)) => r == Ok::<Option<u64>, DeskError>(created) && final(self)@
                    == next && next.cursor_valid(),
                Err(e) => r == Err::<Option<u64>, DeskError>(e),
            },
    {
        proof {
            reveal(DeskStateModel::focus);
        }
        match self.location(owner, pane) {
            Ok(at) => {
                self.panes.set_active_pane_id(Some(pane.value));
                self.record(limits.history, at);
                Ok(None)
            },
            Err(e) => Err(e),
        }
    }

    fn navigate(
        &mut self,
        owner: ArenaOwnerId,
        limits: DeskLimits,
        pane: DeskPaneId,
        offset: u64,
        selection: Option<ByteRange>,
    ) -> (r: Result<Option<u64>, DeskError>)
        requires
            old(self)@.cursor_valid(),
            limits.history > 0,
        ensures
            match old(self)@.navigate(owner, limits, pane, offset, selection) {
                Ok((next, created)) => r == Ok::<Option<u64>, DeskError>(created) && final(self)@
                    == next && next.cursor_valid(),
                Err(e) => r == Err::<Option<u64>, DeskError>(e),
            },
    {
        proof {
            reveal(DeskStateModel::navigate);
        }
        match self.location(owner, pane) {
            Ok(at) => match self.visit(owner, limits, DeskLocation { offset, selection, ..at }) {
                Ok(()) => Ok(None),
                Err(e) => Err(e),
            },
            Err(e) => Err(e),
        }
    }

    fn scroll(
        &mut self,
        owner: ArenaOwnerId,
        pane: DeskPaneId,
        offset: u64,
    ) -> (r: Result<Option<u64>, DeskError>)
        requires
            old(self)@.cursor_valid(),
        ensures
            match old(self)@.scroll(owner, pane, offset) {
                Ok((next, created)) => r == Ok::<Option<u64>, DeskError>(created) && final(self)@
                    == next && next.cursor_valid(),
                Err(e) => r == Err::<Option<u64>, DeskError>(e),
            },
    {
        proof {
            reveal(DeskStateModel::scroll);
        }
        let at: DeskLocation = match self.location(owner, pane) {
            Ok(at) => at,
            Err(e) => {
                return Err(e);
            },
        };
        match self.source(at.file, at.revision) {
            Ok(capture) => {
                if !validate_location(&capture.bytes, offset, at.selection) {
                    return Err(DeskError::InvalidLocation);
                }
            },
            Err(e) => {
                return Err(e);
            },
        }
        match self.set_offset(pane.value, offset) {
            Ok(()) => {},
            Err(e) => {
                return Err(e);
            },
        }
        if let Some(i) = self.cursor {
            if same_pane(self.history[i].preferred_pane, pane) {
                self.history.set(i, DeskLocation { offset, ..at });
            }
        }
        Ok(None)
    }

    fn pin(
        &mut self,
        owner: ArenaOwnerId,
        pane: DeskPaneId,
        pinned: bool,
    ) -> (r: Result<Option<u64>, DeskError>)
        requires
            old(self)@.cursor_valid(),
        ensures
            match old(self)@.pin(owner, pane, pinned) {
                Ok((next, created)) => r == Ok::<Option<u64>, DeskError>(created) && final(self)@
                    == next && next.cursor_valid(),
                Err(e) => r == Err::<Option<u64>, DeskError>(e),
            },
    {
        proof {
            reveal(DeskStateModel::pin);
        }
        match self.location(owner, pane) {
            Ok(_) => {
                let _ = if pinned {
                    self.panes.pin_pane(pane.value)
                } else {
                    self.panes.unpin_pane(pane.value)
                };
                Ok(None)
            },
            Err(e) => Err(e),
        }
    }

    fn duplicate(
        &mut self,
        owner: ArenaOwnerId,
        limits: DeskLimits,
        pane: DeskPaneId,
    ) -> (r: Result<Option<u64>, DeskError>)
        requires
            old(self)@.cursor_valid(),
            limits.history > 0,
        ensures
            match old(self)@.duplicate(owner, limits, pane) {
                Ok((next, created)) => r == Ok::<Option<u64>, DeskError>(created) && final(self)@
                    == next && next.cursor_valid(),
                Err(e) => r == Err::<Option<u64>, DeskError>(e),
            },
    {
        proof {
            reveal(DeskStateModel::duplicate);
        }
        match self.location(owner, pane) {
            Ok(at) => match self.open_location(owner, limits, at, true) {
                Ok(place) => {
                    let _ = self.panes.pin_pane(place.preferred_pane.value);
                    self.record(limits.history, place);
                    Ok(None)
                },
                Err(e) => Err(e),
            },
            Err(e) => Err(e),
        }
    }

    fn revisit(
        &mut self,
        owner: ArenaOwnerId,
        limits: DeskLimits,
        target: Option<usize>,
    ) -> (r: Result<Option<u64>, DeskError>)
        requires
            old(self)@.cursor_valid(),
            target matches Some(i) ==> i < old(self)@.history.len(),
        ensures
            match old(self)@.revisit(owner, limits, target) {
                Ok((next, created)) => r == Ok::<Option<u64>, DeskError>(created) && final(self)@
                    == next && next.cursor_valid(),
                Err(e) => r == Err::<Option<u64>, DeskError>(e),
            },
    {
        proof {
            reveal(DeskStateModel::revisit);
        }
        let i: usize = match target {
            Some(i) => i,
            None => {
                return Err(DeskError::EmptyHistory);
            },
        };
        let at: DeskLocation = self.history[i];
        match self.open_location(owner, limits, at, false) {
            Ok(place) => {
                self.history.set(i, place);
                self.cursor = Some(i);
                Ok(None)
            },
            Err(e) => Err(e),
        }
    }

    fn bookmark(
        &mut self,
        owner: ArenaOwnerId,
        limits: DeskLimits,
        pane: DeskPaneId,
        label: String,
    ) -> (r: Result<Option<u64>, DeskError>)
        requires
            old(self)@.cursor_valid(),
        ensures
            match old(self)@.bookmark(owner, limits, pane, label@) {
                Ok((next, created)) => r == Ok::<Option<u64>, DeskError>(created) && final(self)@
                    == next && next.cursor_valid(),
                Err(e) => r == Err::<Option<u64>, DeskError>(e),
            },
    {
        proof {
            reveal(DeskStateModel::bookmark);
        }
        let location: DeskLocation = match self.location(owner, pane) {
            Ok(at) => at,
            Err(e) => {
                return Err(e);
            },
        };
        if label.as_str().is_empty() || byte_len(&label) > MAX_BOOKMARK_LABEL_BYTES {
            return Err(DeskError::InvalidLabel);
        }
        if self.bookmarks.len() == limits.bookmarks {
            return Err(DeskError::BookmarkLimit);
        }
        let id: u64 = self.next_bookmark;
        if id == u64::MAX {
            return Err(DeskError::IdentityExhausted);
        }
        self.next_bookmark = id + 1;
        self.bookmarks.push(DeskBookmark { id, label, location });
        Ok(Some(id))
    }

    fn recall(
        &mut self,
        owner: ArenaOwnerId,
        limits: DeskLimits,
        id: u64,
    ) -> (r: Result<Option<u64>, DeskError>)
        requires
            old(self)@.cursor_valid(),
            limits.history > 0,
        ensures
            match old(self)@.recall(owner, limits, id) {
                Ok((next, created)) => r == Ok::<Option<u64>, DeskError>(created) && final(self)@
                    == next && next.cursor_valid(),
                Err(e) => r == Err::<Option<u64>, DeskError>(e),
            },
    {
        proof {
            reveal(DeskStateModel::recall);
        }
        match self.bookmark_index(id) {
            Some(k) => {
                let at: DeskLocation = self.bookmarks[k].location;
                match self.visit(owner, limits, at) {
                    Ok(()) => Ok(None),
                    Err(e) => Err(e),
                }
            },
            None => Err(DeskError::MissingBookmark),
        }
    }

    fn forget(
        &mut self,
        id: u64,
    ) -> (r: Result<Option<u64>, DeskError>)
        requires
            old(self)@.cursor_valid(),
        ensures
            match old(self)@.forget(id) {
                Ok((next, created)) => r == Ok::<Option<u64>, DeskError>(created) && final(self)@
                    == next && next.cursor_valid(),
                Err(e) => r == Err::<Option<u64>, DeskError>(e),
            },
    {
        proof {
            reveal(DeskStateModel::forget);
        }
        match self.bookmark_index(id) {
            Some(k) => {
                let _ = self.bookmarks.remove(k);
                Ok(None)
            },
            None => Err(DeskError::MissingBookmark),
        }
    }

    fn clear_history(
        &mut self,
        owner: ArenaOwnerId,
        limits: DeskLimits,
    ) -> (r: Result<Option<u64>, DeskError>)
        requires
            old(self)@.cursor_valid(),
            limits.history > 0,
        ensures
            match old(self)@.clear_history(owner, limits) {
                Ok((next, created)) => r == Ok::<Option<u64>, DeskError>(created) && final(self)@
                    == next && next.cursor_valid(),
                Err(e) => r == Err::<Option<u64>, DeskError>(e),
            },
    {
        proof {
            reveal(DeskStateModel::clear_history);
        }
        self.history.clear();
        self.cursor = None;
        if let Some(value) = self.panes.active_pane_id() {
            match self.location(owner, DeskPaneId { owner, value }) {
                Ok(at) => self.record(limits.history, at),
                Err(e) => {
                    return Err(e);
                },
            }
        }
        Ok(None)
    }

    fn arrange(
        &mut self,
        owner: ArenaOwnerId,
        pane: DeskPaneId,
        position: Point,
        size: Point,
    ) -> (r: Result<Option<u64>, DeskError>)
        requires
            old(self)@.cursor_valid(),
        ensures
            match old(self)@.arrange(owner, pane, position, size) {
                Ok((next, created)) => r == Ok::<Option<u64>, DeskError>(created) && final(self)@
                    == next && next.cursor_valid(),
                Err(e) => r == Err::<Option<u64>, DeskError>(e),
            },
    {
        proof {
            reveal(DeskStateModel::arrange);
        }
        match self.location(owner, pane) {
            Ok(_) => {},
            Err(e) => {
                return Err(e);
            },
        }
        let zero = Scalar::zero();
        if !position.0.is_finite() || !position.1.is_finite() || !size.0.is_finite()
            || !size.1.is_finite() || position.0.less(zero) || position.1.less(zero)
            || !zero.less(size.0) || !zero.less(size.1) {
            return Err(DeskError::InvalidLocation);
        }
        match self.panes.get_pane_mut(pane.value) {
            Some(target) => {
                target.position = position;
                target.size = size;
                Ok(None)
            },
            None => Err(DeskError::MissingPane),
        }
    }

    fn visit(&mut self, owner: ArenaOwnerId, limits: DeskLimits, at: DeskLocation) -> (r: Result<
        (),
        DeskError,
    >)
        requires
            old(self)@.cursor_valid(),
            limits.history > 0,
        ensures
            match old(self)@.visit(owner, limits, at, false) {
                Ok((next, _)) => r is Ok && final(self)@ == next && next.cursor_valid(),
                Err(e) => r == Err::<(), DeskError>(e),
            },
    {
        match self.open_location(owner, limits, at, false) {
            Ok(place) => {
                self.record(limits.history, place);
                Ok(())
            },
            Err(e) => Err(e),
        }
    }

    /// Carries out a command; on failure the state is of no further use.
    pub fn command(&mut self, owner: ArenaOwnerId, limits: DeskLimits, command: DeskCommand) -> (r:
        Result<Option<u64>, DeskError>)
        requires
            old(self)@.cursor_valid(),
            limits.history > 0,
        ensures
            match old(self)@.command(owner, limits, command@) {
                Ok((next, created)) => r == Ok::<Option<u64>, DeskError>(created) && final(self)@
                    == next && next.cursor_valid(),
                Err(e) => r == Err::<Option<u64>, DeskError>(e),
            },
    {
        match command {
            DeskCommand::Focus(pane) => self.focus(owner, limits, pane),
            DeskCommand::Navigate { pane, offset, selection } => self.navigate(
                owner,
                limits,
                pane,
                offset,
                selection,
            ),
            DeskCommand::Scroll { pane, offset } => self.scroll(owner, pane, offset),
            DeskCommand::Pin { pane, pinned } => self.pin(owner, pane, pinned),
            DeskCommand::Duplicate(pane) => self.duplicate(owner, limits, pane),
            DeskCommand::Close(pane) => self.close(owner, pane),
            DeskCommand::Escape => self.escape(),
            DeskCommand::Back => {
                let target: Option<usize> = match self.cursor {
                    Some(i) => if i > 0 {
                        Some(i - 1)
                    } else {
                        None
                    },
                    None => None,
                };
                self.revisit(owner, limits, target)
            },
            DeskCommand::Forward => {
                let target: Option<usize> = match self.cursor {
                    Some(i) => if i < self.history.len() - 1 {
                        Some(i + 1)
                    } else {
                        None
                    },
                    None => None,
                };
                self.revisit(owner, limits, target)
            },
            DeskCommand::Bookmark { pane, label } => self.bookmark(owner, limits, pane, label),
            DeskCommand::RecallBookmark(id) => self.recall(owner, limits, id),
            DeskCommand::ForgetBookmark(id) => self.forget(id),
            DeskCommand::ClearHistory => self.clear_history(owner, limits),
            DeskCommand::Arrange { pane, position, size } => self.arrange(
                owner,
                pane,
                position,
                size,
            ),
        }
    }
}

/// Bytes charged for the descriptors of a desk: three generations of them plus
/// room for labels.
pub open spec fn desk_charge(limits: DeskLimits) -> nat {
    3 * (limits.panes * (size_of::<ReadingPane>() + MAX_READING_PATH_BYTES + 128) + limits.sources
        * (size_of::<Arc<RetainedSource>>() + 128) + limits.history * (size_of::<DeskLocation>()
        + 32) + limits.bookmarks * (size_of::<DeskBookmark>() + MAX_BOOKMARK_LABEL_BYTES + 64))
        as nat + size_of::<ReadingDesk>() + 4096
}

/// Bytes charged for retaining a capture.
pub open spec fn retention_charge(capture: CaptureModel) -> nat {
    capture.bytes.len() + 2 * text_len(capture.logical_path) + size_of::<RetainedSource>() + 128
}

/// Bytes charged for exporting a view of a capture.
pub open spec fn view_charge(capture: CaptureModel) -> nat {
    text_len(capture.logical_path) + size_of::<DeskView>() + 128
}

/// A desk: its identity and bounds, what it shows, and the numbers it has used up.
pub ghost struct DeskModel {
    pub owner: ArenaOwnerId,
    pub limits: DeskLimits,
    pub state: DeskStateModel,
    pub last_attempt: u64,
    pub source_high_water: u64,
}

/// The larger of two numbers.
pub open spec fn larger(a: u64, b: u64) -> u64 {
    if a < b {
        b
    } else {
        a
    }
}

impl DeskModel {
    /// A desk that nothing was done with.
    pub open spec fn fresh(owner: ArenaOwnerId, limits: DeskLimits) -> DeskModel {
        DeskModel {
            owner,
            limits,
            state: DeskStateModel::fresh(),
            last_attempt: 0,
            source_high_water: 0,
        }
    }

    /// The bounds are admissible, the cursor points into the history, and the
    /// retained captures fit.
    pub open spec fn wf(self) -> bool {
        &&& self.limits.valid()
        &&& self.state.cursor_valid()
        &&& self.state.sources.len() <= self.limits.sources
        &&& source_bytes_from(self.state.sources, 0) <= self.limits.retained_bytes
    }

    /// Why a request is refused before it starts, if it is.
    pub open spec fn staleness(self, expected: u64, attempt: u64) -> Option<DeskError> {
        if expected != self.state.revision {
            Some(DeskError::StaleRevision)
        } else if attempt == 0 || attempt <= self.last_attempt {
            Some(DeskError::StaleAttempt)
        } else {
            None
        }
    }

    /// The desk with an attempt used up.
    pub open spec fn begun(self, attempt: u64) -> DeskModel {
        DeskModel { last_attempt: attempt, ..self }
    }

    /// The active pane, qualified by the desk.
    pub open spec fn active(self) -> Option<DeskPaneId> {
        match self.state.panes.active {
            Some(value) => Some(DeskPaneId { owner: self.owner, value }),
            None => None,
        }
    }

    /// The desk after a prepared state was offered: unneeded captures leave, and
    /// a cancellation keeps the old state.
    pub open spec fn publish(
        self,
        next: DeskStateModel,
        attempt: u64,
        created_bookmark: Option<u64>,
        canceled: bool,
    ) -> (DeskModel, Result<DeskChange, DeskError>) {
        if canceled {
            (self, Err(DeskError::Canceled))
        } else {
            let desk = DeskModel {
                state: DeskStateModel { revision: attempt, ..next.retire() },
                ..self
            };
            (
                desk,
                Ok(DeskChange { revision: attempt, active: desk.active(), created_bookmark }),
            )
        }
    }

    /// What a command does, given what the cancellation callback said before
    /// the work and before publication.
    pub open spec fn apply(
        self,
        expected: u64,
        attempt: u64,
        command: DeskCommand<Seq<char>>,
        canceled_first: bool,
        canceled_last: bool,
    ) -> (DeskModel, Result<DeskChange, DeskError>) {
        match self.staleness(expected, attempt) {
            Some(e) => (self, Err(e)),
            None => if canceled_first {
                (self.begun(attempt), Err(DeskError::Canceled))
            } else {
                match self.state.command(self.owner, self.limits, command) {
                    Err(e) => (self.begun(attempt), Err(e)),
                    Ok((next, created)) => self.begun(attempt).publish(
                        next,
                        attempt,
                        created,
                        canceled_last,
                    ),
                }
            },
        }
    }

    /// Why a capture cannot be opened at a place, if it cannot.
    pub open spec fn capture_refusal(
        self,
        capture: CaptureModel,
        offset: u64,
        selection: Option<ByteRange>,
    ) -> Option<DeskError> {
        if capture.owner != self.owner {
            Some(DeskError::OwnerMismatch)
        } else if !location_valid(capture.bytes, offset, selection) || text_len(
            capture.logical_path,
        ) > MAX_READING_PATH_BYTES {
            Some(DeskError::InvalidLocation)
        } else {
            None
        }
    }

    /// The desk after it has seen a capture's numbers.
    pub open spec fn seen(self, capture: CaptureModel) -> DeskModel {
        DeskModel {
            source_high_water: larger(
                larger(self.source_high_water, capture.file.value),
                capture.revision.value,
            ),
            ..self
        }
    }

    /// Why a capture that is not retained yet cannot be taken in, before memory
    /// is asked for.
    pub open spec fn intake_refusal(self, capture: CaptureModel) -> Option<DeskError> {
        let held = source_bytes_from(self.state.sources, 0);
        if self.state.sources.len() == self.limits.sources || capture.bytes.len()
            > self.limits.source_bytes {
            Some(DeskError::SourceLimit)
        } else if capture.bytes.len() + held > self.limits.retained_bytes {
            Some(DeskError::RetainedByteLimit)
        } else if retention_charge(capture) > u64::MAX {
            Some(DeskError::ResourceDenied)
        } else {
            None
        }
    }

    /// The capture's revision is retained already.
    pub open spec fn holds(self, capture: CaptureModel) -> bool {
        self.state.source(capture.file, capture.revision) is Some
    }

    /// The retained captures with this one among them.
    pub open spec fn taken_in(
        self,
        capture: CaptureModel,
        allocation: u64,
        granted: bool,
    ) -> Result<DeskStateModel, DeskError> {
        match self.state.source(capture.file, capture.revision) {
            Some(old) => if old.bytes == capture.bytes {
                Ok(self.state)
            } else {
                Err(DeskError::IdentityConflict)
            },
            None => match self.intake_refusal(capture) {
                Some(e) => Err(e),
                None => if granted {
                    Ok(
                        DeskStateModel {
                            sources: self.state.sources.push(
                                RetainedSource { capture, allocation },
                            ),
                            ..self.state
                        },
                    )
                } else {
                    Err(DeskError::ResourceDenied)
                },
            },
        }
    }

    /// The place at which a capture is opened.
    pub open spec fn entry(
        self,
        capture: CaptureModel,
        offset: u64,
        selection: Option<ByteRange>,
    ) -> DeskLocation {
        DeskLocation {
            file: capture.file,
            revision: capture.revision,
            offset,
            selection,
            preferred_pane: match self.active() {
                Some(id) => id,
                None => DeskPaneId { owner: self.owner, value: 0 },
            },
        }
    }

    /// What opening a capture does, given what the callbacks said.
    pub open spec fn open(
        self,
        expected: u64,
        attempt: u64,
        capture: CaptureModel,
        offset: u64,
        selection: Option<ByteRange>,
        allocation: u64,
        answers: OpenAnswers,
    ) -> (DeskModel, Result<DeskChange, DeskError>) {
        match self.staleness(expected, attempt) {
            Some(e) => (self, Err(e)),
            None => if answers.canceled_first {
                (self.begun(attempt), Err(DeskError::Canceled))
            } else {
                match self.capture_refusal(capture, offset, selection) {
                    Some(e) => (self.begun(attempt), Err(e)),
                    None => match self.taken_in(capture, allocation, answers.granted) {
                        Err(e) => (self.begun(attempt).seen(capture), Err(e)),
                        Ok(ready) => match ready.visit(
                            self.owner,
                            self.limits,
                            self.entry(capture, offset, selection),
                            false,
                        ) {
                            Err(e) => (self.begun(attempt).seen(capture), Err(e)),
                            Ok((next, _)) => self.begun(attempt).seen(capture).publish(
                                next,
                                attempt,
                                None,
                                answers.canceled_last,
                            ),
                        },
                    },
                }
            },
        }
    }
}

/// What the callbacks said while a capture was opened.
pub ghost struct OpenAnswers {
    pub canceled_first: bool,
    pub granted: bool,
    pub canceled_last: bool,
}

/// A retained source view with the reservations behind it. Dropping the desk
/// does not release the source while this exported view is alive.
pub struct DeskView {
    retained: Arc<RetainedSource>,
    allocation: u64,
}

impl View for DeskView {
    type V = (RetainedModel, u64);

    closed spec fn view(&self) -> (RetainedModel, u64) {
        (self.retained@, self.allocation)
    }
}

impl DeskView {
    pub fn source(&self) -> (r: &SourceCapture)
        ensures
            r@ == self@.0.capture,
    {
        &self.retained.capture
    }

    /// The reservation that the source bytes are held under.
    pub fn source_allocation(&self) -> (r: u64)
        ensures
            r == self@.0.allocation,
    {
        self.retained.allocation
    }

    /// The reservation of the view itself.
    pub fn view_allocation(&self) -> (r: u64)
        ensures
            r == self@.1,
    {
        self.allocation
    }
}

/// Construction is inert apart from explicitly admitted memory. Source
/// allocations are shared across panes/history, not copied for each view.
pub struct ReadingDesk {
    pub owner: ArenaOwnerId,
    pub limits: DeskLimits,
    pub state: DeskState,
    pub last_attempt: u64,
    /// Never reset on eviction; restored captures must not alias an older view.
    pub source_high_water: u64,
}

impl View for ReadingDesk {
    type V = DeskModel;

    open spec fn view(&self) -> DeskModel {
        DeskModel {
            owner: self.owner,
            limits: self.limits,
            state: self.state@,
            last_attempt: self.last_attempt,
            source_high_water: self.source_high_water,
        }
    }
}

impl ReadingDesk {
    pub fn new<A: FnOnce(u64) -> bool>(owner: ArenaOwnerId, limits: DeskLimits, reserve: A) -> (r:
        Result<Self, DeskError>)
        requires
            desk_charge(limits) <= u64::MAX ==> call_requires(
                reserve, (desk_charge(limits) as u64,),
            ),
        ensures
            !limits.valid() ==> (r matches Err(e) && e == DeskError::InvalidLimits),
            limits.valid() && desk_charge(limits) > u64::MAX ==> (r matches Err(e) && e
                == DeskError::ResourceDenied),
            limits.valid() && desk_charge(limits) <= u64::MAX ==> call_ensures(
                reserve,
                (desk_charge(limits) as u64,),
                r is Ok,
            ),
            match r {
                Ok(desk) => limits.valid() && desk@ == DeskModel::fresh(owner, limits)
                    && desk@.wf(),
                Err(e) => e == DeskError::InvalidLimits || e == DeskError::ResourceDenied,
            },
    {
        if limits.panes < 1 || limits.panes > MAX_DESK_PANES || limits.sources < 1
            || limits.sources > MAX_DESK_SOURCES || limits.history < 1 || limits.history
            > MAX_DESK_HISTORY || limits.bookmarks > MAX_DESK_BOOKMARKS || limits.source_bytes
            > MAX_SOURCE_BYTES || limits.retained_bytes > MAX_RETAINED_BYTES {
            return Err(DeskError::InvalidLimits);
        }
        let pane: u128 = wide_size::<ReadingPane>();
        let source: u128 = wide_size::<Arc<RetainedSource>>();
        let visit: u128 = wide_size::<DeskLocation>();
        let mark: u128 = wide_size::<DeskBookmark>();
        let panes: u128 = limits.panes as u128;
        let sources: u128 = limits.sources as u128;
        let visits: u128 = limits.history as u128;
        let marks: u128 = limits.bookmarks as u128;
        proof {
            lemma_small_product(panes as int, (pane + MAX_READING_PATH_BYTES + 128) as int);
            lemma_small_product(sources as int, (source + 128) as int);
            lemma_small_product(visits as int, (visit + 32) as int);
            lemma_small_product(marks as int, (mark + MAX_BOOKMARK_LABEL_BYTES + 64) as int);
        }
        // Three bounded descriptor generations plus allocation/label slack.
        // Captures live behind shared handles, so staging never clones bytes.
        let descriptors: u128 = panes * (pane + MAX_READING_PATH_BYTES as u128 + 128) + sources * (
        source + 128) + visits * (visit + 32) + marks * (mark + MAX_BOOKMARK_LABEL_BYTES as u128
            + 64);
        let charge: u128 = 3 * descriptors + wide_size::<ReadingDesk>() + 4096;
        assert(charge == desk_charge(limits));
        if charge > u64::MAX as u128 {
            return Err(DeskError::ResourceDenied);
        }
        if !reserve(charge as u64) {
            return Err(DeskError::ResourceDenied);
        }
        Ok(
            ReadingDesk {
                owner,
                limits,
                state: DeskState::empty(),
                last_attempt: 0,
                source_high_water: 0,
            },
        )
    }

    pub fn owner(&self) -> (r: ArenaOwnerId)
        ensures
            r == self@.owner,
    {
        self.owner
    }

    pub fn limits(&self) -> (r: DeskLimits)
        ensures
            r == self@.limits,
    {
        self.limits
    }

    pub fn revision(&self) -> (r: u64)
        ensures
            r == self@.state.revision,
    {
        self.state.revision
    }

    pub fn last_attempt(&self) -> (r: u64)
        ensures
            r == self@.last_attempt,
    {
        self.last_attempt
    }

    pub fn panes(&self) -> (r: &ReadingPaneManager)
        ensures
            r@ == self@.state.panes,
    {
        &self.state.panes
    }

    pub fn active(&self) -> (r: Option<DeskPaneId>)
        ensures
            r == self@.active(),
    {
        match self.state.panes.active_pane_id() {
            Some(value) => Some(DeskPaneId { owner: self.owner, value }),
            None => None,
        }
    }

    pub fn bookmarks(&self) -> (r: &Vec<DeskBookmark>)
        ensures
            views(r@) == self@.state.bookmarks,
    {
        &self.state.bookmarks
    }

    pub fn history(&self) -> (r: &Vec<DeskLocation>)
        ensures
            r@ == self@.state.history,
    {
        &self.state.history
    }

    pub fn history_cursor(&self) -> (r: Option<usize>)
        ensures
            r == self@.state.cursor,
    {
        self.state.cursor
    }

    pub fn can_go_back(&self) -> (r: bool)
        ensures
            r == (self@.state.cursor matches Some(i) && i > 0),
    {
        match self.state.cursor {
            Some(i) => i > 0,
            None => false,
        }
    }

    pub fn can_go_forward(&self) -> (r: bool)
        requires
            self@.wf(),
        ensures
            r == (self@.state.cursor matches Some(i) && i + 1 < self@.state.history.len()),
    {
        match self.state.cursor {
            Some(i) => i < self.state.history.len() - 1,
            None => false,
        }
    }

    pub fn retained_source_count(&self) -> (r: usize)
        ensures
            r == self@.state.sources.len(),
    {
        self.state.sources.len()
    }

    pub fn retained_source_bytes(&self) -> (r: u64)
        requires
            self@.wf(),
        ensures
            r == source_bytes_from(self@.state.sources, 0),
    {
        let ghost sources = self@.state.sources;
        let mut total: u64 = 0;
        let mut i: usize = 0;
        while i < self.state.sources.len()
            invariant
                i <= self.state.sources.len(),
                sources == self@.state.sources,
                source_bytes_from(sources, 0) <= MAX_RETAINED_BYTES,
                total + source_bytes_from(sources, i as int) == source_bytes_from(sources, 0),
            decreases self.state.sources.len() - i,
        {
            assert(sources[i as int] == self.state.sources@[i as int]@);
            total = total + self.state.sources[i].capture.bytes.len() as u64;
            i = i + 1;
        }
        total
    }

    /// Resolve a wire ordinal only within THIS desk's live model.
    pub fn pane_id(&self, ordinal: u64) -> (r: Result<DeskPaneId, DeskError>)
        ensures
            r == if self@.state.panes.pane(ordinal) is Some {
                Ok::<DeskPaneId, DeskError>(DeskPaneId { owner: self@.owner, value: ordinal })
            } else {
                Err::<DeskPaneId, DeskError>(DeskError::MissingPane)
            },
    {
        match self.state.panes.get_pane(ordinal) {
            Some(_) => Ok(DeskPaneId { owner: self.owner, value: ordinal }),
            None => Err(DeskError::MissingPane),
        }
    }

    pub fn location(&self, pane: DeskPaneId, expected: u64) -> (r: Result<DeskLocation, DeskError>)
        ensures
            r == self@.location(pane, expected),
    {
        if expected != self.state.revision {
            return Err(DeskError::StaleRevision);
        }
        self.state.location(self.owner, pane)
    }

    pub fn source(&self, pane: DeskPaneId, expected: u64) -> (r: Result<&SourceCapture, DeskError>)
        ensures
            match r {
                Ok(capture) => self@.source(pane, expected) == Ok::<CaptureModel, DeskError>(
                    capture@,
                ),
                Err(e) => self@.source(pane, expected) == Err::<CaptureModel, DeskError>(e),
            },
    {
        match self.location(pane, expected) {
            Ok(at) => self.state.source(at.file, at.revision),
            Err(e) => Err(e),
        }
    }

    /// External hosts use the ordinary reader and search APIs on this exact
    /// view. It shares bytes; its ownership can outlive this desk.
    pub fn export_view<A: FnOnce(u64) -> bool>(
        &self,
        pane: DeskPaneId,
        expected: u64,
        allocation: u64,
        reserve: A,
    ) -> (r: Result<DeskView, DeskError>)
        requires
            forall|charge: u64| call_requires(reserve, (charge,)),
        ensures
            match self@.source(pane, expected) {
                Err(e) => r matches Err(f) && f == e,
                Ok(capture) => if view_charge(capture) > u64::MAX {
                    r matches Err(f) && f == DeskError::ResourceDenied
                } else {
                    exists|granted: bool|
                        #[trigger] call_ensures(reserve, (view_charge(capture) as u64,), granted)
                            && match r {
                            Ok(view) => granted && capture.owner == self@.owner
                                && view@.0.capture == capture && view@.1 == allocation,
                            Err(f) => f == if !granted {
                                DeskError::ResourceDenied
                            } else {
                                DeskError::OwnerMismatch
                            } && (granted ==> capture.owner != self@.owner),
                        }
                },
            },
    {
        let at: DeskLocation = match self.location(pane, expected) {
            Ok(at) => at,
            Err(e) => {
                return Err(e);
            },
        };
        let i: usize = match self.state.source_index(at.file, at.revision) {
            Some(i) => i,
            None => {
                return Err(DeskError::MissingSource);
            },
        };
        let retained = share(&self.state.sources[i]);
        assert(self@.source(pane, expected) == Ok::<CaptureModel, DeskError>(retained@.capture));
        let charge: u128 = byte_len(&retained.capture.logical_path) as u128 + wide_size::<
            DeskView,
        >() + 128;
        if charge > u64::MAX as u128 {
            return Err(DeskError::ResourceDenied);
        }
        if !reserve(charge as u64) {
            return Err(DeskError::ResourceDenied);
        }
        if retained.capture.owner != self.owner {
            return Err(DeskError::OwnerMismatch);
        }
        Ok(DeskView { retained, allocation })
    }

    /// The bytes that a pane's selection covers. No line-ending or byte rewriting.
    pub fn selected_bytes(&self, pane: DeskPaneId, expected: u64) -> (r: Result<
        Vec<u8>,
        DeskError,
    >)
        ensures
            match r {
                Ok(bytes) => self@.selected_bytes(pane, expected) == Ok::<Seq<u8>, DeskError>(
                    bytes@,
                ),
                Err(e) => self@.selected_bytes(pane, expected) == Err::<Seq<u8>, DeskError>(e),
            },
    {
        let at: DeskLocation = match self.location(pane, expected) {
            Ok(at) => at,
            Err(e) => {
                return Err(e);
            },
        };
        let range: ByteRange = match at.selection {
            Some(range) => range,
            None => {
                return Err(DeskError::InvalidLocation);
            },
        };
        let capture = match self.state.source(at.file, at.revision) {
            Ok(capture) => capture,
            Err(e) => {
                return Err(e);
            },
        };
        if range.start > range.end || range.end > capture.bytes.len() as u64 {
            return Err(DeskError::InvalidLocation);
        }
        Ok(copy_range(&capture.bytes, range.start as usize, range.end as usize))
    }

    /// Open a host-supplied capture. Same identity + changed bytes is an error;
    /// a NEW revision may coexist with old pinned panes/history/bookmarks.
    /// The host reserves the charge under `allocation`, which must be fresh.
    pub fn open<A: FnOnce(u64) -> bool, C: FnMut() -> bool>(
        &mut self,
        expected: u64,
        attempt: u64,
        capture: SourceCapture,
        offset: u64,
        selection: Option<ByteRange>,
        allocation: u64,
        reserve: A,
        mut canceled: C,
    ) -> (r: Result<DeskChange, DeskError>)
        requires
            old(self)@.wf(),
            forall|charge: u64| call_requires(reserve, (charge,)),
            call_requires(canceled, ()),
        ensures
            final(self)@.wf(),
            exists|answers: OpenAnswers|
                #![trigger old(self)@.open(expected, attempt, capture@, offset, selection, allocation, answers)]
                {
                    let before = old(self)@;
                    let fresh = before.staleness(expected, attempt) is None;
                    let asks = fresh && !answers.canceled_first && before.capture_refusal(
                        capture@,
                        offset,
                        selection,
                    ) is None && !before.holds(capture@) && before.intake_refusal(
                        capture@,
                    ) is None;
                    &&& fresh ==> call_ensures(canceled, (), answers.canceled_first)
                    &&& asks ==> call_ensures(
                        reserve,
                        (retention_charge(capture@) as u64,),
                        answers.granted,
                    )
                    &&& answers.canceled_last ==> call_ensures(canceled, (), true)
                    &&& r is Ok ==> call_ensures(canceled, (), false)
                    &&& (final(self)@, r) == before.open(
                        expected,
                        attempt,
                        capture@,
                        offset,
                        selection,
                        allocation,
                        answers,
                    )
                },
    {
        let ghost before = self@;
        let ghost source = capture@;
        let ghost none = OpenAnswers {
            canceled_first: false,
            granted: false,
            canceled_last: false,
        };
        if expected != self.state.revision {
            assert((self@, Err::<DeskChange, DeskError>(DeskError::StaleRevision)) == before.open(
                expected,
                attempt,
                source,
                offset,
                selection,
                allocation,
                none,
            ));
            return Err(DeskError::StaleRevision);
        }
        if attempt == 0 || attempt <= self.last_attempt {
            assert((self@, Err::<DeskChange, DeskError>(DeskError::StaleAttempt)) == before.open(
                expected,
                attempt,
                source,
                offset,
                selection,
                allocation,
                none,
            ));
            return Err(DeskError::StaleAttempt);
        }
        self.last_attempt = attempt;
        if canceled() {
            assert((self@, Err::<DeskChange, DeskError>(DeskError::Canceled)) == before.open(
                expected,
                attempt,
                source,
                offset,
                selection,
                allocation,
                OpenAnswers { canceled_first: true, ..none },
            ));
            return Err(DeskError::Canceled);
        }
        let refusal: Option<DeskError> = if capture.owner != self.owner {
            Some(DeskError::OwnerMismatch)
        } else if !validate_location(&capture.bytes, offset, selection) {
            Some(DeskError::InvalidLocation)
        } else if byte_len(&capture.logical_path) > MAX_READING_PATH_BYTES {
            Some(DeskError::InvalidLocation)
        } else {
            None
        };
        if let Some(e) = refusal {
            assert((self@, Err::<DeskChange, DeskError>(e)) == before.open(
                expected,
                attempt,
                source,
                offset,
                selection,
                allocation,
                none,
            ));
            return Err(e);
        }
        if self.source_high_water < capture.file.value {
            self.source_high_water = capture.file.value;
        }
        if self.source_high_water < capture.revision.value {
            self.source_high_water = capture.revision.value;
        }
        let file = capture.file;
        let revision = capture.revision;
        let mut next = self.state.fork();
        let (taken, Ghost(granted)) = self.take_in(&mut next, capture, allocation, reserve);
        let ghost asked = OpenAnswers { granted, ..none };
        assert(self@ == before.begun(attempt).seen(source));
        match taken {
            Ok(()) => {},
            Err(e) => {
                assert((self@, Err::<DeskChange, DeskError>(e)) == before.open(
                    expected,
                    attempt,
                    source,
                    offset,
                    selection,
                    allocation,
                    asked,
                ));
                return Err(e);
            },
        }
        let preferred_pane: DeskPaneId = match self.active() {
            Some(id) => id,
            None => DeskPaneId { owner: self.owner, value: 0 },
        };
        let at = DeskLocation { file, revision, offset, selection, preferred_pane };
        assert(at == before.entry(source, offset, selection));
        let ghost ready = next@;
        match next.visit(self.owner, self.limits, at) {
            Ok(()) => {},
            Err(e) => {
                assert((self@, Err::<DeskChange, DeskError>(e)) == before.open(
                    expected,
                    attempt,
                    source,
                    offset,
                    selection,
                    allocation,
                    asked,
                ));
                return Err(e);
            },
        }
        proof {
            lemma_visit_keeps_sources(ready, self@.owner, self@.limits, at, false);
        }
        let last: bool = canceled();
        let r = self.publish(next, attempt, None, last);
        assert((self@, r) == before.open(
            expected,
            attempt,
            source,
            offset,
            selection,
            allocation,
            OpenAnswers { canceled_last: last, ..asked },
        ));
        r
    }

    fn take_in<A: FnOnce(u64) -> bool>(
        &self,
        next: &mut DeskState,
        capture: SourceCapture,
        allocation: u64,
        reserve: A,
    ) -> (r: (Result<(), DeskError>, Ghost<bool>))
        requires
            self@.wf(),
            old(next)@ == self@.state,
            forall|charge: u64| call_requires(reserve, (charge,)),
        ensures
            ({
                let asks = !self@.holds(capture@) && self@.intake_refusal(capture@) is None;
                &&& asks ==> call_ensures(reserve, (retention_charge(capture@) as u64,), r.1@)
                &&& match self@.taken_in(capture@, allocation, r.1@) {
                    Ok(ready) => r.0 is Ok && final(next)@ == ready && source_bytes_from(
                        ready.sources,
                        0,
                    ) <= self@.limits.retained_bytes && ready.sources.len()
                        <= self@.limits.sources,
                    Err(e) => r.0 == Err::<(), DeskError>(e),
                }
            }),
    {
        match next.source_index(capture.file, capture.revision) {
            Some(i) => {
                if same_bytes(&next.sources[i].capture.bytes, &capture.bytes) {
                    (Ok(()), Ghost(false))
                } else {
                    (Err(DeskError::IdentityConflict), Ghost(false))
                }
            },
            None => {
                if next.sources.len() == self.limits.sources {
                    return (Err(DeskError::SourceLimit), Ghost(false));
                }
                let bytes: u64 = capture.bytes.len() as u64;
                if bytes > self.limits.source_bytes {
                    return (Err(DeskError::SourceLimit), Ghost(false));
                }
                // Admit the old/new overlap, before history truncation or retirement.
                if bytes > self.limits.retained_bytes - self.retained_source_bytes() {
                    return (Err(DeskError::RetainedByteLimit), Ghost(false));
                }
                let charge: u128 = bytes as u128 + 2 * (byte_len(&capture.logical_path) as u128)
                    + wide_size::<RetainedSource>() + 128;
                if charge > u64::MAX as u128 {
                    return (Err(DeskError::ResourceDenied), Ghost(false));
                }
                let granted: bool = reserve(charge as u64);
                if !granted {
                    return (Err(DeskError::ResourceDenied), Ghost(false));
                }
                let ghost held = next@.sources;
                let ghost added = RetainedSource { capture: capture@, allocation };
                next.sources.push(Arc::new(RetainedSource { capture, allocation }));
                proof {
                    assert(next@.sources =~= held.push(added));
                    lemma_bytes_push(held, added, 0);
                }
                (Ok(()), Ghost(true))
            },
        }
    }

    /// Transactional semantic navigation. Failed/stale/canceled commands leave
    /// panes, source retention, cursor and bookmarks unchanged. An admitted
    /// attempt number is consumed even when its later work fails.
    pub fn apply<C: FnMut() -> bool>(
        &mut self,
        expected: u64,
        attempt: u64,
        command: DeskCommand,
        mut canceled: C,
    ) -> (r: Result<DeskChange, DeskError>)
        requires
            old(self)@.wf(),
            call_requires(canceled, ()),
        ensures
            final(self)@.wf(),
            exists|first: bool, last: bool|
                #![trigger old(self)@.apply(expected, attempt, command@, first, last)]
                {
                    let before = old(self)@;
                    &&& before.staleness(expected, attempt) is None ==> call_ensures(
                        canceled,
                        (),
                        first,
                    )
                    &&& last ==> call_ensures(canceled, (), true)
                    &&& r is Ok ==> call_ensures(canceled, (), false)
                    &&& (final(self)@, r) == before.apply(expected, attempt, command@, first, last)
                },
    {
        let ghost before = self@;
        let ghost wish = command@;
        if expected != self.state.revision {
            assert((self@, Err::<DeskChange, DeskError>(DeskError::StaleRevision)) == before.apply(
                expected,
                attempt,
                wish,
                false,
                false,
            ));
            return Err(DeskError::StaleRevision);
        }
        if attempt == 0 || attempt <= self.last_attempt {
            assert((self@, Err::<DeskChange, DeskError>(DeskError::StaleAttempt)) == before.apply(
                expected,
                attempt,
                wish,
                false,
                false,
            ));
            return Err(DeskError::StaleAttempt);
        }
        self.last_attempt = attempt;
        if canceled() {
            assert((self@, Err::<DeskChange, DeskError>(DeskError::Canceled)) == before.apply(
                expected,
                attempt,
                wish,
                true,
                false,
            ));
            return Err(DeskError::Canceled);
        }
        let mut next = self.state.fork();
        let created: Option<u64> = match next.command(self.owner, self.limits, command) {
            Ok(created) => created,
            Err(e) => {
                assert((self@, Err::<DeskChange, DeskError>(e)) == before.apply(
                    expected,
                    attempt,
                    wish,
                    false,
                    false,
                ));
                return Err(e);
            },
        };
        proof {
            lemma_command_keeps_sources(before.state, before.owner, before.limits, wish);
        }
        let last: bool = canceled();
        let r = self.publish(next, attempt, created, last);
        assert((self@, r) == before.apply(expected, attempt, wish, false, last));
        r
    }

    /// Publishes a prepared state unless the last answer was a cancellation.
    /// Only truly unreferenced source generations retire.
    pub fn publish(
        &mut self,
        next: DeskState,
        attempt: u64,
        created_bookmark: Option<u64>,
        canceled: bool,
    ) -> (r: Result<DeskChange, DeskError>)
        requires
            old(self)@.wf(),
            next@.cursor_valid(),
            next@.sources.len() <= old(self)@.limits.sources,
            source_bytes_from(next@.sources, 0) <= old(self)@.limits.retained_bytes,
        ensures
            final(self)@.wf(),
            (final(self)@, r) == old(self)@.publish(next@, attempt, created_bookmark, canceled),
    {
        let mut next = next;
        proof {
            lemma_needed_bytes(next@, 0);
        }
        next.retire();
        if canceled {
            return Err(DeskError::Canceled);
        }
        next.revision = attempt;
        self.state = next;
        Ok(DeskChange { revision: attempt, active: self.active(), created_bookmark })
    }
}

impl DeskModel {
    /// Where a pane of the expected revision stands.
    pub open spec fn location(self, pane: DeskPaneId, expected: u64) -> Result<
        DeskLocation,
        DeskError,
    > {
        if expected != self.state.revision {
            Err(DeskError::StaleRevision)
        } else {
            self.state.location(self.owner, pane)
        }
    }

    /// The capture that a pane shows.
    pub open spec fn source(self, pane: DeskPaneId, expected: u64) -> Result<
        CaptureModel,
        DeskError,
    > {
        match self.location(pane, expected) {
            Err(e) => Err(e),
            Ok(at) => match self.state.source(at.file, at.revision) {
                Some(capture) => Ok(capture),
                None => Err(DeskError::MissingSource),
            },
        }
    }

    /// The bytes that a pane's selection covers.
    pub open spec fn selected_bytes(self, pane: DeskPaneId, expected: u64) -> Result<
        Seq<u8>,
        DeskError,
    > {
        match self.location(pane, expected) {
            Err(e) => Err(e),
            Ok(at) => match (at.selection, self.state.source(at.file, at.revision)) {
                (None, _) => Err(DeskError::InvalidLocation),
                (_, None) => Err(DeskError::MissingSource),
                (Some(range), Some(capture)) => if range.start <= range.end && range.end
                    <= capture.bytes.len() {
                    Ok(capture.bytes.subrange(range.start as int, range.end as int))
                } else {
                    Err(DeskError::InvalidLocation)
                },
            },
        }
    }
}

/// The bytes from `start` up to `end`.
pub fn copy_range(bytes: &Vec<u8>, start: usize, end: usize) -> (r: Vec<u8>)
    requires
        start <= end <= bytes.len(),
    ensures
        r@ == bytes@.subrange(start as int, end as int),
{
    let mut copy: Vec<u8> = Vec::new();
    let mut i: usize = start;
    while i < end
        invariant
            start <= i <= end <= bytes.len(),
            copy@ == bytes@.subrange(start as int, i as int),
        decreases end - i,
    {
        copy.push(bytes[i]);
        i = i + 1;
        assert(copy@ =~= bytes@.subrange(start as int, i as int));
    }
    copy
}

proof fn lemma_small_product(count: int, size: int)
    requires
        0 <= count <= 128,
        0 <= size <= 0x1_0000_0000_0000_ffff,
    ensures
        0 <= count * size <= 0x80_0000_0000_007f_ff80,
{
    assert(0 <= count * size <= 128 * 0x1_0000_0000_0000_ffff) by (nonlinear_arith)
        requires
            0 <= count <= 128,
            0 <= size <= 0x1_0000_0000_0000_ffff,
    ;
}

pub(crate) proof fn lemma_bytes_push(sources: Seq<RetainedModel>, added: RetainedModel, i: int)
    requires
        0 <= i <= sources.len(),
    ensures
        source_bytes_from(sources.push(added), i) == source_bytes_from(sources, i)
            + added.capture.bytes.len(),
    decreases sources.len() - i,
{
    reveal_with_fuel(source_bytes_from, 2);
    if i < sources.len() {
        lemma_bytes_push(sources, added, i + 1);
    }
}

proof fn lemma_bytes_cons(source: RetainedModel, rest: Seq<RetainedModel>, i: int)
    requires
        0 <= i <= rest.len(),
    ensures
        source_bytes_from(seq![source] + rest, i + 1) == source_bytes_from(rest, i),
    decreases rest.len() - i,
{
    if i < rest.len() {
        assert((seq![source] + rest)[i + 1] == rest[i]);
        lemma_bytes_cons(source, rest, i + 1);
    }
}

/// Retiring captures never grows their number or their bytes.
pub(crate) proof fn lemma_needed_bytes(state: DeskStateModel, i: int)
    requires
        0 <= i <= state.sources.len(),
    ensures
        source_bytes_from(state.needed_from(i), 0) <= source_bytes_from(state.sources, i),
        state.needed_from(i).len() <= state.sources.len() - i,
    decreases state.sources.len() - i,
{
    if i < state.sources.len() {
        lemma_needed_bytes(state, i + 1);
        lemma_bytes_cons(state.sources[i], state.needed_from(i + 1), 0);
    }
}

/// Opening a location and recording it leaves the captures alone.
proof fn lemma_visit_keeps_sources(
    state: DeskStateModel,
    owner: ArenaOwnerId,
    limits: DeskLimits,
    at: DeskLocation,
    duplicate: bool,
)
    ensures
        state.open_location(owner, limits, at, duplicate) matches Ok((next, _))
            ==> next.sources == state.sources,
        state.visit(owner, limits, at, duplicate) matches Ok((next, _))
            ==> next.sources == state.sources,
{
}

/// No command takes captures in or lets them go before publication.
proof fn lemma_command_keeps_sources(
    state: DeskStateModel,
    owner: ArenaOwnerId,
    limits: DeskLimits,
    command: DeskCommand<Seq<char>>,
)
    ensures
        state.command(owner, limits, command) matches Ok((next, _)) ==> next.sources
            == state.sources,
{
    reveal(DeskStateModel::focus);
    reveal(DeskStateModel::navigate);
    reveal(DeskStateModel::scroll);
    reveal(DeskStateModel::pin);
    reveal(DeskStateModel::duplicate);
    reveal(DeskStateModel::close);
    reveal(DeskStateModel::escape);
    reveal(DeskStateModel::revisit);
    reveal(DeskStateModel::bookmark);
    reveal(DeskStateModel::recall);
    reveal(DeskStateModel::forget);
    reveal(DeskStateModel::clear_history);
    reveal(DeskStateModel::arrange);
}

} // verus!
