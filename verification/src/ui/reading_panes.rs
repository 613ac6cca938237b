//! Reading lens floating pane management and side-by-side pinning.
//!
//! - Dragging inside a reading surface selects text.
//! - Dragging its title bar moves the pane on screen without changing atlas layout.
//! - Pinning two or more files permits side-by-side reading.
//! - Closing / Escape backs out of the active unpinned lens without disturbing pinned panes.
pub mod desk;
pub mod showing;

use vstd::prelude::*;

use crate::identity::{ByteRange, FileId, SourceRevision};
use crate::model::{group_views, views};
use crate::scalar::{stagger, stagger_position, Point, Scalar};

verus! {

broadcast use group_views;

/// Longest path label that a pane stores, in bytes.
pub const MAX_READING_PATH_BYTES: usize = 16_384;

/// Bit pattern of the default pane width, six hundred and forty units.
pub const DEFAULT_PANE_WIDTH: u32 = 0x4420_0000;

/// Bit pattern of the default pane height, four hundred and eighty units.
pub const DEFAULT_PANE_HEIGHT: u32 = 0x43f0_0000;

/// Why a captured range could not be shown in a pane.
#[derive(Clone, Copy, Debug, PartialEq, Eq, Structural)]
pub enum ReadingPaneOpenError {
    /// The range does not fit the machine's sizes.
    RangeTooLarge,
}

/// Individual floating reading lens pane.
#[derive(Debug, PartialEq)]
pub struct ReadingPane<T = String> {
    pub id: u64,
    pub file_id: FileId,
    /// The exact capture shown, when the pane was opened from one.
    pub revision: Option<SourceRevision>,
    pub path: T,
    pub position: Point,
    pub size: Point,
    pub is_pinned: bool,
    pub scroll_offset: Point,
    pub target_line: Option<usize>,
    pub selection: Option<(usize, usize)>,
}

/// The model of a pane: its path as a character sequence.
pub type PaneModel = ReadingPane<Seq<char>>;

impl View for ReadingPane {
    type V = ReadingPane<Seq<char>>;

    open spec fn view(&self) -> ReadingPane<Seq<char>> {
        ReadingPane {
            id: self.id,
            file_id: self.file_id,
            revision: self.revision,
            path: self.path@,
            position: self.position,
            size: self.size,
            is_pinned: self.is_pinned,
            scroll_offset: self.scroll_offset,
            target_line: self.target_line,
            selection: self.selection,
        }
    }
}

impl Clone for ReadingPane {
    fn clone(&self) -> (r: Self)
        ensures
            r == *self,
    {
        ReadingPane {
            id: self.id,
            file_id: self.file_id,
            revision: self.revision,
            path: self.path.clone(),
            position: self.position,
            size: self.size,
            is_pinned: self.is_pinned,
            scroll_offset: self.scroll_offset,
            target_line: self.target_line,
            selection: self.selection,
        }
    }
}

/// A pane as it is first shown.
pub open spec fn fresh_pane(id: u64, file_id: FileId, path: Seq<char>, position: Point) -> PaneModel {
    ReadingPane {
        id,
        file_id,
        revision: None,
        path,
        position,
        size: (Scalar { bits: DEFAULT_PANE_WIDTH }, Scalar { bits: DEFAULT_PANE_HEIGHT }),
        is_pinned: false,
        scroll_offset: (Scalar { bits: 0 }, Scalar { bits: 0 }),
        target_line: None,
        selection: None,
    }
}

impl ReadingPane {
    pub fn new(id: u64, file_id: FileId, path: String, position: Point) -> (r: Self)
        ensures
            r@ == fresh_pane(id, file_id, path@, position),
    {
        ReadingPane {
            id,
            file_id,
            revision: None,
            path,
            position,
            size: (Scalar { bits: DEFAULT_PANE_WIDTH }, Scalar { bits: DEFAULT_PANE_HEIGHT }),
            is_pinned: false,
            scroll_offset: (Scalar::zero(), Scalar::zero()),
            target_line: None,
            selection: None,
        }
    }
}

/// Position of the first pane with this identifier, from `i` on.
pub open spec fn pane_from(panes: Seq<PaneModel>, id: u64, i: int) -> Option<int>
    decreases panes.len() - i,
{
    if i < 0 || i >= panes.len() {
        None
    } else if panes[i].id == id {
        Some(i)
    } else {
        pane_from(panes, id, i + 1)
    }
}

/// Position of the first pane that shows this file, from `i` on.
pub open spec fn file_from(panes: Seq<PaneModel>, file_id: FileId, i: int) -> Option<int>
    decreases panes.len() - i,
{
    if i < 0 || i >= panes.len() {
        None
    } else if panes[i].file_id == file_id {
        Some(i)
    } else {
        file_from(panes, file_id, i + 1)
    }
}

/// Position of the first pane that shows this capture, from `i` on.
pub open spec fn capture_from(
    panes: Seq<PaneModel>,
    file_id: FileId,
    revision: SourceRevision,
    i: int,
) -> Option<int>
    decreases panes.len() - i,
{
    if i < 0 || i >= panes.len() {
        None
    } else if panes[i].file_id == file_id && panes[i].revision == Some(revision) {
        Some(i)
    } else {
        capture_from(panes, file_id, revision, i + 1)
    }
}

/// The topmost unpinned pane among the first `n`.
pub open spec fn top_unpinned(panes: Seq<PaneModel>, n: int) -> Option<u64>
    decreases n,
{
    if n <= 0 || n > panes.len() {
        None
    } else if !panes[n - 1].is_pinned {
        Some(panes[n - 1].id)
    } else {
        top_unpinned(panes, n - 1)
    }
}

/// The first unpinned pane, from `i` on.
pub open spec fn unpinned_from(panes: Seq<PaneModel>, i: int) -> Option<u64>
    decreases panes.len() - i,
{
    if i < 0 || i >= panes.len() {
        None
    } else if !panes[i].is_pinned {
        Some(panes[i].id)
    } else {
        unpinned_from(panes, i + 1)
    }
}

/// How many of the panes from `i` on have this pin state.
pub open spec fn count_pinned(panes: Seq<PaneModel>, pinned: bool, i: int) -> nat
    decreases panes.len() - i,
{
    if i < 0 || i >= panes.len() {
        0
    } else if panes[i].is_pinned == pinned {
        1 + count_pinned(panes, pinned, i + 1)
    } else {
        count_pinned(panes, pinned, i + 1)
    }
}

/// The identifier after this one.
pub open spec fn next_number(n: u64) -> u64 {
    if n == u64::MAX {
        0
    } else {
        (n + 1) as u64
    }
}

/// The open panes, back to front, and the active one.
#[verifier::ext_equal]
pub ghost struct PanesModel {
    pub panes: Seq<PaneModel>,
    pub active: Option<u64>,
    pub next_id: u64,
}

impl PanesModel {
    /// The pane with this identifier.
    pub open spec fn pane(self, id: u64) -> Option<PaneModel> {
        match pane_from(self.panes, id, 0) {
            Some(i) => Some(self.panes[i]),
            None => None,
        }
    }

    /// The active pane, where it is still open.
    pub open spec fn active_pane(self) -> Option<PaneModel> {
        match self.active {
            Some(id) => self.pane(id),
            None => None,
        }
    }

    /// The panes with the pane of this identifier replaced, if there is one.
    pub open spec fn with_pane(self, id: u64, pane: PaneModel) -> PanesModel {
        match pane_from(self.panes, id, 0) {
            Some(i) => PanesModel { panes: self.panes.update(i, pane), ..self },
            None => self,
        }
    }

    /// The panes with a new one in front.
    pub open spec fn pushed(self, pane: PaneModel) -> PanesModel {
        PanesModel {
            panes: self.panes.push(pane),
            active: Some(self.next_id),
            next_id: next_number(self.next_id),
        }
    }

    pub open spec fn open_or_focus(
        self,
        file_id: FileId,
        path: Seq<char>,
        line: Option<usize>,
    ) -> PanesModel {
        match file_from(self.panes, file_id, 0) {
            Some(i) => PanesModel {
                panes: self.panes.update(i, ReadingPane { target_line: line, ..self.panes[i] }),
                active: Some(self.panes[i].id),
                ..self
            },
            None => self.pushed(
                ReadingPane {
                    target_line: line,
                    ..fresh_pane(self.next_id, file_id, path, stagger_position(self.panes.len()))
                },
            ),
        }
    }

    /// The panes after showing a range of an exact capture.
    pub open spec fn open_captured(
        self,
        file_id: FileId,
        revision: SourceRevision,
        path: Seq<char>,
        line: usize,
        range: ByteRange,
    ) -> PanesModel {
        let selection = Some((range.start as usize, range.end as usize));
        match capture_from(self.panes, file_id, revision, 0) {
            Some(i) => PanesModel {
                panes: self.panes.update(
                    i,
                    ReadingPane { path, target_line: Some(line), selection, ..self.panes[i] },
                ),
                active: Some(self.panes[i].id),
                ..self
            },
            None => self.pushed(
                ReadingPane {
                    revision: Some(revision),
                    target_line: Some(line),
                    selection,
                    ..fresh_pane(self.next_id, file_id, path, stagger_position(self.panes.len()))
                },
            ),
        }
    }

    pub open spec fn set_pinned(self, id: u64, pinned: bool) -> PanesModel {
        match self.pane(id) {
            Some(pane) => self.with_pane(id, ReadingPane { is_pinned: pinned, ..pane }),
            None => self,
        }
    }

    pub open spec fn toggle_pin(self, id: u64) -> PanesModel {
        match self.pane(id) {
            Some(pane) => self.with_pane(id, ReadingPane { is_pinned: !pane.is_pinned, ..pane }),
            None => self,
        }
    }

    pub open spec fn translate_pane(self, id: u64, target: Point) -> PanesModel {
        match self.pane(id) {
            Some(pane) => self.with_pane(
                id,
                ReadingPane { position: (target.0.floored(), target.1.floored()), ..pane },
            ),
            None => self,
        }
    }

    pub open spec fn scroll_pane(self, id: u64, target: Point) -> PanesModel {
        match self.pane(id) {
            Some(pane) => self.with_pane(
                id,
                ReadingPane { scroll_offset: (target.0.floored(), target.1.floored()), ..pane },
            ),
            None => self,
        }
    }

    pub open spec fn set_text_selection(self, id: u64, range: Option<(usize, usize)>) -> PanesModel {
        match self.pane(id) {
            Some(pane) => self.with_pane(id, ReadingPane { selection: range, ..pane }),
            None => self,
        }
    }

    /// The pane leaves; when it was active, the frontmost one takes over.
    pub open spec fn close_pane(self, id: u64) -> PanesModel {
        match pane_from(self.panes, id, 0) {
            Some(i) => {
                let panes = self.panes.remove(i);
                PanesModel {
                    panes,
                    active: if self.active == Some(id) {
                        if panes.len() == 0 {
                            None
                        } else {
                            Some(panes.last().id)
                        }
                    } else {
                        self.active
                    },
                    ..self
                }
            },
            None => self,
        }
    }

    /// The pane that backing out closes: the active one unless it is pinned,
    /// then the topmost unpinned one.
    pub open spec fn closing(self) -> Option<u64> {
        match self.active_pane() {
            Some(pane) if !pane.is_pinned => self.active,
            _ => top_unpinned(self.panes, self.panes.len() as int),
        }
    }

    pub open spec fn close_active_or_top_unpinned(self) -> PanesModel {
        match self.closing() {
            Some(id) => self.close_pane(id),
            None => self,
        }
    }
}

/// Manages multiple reading panes, active focus, and side-by-side pinning.
#[derive(Debug, PartialEq)]
pub struct ReadingPaneManager {
    panes: Vec<ReadingPane>,
    active_pane_id: Option<u64>,
    /// The number that the next pane gets.
    pub next_id: u64,
}

impl View for ReadingPaneManager {
    type V = PanesModel;

    closed spec fn view(&self) -> PanesModel {
        PanesModel {
            panes: views(self.panes@),
            active: self.active_pane_id,
            next_id: self.next_id,
        }
    }
}

impl Clone for ReadingPaneManager {
    fn clone(&self) -> (r: Self)
        ensures
            r@ == self@,
    {
        let mut panes: Vec<ReadingPane> = Vec::new();
        let mut i: usize = 0;
        while i < self.panes.len()
            invariant
                i <= self.panes.len(),
                panes@ == self.panes@.subrange(0, i as int),
            decreases self.panes.len() - i,
        {
            panes.push(self.panes[i].clone());
            i = i + 1;
            assert(panes@ =~= self.panes@.subrange(0, i as int));
        }
        assert(panes@ =~= self.panes@);
        ReadingPaneManager { panes, active_pane_id: self.active_pane_id, next_id: self.next_id }
    }
}

impl ReadingPaneManager {
    pub fn new() -> (r: Self)
        ensures
            r@ == (PanesModel { panes: Seq::empty(), active: None, next_id: 1 }),
    {
        let r = ReadingPaneManager { panes: Vec::new(), active_pane_id: None, next_id: 1 };
        assert(r@.panes =~= Seq::empty());
        r
    }

    /// Panes rebuilt from their parts.
    pub fn from_parts(panes: Vec<ReadingPane>, active_pane_id: Option<u64>, next_id: u64) -> (r:
        Self)
        ensures
            r@ == (PanesModel { panes: views(panes@), active: active_pane_id, next_id }),
    {
        ReadingPaneManager { panes, active_pane_id, next_id }
    }

    pub fn is_any_open(&self) -> (r: bool)
        ensures
            r == (self@.panes.len() > 0),
    {
        self.panes.len() > 0
    }

    pub fn len(&self) -> (r: usize)
        ensures
            r == self@.panes.len(),
    {
        self.panes.len()
    }

    pub fn is_empty(&self) -> (r: bool)
        ensures
            r == (self@.panes.len() == 0),
    {
        self.panes.len() == 0
    }

    pub fn active_pane_id(&self) -> (r: Option<u64>)
        ensures
            r == self@.active,
    {
        self.active_pane_id
    }

    /// The identifier that the next new pane gets.
    pub fn next_id(&self) -> (r: u64)
        ensures
            r == self@.next_id,
    {
        self.next_id
    }

    pub fn set_active_pane_id(&mut self, id: Option<u64>)
        ensures
            final(self)@ == (PanesModel { active: id, ..old(self)@ }),
    {
        self.active_pane_id = id;
    }

    fn position(&self, id: u64) -> (r: Option<usize>)
        ensures
            r is Some <==> pane_from(self@.panes, id, 0) is Some,
            r matches Some(i) ==> Some(i as int) == pane_from(self@.panes, id, 0) && i
                < self.panes.len(),
    {
        let mut i: usize = 0;
        while i < self.panes.len()
            invariant
                i <= self.panes.len(),
                pane_from(self@.panes, id, 0) == pane_from(self@.panes, id, i as int),
            decreases self.panes.len() - i,
        {
            if self.panes[i].id == id {
                return Some(i);
            }
            i = i + 1;
        }
        None
    }

    pub fn active_pane(&self) -> (r: Option<&ReadingPane>)
        ensures
            r is Some <==> self@.active_pane() is Some,
            r matches Some(pane) ==> Some(pane@) == self@.active_pane(),
    {
        match self.active_pane_id {
            Some(id) => self.get_pane(id),
            None => None,
        }
    }

    pub fn active_pane_mut(&mut self) -> (r: Option<&mut ReadingPane>)
        ensures
            match r {
                Some(pane) => {
                    &&& Some(pane@) == old(self)@.active_pane()
                    &&& final(self)@ == old(self)@.with_pane(old(self)@.active->0, final(pane)@)
                },
                None => old(self)@.active_pane() is None && final(self)@ == old(self)@,
            },
    {
        match self.active_pane_id {
            Some(id) => self.get_pane_mut(id),
            None => None,
        }
    }

    pub fn get_pane(&self, id: u64) -> (r: Option<&ReadingPane>)
        ensures
            r is Some <==> self@.pane(id) is Some,
            r matches Some(pane) ==> Some(pane@) == self@.pane(id),
    {
        match self.position(id) {
            Some(i) => Some(&self.panes[i]),
            None => None,
        }
    }

    pub fn get_pane_mut(&mut self, id: u64) -> (r: Option<&mut ReadingPane>)
        ensures
            match r {
                Some(pane) => {
                    &&& Some(pane@) == old(self)@.pane(id)
                    &&& final(self)@ == old(self)@.with_pane(id, final(pane)@)
                },
                None => old(self)@.pane(id) is None && final(self)@ == old(self)@,
            },
    {
        match self.position(id) {
            Some(i) => Some(&mut self.panes[i]),
            None => None,
        }
    }

    /// The open panes, back to front.
    pub fn iter(&self) -> (r: &Vec<ReadingPane>)
        ensures
            views(r@) == self@.panes,
    {
        &self.panes
    }

    pub fn pinned_count(&self) -> (r: usize)
        ensures
            r == count_pinned(self@.panes, true, 0),
    {
        self.count(true)
    }

    pub fn unpinned_count(&self) -> (r: usize)
        ensures
            r == count_pinned(self@.panes, false, 0),
    {
        self.count(false)
    }

    fn count(&self, pinned: bool) -> (r: usize)
        ensures
            r == count_pinned(self@.panes, pinned, 0),
    {
        let mut n: usize = 0;
        let mut i: usize = 0;
        while i < self.panes.len()
            invariant
                n <= i <= self.panes.len(),
                count_pinned(self@.panes, pinned, 0) == n + count_pinned(
                    self@.panes,
                    pinned,
                    i as int,
                ),
            decreases self.panes.len() - i,
        {
            if self.panes[i].is_pinned == pinned {
                n = n + 1;
            }
            i = i + 1;
        }
        n
    }

    fn take_id(&mut self) -> (r: u64)
        ensures
            r == old(self)@.next_id,
            final(self)@ == (PanesModel { next_id: next_number(r), ..old(self)@ }),
    {
        let id: u64 = self.next_id;
        self.next_id = if id == u64::MAX {
            0
        } else {
            id + 1
        };
        id
    }

    /// Open a file in a reading pane, or focus it if already open.
    ///
    /// If an existing pane has matching `file_id`, it is promoted to active and its target line updated.
    /// If opening a new pane and existing panes exist, positions are staggered so they remain accessible.
    pub fn open_or_focus(&mut self, file_id: FileId, path: String, line: Option<usize>) -> (r: u64)
        ensures
            final(self)@ == old(self)@.open_or_focus(file_id, path@, line),
            Some(r) == final(self)@.active,
    {
        let mut i: usize = 0;
        while i < self.panes.len() && self.panes[i].file_id != file_id
            invariant
                i <= self.panes.len(),
                *self == *old(self),
                file_from(self@.panes, file_id, 0) == file_from(self@.panes, file_id, i as int),
            decreases self.panes.len() - i,
        {
            i = i + 1;
        }
        if i < self.panes.len() {
            self.panes[i].target_line = line;
            let id: u64 = self.panes[i].id;
            self.active_pane_id = Some(id);
            assert(self@.panes =~= old(self)@.open_or_focus(file_id, path@, line).panes);
            return id;
        }
        // Stagger new pane position
        let position = stagger(self.panes.len());
        let id: u64 = self.take_id();
        let mut pane = ReadingPane::new(id, file_id, path, position);
        pane.target_line = line;
        self.panes.push(pane);
        self.active_pane_id = Some(id);
        id
    }

    /// Show a range of an exact capture, reusing the pane that already shows
    /// that capture.
    pub fn open_captured(
        &mut self,
        file_id: FileId,
        revision: SourceRevision,
        path: String,
        line: usize,
        range: ByteRange,
    ) -> (r: Result<u64, ReadingPaneOpenError>)
        ensures
            r is Err <==> range.start > usize::MAX || range.end > usize::MAX,
            r matches Err(e) ==> e == ReadingPaneOpenError::RangeTooLarge && final(self)@ == old(
                self,
            )@,
            r matches Ok(id) ==> final(self)@.active == Some(id) && final(self)@ == old(
                self,
            )@.open_captured(file_id, revision, path@, line, range),
    {
        if range.start > usize::MAX as u64 || range.end > usize::MAX as u64 {
            return Err(ReadingPaneOpenError::RangeTooLarge);
        }
        let selection = Some((range.start as usize, range.end as usize));
        let mut i: usize = 0;
        while i < self.panes.len() && !shows(&self.panes[i], file_id, revision)
            invariant
                i <= self.panes.len(),
                *self == *old(self),
                capture_from(self@.panes, file_id, revision, 0) == capture_from(
                    self@.panes,
                    file_id,
                    revision,
                    i as int,
                ),
            decreases self.panes.len() - i,
        {
            i = i + 1;
        }
        if i < self.panes.len() {
            let ghost label = path@;
            self.panes[i].path = path;
            self.panes[i].target_line = Some(line);
            self.panes[i].selection = selection;
            let id: u64 = self.panes[i].id;
            self.active_pane_id = Some(id);
            assert(self@.panes =~= old(self)@.open_captured(
                file_id,
                revision,
                label,
                line,
                range,
            ).panes);
            return Ok(id);
        }
        let position = stagger(self.panes.len());
        let id: u64 = self.take_id();
        let mut pane = ReadingPane::new(id, file_id, path, position);
        pane.revision = Some(revision);
        pane.target_line = Some(line);
        pane.selection = selection;
        self.panes.push(pane);
        self.active_pane_id = Some(id);
        Ok(id)
    }

    /// Adds a pane in front and makes its identifier the last one used.
    pub fn push_pane(&mut self, pane: ReadingPane)
        ensures
            final(self)@ == (PanesModel {
                panes: old(self)@.panes.push(pane@),
                next_id: next_number(old(self)@.next_id),
                ..old(self)@
            }),
    {
        let _ = self.take_id();
        self.panes.push(pane);
    }

    /// Set pinning state on a pane.
    pub fn pin_pane(&mut self, id: u64) -> (r: bool)
        ensures
            r == (old(self)@.pane(id) is Some),
            final(self)@ == old(self)@.set_pinned(id, true),
    {
        if let Some(pane) = self.get_pane_mut(id) {
            pane.is_pinned = true;
            true
        } else {
            false
        }
    }

    /// Unpin a pane.
    pub fn unpin_pane(&mut self, id: u64) -> (r: bool)
        ensures
            r == (old(self)@.pane(id) is Some),
            final(self)@ == old(self)@.set_pinned(id, false),
    {
        if let Some(pane) = self.get_pane_mut(id) {
            pane.is_pinned = false;
            true
        } else {
            false
        }
    }

    /// Toggle pin state.
    pub fn toggle_pin(&mut self, id: u64) -> (r: bool)
        ensures
            r == (old(self)@.pane(id) is Some),
            final(self)@ == old(self)@.toggle_pin(id),
    {
        if let Some(pane) = self.get_pane_mut(id) {
            pane.is_pinned = !pane.is_pinned;
            true
        } else {
            false
        }
    }

    /// Translate a reading pane to `target`, the sum of its position and the
    /// motion; no coordinate goes below zero.
    ///
    /// Moving a pane does NOT change the atlas layout!
    pub fn translate_pane(&mut self, id: u64, target: Point) -> (r: bool)
        ensures
            r == (old(self)@.pane(id) is Some),
            final(self)@ == old(self)@.translate_pane(id, target),
    {
        if let Some(pane) = self.get_pane_mut(id) {
            pane.position = (target.0.floor_at_zero(), target.1.floor_at_zero());
            true
        } else {
            false
        }
    }

    /// Scroll inside a reading pane to `target`, the sum of its offset and the
    /// motion; no coordinate goes below zero.
    pub fn scroll_pane(&mut self, id: u64, target: Point) -> (r: bool)
        ensures
            r == (old(self)@.pane(id) is Some),
            final(self)@ == old(self)@.scroll_pane(id, target),
    {
        if let Some(pane) = self.get_pane_mut(id) {
            pane.scroll_offset = (target.0.floor_at_zero(), target.1.floor_at_zero());
            true
        } else {
            false
        }
    }

    /// Set text selection range on a reading pane.
    pub fn set_text_selection(&mut self, id: u64, range: Option<(usize, usize)>) -> (r: bool)
        ensures
            r == (old(self)@.pane(id) is Some),
            final(self)@ == old(self)@.set_text_selection(id, range),
    {
        if let Some(pane) = self.get_pane_mut(id) {
            pane.selection = range;
            true
        } else {
            false
        }
    }

    /// Close a specific pane by id.
    pub fn close_pane(&mut self, id: u64) -> (r: Option<ReadingPane>)
        ensures
            final(self)@ == old(self)@.close_pane(id),
            r is Some <==> old(self)@.pane(id) is Some,
            r matches Some(pane) ==> Some(pane@) == old(self)@.pane(id),
    {
        match self.position(id) {
            Some(i) => {
                let removed = self.panes.remove(i);
                let was_active = match self.active_pane_id {
                    Some(active) => active == id,
                    None => false,
                };
                if was_active {
                    let n: usize = self.panes.len();
                    self.active_pane_id = if n == 0 {
                        None
                    } else {
                        Some(self.panes[n - 1].id)
                    };
                }
                Some(removed)
            },
            None => None,
        }
    }

    fn top_unpinned_id(&self) -> (r: Option<u64>)
        ensures
            r == top_unpinned(self@.panes, self@.panes.len() as int),
    {
        let mut n: usize = self.panes.len();
        while n > 0
            invariant
                n <= self.panes.len(),
                top_unpinned(self@.panes, self@.panes.len() as int) == top_unpinned(
                    self@.panes,
                    n as int,
                ),
            decreases n,
        {
            if !self.panes[n - 1].is_pinned {
                return Some(self.panes[n - 1].id);
            }
            n = n - 1;
        }
        None
    }

    /// The first unpinned pane, back to front.
    pub fn first_unpinned_id(&self) -> (r: Option<u64>)
        ensures
            r == unpinned_from(self@.panes, 0),
    {
        let mut i: usize = 0;
        while i < self.panes.len()
            invariant
                i <= self.panes.len(),
                unpinned_from(self@.panes, 0) == unpinned_from(self@.panes, i as int),
            decreases self.panes.len() - i,
        {
            if !self.panes[i].is_pinned {
                return Some(self.panes[i].id);
            }
            i = i + 1;
        }
        None
    }

    /// Close the active unpinned pane (e.g. on Escape).
    /// Pinned panes remain open!
    pub fn close_active_or_top_unpinned(&mut self) -> (r: Option<u64>)
        ensures
            r == old(self)@.closing(),
            final(self)@ == old(self)@.close_active_or_top_unpinned(),
    {
        // If active pane is unpinned, close it
        let active_unpinned: Option<u64> = match self.active_pane() {
            Some(pane) => if pane.is_pinned {
                None
            } else {
                self.active_pane_id
            },
            None => None,
        };
        if let Some(active_id) = active_unpinned {
            let _ = self.close_pane(active_id);
            return Some(active_id);
        }
        // Otherwise close the topmost unpinned pane
        if let Some(top) = self.top_unpinned_id() {
            let _ = self.close_pane(top);
            return Some(top);
        }
        None
    }
}

fn shows(pane: &ReadingPane, file_id: FileId, revision: SourceRevision) -> (r: bool)
    ensures
        r == (pane.file_id == file_id && pane.revision == Some(revision)),
{
    match pane.revision {
        Some(shown) => pane.file_id == file_id && shown == revision,
        None => false,
    }
}

impl Default for ReadingPaneManager {
    fn default() -> (r: Self)
        ensures
            r@ == (PanesModel { panes: Seq::empty(), active: None, next_id: 1 }),
    {
        ReadingPaneManager::new()
    }
}

/// What is known of the first pane with an identifier.
pub proof fn lemma_pane_found(panes: Seq<PaneModel>, id: u64, i: int)
    requires
        0 <= i,
        pane_from(panes, id, i) is Some,
    ensures
        i <= pane_from(panes, id, i)->0 < panes.len(),
        panes[pane_from(panes, id, i)->0].id == id,
        forall|j: int| i <= j < pane_from(panes, id, i)->0 ==> panes[j].id != id,
    decreases panes.len() - i,
{
    if i < panes.len() && panes[i].id != id {
        lemma_pane_found(panes, id, i + 1);
    }
}

/// Rewriting a pane in place under the same identifier keeps it the first one
/// with that identifier.
pub proof fn lemma_update_keeps_pane(panes: Seq<PaneModel>, at: int, pane: PaneModel, id: u64)
    requires
        pane_from(panes, id, 0) == Some(at),
        pane.id == id,
    ensures
        0 <= at < panes.len(),
        pane_from(panes.update(at, pane), id, 0) == Some(at),
        panes[at].id == id,
{
    lemma_pane_found(panes, id, 0);
    lemma_update_from(panes, at, pane, id, 0);
}

proof fn lemma_update_from(panes: Seq<PaneModel>, at: int, pane: PaneModel, id: u64, i: int)
    requires
        0 <= at < panes.len(),
        0 <= i,
        pane.id == panes[at].id,
    ensures
        pane_from(panes.update(at, pane), id, i) == pane_from(panes, id, i),
    decreases panes.len() - i,
{
    if i < panes.len() {
        lemma_update_from(panes, at, pane, id, i + 1);
    }
}

proof fn lemma_top_unpinned(panes: Seq<PaneModel>, n: int)
    requires
        0 <= n <= panes.len(),
        top_unpinned(panes, n) is Some,
    ensures
        exists|j: int|
            0 <= j < n && #[trigger] panes[j].id == top_unpinned(panes, n)->0
                && !panes[j].is_pinned,
    decreases n,
{
    if n > 0 && panes[n - 1].is_pinned {
        lemma_top_unpinned(panes, n - 1);
    } else if n > 0 {
        assert(panes[n - 1].id == top_unpinned(panes, n)->0);
    }
}

/// Identifiers of open panes differ.
pub open spec fn distinct_ids(panes: Seq<PaneModel>) -> bool {
    forall|i: int, j: int|
        0 <= i < j < panes.len() ==> #[trigger] panes[i].id != #[trigger] panes[j].id
}

/// Backing out never closes a pinned pane.
pub proof fn escape_keeps_pinned(panes: PanesModel, pane: PaneModel)
    requires
        distinct_ids(panes.panes),
        panes.panes.contains(pane),
        pane.is_pinned,
    ensures
        panes.close_active_or_top_unpinned().panes.contains(pane),
{
    let k = choose|k: int| 0 <= k < panes.panes.len() && panes.panes[k] == pane;
    if panes.closing() is Some {
        let id = panes.closing()->0;
        match panes.active_pane() {
            Some(active) if !active.is_pinned => {
                lemma_pane_found(panes.panes, id, 0);
            },
            _ => {
                lemma_top_unpinned(panes.panes, panes.panes.len() as int);
                let j = choose|j: int|
                    0 <= j < panes.panes.len() && #[trigger] panes.panes[j].id == id
                        && !panes.panes[j].is_pinned;
                if pane_from(panes.panes, id, 0) is Some {
                    lemma_pane_found(panes.panes, id, 0);
                }
            },
        }
        if pane_from(panes.panes, id, 0) is Some {
            let i = pane_from(panes.panes, id, 0)->0;
            assert(i != k);
            let rest = panes.panes.remove(i);
            assert(rest[if k < i {
                k
            } else {
                k - 1
            }] == pane);
        }
    }
}

/// Moving a pane changes nothing but its own position.
pub proof fn translate_moves_one_pane(panes: PanesModel, id: u64, target: Point, i: int)
    requires
        0 <= i < panes.panes.len(),
    ensures
        panes.translate_pane(id, target).panes.len() == panes.panes.len(),
        panes.translate_pane(id, target).active == panes.active,
        panes.translate_pane(id, target).panes[i] == panes.panes[i]
            || (panes.panes[i].id == id && panes.translate_pane(id, target).panes[i]
            == (ReadingPane {
            position: panes.translate_pane(id, target).panes[i].position,
            ..panes.panes[i]
        })),
{
    if pane_from(panes.panes, id, 0) is Some {
        lemma_pane_found(panes.panes, id, 0);
    }
}

} // verus!
