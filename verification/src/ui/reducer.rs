//! Deterministic UI reducer, command routing, and bounded event log ring.
//!
//! 1. Zero I/O, parsing, or bulk memory drops on the interaction thread.
//! 2. Strict separation of focus and selection.
//! 3. Predictable focus-return on overlay dismissal.
//! 4. Generation-validated search result publication (stale batches rejected).
//! 5. Bounded event log ring without unbounded memory growth.
use std::collections::VecDeque;

use vstd::prelude::*;

use super::breadcrumbs::{BreadcrumbsModel, ScopeBreadcrumbs};
use super::focus::{newest, tab_target, FocusDirection, FocusManager, FocusModel, FocusTarget};
use super::gesture::{
    drag_kind, scroll_route, GestureArbitrator, GestureKind, GestureState, HitRegion, ModifierKeys,
    PointerButton, PointerStep, ScrollRouting,
};
use super::motion_mailbox::{
    exceeds_epsilon, point_noticeable, DiscreteInputEvent, MailboxModel, MotionMailbox,
};
use super::reading_panes::{
    lemma_pane_found, lemma_update_keeps_pane, pane_from, PanesModel, ReadingPane, ReadingPaneManager,
};
use super::sidebar::{
    row_item, HistoryItem, HistoryModel, InspectorModel, ResultsModel, SearchResultEntry,
    SidebarModel, SidebarPanel, SidebarState,
};
use super::tree::{TreeModel, TreeNodeId, TreeProjection};
use crate::identity::{ArenaOwnerId, FileId, QueryGeneration};
use crate::model::{group_views, maybe, views};
use crate::scalar::{Point, Scalar};

verus! {

/// Sums that the host formed for a pointer motion: how far the pointer went,
/// where a dragged pane would land, how far a text selection reaches, and how
/// wide a dragged sidebar would become.
#[derive(Clone, Copy, Debug, PartialEq, Eq)]
pub struct PointerMotion {
    pub step: PointerStep,
    pub pane_target: Point,
    pub text_extent: usize,
    pub sidebar_width: Scalar,
}

/// Sums that the host formed for a scroll: where a scrolled pane would land,
/// and the zoom factor for the vertical delta.
#[derive(Clone, Copy, Debug, PartialEq, Eq)]
pub struct ScrollMotion {
    pub pane_target: Point,
    pub zoom_factor: Scalar,
}

/// Discrete action dispatched to the UI state machine.
#[allow(inconsistent_fields)]
#[derive(Debug, PartialEq)]
pub enum UiAction<T = String, R = Vec<SearchResultEntry>> {
    /// Move focus directly to target.
    FocusChange(FocusTarget),
    /// Advance or retreat focus along the tab ring.
    FocusNavigate(FocusDirection),
    /// Return focus to the previous surface on the stack (e.g. Escape).
    FocusReturn,
    /// Change selection to the specified file (does not change focus).
    SelectFile { file_id: FileId, path: T },
    /// Clear active selection.
    ClearSelection,
    /// Toggle sidebar visibility.
    ToggleSidebar,
    /// Explicitly collapse or expand sidebar.
    SetSidebarCollapsed(bool),
    /// Resize sidebar width; `change` is the distance from the shown width to
    /// the clamped one.
    SetSidebarWidth { width: Scalar, change: Scalar },
    /// Switch active sidebar tab.
    SelectSidebarTab(SidebarPanel),
    /// Open source reading lens for a file and optional target line.
    OpenReadingLens { file_id: FileId, path: T, line: Option<usize> },
    /// Close the source reading lens.
    CloseReadingLens,
    /// Open modal search / command palette.
    OpenSearchPalette,
    /// Close modal search / command palette.
    CloseSearchPalette,
    /// Update search query text.
    SearchQueryChanged(T),
    /// Search results received from background index worker.
    SearchResultsReceived { query_generation: QueryGeneration, results: R, has_more: bool },
    /// Move to next search result row.
    SelectNextSearchResult,
    /// Move to previous search result row.
    SelectPrevSearchResult,
    /// Activate current search result (opens file in lens/inspector).
    ActivateSearchResult,
    /// Select a node in the conventional tree projection.
    TreeSelect(TreeNodeId),
    /// Toggle directory expansion in tree.
    TreeToggle(TreeNodeId),
    /// Move selection/focus in tree via arrow keys.
    TreeNavigate(FocusDirection),
    /// Navigate scope breadcrumbs.
    BreadcrumbNavigate(FocusDirection),
    /// Jump directly to breadcrumb segment index.
    BreadcrumbSelect(usize),
    /// Navigate history backward.
    HistoryNavigateBack,
    /// Navigate history forward.
    HistoryNavigateForward,
    /// Fit camera to selection.
    FitSelection,
    /// Fit camera to parent container.
    FitParent,
    /// Fit camera to entire project atlas.
    FitProject,
    /// Pointer pressed down at specified hit region.
    PointerDown { region: HitRegion, pos: Point, button: PointerButton, modifiers: ModifierKeys },
    /// Pointer moved to new position during potential gesture.
    PointerMove { pos: Point, motion: PointerMotion },
    /// Pointer released.
    PointerUp { pos: Point, button: PointerButton },
    /// Scroll or wheel event on a specific hit region.
    ScrollEvent { region: HitRegion, delta: Point, modifiers: ModifierKeys, motion: ScrollMotion },
    /// Pinch magnification gesture on a hit region; `factor` is one plus the magnification.
    PinchEvent { region: HitRegion, centroid: Point, factor: Scalar },
    /// Explicitly cancel any active gesture (e.g. on blur or Escape).
    CancelGesture,
    /// Promote currently selected file in atlas to an active reading lens pane.
    PromoteSelectedToReadingLens,
    /// Pin a reading pane for side-by-side reading.
    PinReadingPane(u64),
    /// Unpin a reading pane.
    UnpinReadingPane(u64),
    /// Toggle pin state of a reading pane.
    TogglePinReadingPane(u64),
    /// Close a specific reading pane by ID.
    CloseReadingPane(u64),
    /// Set City mode (enables deliberate 3D orbit gestures).
    SetCityMode(bool),
    /// Process a bounded batch from the motion mailbox (coalesced motion + discrete queue);
    /// `pinch_factor` is one plus the accumulated magnification.
    ProcessInputBatch { max_discrete: usize, pinch_factor: Scalar },
    /// Enqueue discrete input into motion mailbox.
    EnqueueDiscreteInput(DiscreteInputEvent<T>),
    /// Record continuous motion move tick into mailbox; `pan` is the accumulated delta.
    RecordContinuousMove { pos: Point, pan: Point },
    /// Record continuous scroll delta into mailbox; `scroll` is the accumulated delta.
    RecordContinuousScroll { scroll: Point },
    /// Generic pointer click on a UI surface.
    PointerClick { target: FocusTarget, select: bool },
    /// Keyboard shortcut string (e.g. "Escape", "Cmd+P", "Cmd+B").
    KeyboardShortcut(T),
}

/// The model of an action: its texts and results as sequences.
pub type ActionModel = UiAction<Seq<char>, Seq<SearchResultEntry<Seq<char>>>>;

impl View for UiAction {
    type V = UiAction<Seq<char>, Seq<SearchResultEntry<Seq<char>>>>;

    open spec fn view(&self) -> UiAction<Seq<char>, Seq<SearchResultEntry<Seq<char>>>> {
        match *self {
            UiAction::FocusChange(t) => UiAction::FocusChange(t),
            UiAction::FocusNavigate(d) => UiAction::FocusNavigate(d),
            UiAction::FocusReturn => UiAction::FocusReturn,
            UiAction::SelectFile { file_id, path } => UiAction::SelectFile { file_id, path: path@ },
            UiAction::ClearSelection => UiAction::ClearSelection,
            UiAction::ToggleSidebar => UiAction::ToggleSidebar,
            UiAction::SetSidebarCollapsed(c) => UiAction::SetSidebarCollapsed(c),
            UiAction::SetSidebarWidth { width, change } => UiAction::SetSidebarWidth {
                width,
                change,
            },
            UiAction::SelectSidebarTab(p) => UiAction::SelectSidebarTab(p),
            UiAction::OpenReadingLens { file_id, path, line } => UiAction::OpenReadingLens {
                file_id,
                path: path@,
                line,
            },
            UiAction::CloseReadingLens => UiAction::CloseReadingLens,
            UiAction::OpenSearchPalette => UiAction::OpenSearchPalette,
            UiAction::CloseSearchPalette => UiAction::CloseSearchPalette,
            UiAction::SearchQueryChanged(q) => UiAction::SearchQueryChanged(q@),
            UiAction::SearchResultsReceived { query_generation, results, has_more } => {
                UiAction::SearchResultsReceived {
                    query_generation,
                    results: views(results@),
                    has_more,
                }
            },
            UiAction::SelectNextSearchResult => UiAction::SelectNextSearchResult,
            UiAction::SelectPrevSearchResult => UiAction::SelectPrevSearchResult,
            UiAction::ActivateSearchResult => UiAction::ActivateSearchResult,
            UiAction::TreeSelect(id) => UiAction::TreeSelect(id),
            UiAction::TreeToggle(id) => UiAction::TreeToggle(id),
            UiAction::TreeNavigate(d) => UiAction::TreeNavigate(d),
            UiAction::BreadcrumbNavigate(d) => UiAction::BreadcrumbNavigate(d),
            UiAction::BreadcrumbSelect(i) => UiAction::BreadcrumbSelect(i),
            UiAction::HistoryNavigateBack => UiAction::HistoryNavigateBack,
            UiAction::HistoryNavigateForward => UiAction::HistoryNavigateForward,
            UiAction::FitSelection => UiAction::FitSelection,
            UiAction::FitParent => UiAction::FitParent,
            UiAction::FitProject => UiAction::FitProject,
            UiAction::PointerDown { region, pos, button, modifiers } => UiAction::PointerDown {
                region,
                pos,
                button,
                modifiers,
            },
            UiAction::PointerMove { pos, motion } => UiAction::PointerMove { pos, motion },
            UiAction::PointerUp { pos, button } => UiAction::PointerUp { pos, button },
            UiAction::ScrollEvent { region, delta, modifiers, motion } => UiAction::ScrollEvent {
                region,
                delta,
                modifiers,
                motion,
            },
            UiAction::PinchEvent { region, centroid, factor } => UiAction::PinchEvent {
                region,
                centroid,
                factor,
            },
            UiAction::CancelGesture => UiAction::CancelGesture,
            UiAction::PromoteSelectedToReadingLens => UiAction::PromoteSelectedToReadingLens,
            UiAction::PinReadingPane(id) => UiAction::PinReadingPane(id),
            UiAction::UnpinReadingPane(id) => UiAction::UnpinReadingPane(id),
            UiAction::TogglePinReadingPane(id) => UiAction::TogglePinReadingPane(id),
            UiAction::CloseReadingPane(id) => UiAction::CloseReadingPane(id),
            UiAction::SetCityMode(b) => UiAction::SetCityMode(b),
            UiAction::ProcessInputBatch { max_discrete, pinch_factor } => {
                UiAction::ProcessInputBatch { max_discrete, pinch_factor }
            },
            UiAction::EnqueueDiscreteInput(ev) => UiAction::EnqueueDiscreteInput(ev@),
            UiAction::RecordContinuousMove { pos, pan } => UiAction::RecordContinuousMove {
                pos,
                pan,
            },
            UiAction::RecordContinuousScroll { scroll } => UiAction::RecordContinuousScroll {
                scroll,
            },
            UiAction::PointerClick { target, select } => UiAction::PointerClick { target, select },
            UiAction::KeyboardShortcut(k) => UiAction::KeyboardShortcut(k@),
        }
    }
}

/// Outbound commands (intents) emitted for background workers or host renderers.
/// The reducer never executes I/O synchronously; it routes intents via commands.
#[derive(Debug, PartialEq)]
pub enum UiCommand<T = String> {
    /// Request background worker to perform search.
    DispatchSearch { query: T, query_generation: QueryGeneration },
    /// Request background source provider to capture or read a file.
    RequestCapture { file_id: FileId, path: T },
    /// Request spatial camera movement.
    RequestCameraFocus { target_description: T },
    /// Camera pan translation.
    CameraPan { dx: Scalar, dy: Scalar },
    /// Camera zoom factor adjustment.
    CameraZoom { factor: Scalar },
    /// Camera orbit rotation in City mode.
    CameraOrbit { dx: Scalar, dy: Scalar },
    /// Floating reading pane translated on screen.
    ReadingPaneMoved { pane_id: u64, pos: Point },
    /// Reading pane scrolled internally.
    ReadingPaneScrolled { pane_id: u64, offset: Point },
    /// Text selected inside reading pane.
    ReadingPaneSelectedText { pane_id: u64, range: (usize, usize) },
    /// Notify host to schedule a redraw frame.
    RequestRedraw,
}

impl View for UiCommand {
    type V = UiCommand<Seq<char>>;

    open spec fn view(&self) -> UiCommand<Seq<char>> {
        match *self {
            UiCommand::DispatchSearch { query, query_generation } => UiCommand::DispatchSearch {
                query: query@,
                query_generation,
            },
            UiCommand::RequestCapture { file_id, path } => UiCommand::RequestCapture {
                file_id,
                path: path@,
            },
            UiCommand::RequestCameraFocus { target_description } => UiCommand::RequestCameraFocus {
                target_description: target_description@,
            },
            UiCommand::CameraPan { dx, dy } => UiCommand::CameraPan { dx, dy },
            UiCommand::CameraZoom { factor } => UiCommand::CameraZoom { factor },
            UiCommand::CameraOrbit { dx, dy } => UiCommand::CameraOrbit { dx, dy },
            UiCommand::ReadingPaneMoved { pane_id, pos } => UiCommand::ReadingPaneMoved {
                pane_id,
                pos,
            },
            UiCommand::ReadingPaneScrolled { pane_id, offset } => UiCommand::ReadingPaneScrolled {
                pane_id,
                offset,
            },
            UiCommand::ReadingPaneSelectedText { pane_id, range } => {
                UiCommand::ReadingPaneSelectedText { pane_id, range }
            },
            UiCommand::RequestRedraw => UiCommand::RequestRedraw,
        }
    }
}

/// Category of semantic event recorded in the UI event ring.
#[allow(inconsistent_fields)]
#[derive(Debug, PartialEq, Eq)]
pub enum UiEventKind<T = String> {
    FocusChanged { from: FocusTarget, to: FocusTarget },
    SelectionChanged { path: Option<T> },
    SidebarToggled { is_collapsed: bool },
    PanelChanged { panel: SidebarPanel },
    LensToggled { open: bool },
    SearchQueryUpdated { query: T },
    SearchResultsUpdated { count: usize },
    StaleResultsRejected { current_gen: Option<u64>, rejected_gen: u64 },
    HistoryNavigated { path: T },
    CameraFitRequested { scope: T },
    GestureStarted { kind: GestureKind },
    GestureCompleted { kind: GestureKind },
    GestureCancelled,
    ReadingPaneMoved { pane_id: u64 },
    ReadingPanePinned { pane_id: u64, is_pinned: bool },
    ReadingPaneClosed { pane_id: u64 },
    TextSelectedInLens { pane_id: u64 },
    CityModeToggled { is_city_mode: bool },
}

impl View for UiEventKind {
    type V = UiEventKind<Seq<char>>;

    open spec fn view(&self) -> UiEventKind<Seq<char>> {
        match *self {
            UiEventKind::FocusChanged { from, to } => UiEventKind::FocusChanged { from, to },
            UiEventKind::SelectionChanged { path } => UiEventKind::SelectionChanged {
                path: maybe(path),
            },
            UiEventKind::SidebarToggled { is_collapsed } => UiEventKind::SidebarToggled {
                is_collapsed,
            },
            UiEventKind::PanelChanged { panel } => UiEventKind::PanelChanged { panel },
            UiEventKind::LensToggled { open } => UiEventKind::LensToggled { open },
            UiEventKind::SearchQueryUpdated { query } => UiEventKind::SearchQueryUpdated {
                query: query@,
            },
            UiEventKind::SearchResultsUpdated { count } => UiEventKind::SearchResultsUpdated {
                count,
            },
            UiEventKind::StaleResultsRejected { current_gen, rejected_gen } => {
                UiEventKind::StaleResultsRejected { current_gen, rejected_gen }
            },
            UiEventKind::HistoryNavigated { path } => UiEventKind::HistoryNavigated { path: path@ },
            UiEventKind::CameraFitRequested { scope } => UiEventKind::CameraFitRequested {
                scope: scope@,
            },
            UiEventKind::GestureStarted { kind } => UiEventKind::GestureStarted { kind },
            UiEventKind::GestureCompleted { kind } => UiEventKind::GestureCompleted { kind },
            UiEventKind::GestureCancelled => UiEventKind::GestureCancelled,
            UiEventKind::ReadingPaneMoved { pane_id } => UiEventKind::ReadingPaneMoved { pane_id },
            UiEventKind::ReadingPanePinned { pane_id, is_pinned } => {
                UiEventKind::ReadingPanePinned { pane_id, is_pinned }
            },
            UiEventKind::ReadingPaneClosed { pane_id } => UiEventKind::ReadingPaneClosed {
                pane_id,
            },
            UiEventKind::TextSelectedInLens { pane_id } => UiEventKind::TextSelectedInLens {
                pane_id,
            },
            UiEventKind::CityModeToggled { is_city_mode } => UiEventKind::CityModeToggled {
                is_city_mode,
            },
        }
    }
}

impl Clone for UiEventKind {
    fn clone(&self) -> (r: Self)
        ensures
            r@ == self@,
    {
        match self {
            UiEventKind::FocusChanged { from, to } => UiEventKind::FocusChanged {
                from: *from,
                to: *to,
            },
            UiEventKind::SelectionChanged { path } => UiEventKind::SelectionChanged {
                path: match path {
                    Some(text) => Some(text.clone()),
                    None => None,
                },
            },
            UiEventKind::SidebarToggled { is_collapsed } => UiEventKind::SidebarToggled {
                is_collapsed: *is_collapsed,
            },
            UiEventKind::PanelChanged { panel } => UiEventKind::PanelChanged { panel: *panel },
            UiEventKind::LensToggled { open } => UiEventKind::LensToggled { open: *open },
            UiEventKind::SearchQueryUpdated { query } => UiEventKind::SearchQueryUpdated {
                query: query.clone(),
            },
            UiEventKind::SearchResultsUpdated { count } => UiEventKind::SearchResultsUpdated {
                count: *count,
            },
            UiEventKind::StaleResultsRejected { current_gen, rejected_gen } => {
                UiEventKind::StaleResultsRejected {
                    current_gen: *current_gen,
                    rejected_gen: *rejected_gen,
                }
            },
            UiEventKind::HistoryNavigated { path } => UiEventKind::HistoryNavigated {
                path: path.clone(),
            },
            UiEventKind::CameraFitRequested { scope } => UiEventKind::CameraFitRequested {
                scope: scope.clone(),
            },
            UiEventKind::GestureStarted { kind } => UiEventKind::GestureStarted { kind: *kind },
            UiEventKind::GestureCompleted { kind } => UiEventKind::GestureCompleted {
                kind: *kind,
            },
            UiEventKind::GestureCancelled => UiEventKind::GestureCancelled,
            UiEventKind::ReadingPaneMoved { pane_id } => UiEventKind::ReadingPaneMoved {
                pane_id: *pane_id,
            },
            UiEventKind::ReadingPanePinned { pane_id, is_pinned } => {
                UiEventKind::ReadingPanePinned { pane_id: *pane_id, is_pinned: *is_pinned }
            },
            UiEventKind::ReadingPaneClosed { pane_id } => UiEventKind::ReadingPaneClosed {
                pane_id: *pane_id,
            },
            UiEventKind::TextSelectedInLens { pane_id } => UiEventKind::TextSelectedInLens {
                pane_id: *pane_id,
            },
            UiEventKind::CityModeToggled { is_city_mode } => UiEventKind::CityModeToggled {
                is_city_mode: *is_city_mode,
            },
        }
    }
}

/// A structured event recorded in the bounded event ring.
#[derive(Debug, PartialEq, Eq)]
pub struct UiEvent<T = String> {
    pub seq: u64,
    pub timestamp_nanos: u64,
    pub kind: UiEventKind<T>,
}

impl View for UiEvent {
    type V = UiEvent<Seq<char>>;

    open spec fn view(&self) -> UiEvent<Seq<char>> {
        UiEvent { seq: self.seq, timestamp_nanos: self.timestamp_nanos, kind: self.kind@ }
    }
}

/// The recorded events, oldest first, and how many are kept.
pub ghost struct RingModel {
    pub events: Seq<UiEvent<Seq<char>>>,
    pub capacity: nat,
}

impl RingModel {
    pub open spec fn push(self, event: UiEvent<Seq<char>>) -> RingModel {
        RingModel { events: newest(self.events.push(event), self.capacity), ..self }
    }
}

/// Bounded ring buffer of recent UI state transitions.
#[derive(Debug, PartialEq)]
pub struct UiEventRing {
    events: VecDeque<UiEvent>,
    capacity: usize,
}

impl View for UiEventRing {
    type V = RingModel;

    closed spec fn view(&self) -> RingModel {
        RingModel { events: views(self.events@), capacity: self.capacity as nat }
    }
}

impl UiEventRing {
    pub const DEFAULT_CAPACITY: usize = 256;

    /// There is room for an event, and never more events than room.
    pub open spec fn wf(self) -> bool {
        0 < self@.capacity && self@.events.len() <= self@.capacity
    }

    pub fn new(capacity: usize) -> (r: Self)
        ensures
            r.wf(),
            r@ == (RingModel {
                events: Seq::empty(),
                capacity: if capacity == 0 {
                    Self::DEFAULT_CAPACITY as nat
                } else {
                    capacity as nat
                },
            }),
    {
        let cap: usize = if capacity == 0 {
            Self::DEFAULT_CAPACITY
        } else {
            capacity
        };
        let r = UiEventRing { events: VecDeque::new(), capacity: cap };
        assert(r@.events =~= Seq::empty());
        r
    }

    /// Records an event; the oldest leaves when there is no room.
    pub fn push(&mut self, event: UiEvent)
        requires
            old(self).wf(),
        ensures
            final(self).wf(),
            final(self)@ == old(self)@.push(event@),
    {
        broadcast use group_views;

        let ghost target = old(self)@.push(event@).events;
        if self.events.len() >= self.capacity {
            self.events.pop_front();
        }
        self.events.push_back(event);
        assert(self@.events =~= target);
    }

    pub fn len(&self) -> (r: usize)
        ensures
            r == self@.events.len(),
    {
        self.events.len()
    }

    pub fn is_empty(&self) -> (r: bool)
        ensures
            r == (self@.events.len() == 0),
    {
        self.events.len() == 0
    }

    pub fn last(&self) -> (r: Option<&UiEvent>)
        ensures
            r is Some <==> self@.events.len() > 0,
            r matches Some(event) ==> event@ == self@.events.last(),
    {
        let n: usize = self.events.len();
        if n == 0 {
            None
        } else {
            Some(&self.events[n - 1])
        }
    }

    /// The recorded events, oldest first.
    pub fn iter(&self) -> (r: &VecDeque<UiEvent>)
        ensures
            views(r@) == self@.events,
    {
        &self.events
    }
}

impl Default for UiEventRing {
    fn default() -> (r: Self)
        ensures
            r.wf(),
            r@ == (RingModel {
                events: Seq::empty(),
                capacity: UiEventRing::DEFAULT_CAPACITY as nat,
            }),
    {
        UiEventRing::new(UiEventRing::DEFAULT_CAPACITY)
    }
}

/// What a reduction hands back.
pub ghost struct OutcomeModel {
    pub commands: Seq<UiCommand<Seq<char>>>,
    pub emitted_events: Seq<UiEventKind<Seq<char>>>,
    pub changed: bool,
}

impl OutcomeModel {
    /// Nothing happened.
    pub open spec fn nothing() -> OutcomeModel {
        OutcomeModel { commands: Seq::empty(), emitted_events: Seq::empty(), changed: false }
    }
}

/// Result of reducing an action against the UI state.
#[derive(Debug, PartialEq)]
pub struct UiReductionOutcome {
    pub commands: Vec<UiCommand>,
    pub emitted_events: Vec<UiEventKind>,
    pub changed: bool,
}

impl View for UiReductionOutcome {
    type V = OutcomeModel;

    open spec fn view(&self) -> OutcomeModel {
        OutcomeModel {
            commands: views(self.commands@),
            emitted_events: views(self.emitted_events@),
            changed: self.changed,
        }
    }
}

impl Default for UiReductionOutcome {
    fn default() -> (r: Self)
        ensures
            r@ == OutcomeModel::nothing(),
    {
        let r = UiReductionOutcome {
            commands: Vec::new(),
            emitted_events: Vec::new(),
            changed: false,
        };
        assert(r@.commands =~= Seq::empty());
        assert(r@.emitted_events =~= Seq::empty());
        r
    }
}

/// The whole interface state.
pub ghost struct UiModel {
    pub owner: ArenaOwnerId,
    pub focus: FocusModel,
    pub selected_file: Option<(FileId, Seq<char>)>,
    pub reading_lens_open: bool,
    pub reading_lens_file: Option<(FileId, Seq<char>, Option<usize>)>,
    pub search_palette_open: bool,
    pub sidebar: SidebarModel,
    pub breadcrumbs: BreadcrumbsModel,
    pub tree: TreeModel,
    pub active_query_generation: Option<QueryGeneration>,
    pub event_ring: RingModel,
    pub seq_counter: u64,
    pub gesture: GestureState,
    pub mailbox: MailboxModel,
    pub panes: PanesModel,
    pub is_city_mode: bool,
}

impl UiModel {
    /// An interface that nothing was done with: the focus is on the atlas.
    pub open spec fn fresh(owner: ArenaOwnerId) -> UiModel {
        UiModel {
            owner,
            focus: FocusModel::at(FocusTarget::Atlas),
            selected_file: None,
            reading_lens_open: false,
            reading_lens_file: None,
            search_palette_open: false,
            sidebar: SidebarModel::fresh(),
            breadcrumbs: BreadcrumbsModel::of_path(Seq::empty()),
            tree: TreeModel::blank(),
            active_query_generation: None,
            event_ring: RingModel {
                events: Seq::empty(),
                capacity: UiEventRing::DEFAULT_CAPACITY as nat,
            },
            seq_counter: 0,
            gesture: GestureState::Idle,
            mailbox: MailboxModel::blank(MotionMailbox::DEFAULT_QUEUE_CAPACITY as nat),
            panes: PanesModel { panes: Seq::empty(), active: None, next_id: 1 },
            is_city_mode: false,
        }
    }

    /// The file shown by the active pane.
    pub open spec fn lens_file(self) -> Option<(FileId, Seq<char>, Option<usize>)> {
        match self.panes.active_pane() {
            Some(pane) => Some((pane.file_id, pane.path, pane.target_line)),
            None => None,
        }
    }
}

/// Complete authoritative state of the user interface.
#[derive(Debug, PartialEq)]
pub struct UiState {
    pub owner: ArenaOwnerId,
    pub focus: FocusManager,
    pub selected_file: Option<(FileId, String)>,
    pub reading_lens_open: bool,
    pub reading_lens_file: Option<(FileId, String, Option<usize>)>,
    pub search_palette_open: bool,
    pub sidebar: SidebarState,
    pub breadcrumbs: ScopeBreadcrumbs,
    pub tree: TreeProjection,
    pub active_query_generation: Option<QueryGeneration>,
    pub event_ring: UiEventRing,
    pub seq_counter: u64,
    pub gesture_arbitrator: GestureArbitrator,
    pub motion_mailbox: MotionMailbox,
    pub reading_panes: ReadingPaneManager,
    pub is_city_mode: bool,
}

impl View for UiState {
    type V = UiModel;

    open spec fn view(&self) -> UiModel {
        UiModel {
            owner: self.owner,
            focus: self.focus@,
            selected_file: match self.selected_file {
                Some((file, path)) => Some((file, path@)),
                None => None,
            },
            reading_lens_open: self.reading_lens_open,
            reading_lens_file: match self.reading_lens_file {
                Some((file, path, line)) => Some((file, path@, line)),
                None => None,
            },
            search_palette_open: self.search_palette_open,
            sidebar: self.sidebar@,
            breadcrumbs: self.breadcrumbs@,
            tree: self.tree@,
            active_query_generation: self.active_query_generation,
            event_ring: self.event_ring@,
            seq_counter: self.seq_counter,
            gesture: self.gesture_arbitrator@,
            mailbox: self.motion_mailbox@,
            panes: self.reading_panes@,
            is_city_mode: self.is_city_mode,
        }
    }
}

impl UiState {
    /// Every part keeps its own bounds.
    pub open spec fn wf(self) -> bool {
        &&& self.focus.wf()
        &&& self.sidebar.wf()
        &&& self.breadcrumbs.wf()
        &&& self.tree@.wf()
        &&& self.event_ring.wf()
        &&& self.motion_mailbox.wf()
    }

    pub fn new(owner: ArenaOwnerId) -> (r: Self)
        ensures
            r.wf(),
            r@ == UiModel::fresh(owner),
    {
        UiState {
            owner,
            focus: FocusManager::new(FocusTarget::Atlas),
            selected_file: None,
            reading_lens_open: false,
            reading_lens_file: None,
            search_palette_open: false,
            sidebar: SidebarState::new(),
            breadcrumbs: ScopeBreadcrumbs::new(),
            tree: TreeProjection::new(),
            active_query_generation: None,
            event_ring: UiEventRing::default(),
            seq_counter: 0,
            gesture_arbitrator: GestureArbitrator::new(),
            motion_mailbox: MotionMailbox::default(),
            reading_panes: ReadingPaneManager::new(),
            is_city_mode: false,
        }
    }

    pub(crate) fn record_event(&mut self, kind: UiEventKind, timestamp_nanos: u64)
        requires
            old(self).wf(),
        ensures
            final(self).wf(),
            final(self)@ == old(self)@.record_event(kind@, timestamp_nanos),
    {
        self.seq_counter = self.seq_counter.wrapping_add(1);
        self.event_ring.push(UiEvent { seq: self.seq_counter, timestamp_nanos, kind });
    }
}

impl UiModel {
    /// The state with one more logged event.
    pub open spec fn record_event(self, kind: UiEventKind<Seq<char>>, now: u64) -> UiModel {
        let seq = self.seq_counter.wrapping_add(1);
        UiModel {
            seq_counter: seq,
            event_ring: self.event_ring.push(UiEvent { seq, timestamp_nanos: now, kind }),
            ..self
        }
    }
}

/// The state together with what was handed back so far.
pub ghost struct Step {
    pub state: UiModel,
    pub outcome: OutcomeModel,
}

/// Pairs a state with an outcome.
pub open spec fn step_of(state: UiState, outcome: UiReductionOutcome) -> Step {
    Step { state: state@, outcome: outcome@ }
}

impl Step {
    pub open spec fn with(self, state: UiModel) -> Step {
        Step { state, ..self }
    }

    /// Logs an event and hands it back.
    pub open spec fn emit(self, kind: UiEventKind<Seq<char>>, now: u64) -> Step {
        Step {
            state: self.state.record_event(kind, now),
            outcome: OutcomeModel {
                emitted_events: self.outcome.emitted_events.push(kind),
                ..self.outcome
            },
        }
    }

    pub open spec fn command(self, command: UiCommand<Seq<char>>) -> Step {
        Step {
            outcome: OutcomeModel {
                commands: self.outcome.commands.push(command),
                ..self.outcome
            },
            ..self
        }
    }

    pub open spec fn changed(self) -> Step {
        Step { outcome: OutcomeModel { changed: true, ..self.outcome }, ..self }
    }

    /// The state changed and must be shown.
    pub open spec fn redraw(self) -> Step {
        self.changed().command(UiCommand::RequestRedraw)
    }

    /// Focus moves; a real move is logged and shown.
    #[verifier::opaque]
    pub open spec fn focus_to(self, target: FocusTarget, now: u64) -> Step {
        let from = self.state.focus.current;
        let moved = self.with(UiModel { focus: self.state.focus.set_focus(target), ..self.state });
        if from == target {
            moved
        } else {
            moved.emit(UiEventKind::FocusChanged { from, to: target }, now).redraw()
        }
    }

    #[verifier::opaque]
    pub open spec fn focus_return(self, now: u64) -> Step {
        let from = self.state.focus.current;
        let back = self.state.focus.return_focus();
        if self.state.focus.stack.targets.len() == 0 {
            self
        } else {
            self.with(UiModel { focus: back, ..self.state }).emit(
                UiEventKind::FocusChanged { from, to: back.current },
                now,
            ).redraw()
        }
    }

    #[verifier::opaque]
    pub open spec fn select_file(self, file_id: FileId, path: Seq<char>, now: u64) -> Step {
        let s = self.state;
        self.with(
            UiModel {
                selected_file: Some((file_id, path)),
                sidebar: SidebarModel {
                    inspector: InspectorModel {
                        file_id: Some(file_id),
                        file_path: Some(path),
                        ..s.sidebar.inspector
                    },
                    history: s.sidebar.history.push(
                        HistoryItem {
                            id: s.seq_counter.wrapping_add(1),
                            path,
                            description: "Selected file "@ + path,
                            timestamp_nanos: now,
                        },
                    ),
                    ..s.sidebar
                },
                breadcrumbs: BreadcrumbsModel::of_path(path),
                ..s
            },
        ).emit(UiEventKind::SelectionChanged { path: Some(path) }, now).command(
            UiCommand::RequestCapture { file_id, path },
        ).redraw()
    }

    #[verifier::opaque]
    pub open spec fn clear_selection(self, now: u64) -> Step {
        let s = self.state;
        if s.selected_file is None {
            self
        } else {
            self.with(
                UiModel {
                    selected_file: None,
                    sidebar: SidebarModel { inspector: InspectorModel::blank(), ..s.sidebar },
                    ..s
                },
            ).emit(UiEventKind::SelectionChanged { path: None }, now).redraw()
        }
    }

    #[verifier::opaque]
    pub open spec fn collapse_sidebar(self, is_collapsed: bool, now: u64) -> Step {
        self.with(
            UiModel { sidebar: SidebarModel { is_collapsed, ..self.state.sidebar }, ..self.state },
        ).emit(UiEventKind::SidebarToggled { is_collapsed }, now).redraw()
    }

    #[verifier::opaque]
    pub open spec fn set_sidebar_width(self, width: Scalar, change: Scalar) -> Step {
        let bar = self.state.sidebar;
        if change.noticeable() {
            self.with(
                UiModel {
                    sidebar: SidebarModel {
                        width: width.clamped(bar.min_width, bar.max_width),
                        ..bar
                    },
                    ..self.state
                },
            ).redraw()
        } else {
            self
        }
    }

    #[verifier::opaque]
    pub open spec fn select_tab(self, panel: SidebarPanel, now: u64) -> Step {
        if self.state.sidebar.active_panel == panel {
            self
        } else {
            self.with(
                UiModel {
                    sidebar: SidebarModel { active_panel: panel, ..self.state.sidebar },
                    ..self.state
                },
            ).emit(UiEventKind::PanelChanged { panel }, now).redraw()
        }
    }

    #[verifier::opaque]
    pub open spec fn open_lens(
        self,
        file_id: FileId,
        path: Seq<char>,
        line: Option<usize>,
        now: u64,
    ) -> Step {
        self.with(
            UiModel {
                panes: self.state.panes.open_or_focus(file_id, path, line),
                reading_lens_open: true,
                reading_lens_file: Some((file_id, path, line)),
                focus: self.state.focus.set_focus(FocusTarget::ReadingLens),
                ..self.state
            },
        ).emit(UiEventKind::LensToggled { open: true }, now).command(
            UiCommand::RequestCapture { file_id, path },
        ).redraw()
    }

    /// The lens mirrors the panes that are left.
    #[verifier::opaque]
    pub open spec fn lens_follows_panes(self) -> Step {
        self.with(
            UiModel {
                reading_lens_open: self.state.panes.panes.len() > 0,
                reading_lens_file: self.state.lens_file(),
                ..self.state
            },
        )
    }

    /// The pane that backing out closes leaves.
    #[verifier::opaque]
    pub open spec fn close_top(self, now: u64) -> Step {
        let closed = self.with(
            UiModel { panes: self.state.panes.close_active_or_top_unpinned(), ..self.state },
        );
        match self.state.panes.closing() {
            Some(pane_id) => closed.emit(UiEventKind::ReadingPaneClosed { pane_id }, now),
            None => closed,
        }
    }

    /// A closed lens gives the focus back; with `only_from_lens`, only when the
    /// lens had it.
    #[verifier::opaque]
    pub open spec fn settle_focus(self, only_from_lens: bool) -> Step {
        if self.state.reading_lens_open || (only_from_lens && self.state.focus.current
            != FocusTarget::ReadingLens) {
            self
        } else {
            self.with(UiModel { focus: self.state.focus.return_focus(), ..self.state })
        }
    }

    #[verifier::opaque]
    pub open spec fn close_lens(self, now: u64) -> Step {
        let s = self.state;
        if s.panes.panes.len() > 0 {
            let settled = self.close_top(now).lens_follows_panes().settle_focus(false);
            settled.emit(
                UiEventKind::LensToggled { open: settled.state.reading_lens_open },
                now,
            ).redraw()
        } else if s.reading_lens_open {
            self.with(
                UiModel {
                    reading_lens_open: false,
                    reading_lens_file: None,
                    focus: s.focus.return_focus(),
                    ..s
                },
            ).emit(UiEventKind::LensToggled { open: false }, now).redraw()
        } else {
            self
        }
    }

    #[verifier::opaque]
    pub open spec fn open_palette(self) -> Step {
        if self.state.search_palette_open {
            self
        } else {
            self.with(
                UiModel {
                    search_palette_open: true,
                    focus: self.state.focus.set_focus(FocusTarget::SearchPalette),
                    ..self.state
                },
            ).redraw()
        }
    }

    #[verifier::opaque]
    pub open spec fn close_palette(self) -> Step {
        if self.state.search_palette_open {
            self.with(
                UiModel {
                    search_palette_open: false,
                    focus: self.state.focus.return_focus(),
                    ..self.state
                },
            ).redraw()
        } else {
            self
        }
    }

    /// A changed query starts a fresh attempt, numbered from the event counter.
    #[verifier::opaque]
    pub open spec fn query_changed(self, query: Seq<char>, now: u64) -> Step {
        let s = self.state;
        let value = s.seq_counter.wrapping_add(100);
        let typed = UiModel {
            sidebar: SidebarModel {
                results: ResultsModel { query, is_searching: true, ..s.sidebar.results },
                ..s.sidebar
            },
            ..s
        };
        let asked = if value == 0 {
            self.with(typed)
        } else {
            let query_generation = QueryGeneration { owner: s.owner, value };
            self.with(
                UiModel {
                    active_query_generation: Some(query_generation),
                    sidebar: SidebarModel {
                        results: ResultsModel {
                            query_generation: Some(query_generation),
                            ..typed.sidebar.results
                        },
                        ..typed.sidebar
                    },
                    ..typed
                },
            ).command(UiCommand::DispatchSearch { query, query_generation })
        };
        asked.emit(UiEventKind::SearchQueryUpdated { query }, now).redraw()
    }

    /// Only results of the running attempt are published.
    #[verifier::opaque]
    pub open spec fn results_received(
        self,
        query_generation: QueryGeneration,
        results: Seq<SearchResultEntry<Seq<char>>>,
        has_more: bool,
        now: u64,
    ) -> Step {
        let s = self.state;
        if s.active_query_generation == Some(query_generation) {
            self.with(
                UiModel {
                    sidebar: SidebarModel {
                        results: ResultsModel {
                            results,
                            has_more,
                            is_searching: false,
                            selected_index: if results.len() == 0 {
                                None
                            } else {
                                Some(0)
                            },
                            ..s.sidebar.results
                        },
                        ..s.sidebar
                    },
                    ..s
                },
            ).emit(
                UiEventKind::SearchResultsUpdated { count: results.len() as usize },
                now,
            ).redraw()
        } else {
            self.emit(
                UiEventKind::StaleResultsRejected {
                    current_gen: match s.active_query_generation {
                        Some(current) => Some(current.value),
                        None => None,
                    },
                    rejected_gen: query_generation.value,
                },
                now,
            )
        }
    }

    #[verifier::opaque]
    pub open spec fn select_next_result(self) -> Step {
        let s = self.state;
        let moved = self.with(
            UiModel {
                sidebar: SidebarModel { results: s.sidebar.results.select_next(), ..s.sidebar },
                ..s
            },
        );
        if s.sidebar.results.results.len() > 0 {
            moved.redraw()
        } else {
            moved
        }
    }

    #[verifier::opaque]
    pub open spec fn select_prev_result(self) -> Step {
        let s = self.state;
        let results = s.sidebar.results.select_prev();
        let moved = self.with(
            UiModel { sidebar: SidebarModel { results, ..s.sidebar }, ..s },
        );
        if s.sidebar.results.results.len() > 0 && row_item(
            results.results,
            results.selected_index,
        ) is Some {
            moved.redraw()
        } else {
            moved
        }
    }

    #[verifier::opaque]
    pub open spec fn activate_result(self) -> Step {
        let s = self.state;
        match row_item(s.sidebar.results.results, s.sidebar.results.selected_index) {
            None => self,
            Some(entry) => {
                let uncovered = if s.focus.current == FocusTarget::SearchPalette {
                    s.focus.return_focus()
                } else {
                    s.focus
                };
                self.with(
                    UiModel {
                        search_palette_open: false,
                        focus: uncovered.set_focus(FocusTarget::ReadingLens),
                        selected_file: Some((entry.file_id, entry.path)),
                        reading_lens_open: true,
                        reading_lens_file: Some(
                            (entry.file_id, entry.path, Some(entry.line_number)),
                        ),
                        ..s
                    },
                ).command(
                    UiCommand::RequestCapture { file_id: entry.file_id, path: entry.path },
                ).redraw()
            },
        }
    }

    #[verifier::opaque]
    pub open spec fn tree_select(self, id: TreeNodeId) -> Step {
        let s = self.state;
        match s.tree.node(id) {
            None => self,
            Some(node) => {
                let picked = UiModel { tree: s.tree.select(id), ..s };
                let shown = UiModel { breadcrumbs: BreadcrumbsModel::of_path(node.path), ..picked };
                if node.kind is File {
                    match node.file_id {
                        Some(file_id) => self.with(
                            UiModel { selected_file: Some((file_id, node.path)), ..shown },
                        ).command(UiCommand::RequestCapture { file_id, path: node.path }).redraw(),
                        None => self.with(picked).redraw(),
                    }
                } else {
                    self.with(shown).redraw()
                }
            },
        }
    }

    #[verifier::opaque]
    pub open spec fn tree_toggle(self, id: TreeNodeId) -> Step {
        let moved = self.with(UiModel { tree: self.state.tree.toggle(id), ..self.state });
        if self.state.tree.refusal(id) is None {
            moved.redraw()
        } else {
            moved
        }
    }

    #[verifier::opaque]
    pub open spec fn tree_navigate(self, direction: FocusDirection) -> Step {
        let before = self.state.tree;
        let after = match direction {
            FocusDirection::Up => before.move_up(),
            FocusDirection::Down => before.move_down(),
            FocusDirection::Left => before.move_left(),
            FocusDirection::Right => before.move_right(),
            _ => before,
        };
        let moved = match direction {
            FocusDirection::Up | FocusDirection::Down => before.visible_rows.len() > 0
                && after.focused_node() is Some,
            FocusDirection::Left => before.focused_node() is Some && after.focused_node() is Some,
            FocusDirection::Right => before.focused_node() is Some,
            _ => false,
        };
        let next = self.with(UiModel { tree: after, ..self.state });
        if moved {
            next.redraw()
        } else {
            next
        }
    }

    #[verifier::opaque]
    pub open spec fn breadcrumb_navigate(self, direction: FocusDirection) -> Step {
        let before = self.state.breadcrumbs;
        let after = match direction {
            FocusDirection::Left => before.navigate_left(),
            FocusDirection::Right => before.navigate_right(),
            _ => before,
        };
        let moved = before.segments.len() > 0 && match direction {
            FocusDirection::Left => row_item(after.segments, after.focused_index) is Some,
            FocusDirection::Right => true,
            _ => false,
        };
        let next = self.with(UiModel { breadcrumbs: after, ..self.state });
        if moved {
            next.redraw()
        } else {
            next
        }
    }

    #[verifier::opaque]
    pub open spec fn breadcrumb_select(self, index: usize) -> Step {
        let before = self.state.breadcrumbs;
        if index < before.segments.len() {
            self.with(
                UiModel { breadcrumbs: before.truncate_to(index), ..self.state },
            ).changed().command(
                UiCommand::RequestCameraFocus {
                    target_description: before.segments[index as int].label,
                },
            ).redraw()
        } else {
            self
        }
    }

    /// A place is shown in the trail and on the atlas.
    #[verifier::opaque]
    pub open spec fn show_place(self, path: Seq<char>, now: u64) -> Step {
        self.with(
            UiModel { breadcrumbs: BreadcrumbsModel::of_path(path), ..self.state },
        ).emit(UiEventKind::HistoryNavigated { path }, now).command(
            UiCommand::RequestCameraFocus { target_description: path },
        ).redraw()
    }

    /// A visited place is shown again.
    #[verifier::opaque]
    pub open spec fn revisit(self, history: HistoryModel, moved: bool, now: u64) -> Step {
        let s = self.state;
        let walked = UiModel { sidebar: SidebarModel { history, ..s.sidebar }, ..s };
        match row_item(history.entries, history.current_index) {
            Some(item) if moved => self.with(walked).show_place(item.path, now),
            _ => self.with(walked),
        }
    }

    #[verifier::opaque]
    pub open spec fn fit(self, scope: Seq<char>, target: Seq<char>, now: u64) -> Step {
        self.emit(UiEventKind::CameraFitRequested { scope }, now).command(
            UiCommand::RequestCameraFocus { target_description: target },
        )
    }

    #[verifier::opaque]
    pub open spec fn pointer_click(self, target: FocusTarget, select: bool, now: u64) -> Step {
        let from = self.state.focus.current;
        let moved = if from == target {
            self
        } else {
            self.with(
                UiModel { focus: self.state.focus.set_focus(target), ..self.state },
            ).emit(UiEventKind::FocusChanged { from, to: target }, now).changed()
        };
        let seen = if select {
            moved.changed()
        } else {
            moved
        };
        seen.command(UiCommand::RequestRedraw)
    }

    #[verifier::opaque]
    pub open spec fn promote(self, now: u64) -> Step {
        match self.state.selected_file {
            Some((file_id, path)) => self.open_lens(file_id, path, None, now),
            None => self,
        }
    }

    /// A pane got a new pin state.
    #[verifier::opaque]
    pub open spec fn pinned(self, panes: PanesModel, pane_id: u64, now: u64) -> Step {
        match panes.pane(pane_id) {
            Some(pane) => self.with(UiModel { panes, ..self.state }).emit(
                UiEventKind::ReadingPanePinned { pane_id, is_pinned: pane.is_pinned },
                now,
            ).redraw(),
            None => self,
        }
    }

    #[verifier::opaque]
    pub open spec fn close_pane(self, pane_id: u64, now: u64) -> Step {
        let s = self.state;
        if s.panes.pane(pane_id) is Some {
            self.with(UiModel { panes: s.panes.close_pane(pane_id), ..s }).emit(
                UiEventKind::ReadingPaneClosed { pane_id },
                now,
            ).lens_follows_panes().settle_focus(true).redraw()
        } else {
            self
        }
    }

    #[verifier::opaque]
    pub open spec fn set_city_mode(self, is_city_mode: bool, now: u64) -> Step {
        if self.state.is_city_mode == is_city_mode {
            self
        } else {
            self.with(UiModel { is_city_mode, ..self.state }).emit(
                UiEventKind::CityModeToggled { is_city_mode },
                now,
            ).redraw()
        }
    }

    /// A press may start a gesture, and hands the focus to the pressed surface.
    #[verifier::opaque]
    pub open spec fn pointer_down(
        self,
        region: HitRegion,
        pos: Point,
        button: PointerButton,
        modifiers: ModifierKeys,
        now: u64,
    ) -> Step {
        self.press(region, pos, button, modifiers, now).focus_surface(region, now)
    }

    /// A press on a draggable region starts a gesture unless one is running.
    #[verifier::opaque]
    pub open spec fn press(
        self,
        region: HitRegion,
        pos: Point,
        button: PointerButton,
        modifiers: ModifierKeys,
        now: u64,
    ) -> Step {
        let s = self.state;
        let pressed = self.with(
            UiModel {
                gesture: s.gesture.press(region, pos, button, modifiers, s.is_city_mode),
                ..s
            },
        );
        match drag_kind(region, button, modifiers, s.is_city_mode) {
            Some(kind) if !s.gesture.active() => pressed.emit(
                UiEventKind::GestureStarted { kind },
                now,
            ).changed(),
            _ => pressed,
        }
    }

    /// A pressed pane becomes active and its lens gets the focus.
    #[verifier::opaque]
    pub open spec fn raise_pane(self, pane_id: u64, now: u64) -> Step {
        let raised = self.with(
            UiModel {
                panes: PanesModel { active: Some(pane_id), ..self.state.panes },
                ..self.state
            },
        );
        let from = raised.state.focus.current;
        let focused = if from == FocusTarget::ReadingLens {
            raised
        } else {
            raised.with(
                UiModel {
                    focus: raised.state.focus.set_focus(FocusTarget::ReadingLens),
                    ..raised.state
                },
            ).emit(UiEventKind::FocusChanged { from, to: FocusTarget::ReadingLens }, now)
        };
        focused.redraw()
    }

    /// The pressed surface gets the focus.
    #[verifier::opaque]
    pub open spec fn focus_surface(self, region: HitRegion, now: u64) -> Step {
        match region {
            HitRegion::ReadingLensBody(pane_id) => self.raise_pane(pane_id, now),
            HitRegion::ReadingLensTitleBar(pane_id) => self.raise_pane(pane_id, now),
            HitRegion::AtlasBackground => self.focus_to(FocusTarget::Atlas, now),
            HitRegion::SidebarContent | HitRegion::SidebarSplitter => self.focus_to(
                FocusTarget::Sidebar(self.state.sidebar.active_panel),
                now,
            ),
            HitRegion::Breadcrumbs => self.focus_to(FocusTarget::Breadcrumbs, now),
            HitRegion::SearchPalette => self.focus_to(FocusTarget::SearchPalette, now),
            HitRegion::TreeProjection => self.focus_to(FocusTarget::TreeProjection, now),
        }
    }

    /// A dragged pane lands at a place.
    #[verifier::opaque]
    pub open spec fn drag_pane(self, pane_id: u64, target: Point, now: u64) -> Step {
        let panes = self.state.panes.translate_pane(pane_id, target);
        let dragged = self.with(UiModel { panes, ..self.state });
        let told = match panes.pane(pane_id) {
            Some(pane) => dragged.command(
                UiCommand::ReadingPaneMoved { pane_id, pos: pane.position },
            ),
            None => dragged,
        };
        told.emit(UiEventKind::ReadingPaneMoved { pane_id }, now).redraw()
    }

    /// A text selection in a pane grows.
    #[verifier::opaque]
    pub open spec fn select_text(self, pane_id: u64, extent: usize, now: u64) -> Step {
        self.emit(UiEventKind::TextSelectedInLens { pane_id }, now).command(
            UiCommand::ReadingPaneSelectedText { pane_id, range: (0, extent) },
        ).redraw()
    }

    /// The sidebar takes a width within its bounds.
    #[verifier::opaque]
    pub open spec fn resize_sidebar(self, width: Scalar) -> Step {
        let bar = self.state.sidebar;
        self.with(
            UiModel {
                sidebar: SidebarModel { width: width.clamped(bar.min_width, bar.max_width), ..bar },
                ..self.state
            },
        ).redraw()
    }

    /// Motion drives the gesture that owns the pointer.
    #[verifier::opaque]
    pub open spec fn pointer_move(self, pos: Point, motion: PointerMotion, now: u64) -> Step {
        let delta = motion.step.delta;
        let moved = self.with(
            UiModel { gesture: self.state.gesture.moved(pos, motion.step), ..self.state },
        );
        match self.state.gesture.kind() {
            None => moved,
            Some(GestureKind::LensDrag { pane_id }) => moved.changed().drag_pane(
                pane_id,
                motion.pane_target,
                now,
            ),
            Some(GestureKind::TextSelect { pane_id }) => moved.changed().select_text(
                pane_id,
                motion.text_extent,
                now,
            ),
            Some(GestureKind::SidebarResize) => moved.changed().resize_sidebar(
                motion.sidebar_width,
            ),
            Some(GestureKind::CameraPan) => moved.changed().command(
                UiCommand::CameraPan { dx: delta.0, dy: delta.1 },
            ).redraw(),
            Some(GestureKind::CameraOrbit) => moved.changed().command(
                UiCommand::CameraOrbit { dx: delta.0, dy: delta.1 },
            ).redraw(),
            Some(GestureKind::PinchZoom) => moved.changed(),
        }
    }

    #[verifier::opaque]
    pub open spec fn pointer_up(self, now: u64) -> Step {
        match self.state.gesture.kind() {
            Some(kind) => self.with(UiModel { gesture: GestureState::Idle, ..self.state }).emit(
                UiEventKind::GestureCompleted { kind },
                now,
            ).redraw(),
            None => self,
        }
    }

    #[verifier::opaque]
    pub open spec fn scroll(
        self,
        region: HitRegion,
        delta: Point,
        modifiers: ModifierKeys,
        motion: ScrollMotion,
    ) -> Step {
        match scroll_route(region, delta, modifiers, motion.zoom_factor) {
            ScrollRouting::LensScroll { pane_id, .. } => {
                let panes = self.state.panes.scroll_pane(pane_id, motion.pane_target);
                let scrolled = self.with(UiModel { panes, ..self.state });
                let told = match panes.pane(pane_id) {
                    Some(pane) => scrolled.command(
                        UiCommand::ReadingPaneScrolled { pane_id, offset: pane.scroll_offset },
                    ),
                    None => scrolled,
                };
                told.redraw()
            },
            ScrollRouting::AtlasPan { dx, dy } => self.command(
                UiCommand::CameraPan { dx, dy },
            ).redraw(),
            ScrollRouting::AtlasZoom { factor } => self.command(
                UiCommand::CameraZoom { factor },
            ).redraw(),
            ScrollRouting::SidebarScroll { .. } => self.redraw(),
            ScrollRouting::TreeScroll { .. } => self.redraw(),
            ScrollRouting::Ignored => self,
        }
    }

    #[verifier::opaque]
    pub open spec fn pinch(self, region: HitRegion, factor: Scalar) -> Step {
        if region == HitRegion::AtlasBackground {
            self.command(UiCommand::CameraZoom { factor }).redraw()
        } else {
            self
        }
    }

    #[verifier::opaque]
    pub open spec fn cancel_gesture(self, now: u64) -> Step {
        if self.state.gesture.active() {
            self.with(UiModel { gesture: GestureState::Cancelled, ..self.state }).emit(
                UiEventKind::GestureCancelled,
                now,
            ).redraw()
        } else {
            self
        }
    }

    /// The coalesced motion becomes camera commands.
    #[verifier::opaque]
    pub open spec fn apply_motion(self, pinch_factor: Scalar) -> Step {
        let s = self.state;
        let taken = self.with(UiModel { mailbox: s.mailbox.take_motion(), ..s });
        match s.mailbox.motion() {
            None => taken,
            Some(motion) => {
                let panned = if point_noticeable(motion.pan_delta) {
                    taken.changed().command(
                        UiCommand::CameraPan { dx: motion.pan_delta.0, dy: motion.pan_delta.1 },
                    )
                } else {
                    taken.changed()
                };
                let scrolled = if point_noticeable(motion.scroll_delta) {
                    panned.command(
                        UiCommand::CameraPan {
                            dx: motion.scroll_delta.0,
                            dy: motion.scroll_delta.1,
                        },
                    )
                } else {
                    panned
                };
                let zoomed = if motion.pinch_magnification.noticeable() {
                    scrolled.command(UiCommand::CameraZoom { factor: pinch_factor })
                } else {
                    scrolled
                };
                zoomed.command(UiCommand::RequestRedraw)
            },
        }
    }

    /// One queued input takes effect.
    #[verifier::opaque]
    pub open spec fn discrete(self, event: DiscreteInputEvent<Seq<char>>, now: u64) -> Step {
        match event {
            DiscreteInputEvent::PointerDown { region, pos, button, modifiers } => self.pointer_down(
                region,
                pos,
                button,
                modifiers,
                now,
            ),
            DiscreteInputEvent::PointerUp { .. } => self.pointer_up(now),
            DiscreteInputEvent::KeyDown { key, .. } => self.shortcut(key, now),
            DiscreteInputEvent::KeyUp { .. } => self,
            DiscreteInputEvent::FocusTargetSelected(target) => self.focus_to(target, now),
            DiscreteInputEvent::MarkedTextCommit(text) => self.query_changed(text, now),
        }
    }

    /// Queued inputs take effect in order, from position `i` on.
    pub open spec fn discrete_all(
        self,
        events: Seq<DiscreteInputEvent<Seq<char>>>,
        i: int,
        now: u64,
    ) -> Step
        decreases events.len() - i,
    {
        if i < 0 || i >= events.len() {
            self
        } else {
            self.discrete(events[i], now).discrete_all(events, i + 1, now)
        }
    }

    #[verifier::opaque]
    pub open spec fn process_batch(self, max: nat, pinch_factor: Scalar, now: u64) -> Step {
        let moved = self.apply_motion(pinch_factor);
        let mailbox = moved.state.mailbox;
        moved.with(UiModel { mailbox: mailbox.drained(max), ..moved.state }).discrete_all(
            mailbox.batch(max),
            0,
            now,
        )
    }

    /// Escape backs out of the innermost thing: the gesture, then the palette,
    /// then the lens, then the focus.
    #[verifier::opaque]
    pub open spec fn escape(self, now: u64) -> Step {
        let s = self.state;
        if s.gesture.active() {
            self.cancel_gesture(now)
        } else if s.search_palette_open {
            self.close_palette()
        } else if s.panes.panes.len() > 0 || s.reading_lens_open {
            self.close_lens(now)
        } else {
            self.focus_return(now)
        }
    }

    #[verifier::opaque]
    pub open spec fn shortcut(self, key: Seq<char>, now: u64) -> Step {
        let s = self.state;
        if key == "Escape"@ {
            self.escape(now)
        } else if key == "Enter"@ {
            if s.focus.current == FocusTarget::Atlas && s.selected_file is Some {
                self.promote(now)
            } else {
                self
            }
        } else if key == "Cmd+P"@ || key == "Ctrl+P"@ {
            self.open_palette()
        } else if key == "Cmd+B"@ || key == "Ctrl+B"@ {
            self.collapse_sidebar(!s.sidebar.is_collapsed, now)
        } else {
            self
        }
    }

    /// One action takes effect.
    pub open spec fn reduce(self, action: ActionModel, now: u64) -> Step {
        let s = self.state;
        match action {
            UiAction::FocusChange(target) => self.focus_to(target, now),
            UiAction::FocusNavigate(direction) => self.focus_to(
                tab_target(s.focus.current, direction, s.reading_lens_open),
                now,
            ),
            UiAction::FocusReturn => self.focus_return(now),
            UiAction::SelectFile { file_id, path } => self.select_file(file_id, path, now),
            UiAction::ClearSelection => self.clear_selection(now),
            UiAction::ToggleSidebar => self.collapse_sidebar(!s.sidebar.is_collapsed, now),
            UiAction::SetSidebarCollapsed(collapsed) => if s.sidebar.is_collapsed == collapsed {
                self
            } else {
                self.collapse_sidebar(collapsed, now)
            },
            UiAction::SetSidebarWidth { width, change } => self.set_sidebar_width(width, change),
            UiAction::SelectSidebarTab(panel) => self.select_tab(panel, now),
            UiAction::OpenReadingLens { file_id, path, line } => self.open_lens(
                file_id,
                path,
                line,
                now,
            ),
            UiAction::CloseReadingLens => self.close_lens(now),
            UiAction::OpenSearchPalette => self.open_palette(),
            UiAction::CloseSearchPalette => self.close_palette(),
            UiAction::SearchQueryChanged(query) => self.query_changed(query, now),
            UiAction::SearchResultsReceived { query_generation, results, has_more } => {
                self.results_received(query_generation, results, has_more, now)
            },
            UiAction::SelectNextSearchResult => self.select_next_result(),
            UiAction::SelectPrevSearchResult => self.select_prev_result(),
            UiAction::ActivateSearchResult => self.activate_result(),
            UiAction::TreeSelect(id) => self.tree_select(id),
            UiAction::TreeToggle(id) => self.tree_toggle(id),
            UiAction::TreeNavigate(direction) => self.tree_navigate(direction),
            UiAction::BreadcrumbNavigate(direction) => self.breadcrumb_navigate(direction),
            UiAction::BreadcrumbSelect(index) => self.breadcrumb_select(index),
            UiAction::HistoryNavigateBack => self.revisit(
                s.sidebar.history.go_back(),
                s.sidebar.history.can_go_back(),
                now,
            ),
            UiAction::HistoryNavigateForward => self.revisit(
                s.sidebar.history.go_forward(),
                s.sidebar.history.can_go_forward(),
                now,
            ),
            UiAction::FitSelection => self.fit("Selection"@, "FitSelection"@, now),
            UiAction::FitParent => self.fit("Parent"@, "FitParent"@, now),
            UiAction::FitProject => self.fit("Project"@, "FitProject"@, now),
            UiAction::PointerDown { region, pos, button, modifiers } => self.pointer_down(
                region,
                pos,
                button,
                modifiers,
                now,
            ),
            UiAction::PointerMove { pos, motion } => self.pointer_move(pos, motion, now),
            UiAction::PointerUp { .. } => self.pointer_up(now),
            UiAction::ScrollEvent { region, delta, modifiers, motion } => self.scroll(
                region,
                delta,
                modifiers,
                motion,
            ),
            UiAction::PinchEvent { region, factor, .. } => self.pinch(region, factor),
            UiAction::CancelGesture => self.cancel_gesture(now),
            UiAction::PromoteSelectedToReadingLens => self.promote(now),
            UiAction::PinReadingPane(id) => self.pinned(s.panes.set_pinned(id, true), id, now),
            UiAction::UnpinReadingPane(id) => self.pinned(s.panes.set_pinned(id, false), id, now),
            UiAction::TogglePinReadingPane(id) => self.pinned(s.panes.toggle_pin(id), id, now),
            UiAction::CloseReadingPane(id) => self.close_pane(id, now),
            UiAction::SetCityMode(is_city) => self.set_city_mode(is_city, now),
            UiAction::ProcessInputBatch { max_discrete, pinch_factor } => self.process_batch(
                max_discrete as nat,
                pinch_factor,
                now,
            ),
            UiAction::EnqueueDiscreteInput(event) => self.with(
                UiModel { mailbox: s.mailbox.push_discrete(event), ..s },
            ),
            UiAction::RecordContinuousMove { pos, pan } => self.with(
                UiModel { mailbox: s.mailbox.record_move(pos, pan), ..s },
            ),
            UiAction::RecordContinuousScroll { scroll } => self.with(
                UiModel { mailbox: s.mailbox.record_scroll(scroll), ..s },
            ),
            UiAction::PointerClick { target, select } => self.pointer_click(target, select, now),
            UiAction::KeyboardShortcut(key) => self.shortcut(key, now),
        }
    }
}

/// Deterministic state machine reducer for all UI interactions.
pub struct UiReducer;

impl UiReducer {

    fn emit(
        state: &mut UiState,
        outcome: &mut UiReductionOutcome,
        kind: UiEventKind,
        now: u64,
    )
        requires
            old(state).wf(),
        ensures
            final(state).wf(),
            step_of(*final(state), *final(outcome)) == step_of(*old(state), *old(outcome)).emit(
                kind@, now,
            ),
    {
        broadcast use group_views;

        state.record_event(kind.clone(), now);
        outcome.emitted_events.push(kind);
    }

    fn command(outcome: &mut UiReductionOutcome, command: UiCommand)
        ensures
            final(outcome)@ == (OutcomeModel {
                commands: old(outcome)@.commands.push(command@),
                ..old(outcome)@
            }),
    {
        broadcast use group_views;

        outcome.commands.push(command);
    }

    fn redraw(
        state: &mut UiState,
        outcome: &mut UiReductionOutcome,
    )
        requires
            old(state).wf(),
        ensures
            final(state).wf(),
            step_of(*final(state), *final(outcome)) == step_of(*old(state), *old(outcome)).redraw(),
    {
        outcome.changed = true;
        UiReducer::command(outcome, UiCommand::RequestRedraw);
    }

    pub(crate) fn focus_to(
        state: &mut UiState,
        outcome: &mut UiReductionOutcome,
        target: FocusTarget,
        now: u64,
    )
        requires
            old(state).wf(),
        ensures
            final(state).wf(),
            step_of(*final(state), *final(outcome)) == step_of(*old(state), *old(outcome)).focus_to(
                target, now,
            ),
    {
        proof {
            reveal(Step::focus_to);
        }
        let from = state.focus.current();
        if from != target {
            state.focus.set_focus(target);
            UiReducer::emit(state, outcome, UiEventKind::FocusChanged { from, to: target }, now);
            UiReducer::redraw(state, outcome);
        }
    }

    fn focus_return(
        state: &mut UiState,
        outcome: &mut UiReductionOutcome,
        now: u64,
    )
        requires
            old(state).wf(),
        ensures
            final(state).wf(),
            step_of(*final(state), *final(outcome)) == step_of(
                *old(state),
                *old(outcome),
            ).focus_return(now),
    {
        proof {
            reveal(Step::focus_return);
        }
        let from = state.focus.current();
        if let Some(to) = state.focus.return_focus() {
            UiReducer::emit(state, outcome, UiEventKind::FocusChanged { from, to }, now);
            UiReducer::redraw(state, outcome);
        }
    }

    pub(crate) fn select_file(
        state: &mut UiState,
        outcome: &mut UiReductionOutcome,
        file_id: FileId,
        path: String,
        now: u64,
    )
        requires
            old(state).wf(),
        ensures
            final(state).wf(),
            step_of(*final(state), *final(outcome)) == step_of(
                *old(state),
                *old(outcome),
            ).select_file(file_id, path@, now),
    {
        proof {
            reveal(Step::select_file);
        }
        // Focus is explicitly NOT stolen by selection!
        state.selected_file = Some((file_id, path.clone()));
        state.sidebar.inspector.file_id = Some(file_id);
        state.sidebar.inspector.file_path = Some(path.clone());
        state.breadcrumbs.set_from_path(path.as_str());
        let description = String::from_str("Selected file ").concat(path.as_str());
        let id: u64 = state.seq_counter.wrapping_add(1);
        state.sidebar.history.push(
            HistoryItem { id, path: path.clone(), description, timestamp_nanos: now },
        );
        UiReducer::emit(
            state,
            outcome,
            UiEventKind::SelectionChanged { path: Some(path.clone()) },
            now,
        );
        UiReducer::command(outcome, UiCommand::RequestCapture { file_id, path });
        UiReducer::redraw(state, outcome);
    }

    fn clear_selection(
        state: &mut UiState,
        outcome: &mut UiReductionOutcome,
        now: u64,
    )
        requires
            old(state).wf(),
        ensures
            final(state).wf(),
            step_of(*final(state), *final(outcome)) == step_of(
                *old(state),
                *old(outcome),
            ).clear_selection(now),
    {
        proof {
            reveal(Step::clear_selection);
        }
        if state.selected_file.is_some() {
            state.selected_file = None;
            state.sidebar.inspector.clear();
            UiReducer::emit(state, outcome, UiEventKind::SelectionChanged { path: None }, now);
            UiReducer::redraw(state, outcome);
        }
    }

    fn collapse_sidebar(
        state: &mut UiState,
        outcome: &mut UiReductionOutcome,
        is_collapsed: bool,
        now: u64,
    )
        requires
            old(state).wf(),
        ensures
            final(state).wf(),
            step_of(*final(state), *final(outcome)) == step_of(
                *old(state),
                *old(outcome),
            ).collapse_sidebar(is_collapsed, now),
    {
        proof {
            reveal(Step::collapse_sidebar);
        }
        state.sidebar.is_collapsed = is_collapsed;
        UiReducer::emit(state, outcome, UiEventKind::SidebarToggled { is_collapsed }, now);
        UiReducer::redraw(state, outcome);
    }

    fn set_sidebar_width(
        state: &mut UiState,
        outcome: &mut UiReductionOutcome,
        width: Scalar,
        change: Scalar,
    )
        requires
            old(state).wf(),
        ensures
            final(state).wf(),
            step_of(*final(state), *final(outcome)) == step_of(
                *old(state),
                *old(outcome),
            ).set_sidebar_width(width, change),
    {
        proof {
            reveal(Step::set_sidebar_width);
        }
        if change.exceeds_epsilon() {
            state.sidebar.set_width(width);
            UiReducer::redraw(state, outcome);
        }
    }

    fn select_tab(
        state: &mut UiState,
        outcome: &mut UiReductionOutcome,
        panel: SidebarPanel,
        now: u64,
    )
        requires
            old(state).wf(),
        ensures
            final(state).wf(),
            step_of(*final(state), *final(outcome)) == step_of(
                *old(state),
                *old(outcome),
            ).select_tab(panel, now),
    {
        proof {
            reveal(Step::select_tab);
        }
        if state.sidebar.active_panel != panel {
            state.sidebar.active_panel = panel;
            UiReducer::emit(state, outcome, UiEventKind::PanelChanged { panel }, now);
            UiReducer::redraw(state, outcome);
        }
    }

    fn open_lens(
        state: &mut UiState,
        outcome: &mut UiReductionOutcome,
        file_id: FileId,
        path: String,
        line: Option<usize>,
        now: u64,
    )
        requires
            old(state).wf(),
        ensures
            final(state).wf(),
            step_of(*final(state), *final(outcome)) == step_of(
                *old(state),
                *old(outcome),
            ).open_lens(file_id, path@, line, now),
    {
        proof {
            reveal(Step::open_lens);
        }
        let _ = state.reading_panes.open_or_focus(file_id, path.clone(), line);
        state.reading_lens_open = true;
        state.reading_lens_file = Some((file_id, path.clone(), line));
        state.focus.set_focus(FocusTarget::ReadingLens);
        UiReducer::emit(state, outcome, UiEventKind::LensToggled { open: true }, now);
        UiReducer::command(outcome, UiCommand::RequestCapture { file_id, path });
        UiReducer::redraw(state, outcome);
    }

    fn lens_follows_panes(
        state: &mut UiState,
        outcome: &mut UiReductionOutcome,
    )
        requires
            old(state).wf(),
        ensures
            final(state).wf(),
            step_of(*final(state), *final(outcome)) == step_of(
                *old(state),
                *old(outcome),
            ).lens_follows_panes(),
    {
        proof {
            reveal(Step::lens_follows_panes);
        }
        state.reading_lens_open = state.reading_panes.is_any_open();
        state.reading_lens_file = match state.reading_panes.active_pane() {
            Some(pane) => Some((pane.file_id, pane.path.clone(), pane.target_line)),
            None => None,
        };
    }

    fn close_top(
        state: &mut UiState,
        outcome: &mut UiReductionOutcome,
        now: u64,
    )
        requires
            old(state).wf(),
        ensures
            final(state).wf(),
            step_of(*final(state), *final(outcome)) == step_of(
                *old(state),
                *old(outcome),
            ).close_top(now),
    {
        proof {
            reveal(Step::close_top);
        }
        let closed = state.reading_panes.close_active_or_top_unpinned();
        if let Some(pane_id) = closed {
            UiReducer::emit(state, outcome, UiEventKind::ReadingPaneClosed { pane_id }, now);
        }
    }

    fn settle_focus(
        state: &mut UiState,
        outcome: &mut UiReductionOutcome,
        only_from_lens: bool,
    )
        requires
            old(state).wf(),
        ensures
            final(state).wf(),
            step_of(*final(state), *final(outcome)) == step_of(
                *old(state),
                *old(outcome),
            ).settle_focus(only_from_lens),
    {
        proof {
            reveal(Step::settle_focus);
        }
        if !state.reading_lens_open && (!only_from_lens || state.focus.current()
            == FocusTarget::ReadingLens) {
            let _ = state.focus.return_focus();
        }
    }

    fn close_lens(
        state: &mut UiState,
        outcome: &mut UiReductionOutcome,
        now: u64,
    )
        requires
            old(state).wf(),
        ensures
            final(state).wf(),
            step_of(*final(state), *final(outcome)) == step_of(
                *old(state),
                *old(outcome),
            ).close_lens(now),
    {
        proof {
            reveal(Step::close_lens);
        }
        if state.reading_panes.is_any_open() {
            UiReducer::close_top(state, outcome, now);
            UiReducer::lens_follows_panes(state, outcome);
            UiReducer::settle_focus(state, outcome, false);
            let open = state.reading_lens_open;
            UiReducer::emit(state, outcome, UiEventKind::LensToggled { open }, now);
            UiReducer::redraw(state, outcome);
        } else if state.reading_lens_open {
            state.reading_lens_open = false;
            state.reading_lens_file = None;
            let _ = state.focus.return_focus();
            UiReducer::emit(state, outcome, UiEventKind::LensToggled { open: false }, now);
            UiReducer::redraw(state, outcome);
        }
    }

    fn open_palette(
        state: &mut UiState,
        outcome: &mut UiReductionOutcome,
    )
        requires
            old(state).wf(),
        ensures
            final(state).wf(),
            step_of(*final(state), *final(outcome)) == step_of(
                *old(state),
                *old(outcome),
            ).open_palette(),
    {
        proof {
            reveal(Step::open_palette);
        }
        if !state.search_palette_open {
            state.search_palette_open = true;
            state.focus.set_focus(FocusTarget::SearchPalette);
            UiReducer::redraw(state, outcome);
        }
    }

    fn close_palette(
        state: &mut UiState,
        outcome: &mut UiReductionOutcome,
    )
        requires
            old(state).wf(),
        ensures
            final(state).wf(),
            step_of(*final(state), *final(outcome)) == step_of(
                *old(state),
                *old(outcome),
            ).close_palette(),
    {
        proof {
            reveal(Step::close_palette);
        }
        if state.search_palette_open {
            state.search_palette_open = false;
            let _ = state.focus.return_focus();
            UiReducer::redraw(state, outcome);
        }
    }

    fn query_changed(
        state: &mut UiState,
        outcome: &mut UiReductionOutcome,
        query: String,
        now: u64,
    )
        requires
            old(state).wf(),
        ensures
            final(state).wf(),
            step_of(*final(state), *final(outcome)) == step_of(
                *old(state),
                *old(outcome),
            ).query_changed(query@, now),
    {
        proof {
            reveal(Step::query_changed);
        }
        state.sidebar.results.query = query.clone();
        state.sidebar.results.is_searching = true;
        // Generate a fresh QueryGeneration token for this query attempt
        let value: u64 = state.seq_counter.wrapping_add(100);
        if let Ok(query_generation) = QueryGeneration::new(state.owner, value) {
            state.active_query_generation = Some(query_generation);
            state.sidebar.results.query_generation = Some(query_generation);
            UiReducer::command(
                outcome,
                UiCommand::DispatchSearch { query: query.clone(), query_generation },
            );
        }
        UiReducer::emit(state, outcome, UiEventKind::SearchQueryUpdated { query }, now);
        UiReducer::redraw(state, outcome);
    }

    fn results_received(
        state: &mut UiState,
        outcome: &mut UiReductionOutcome,
        query_generation: QueryGeneration,
        results: Vec<SearchResultEntry>,
        has_more: bool,
        now: u64,
    )
        requires
            old(state).wf(),
        ensures
            final(state).wf(),
            step_of(*final(state), *final(outcome)) == step_of(
                *old(state),
                *old(outcome),
            ).results_received(query_generation, views(results@), has_more, now),
    {
        proof {
            reveal(Step::results_received);
        }
        let is_current = match state.active_query_generation {
            Some(current) => current == query_generation,
            None => false,
        };
        if is_current {
            let count: usize = results.len();
            state.sidebar.results.results = results;
            state.sidebar.results.has_more = has_more;
            state.sidebar.results.is_searching = false;
            state.sidebar.results.selected_index = if count == 0 {
                None
            } else {
                Some(0)
            };
            UiReducer::emit(state, outcome, UiEventKind::SearchResultsUpdated { count }, now);
            UiReducer::redraw(state, outcome);
        } else {
            // Reject stale query results!
            let current_gen: Option<u64> = match state.active_query_generation {
                Some(current) => Some(current.get()),
                None => None,
            };
            UiReducer::emit(
                state,
                outcome,
                UiEventKind::StaleResultsRejected {
                    current_gen,
                    rejected_gen: query_generation.get(),
                },
                now,
            );
        }
    }

    fn select_next_result(
        state: &mut UiState,
        outcome: &mut UiReductionOutcome,
    )
        requires
            old(state).wf(),
        ensures
            final(state).wf(),
            step_of(*final(state), *final(outcome)) == step_of(
                *old(state),
                *old(outcome),
            ).select_next_result(),
    {
        proof {
            reveal(Step::select_next_result);
        }
        let moved = state.sidebar.results.select_next().is_some();
        if moved {
            UiReducer::redraw(state, outcome);
        }
    }

    fn select_prev_result(
        state: &mut UiState,
        outcome: &mut UiReductionOutcome,
    )
        requires
            old(state).wf(),
        ensures
            final(state).wf(),
            step_of(*final(state), *final(outcome)) == step_of(
                *old(state),
                *old(outcome),
            ).select_prev_result(),
    {
        proof {
            reveal(Step::select_prev_result);
        }
        let moved = state.sidebar.results.select_prev().is_some();
        if moved {
            UiReducer::redraw(state, outcome);
        }
    }

    fn activate_result(
        state: &mut UiState,
        outcome: &mut UiReductionOutcome,
    )
        requires
            old(state).wf(),
        ensures
            final(state).wf(),
            step_of(*final(state), *final(outcome)) == step_of(
                *old(state),
                *old(outcome),
            ).activate_result(),
    {
        proof {
            reveal(Step::activate_result);
        }
        let entry = match state.sidebar.results.selected_result() {
            Some(entry) => entry.clone(),
            None => {
                return;
            },
        };
        state.search_palette_open = false;
        if state.focus.current() == FocusTarget::SearchPalette {
            let _ = state.focus.return_focus();
        }
        state.selected_file = Some((entry.file_id, entry.path.clone()));
        state.reading_lens_open = true;
        state.reading_lens_file = Some((entry.file_id, entry.path.clone(), Some(entry.line_number)));
        state.focus.set_focus(FocusTarget::ReadingLens);
        UiReducer::command(
            outcome,
            UiCommand::RequestCapture { file_id: entry.file_id, path: entry.path },
        );
        UiReducer::redraw(state, outcome);
    }

    fn tree_select(
        state: &mut UiState,
        outcome: &mut UiReductionOutcome,
        id: TreeNodeId,
    )
        requires
            old(state).wf(),
        ensures
            final(state).wf(),
            step_of(*final(state), *final(outcome)) == step_of(
                *old(state),
                *old(outcome),
            ).tree_select(id),
    {
        proof {
            reveal(Step::tree_select);
        }
        let node = match state.tree.select(id) {
            Some(node) => node.clone(),
            None => {
                return;
            },
        };
        if node.is_file() {
            if let Some(file_id) = node.file_id {
                state.selected_file = Some((file_id, node.path.clone()));
                state.breadcrumbs.set_from_path(node.path.as_str());
                UiReducer::command(outcome, UiCommand::RequestCapture { file_id, path: node.path });
            }
        } else {
            state.breadcrumbs.set_from_path(node.path.as_str());
        }
        UiReducer::redraw(state, outcome);
    }

    fn tree_toggle(
        state: &mut UiState,
        outcome: &mut UiReductionOutcome,
        id: TreeNodeId,
    )
        requires
            old(state).wf(),
        ensures
            final(state).wf(),
            step_of(*final(state), *final(outcome)) == step_of(
                *old(state),
                *old(outcome),
            ).tree_toggle(id),
    {
        proof {
            reveal(Step::tree_toggle);
        }
        if state.tree.toggle(id).is_ok() {
            UiReducer::redraw(state, outcome);
        }
    }

    fn tree_navigate(
        state: &mut UiState,
        outcome: &mut UiReductionOutcome,
        direction: FocusDirection,
    )
        requires
            old(state).wf(),
        ensures
            final(state).wf(),
            step_of(*final(state), *final(outcome)) == step_of(
                *old(state),
                *old(outcome),
            ).tree_navigate(direction),
    {
        proof {
            reveal(Step::tree_navigate);
        }
        let moved = match direction {
            FocusDirection::Up => state.tree.move_up().is_some(),
            FocusDirection::Down => state.tree.move_down().is_some(),
            FocusDirection::Left => state.tree.move_left().is_some(),
            FocusDirection::Right => state.tree.move_right().is_some(),
            _ => false,
        };
        if moved {
            UiReducer::redraw(state, outcome);
        }
    }

    fn breadcrumb_navigate(
        state: &mut UiState,
        outcome: &mut UiReductionOutcome,
        direction: FocusDirection,
    )
        requires
            old(state).wf(),
        ensures
            final(state).wf(),
            step_of(*final(state), *final(outcome)) == step_of(
                *old(state),
                *old(outcome),
            ).breadcrumb_navigate(direction),
    {
        proof {
            reveal(Step::breadcrumb_navigate);
        }
        let moved = match direction {
            FocusDirection::Left => state.breadcrumbs.navigate_left().is_some(),
            FocusDirection::Right => state.breadcrumbs.navigate_right().is_some(),
            _ => false,
        };
        if moved {
            UiReducer::redraw(state, outcome);
        }
    }

    fn breadcrumb_select(
        state: &mut UiState,
        outcome: &mut UiReductionOutcome,
        index: usize,
    )
        requires
            old(state).wf(),
        ensures
            final(state).wf(),
            step_of(*final(state), *final(outcome)) == step_of(
                *old(state),
                *old(outcome),
            ).breadcrumb_select(index),
    {
        proof {
            reveal(Step::breadcrumb_select);
        }
        let label = match state.breadcrumbs.truncate_to(index) {
            Some(segment) => segment.label.clone(),
            None => {
                return;
            },
        };
        outcome.changed = true;
        UiReducer::command(outcome, UiCommand::RequestCameraFocus { target_description: label });
        UiReducer::redraw(state, outcome);
    }

    fn history_back(
        state: &mut UiState,
        outcome: &mut UiReductionOutcome,
        now: u64,
    )
        requires
            old(state).wf(),
        ensures
            final(state).wf(),
            step_of(*final(state), *final(outcome)) == step_of(*old(state), *old(outcome)).revisit(
                old(state)@.sidebar.history.go_back(),
                old(state)@.sidebar.history.can_go_back(),
                now,
            ),
    {
        proof {
            reveal(Step::revisit);
        }
        let item = match state.sidebar.history.go_back() {
            Some(item) => item.clone(),
            None => {
                return;
            },
        };
        UiReducer::show_place(state, outcome, item.path, now);
    }

    fn history_forward(
        state: &mut UiState,
        outcome: &mut UiReductionOutcome,
        now: u64,
    )
        requires
            old(state).wf(),
        ensures
            final(state).wf(),
            step_of(*final(state), *final(outcome)) == step_of(*old(state), *old(outcome)).revisit(
                old(state)@.sidebar.history.go_forward(),
                old(state)@.sidebar.history.can_go_forward(),
                now,
            ),
    {
        proof {
            reveal(Step::revisit);
        }
        let item = match state.sidebar.history.go_forward() {
            Some(item) => item.clone(),
            None => {
                return;
            },
        };
        UiReducer::show_place(state, outcome, item.path, now);
    }

    fn show_place(
        state: &mut UiState,
        outcome: &mut UiReductionOutcome,
        path: String,
        now: u64,
    )
        requires
            old(state).wf(),
        ensures
            final(state).wf(),
            step_of(*final(state), *final(outcome)) == step_of(
                *old(state),
                *old(outcome),
            ).show_place(path@, now),
    {
        proof {
            reveal(Step::show_place);
        }
        state.breadcrumbs.set_from_path(path.as_str());
        UiReducer::emit(state, outcome, UiEventKind::HistoryNavigated { path: path.clone() }, now);
        UiReducer::command(outcome, UiCommand::RequestCameraFocus { target_description: path });
        UiReducer::redraw(state, outcome);
    }

    fn fit(
        state: &mut UiState,
        outcome: &mut UiReductionOutcome,
        scope: &str,
        target: &str,
        now: u64,
    )
        requires
            old(state).wf(),
        ensures
            final(state).wf(),
            step_of(*final(state), *final(outcome)) == step_of(*old(state), *old(outcome)).fit(
                scope@, target@, now,
            ),
    {
        proof {
            reveal(Step::fit);
        }
        UiReducer::emit(
            state,
            outcome,
            UiEventKind::CameraFitRequested { scope: String::from_str(scope) },
            now,
        );
        UiReducer::command(
            outcome,
            UiCommand::RequestCameraFocus { target_description: String::from_str(target) },
        );
    }

    fn pointer_click(
        state: &mut UiState,
        outcome: &mut UiReductionOutcome,
        target: FocusTarget,
        select: bool,
        now: u64,
    )
        requires
            old(state).wf(),
        ensures
            final(state).wf(),
            step_of(*final(state), *final(outcome)) == step_of(
                *old(state),
                *old(outcome),
            ).pointer_click(target, select, now),
    {
        proof {
            reveal(Step::pointer_click);
        }
        let from = state.focus.current();
        if from != target {
            state.focus.set_focus(target);
            UiReducer::emit(state, outcome, UiEventKind::FocusChanged { from, to: target }, now);
            outcome.changed = true;
        }
        if select {
            outcome.changed = true;
        }
        UiReducer::command(outcome, UiCommand::RequestRedraw);
    }

    fn promote(
        state: &mut UiState,
        outcome: &mut UiReductionOutcome,
        now: u64,
    )
        requires
            old(state).wf(),
        ensures
            final(state).wf(),
            step_of(*final(state), *final(outcome)) == step_of(*old(state), *old(outcome)).promote(
                now,
            ),
    {
        proof {
            reveal(Step::promote);
        }
        let selected = match &state.selected_file {
            Some((file_id, path)) => Some((*file_id, path.clone())),
            None => None,
        };
        if let Some((file_id, path)) = selected {
            UiReducer::open_lens(state, outcome, file_id, path, None, now);
        }
    }

    fn pin_pane(
        state: &mut UiState,
        outcome: &mut UiReductionOutcome,
        pane_id: u64,
        pinned: bool,
        now: u64,
    )
        requires
            old(state).wf(),
        ensures
            final(state).wf(),
            step_of(*final(state), *final(outcome)) == step_of(*old(state), *old(outcome)).pinned(
                old(state)@.panes.set_pinned(pane_id, pinned), pane_id, now,
            ),
    {
        proof {
            reveal(Step::pinned);
        }
        proof {
            lemma_pin_keeps_place(state@.panes, pane_id);
        }
        let found = if pinned {
            state.reading_panes.pin_pane(pane_id)
        } else {
            state.reading_panes.unpin_pane(pane_id)
        };
        if found {
            UiReducer::emit(
                state,
                outcome,
                UiEventKind::ReadingPanePinned { pane_id, is_pinned: pinned },
                now,
            );
            UiReducer::redraw(state, outcome);
        }
    }

    fn toggle_pin(
        state: &mut UiState,
        outcome: &mut UiReductionOutcome,
        pane_id: u64,
        now: u64,
    )
        requires
            old(state).wf(),
        ensures
            final(state).wf(),
            step_of(*final(state), *final(outcome)) == step_of(*old(state), *old(outcome)).pinned(
                old(state)@.panes.toggle_pin(pane_id), pane_id, now,
            ),
    {
        proof {
            reveal(Step::pinned);
        }
        proof {
            lemma_pin_keeps_place(state@.panes, pane_id);
        }
        if state.reading_panes.toggle_pin(pane_id) {
            let is_pinned = match state.reading_panes.get_pane(pane_id) {
                Some(pane) => pane.is_pinned,
                None => false,
            };
            UiReducer::emit(
                state,
                outcome,
                UiEventKind::ReadingPanePinned { pane_id, is_pinned },
                now,
            );
            UiReducer::redraw(state, outcome);
        }
    }

    fn close_pane(
        state: &mut UiState,
        outcome: &mut UiReductionOutcome,
        pane_id: u64,
        now: u64,
    )
        requires
            old(state).wf(),
        ensures
            final(state).wf(),
            step_of(*final(state), *final(outcome)) == step_of(
                *old(state),
                *old(outcome),
            ).close_pane(pane_id, now),
    {
        proof {
            reveal(Step::close_pane);
        }
        if state.reading_panes.close_pane(pane_id).is_some() {
            UiReducer::emit(state, outcome, UiEventKind::ReadingPaneClosed { pane_id }, now);
            UiReducer::lens_follows_panes(state, outcome);
            UiReducer::settle_focus(state, outcome, true);
            UiReducer::redraw(state, outcome);
        }
    }

    fn set_city_mode(
        state: &mut UiState,
        outcome: &mut UiReductionOutcome,
        is_city_mode: bool,
        now: u64,
    )
        requires
            old(state).wf(),
        ensures
            final(state).wf(),
            step_of(*final(state), *final(outcome)) == step_of(
                *old(state),
                *old(outcome),
            ).set_city_mode(is_city_mode, now),
    {
        proof {
            reveal(Step::set_city_mode);
        }
        if state.is_city_mode != is_city_mode {
            state.is_city_mode = is_city_mode;
            UiReducer::emit(state, outcome, UiEventKind::CityModeToggled { is_city_mode }, now);
            UiReducer::redraw(state, outcome);
        }
    }

    fn press(
        state: &mut UiState,
        outcome: &mut UiReductionOutcome,
        region: HitRegion,
        pos: Point,
        button: PointerButton,
        modifiers: ModifierKeys,
        now: u64,
    )
        requires
            old(state).wf(),
        ensures
            final(state).wf(),
            step_of(*final(state), *final(outcome)) == step_of(*old(state), *old(outcome)).press(
                region, pos, button, modifiers, now,
            ),
    {
        proof {
            reveal(Step::press);
        }
        let city: bool = state.is_city_mode;
        if let Some(kind) = state.gesture_arbitrator.start_pointer_drag(
            region,
            pos,
            button,
            modifiers,
            city,
        ) {
            UiReducer::emit(state, outcome, UiEventKind::GestureStarted { kind }, now);
            outcome.changed = true;
        }
    }

    fn raise_pane(
        state: &mut UiState,
        outcome: &mut UiReductionOutcome,
        pane_id: u64,
        now: u64,
    )
        requires
            old(state).wf(),
        ensures
            final(state).wf(),
            step_of(*final(state), *final(outcome)) == step_of(
                *old(state),
                *old(outcome),
            ).raise_pane(pane_id, now),
    {
        proof {
            reveal(Step::raise_pane);
        }
        state.reading_panes.set_active_pane_id(Some(pane_id));
        let from = state.focus.current();
        if from != FocusTarget::ReadingLens {
            state.focus.set_focus(FocusTarget::ReadingLens);
            UiReducer::emit(
                state,
                outcome,
                UiEventKind::FocusChanged { from, to: FocusTarget::ReadingLens },
                now,
            );
        }
        UiReducer::redraw(state, outcome);
    }

    fn focus_surface(
        state: &mut UiState,
        outcome: &mut UiReductionOutcome,
        region: HitRegion,
        now: u64,
    )
        requires
            old(state).wf(),
        ensures
            final(state).wf(),
            step_of(*final(state), *final(outcome)) == step_of(
                *old(state),
                *old(outcome),
            ).focus_surface(region, now),
    {
        proof {
            reveal(Step::focus_surface);
        }
        let target = match region {
            HitRegion::ReadingLensBody(pane_id) | HitRegion::ReadingLensTitleBar(pane_id) => {
                UiReducer::raise_pane(state, outcome, pane_id, now);
                return;
            },
            HitRegion::AtlasBackground => FocusTarget::Atlas,
            HitRegion::SidebarContent | HitRegion::SidebarSplitter => FocusTarget::Sidebar(
                state.sidebar.active_panel,
            ),
            HitRegion::Breadcrumbs => FocusTarget::Breadcrumbs,
            HitRegion::SearchPalette => FocusTarget::SearchPalette,
            HitRegion::TreeProjection => FocusTarget::TreeProjection,
        };
        UiReducer::focus_to(state, outcome, target, now);
    }

    fn pointer_down(
        state: &mut UiState,
        outcome: &mut UiReductionOutcome,
        region: HitRegion,
        pos: Point,
        button: PointerButton,
        modifiers: ModifierKeys,
        now: u64,
    )
        requires
            old(state).wf(),
        ensures
            final(state).wf(),
            step_of(*final(state), *final(outcome)) == step_of(
                *old(state),
                *old(outcome),
            ).pointer_down(region, pos, button, modifiers, now),
    {
        proof {
            reveal(Step::pointer_down);
        }
        UiReducer::press(state, outcome, region, pos, button, modifiers, now);
        UiReducer::focus_surface(state, outcome, region, now);
    }

    fn drag_pane(
        state: &mut UiState,
        outcome: &mut UiReductionOutcome,
        pane_id: u64,
        target: Point,
        now: u64,
    )
        requires
            old(state).wf(),
        ensures
            final(state).wf(),
            step_of(*final(state), *final(outcome)) == step_of(
                *old(state),
                *old(outcome),
            ).drag_pane(pane_id, target, now),
    {
        proof {
            reveal(Step::drag_pane);
        }
        let _ = state.reading_panes.translate_pane(pane_id, target);
        if let Some(pane) = state.reading_panes.get_pane(pane_id) {
            UiReducer::command(outcome, UiCommand::ReadingPaneMoved { pane_id, pos: pane.position });
        }
        UiReducer::emit(state, outcome, UiEventKind::ReadingPaneMoved { pane_id }, now);
        UiReducer::redraw(state, outcome);
    }

    fn select_text(
        state: &mut UiState,
        outcome: &mut UiReductionOutcome,
        pane_id: u64,
        extent: usize,
        now: u64,
    )
        requires
            old(state).wf(),
        ensures
            final(state).wf(),
            step_of(*final(state), *final(outcome)) == step_of(
                *old(state),
                *old(outcome),
            ).select_text(pane_id, extent, now),
    {
        proof {
            reveal(Step::select_text);
        }
        UiReducer::emit(state, outcome, UiEventKind::TextSelectedInLens { pane_id }, now);
        UiReducer::command(outcome, UiCommand::ReadingPaneSelectedText { pane_id, range: (0, extent) });
        UiReducer::redraw(state, outcome);
    }

    fn resize_sidebar(
        state: &mut UiState,
        outcome: &mut UiReductionOutcome,
        width: Scalar,
    )
        requires
            old(state).wf(),
        ensures
            final(state).wf(),
            step_of(*final(state), *final(outcome)) == step_of(
                *old(state),
                *old(outcome),
            ).resize_sidebar(width),
    {
        proof {
            reveal(Step::resize_sidebar);
        }
        state.sidebar.set_width(width);
        UiReducer::redraw(state, outcome);
    }

    fn pointer_move(
        state: &mut UiState,
        outcome: &mut UiReductionOutcome,
        pos: Point,
        motion: PointerMotion,
        now: u64,
    )
        requires
            old(state).wf(),
        ensures
            final(state).wf(),
            step_of(*final(state), *final(outcome)) == step_of(
                *old(state),
                *old(outcome),
            ).pointer_move(pos, motion, now),
    {
        proof {
            reveal(Step::pointer_move);
        }
        if let Some((kind, (dx, dy))) = state.gesture_arbitrator.update_pointer_move(
            pos,
            motion.step,
        ) {
            outcome.changed = true;
            match kind {
                GestureKind::LensDrag { pane_id } => UiReducer::drag_pane(
                    state,
                    outcome,
                    pane_id,
                    motion.pane_target,
                    now,
                ),
                GestureKind::TextSelect { pane_id } => UiReducer::select_text(
                    state,
                    outcome,
                    pane_id,
                    motion.text_extent,
                    now,
                ),
                GestureKind::SidebarResize => UiReducer::resize_sidebar(
                    state,
                    outcome,
                    motion.sidebar_width,
                ),
                GestureKind::CameraPan => {
                    UiReducer::command(outcome, UiCommand::CameraPan { dx, dy });
                    UiReducer::redraw(state, outcome);
                },
                GestureKind::CameraOrbit => {
                    UiReducer::command(outcome, UiCommand::CameraOrbit { dx, dy });
                    UiReducer::redraw(state, outcome);
                },
                GestureKind::PinchZoom => {},
            }
        }
    }

    fn pointer_up(
        state: &mut UiState,
        outcome: &mut UiReductionOutcome,
        now: u64,
    )
        requires
            old(state).wf(),
        ensures
            final(state).wf(),
            step_of(*final(state), *final(outcome)) == step_of(
                *old(state),
                *old(outcome),
            ).pointer_up(now),
    {
        proof {
            reveal(Step::pointer_up);
        }
        if let Some(kind) = state.gesture_arbitrator.complete_pointer() {
            UiReducer::emit(state, outcome, UiEventKind::GestureCompleted { kind }, now);
            UiReducer::redraw(state, outcome);
        }
    }

    fn scroll(
        state: &mut UiState,
        outcome: &mut UiReductionOutcome,
        region: HitRegion,
        delta: Point,
        modifiers: ModifierKeys,
        motion: ScrollMotion,
    )
        requires
            old(state).wf(),
        ensures
            final(state).wf(),
            step_of(*final(state), *final(outcome)) == step_of(*old(state), *old(outcome)).scroll(
                region, delta, modifiers, motion,
            ),
    {
        proof {
            reveal(Step::scroll);
        }
        let routing = state.gesture_arbitrator.route_scroll(
            region,
            delta,
            modifiers,
            motion.zoom_factor,
        );
        match routing {
            ScrollRouting::LensScroll { pane_id, .. } => {
                let _ = state.reading_panes.scroll_pane(pane_id, motion.pane_target);
                if let Some(pane) = state.reading_panes.get_pane(pane_id) {
                    UiReducer::command(
                        outcome,
                        UiCommand::ReadingPaneScrolled { pane_id, offset: pane.scroll_offset },
                    );
                }
                UiReducer::redraw(state, outcome);
            },
            ScrollRouting::AtlasPan { dx, dy } => {
                UiReducer::command(outcome, UiCommand::CameraPan { dx, dy });
                UiReducer::redraw(state, outcome);
            },
            ScrollRouting::AtlasZoom { factor } => {
                UiReducer::command(outcome, UiCommand::CameraZoom { factor });
                UiReducer::redraw(state, outcome);
            },
            ScrollRouting::SidebarScroll { .. } => UiReducer::redraw(state, outcome),
            ScrollRouting::TreeScroll { .. } => UiReducer::redraw(state, outcome),
            ScrollRouting::Ignored => {},
        }
    }

    fn pinch(
        state: &mut UiState,
        outcome: &mut UiReductionOutcome,
        region: HitRegion,
        factor: Scalar,
    )
        requires
            old(state).wf(),
        ensures
            final(state).wf(),
            step_of(*final(state), *final(outcome)) == step_of(*old(state), *old(outcome)).pinch(
                region, factor,
            ),
    {
        proof {
            reveal(Step::pinch);
        }
        if let Some(factor) = state.gesture_arbitrator.route_pinch(region, factor) {
            UiReducer::command(outcome, UiCommand::CameraZoom { factor });
            UiReducer::redraw(state, outcome);
        }
    }

    fn cancel_gesture(
        state: &mut UiState,
        outcome: &mut UiReductionOutcome,
        now: u64,
    )
        requires
            old(state).wf(),
        ensures
            final(state).wf(),
            step_of(*final(state), *final(outcome)) == step_of(
                *old(state),
                *old(outcome),
            ).cancel_gesture(now),
    {
        proof {
            reveal(Step::cancel_gesture);
        }
        if state.gesture_arbitrator.cancel() {
            UiReducer::emit(state, outcome, UiEventKind::GestureCancelled, now);
            UiReducer::redraw(state, outcome);
        }
    }

    fn apply_motion(
        state: &mut UiState,
        outcome: &mut UiReductionOutcome,
        pinch_factor: Scalar,
    )
        requires
            old(state).wf(),
        ensures
            final(state).wf(),
            step_of(*final(state), *final(outcome)) == step_of(
                *old(state),
                *old(outcome),
            ).apply_motion(pinch_factor),
    {
        proof {
            reveal(Step::apply_motion);
        }
        if let Some(motion) = state.motion_mailbox.take_motion() {
            outcome.changed = true;
            if exceeds_epsilon(motion.pan_delta) {
                UiReducer::command(
                    outcome,
                    UiCommand::CameraPan { dx: motion.pan_delta.0, dy: motion.pan_delta.1 },
                );
            }
            if exceeds_epsilon(motion.scroll_delta) {
                UiReducer::command(
                    outcome,
                    UiCommand::CameraPan { dx: motion.scroll_delta.0, dy: motion.scroll_delta.1 },
                );
            }
            if motion.pinch_magnification.exceeds_epsilon() {
                UiReducer::command(outcome, UiCommand::CameraZoom { factor: pinch_factor });
            }
            UiReducer::command(outcome, UiCommand::RequestRedraw);
        }
    }

    fn discrete(
        state: &mut UiState,
        outcome: &mut UiReductionOutcome,
        event: &DiscreteInputEvent,
        now: u64,
    )
        requires
            old(state).wf(),
        ensures
            final(state).wf(),
            step_of(*final(state), *final(outcome)) == step_of(*old(state), *old(outcome)).discrete(
                event@, now,
            ),
    {
        proof {
            reveal(Step::discrete);
        }
        match event {
            DiscreteInputEvent::PointerDown { region, pos, button, modifiers } => {
                UiReducer::pointer_down(state, outcome, *region, *pos, *button, *modifiers, now)
            },
            DiscreteInputEvent::PointerUp { .. } => UiReducer::pointer_up(state, outcome, now),
            DiscreteInputEvent::KeyDown { key, .. } => UiReducer::shortcut(
                state, outcome, key, now,
            ),
            DiscreteInputEvent::KeyUp { .. } => {},
            DiscreteInputEvent::FocusTargetSelected(target) => UiReducer::focus_to(
                state,
                outcome,
                *target,
                now,
            ),
            DiscreteInputEvent::MarkedTextCommit(text) => UiReducer::query_changed(
                state,
                outcome,
                text.clone(),
                now,
            ),
        }
    }

    fn process_batch(
        state: &mut UiState,
        outcome: &mut UiReductionOutcome,
        max_discrete: usize,
        pinch_factor: Scalar,
        now: u64,
    )
        requires
            old(state).wf(),
        ensures
            final(state).wf(),
            step_of(*final(state), *final(outcome)) == step_of(
                *old(state),
                *old(outcome),
            ).process_batch(max_discrete as nat, pinch_factor, now),
    {
        proof {
            reveal(Step::process_batch);
        }
        // Consume coalesced motion, then a bounded batch of discrete events
        UiReducer::apply_motion(state, outcome, pinch_factor);
        let batch = state.motion_mailbox.drain_discrete_batch(max_discrete);
        let ghost events = views(batch@);
        let ghost start = step_of(*state, *outcome);
        let mut i: usize = 0;
        while i < batch.len()
            invariant
                i <= batch.len(),
                events == views(batch@),
                state.wf(),
                start.discrete_all(events, 0, now) == step_of(*state, *outcome).discrete_all(
                    events,
                    i as int,
                    now,
                ),
            decreases batch.len() - i,
        {
            UiReducer::discrete(state, outcome, &batch[i], now);
            i = i + 1;
        }
    }

    fn escape(
        state: &mut UiState,
        outcome: &mut UiReductionOutcome,
        now: u64,
    )
        requires
            old(state).wf(),
        ensures
            final(state).wf(),
            step_of(*final(state), *final(outcome)) == step_of(*old(state), *old(outcome)).escape(
                now,
            ),
    {
        proof {
            reveal(Step::escape);
        }
        // Cancel active gesture first before changing lens or scope
        if state.gesture_arbitrator.is_active() {
            UiReducer::cancel_gesture(state, outcome, now)
        } else if state.search_palette_open {
            UiReducer::close_palette(state, outcome)
        } else if state.reading_panes.is_any_open() || state.reading_lens_open {
            UiReducer::close_lens(state, outcome, now)
        } else {
            UiReducer::focus_return(state, outcome, now)
        }
    }

    fn shortcut(
        state: &mut UiState,
        outcome: &mut UiReductionOutcome,
        key: &String,
        now: u64,
    )
        requires
            old(state).wf(),
        ensures
            final(state).wf(),
            step_of(*final(state), *final(outcome)) == step_of(*old(state), *old(outcome)).shortcut(
                key@, now,
            ),
    {
        proof {
            reveal(Step::shortcut);
        }
        if *key == String::from_str("Escape") {
            UiReducer::escape(state, outcome, now)
        } else if *key == String::from_str("Enter") {
            // Enter on Atlas with selected file promotes to reading lens
            if state.focus.current() == FocusTarget::Atlas && state.selected_file.is_some() {
                UiReducer::promote(state, outcome, now)
            }
        } else if *key == String::from_str("Cmd+P") || *key == String::from_str("Ctrl+P") {
            UiReducer::open_palette(state, outcome)
        } else if *key == String::from_str("Cmd+B") || *key == String::from_str("Ctrl+B") {
            let collapsed: bool = state.sidebar.is_collapsed;
            UiReducer::collapse_sidebar(state, outcome, !collapsed, now)
        }
    }

    /// Reduce an action against `state`, returning outbound commands and logging events.
    pub fn reduce(state: &mut UiState, action: UiAction, now_nanos: u64) -> (r: UiReductionOutcome)
        requires
            old(state).wf(),
        ensures
            final(state).wf(),
            step_of(*final(state), r) == (Step {
                state: old(state)@,
                outcome: OutcomeModel::nothing(),
            }).reduce(action@, now_nanos),
    {
        let mut outcome = UiReductionOutcome::default();
        UiReducer::reduce_into(state, &mut outcome, action, now_nanos);
        outcome
    }

    fn focus_navigate(
        state: &mut UiState,
        outcome: &mut UiReductionOutcome,
        direction: FocusDirection,
        now: u64,
    )
        requires
            old(state).wf(),
        ensures
            final(state).wf(),
            step_of(*final(state), *final(outcome)) == step_of(*old(state), *old(outcome)).focus_to(
                tab_target(old(state)@.focus.current, direction, old(state)@.reading_lens_open),
                now,
            ),
    {
        proof {
            reveal(Step::focus_to);
        }
        let from = state.focus.current();
        let to = state.focus.navigate_tab(direction, state.reading_lens_open);
        if from != to {
            UiReducer::emit(state, outcome, UiEventKind::FocusChanged { from, to }, now);
            UiReducer::redraw(state, outcome);
        }
    }

    /// Reduces an action, adding to what was handed back before.
    #[verifier::rlimit(40)]
    #[verifier::spinoff_prover]
    pub fn reduce_into(
        state: &mut UiState,
        outcome: &mut UiReductionOutcome,
        action: UiAction,
        now: u64,
    )
        requires
            old(state).wf(),
        ensures
            final(state).wf(),
            step_of(*final(state), *final(outcome)) == step_of(*old(state), *old(outcome)).reduce(
                action@, now,
            ),
    {
        match action {
            UiAction::FocusChange(target) => UiReducer::focus_to(state, outcome, target, now),
            UiAction::FocusNavigate(direction) => UiReducer::focus_navigate(
                state,
                outcome,
                direction,
                now,
            ),
            UiAction::FocusReturn => UiReducer::focus_return(state, outcome, now),
            UiAction::SelectFile { file_id, path } => UiReducer::select_file(
                state, outcome, file_id, path, now,
            ),
            UiAction::ClearSelection => UiReducer::clear_selection(state, outcome, now),
            UiAction::ToggleSidebar => {
                let collapsed: bool = state.sidebar.is_collapsed;
                UiReducer::collapse_sidebar(state, outcome, !collapsed, now)
            },
            UiAction::SetSidebarCollapsed(collapsed) => {
                if state.sidebar.is_collapsed != collapsed {
                    UiReducer::collapse_sidebar(state, outcome, collapsed, now)
                }
            },
            UiAction::SetSidebarWidth { width, change } => UiReducer::set_sidebar_width(
                state, outcome, width, change,
            ),
            UiAction::SelectSidebarTab(panel) => UiReducer::select_tab(state, outcome, panel, now),
            UiAction::OpenReadingLens { file_id, path, line } => UiReducer::open_lens(
                state, outcome, file_id, path, line, now,
            ),
            UiAction::CloseReadingLens => UiReducer::close_lens(state, outcome, now),
            UiAction::OpenSearchPalette => UiReducer::open_palette(state, outcome),
            UiAction::CloseSearchPalette => UiReducer::close_palette(state, outcome),
            UiAction::SearchQueryChanged(query) => UiReducer::query_changed(
                state, outcome, query, now,
            ),
            UiAction::SearchResultsReceived { query_generation, results, has_more } => {
                UiReducer::results_received(
                    state,
                    outcome,
                    query_generation,
                    results,
                    has_more,
                    now,
                )
            },
            UiAction::SelectNextSearchResult => UiReducer::select_next_result(state, outcome),
            UiAction::SelectPrevSearchResult => UiReducer::select_prev_result(state, outcome),
            UiAction::ActivateSearchResult => UiReducer::activate_result(state, outcome),
            UiAction::TreeSelect(id) => UiReducer::tree_select(state, outcome, id),
            UiAction::TreeToggle(id) => UiReducer::tree_toggle(state, outcome, id),
            UiAction::TreeNavigate(direction) => UiReducer::tree_navigate(
                state, outcome, direction,
            ),
            UiAction::BreadcrumbNavigate(direction) => UiReducer::breadcrumb_navigate(
                state, outcome, direction,
            ),
            UiAction::BreadcrumbSelect(index) => UiReducer::breadcrumb_select(
                state, outcome, index,
            ),
            UiAction::HistoryNavigateBack => UiReducer::history_back(state, outcome, now),
            UiAction::HistoryNavigateForward => UiReducer::history_forward(state, outcome, now),
            UiAction::FitSelection => UiReducer::fit(
                state, outcome, "Selection", "FitSelection", now,
            ),
            UiAction::FitParent => UiReducer::fit(state, outcome, "Parent", "FitParent", now),
            UiAction::FitProject => UiReducer::fit(state, outcome, "Project", "FitProject", now),
            UiAction::PointerDown { region, pos, button, modifiers } => UiReducer::pointer_down(
                state, outcome, region, pos, button, modifiers, now,
            ),
            UiAction::PointerMove { pos, motion } => UiReducer::pointer_move(
                state, outcome, pos, motion, now,
            ),
            UiAction::PointerUp { .. } => UiReducer::pointer_up(state, outcome, now),
            UiAction::ScrollEvent { region, delta, modifiers, motion } => UiReducer::scroll(
                state, outcome, region, delta, modifiers, motion,
            ),
            UiAction::PinchEvent { region, factor, .. } => UiReducer::pinch(
                state, outcome, region, factor,
            ),
            UiAction::CancelGesture => UiReducer::cancel_gesture(state, outcome, now),
            UiAction::PromoteSelectedToReadingLens => UiReducer::promote(state, outcome, now),
            UiAction::PinReadingPane(pane_id) => UiReducer::pin_pane(
                state, outcome, pane_id, true, now,
            ),
            UiAction::UnpinReadingPane(pane_id) => UiReducer::pin_pane(
                state, outcome, pane_id, false, now,
            ),
            UiAction::TogglePinReadingPane(pane_id) => UiReducer::toggle_pin(
                state, outcome, pane_id, now,
            ),
            UiAction::CloseReadingPane(pane_id) => UiReducer::close_pane(
                state, outcome, pane_id, now,
            ),
            UiAction::SetCityMode(is_city) => UiReducer::set_city_mode(
                state, outcome, is_city, now,
            ),
            UiAction::ProcessInputBatch { max_discrete, pinch_factor } => UiReducer::process_batch(
                state, outcome, max_discrete, pinch_factor, now,
            ),
            UiAction::EnqueueDiscreteInput(event) => {
                let _ = state.motion_mailbox.push_discrete(event);
            },
            UiAction::RecordContinuousMove { pos, pan } => {
                state.motion_mailbox.record_move(pos, pan);
            },
            UiAction::RecordContinuousScroll { scroll } => {
                state.motion_mailbox.record_scroll(scroll);
            },
            UiAction::PointerClick { target, select } => UiReducer::pointer_click(
                state, outcome, target, select, now,
            ),
            UiAction::KeyboardShortcut(key) => UiReducer::shortcut(state, outcome, &key, now),
        }
    }

}

/// Rewriting a pane's pin state leaves it findable under its identifier.
proof fn lemma_pin_keeps_place(panes: PanesModel, id: u64)
    ensures
        forall|pinned: bool|
            panes.pane(id) is Some ==> (#[trigger] panes.set_pinned(id, pinned)).pane(id) == Some(
                ReadingPane { is_pinned: pinned, ..panes.pane(id)->0 },
            ),
        panes.pane(id) is Some ==> panes.toggle_pin(id).pane(id) == Some(
            ReadingPane { is_pinned: !panes.pane(id)->0.is_pinned, ..panes.pane(id)->0 },
        ),
{
    if panes.pane(id) is Some {
        lemma_pane_found(panes.panes, id, 0);
        assert forall|pinned: bool|
            (#[trigger] panes.set_pinned(id, pinned)).pane(id) == Some(
                ReadingPane { is_pinned: pinned, ..panes.pane(id)->0 },
            ) by {
            lemma_update_keeps_pane(
                panes.panes,
                pane_from(panes.panes, id, 0)->0,
                ReadingPane { is_pinned: pinned, ..panes.pane(id)->0 },
                id,
            );
        }
        lemma_update_keeps_pane(
            panes.panes,
            pane_from(panes.panes, id, 0)->0,
            ReadingPane { is_pinned: !panes.pane(id)->0.is_pinned, ..panes.pane(id)->0 },
            id,
        );
    }
}

} // verus!
