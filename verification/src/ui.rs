//! Deterministic UI state machine, focus model, sidebar, and command routing.
//!
//! - Strict separation of focus and selection.
//! - Bounded focus-return stack for predictable overlay exit.
//! - Conventional file tree projection for accessibility and precision navigation.
//! - Sidebar with Inspector, Results, History, and Outline panels.
//! - No I/O or parsing on the interaction thread; producers admit payloads.
//! - Generation-validated search results with stale batch rejection.
pub mod breadcrumbs;
pub mod focus;
pub mod gesture;
pub mod guarantees;
pub mod motion_mailbox;
pub mod reading_panes;
pub mod reducer;
pub mod search_navigation;
pub mod sidebar;
pub mod tree;

pub use breadcrumbs::{ScopeBreadcrumbs, ScopeSegment};
pub use focus::{FocusDirection, FocusManager, FocusStack, FocusTarget};
pub use gesture::{
    GestureArbitrator, GestureKind, GestureState, HitRegion, ModifierKeys, PointerButton,
    ScrollRouting,
};
pub use motion_mailbox::{CoalescedMotion, DiscreteInputEvent, MotionMailbox};
pub use reading_panes::{ReadingPane, ReadingPaneManager, ReadingPaneOpenError};
pub use reducer::{
    UiAction, UiCommand, UiEvent, UiEventKind, UiEventRing, UiReducer, UiReductionOutcome, UiState,
};
pub use search_navigation::{CapturedSearchActivation, SearchActivationError};
pub use sidebar::{
    FactCertainty, HistoryItem, HistoryState, InspectorFact, InspectorState, OutlineState,
    OutlineSymbol, ResultsState, SearchResultEntry, SidebarPanel, SidebarState,
};
pub use tree::{TreeError, TreeNode, TreeNodeId, TreeNodeKind, TreeProjection};
