//! Explicit gesture arbitration table and gesture ownership model.
//!
//! - The hit region selected at gesture start owns the gesture exclusively until
//!   completion or cancellation.
//! - Scrolling inside a reading lens body or code block scrolls that content
//!   and must not also pan the atlas.
//! - Dragging a reading lens title bar moves the pane on screen without altering atlas layout.
//! - Dragging inside a reading lens body performs text selection.
//! - Dragging on the atlas background pans the camera (or orbits in City mode with explicit modifier).
//! - Escape cancels an active gesture before changing workspace scope.
use vstd::prelude::*;

use crate::scalar::{Point, Scalar};

verus! {

/// Screen hit regions that can originate or receive gestures.
#[derive(Clone, Copy, Debug, PartialEq, Eq, Hash, Structural)]
pub enum HitRegion {
    /// Spatial atlas 2D/3D surface.
    AtlasBackground,
    /// Draggable title bar of a specific reading pane.
    ReadingLensTitleBar(u64),
    /// Content / text body of a specific reading pane.
    ReadingLensBody(u64),
    /// Vertical splitter between sidebar and atlas.
    SidebarSplitter,
    /// Sidebar panel content (Inspector, Results, History, Outline).
    SidebarContent,
    /// Scope breadcrumb trail.
    Breadcrumbs,
    /// Modal search palette.
    SearchPalette,
    /// Conventional tree projection view.
    TreeProjection,
}

/// Pointer buttons.
#[derive(Clone, Copy, Debug, PartialEq, Eq, Hash, Structural)]
pub enum PointerButton {
    Left,
    Middle,
    Right,
    Other(u16),
}

/// Keyboard modifier keys active during a gesture or input.
#[derive(Clone, Copy, Debug, PartialEq, Eq, Hash, Structural)]
pub struct ModifierKeys {
    pub shift: bool,
    pub ctrl: bool,
    pub alt: bool,
    pub cmd: bool,
    pub space: bool,
}

impl Default for ModifierKeys {
    fn default() -> (r: Self)
        ensures
            r == (ModifierKeys { shift: false, ctrl: false, alt: false, cmd: false, space: false }),
    {
        ModifierKeys::none()
    }
}

impl ModifierKeys {
    pub fn none() -> (r: Self)
        ensures
            r == (ModifierKeys { shift: false, ctrl: false, alt: false, cmd: false, space: false }),
    {
        ModifierKeys { shift: false, ctrl: false, alt: false, cmd: false, space: false }
    }

    pub fn space() -> (r: Self)
        ensures
            r == (ModifierKeys { shift: false, ctrl: false, alt: false, cmd: false, space: true }),
    {
        ModifierKeys { shift: false, ctrl: false, alt: false, cmd: false, space: true }
    }

    pub fn alt() -> (r: Self)
        ensures
            r == (ModifierKeys { shift: false, ctrl: false, alt: true, cmd: false, space: false }),
    {
        ModifierKeys { shift: false, ctrl: false, alt: true, cmd: false, space: false }
    }

    pub fn cmd() -> (r: Self)
        ensures
            r == (ModifierKeys { shift: false, ctrl: false, alt: false, cmd: true, space: false }),
    {
        ModifierKeys { shift: false, ctrl: false, alt: false, cmd: true, space: false }
    }
}

/// Active gesture category.
#[derive(Clone, Copy, Debug, PartialEq, Eq, Structural)]
pub enum GestureKind {
    /// Panning the camera over the spatial atlas.
    CameraPan,
    /// Zooming the camera around a gesture centroid.
    PinchZoom,
    /// Orbiting the camera in City mode (requires deliberate modifier drag).
    CameraOrbit,
    /// Translating a reading lens floating pane on screen.
    LensDrag { pane_id: u64 },
    /// Selecting text within a reading lens content body.
    TextSelect { pane_id: u64 },
    /// Resizing the sidebar via the splitter bar.
    SidebarResize,
}

/// Routing decision for scroll / wheel events.
#[derive(Clone, Copy, Debug, PartialEq, Eq, Structural)]
pub enum ScrollRouting {
    /// Isolated scroll inside a reading lens; atlas is untouched.
    LensScroll { pane_id: u64, dx: Scalar, dy: Scalar },
    /// Panning the spatial atlas.
    AtlasPan { dx: Scalar, dy: Scalar },
    /// Zooming the spatial atlas camera.
    AtlasZoom { factor: Scalar },
    /// Scrolling inside sidebar panels.
    SidebarScroll { dy: Scalar },
    /// Scrolling inside conventional tree projection.
    TreeScroll { dy: Scalar },
    /// Scroll was ignored or consumed without action.
    Ignored,
}

/// Current lifecycle state of gesture ownership.
#[derive(Clone, Copy, Debug, PartialEq, Eq)]
pub enum GestureState {
    /// No gesture is actively owning the pointer.
    Idle,
    /// A gesture has claimed ownership of pointer motion.
    Active {
        kind: GestureKind,
        owner_region: HitRegion,
        start_pos: Point,
        current_pos: Point,
        total_delta: Point,
    },
    /// Gesture was interrupted / cancelled by Escape or blur.
    Cancelled,
}

/// How far the pointer went, as the host computed it: since the last update,
/// and since the gesture began.
#[derive(Clone, Copy, Debug, PartialEq, Eq)]
pub struct PointerStep {
    pub delta: Point,
    pub total: Point,
}

/// The gesture that a press starts, where one does.
pub open spec fn drag_kind(
    region: HitRegion,
    button: PointerButton,
    modifiers: ModifierKeys,
    is_city_mode: bool,
) -> Option<GestureKind> {
    match (region, button) {
        (HitRegion::ReadingLensTitleBar(pane_id), PointerButton::Left) => Some(
            GestureKind::LensDrag { pane_id },
        ),
        (HitRegion::ReadingLensBody(pane_id), PointerButton::Left) => Some(
            GestureKind::TextSelect { pane_id },
        ),
        (HitRegion::SidebarSplitter, PointerButton::Left) => Some(GestureKind::SidebarResize),
        (HitRegion::AtlasBackground, PointerButton::Left) => if is_city_mode && modifiers.alt {
            Some(GestureKind::CameraOrbit)
        } else {
            Some(GestureKind::CameraPan)
        },
        (HitRegion::AtlasBackground, PointerButton::Middle) => Some(GestureKind::CameraPan),
        _ => None,
    }
}

/// Where a scroll goes.
pub open spec fn scroll_route(
    region: HitRegion,
    delta: Point,
    modifiers: ModifierKeys,
    zoom_factor: Scalar,
) -> ScrollRouting {
    match region {
        HitRegion::ReadingLensBody(pane_id) | HitRegion::ReadingLensTitleBar(pane_id) => {
            ScrollRouting::LensScroll { pane_id, dx: delta.0, dy: delta.1 }
        },
        HitRegion::AtlasBackground => if modifiers.cmd || modifiers.ctrl {
            ScrollRouting::AtlasZoom { factor: zoom_factor }
        } else {
            ScrollRouting::AtlasPan { dx: delta.0, dy: delta.1 }
        },
        HitRegion::SidebarContent => ScrollRouting::SidebarScroll { dy: delta.1 },
        HitRegion::TreeProjection => ScrollRouting::TreeScroll { dy: delta.1 },
        _ => ScrollRouting::Ignored,
    }
}

impl GestureState {
    /// A gesture owns the pointer.
    pub open spec fn active(self) -> bool {
        self is Active
    }

    /// The kind of the gesture that owns the pointer.
    pub open spec fn kind(self) -> Option<GestureKind> {
        match self {
            GestureState::Active { kind, .. } => Some(kind),
            _ => None,
        }
    }

    /// The state after a press: a running gesture keeps the pointer, and only
    /// a draggable region starts a new one.
    pub open spec fn press(
        self,
        region: HitRegion,
        pos: Point,
        button: PointerButton,
        modifiers: ModifierKeys,
        is_city_mode: bool,
    ) -> GestureState {
        match drag_kind(region, button, modifiers, is_city_mode) {
            Some(kind) if !self.active() => GestureState::Active {
                kind,
                owner_region: region,
                start_pos: pos,
                current_pos: pos,
                total_delta: (Scalar { bits: 0 }, Scalar { bits: 0 }),
            },
            _ => self,
        }
    }

    /// The state after the pointer moved.
    pub open spec fn moved(self, pos: Point, step: PointerStep) -> GestureState {
        match self {
            GestureState::Active { kind, owner_region, start_pos, .. } => GestureState::Active {
                kind,
                owner_region,
                start_pos,
                current_pos: pos,
                total_delta: step.total,
            },
            _ => self,
        }
    }
}

/// Explicit arbitration table that enforces single gesture ownership.
#[derive(Clone, Copy, Debug, PartialEq, Eq)]
pub struct GestureArbitrator {
    state: GestureState,
}

impl View for GestureArbitrator {
    type V = GestureState;

    closed spec fn view(&self) -> GestureState {
        self.state
    }
}

impl GestureArbitrator {
    pub fn new() -> (r: Self)
        ensures
            r@ == GestureState::Idle,
    {
        GestureArbitrator { state: GestureState::Idle }
    }

    pub fn state(&self) -> (r: GestureState)
        ensures
            r == self@,
    {
        self.state
    }

    pub fn is_active(&self) -> (r: bool)
        ensures
            r == self@.active(),
    {
        matches!(self.state, GestureState::Active { .. })
    }

    pub fn owner_region(&self) -> (r: Option<HitRegion>)
        ensures
            r == match self@ {
                GestureState::Active { owner_region, .. } => Some(owner_region),
                _ => None,
            },
    {
        match self.state {
            GestureState::Active { owner_region, .. } => Some(owner_region),
            _ => None,
        }
    }

    pub fn current_kind(&self) -> (r: Option<GestureKind>)
        ensures
            r == self@.kind(),
    {
        match self.state {
            GestureState::Active { kind, .. } => Some(kind),
            _ => None,
        }
    }

    /// Attempt to initiate a drag gesture at `start_pos` on `region`.
    ///
    /// The hit region selected at gesture start owns the gesture until completion.
    /// Returns the assigned `GestureKind`, or `None` if a gesture is already active
    /// or if the region does not support dragging with the given inputs.
    pub fn start_pointer_drag(
        &mut self,
        region: HitRegion,
        start_pos: Point,
        button: PointerButton,
        modifiers: ModifierKeys,
        is_city_mode: bool,
    ) -> (r: Option<GestureKind>)
        ensures
            final(self)@ == old(self)@.press(region, start_pos, button, modifiers, is_city_mode),
            r == if old(self)@.active() {
                None
            } else {
                drag_kind(region, button, modifiers, is_city_mode)
            },
    {
        // If already active, the existing gesture owns the interaction.
        if self.is_active() {
            return None;
        }
        let kind = match (region, button) {
            // Dragging reading lens title bar translates the pane
            (HitRegion::ReadingLensTitleBar(pane_id), PointerButton::Left) => GestureKind::LensDrag {
                pane_id,
            },
            // Dragging inside reading lens body selects text
            (HitRegion::ReadingLensBody(pane_id), PointerButton::Left) => GestureKind::TextSelect {
                pane_id,
            },
            // Dragging splitter handle resizes sidebar
            (HitRegion::SidebarSplitter, PointerButton::Left) => GestureKind::SidebarResize,
            // Dragging atlas background; orbiting takes a deliberate modifier in City mode
            (HitRegion::AtlasBackground, PointerButton::Left) => if is_city_mode && modifiers.alt {
                GestureKind::CameraOrbit
            } else {
                GestureKind::CameraPan
            },
            // Middle drag pans the atlas from anywhere on atlas
            (HitRegion::AtlasBackground, PointerButton::Middle) => GestureKind::CameraPan,
            _ => {
                return None;
            },
        };
        self.state = GestureState::Active {
            kind,
            owner_region: region,
            start_pos,
            current_pos: start_pos,
            total_delta: (Scalar::zero(), Scalar::zero()),
        };
        Some(kind)
    }

    /// Update pointer position during an active gesture.
    ///
    /// Returns the gesture kind and the incremental `(dx, dy)` delta since last update.
    pub fn update_pointer_move(&mut self, new_pos: Point, step: PointerStep) -> (r: Option<
        (GestureKind, Point),
    >)
        ensures
            final(self)@ == old(self)@.moved(new_pos, step),
            r == match old(self)@.kind() {
                Some(kind) => Some((kind, step.delta)),
                None => None,
            },
    {
        match self.state {
            GestureState::Active { kind, owner_region, start_pos, .. } => {
                self.state = GestureState::Active {
                    kind,
                    owner_region,
                    start_pos,
                    current_pos: new_pos,
                    total_delta: step.total,
                };
                Some((kind, step.delta))
            },
            _ => None,
        }
    }

    /// Complete the active gesture on pointer release.
    pub fn complete_pointer(&mut self) -> (r: Option<GestureKind>)
        ensures
            r == old(self)@.kind(),
            final(self)@ == if old(self)@.active() {
                GestureState::Idle
            } else {
                old(self)@
            },
    {
        match self.state {
            GestureState::Active { kind, .. } => {
                self.state = GestureState::Idle;
                Some(kind)
            },
            _ => None,
        }
    }

    /// Cancel the active gesture (e.g. on Escape or window focus lost).
    ///
    /// Returns `true` if an active gesture was cancelled.
    pub fn cancel(&mut self) -> (r: bool)
        ensures
            r == old(self)@.active(),
            final(self)@ == if r {
                GestureState::Cancelled
            } else {
                old(self)@
            },
    {
        if self.is_active() {
            self.state = GestureState::Cancelled;
            true
        } else {
            false
        }
    }

    /// Reset cancelled or finished state back to Idle.
    pub fn reset_idle(&mut self)
        ensures
            final(self)@ == GestureState::Idle,
    {
        self.state = GestureState::Idle;
    }

    /// Route a scroll/wheel event faithfully according to the hit region arbitration table.
    ///
    /// Scrolling inside a reading lens scrolls that lens and MUST NOT pan the atlas!
    /// `zoom_factor` is the factor that the host derived from the vertical delta.
    pub fn route_scroll(
        &self,
        region: HitRegion,
        delta: Point,
        modifiers: ModifierKeys,
        zoom_factor: Scalar,
    ) -> (r: ScrollRouting)
        ensures
            r == scroll_route(region, delta, modifiers, zoom_factor),
    {
        match region {
            HitRegion::ReadingLensBody(pane_id) | HitRegion::ReadingLensTitleBar(pane_id) => {
                // Isolated scroll inside reading lens; atlas is never panned!
                ScrollRouting::LensScroll { pane_id, dx: delta.0, dy: delta.1 }
            },
            HitRegion::AtlasBackground => {
                if modifiers.cmd || modifiers.ctrl {
                    // Zoom around pointer
                    ScrollRouting::AtlasZoom { factor: zoom_factor }
                } else {
                    // Two-finger scroll pans atlas by default
                    ScrollRouting::AtlasPan { dx: delta.0, dy: delta.1 }
                }
            },
            HitRegion::SidebarContent => ScrollRouting::SidebarScroll { dy: delta.1 },
            HitRegion::TreeProjection => ScrollRouting::TreeScroll { dy: delta.1 },
            HitRegion::SidebarSplitter | HitRegion::Breadcrumbs | HitRegion::SearchPalette => {
                ScrollRouting::Ignored
            },
        }
    }

    /// Route a pinch zoom gesture. `factor` is one plus the magnification.
    pub fn route_pinch(&self, region: HitRegion, factor: Scalar) -> (r: Option<Scalar>)
        ensures
            r == if region == HitRegion::AtlasBackground {
                Some(factor)
            } else {
                None
            },
    {
        match region {
            HitRegion::AtlasBackground => Some(factor),
            _ => None,
        }
    }
}

impl Default for GestureArbitrator {
    fn default() -> (r: Self)
        ensures
            r@ == GestureState::Idle,
    {
        GestureArbitrator::new()
    }
}

/// The region that started a gesture owns it until release or cancellation: no
/// press and no motion changes the owner or the kind.
pub proof fn ownership_is_exclusive(
    state: GestureState,
    region: HitRegion,
    pos: Point,
    button: PointerButton,
    modifiers: ModifierKeys,
    is_city_mode: bool,
    step: PointerStep,
)
    requires
        state.active(),
    ensures
        state.press(region, pos, button, modifiers, is_city_mode) == state,
        state.moved(pos, step).kind() == state.kind(),
        state.moved(pos, step)->owner_region == state->owner_region,
{
}

/// Scrolling over a reading lens never pans or zooms the atlas.
pub proof fn lens_scroll_is_isolated(
    region: HitRegion,
    delta: Point,
    modifiers: ModifierKeys,
    zoom_factor: Scalar,
)
    requires
        region is ReadingLensBody || region is ReadingLensTitleBar,
    ensures
        scroll_route(region, delta, modifiers, zoom_factor) is LensScroll,
{
}

/// Orbiting takes City mode and the modifier.
pub proof fn orbit_is_deliberate(
    region: HitRegion,
    button: PointerButton,
    modifiers: ModifierKeys,
    is_city_mode: bool,
)
    requires
        drag_kind(region, button, modifiers, is_city_mode) == Some(GestureKind::CameraOrbit),
    ensures
        is_city_mode && modifiers.alt,
{
}

/// A press starts a gesture exactly on what can be dragged: the title bar moves its pane,
/// the body selects text in it, the splitter resizes the sidebar, and the atlas is panned,
/// with the left button or the middle one, or orbited with the left one, in City mode with
/// the modifier.
pub proof fn presses_start_what_can_be_dragged(
    region: HitRegion,
    button: PointerButton,
    modifiers: ModifierKeys,
    is_city_mode: bool,
)
    ensures
        ({
            let kind = drag_kind(region, button, modifiers, is_city_mode);
            let atlas = region is AtlasBackground;
            &&& kind == Some(GestureKind::CameraPan) <==> atlas && (button is Middle || button
                is Left && !(is_city_mode && modifiers.alt))
            &&& kind == Some(GestureKind::CameraOrbit) <==> atlas && button is Left && is_city_mode
                && modifiers.alt
            &&& kind == Some(GestureKind::SidebarResize) <==> region is SidebarSplitter && button
                is Left
            &&& kind matches Some(GestureKind::LensDrag { pane_id }) ==> region
                == HitRegion::ReadingLensTitleBar(pane_id) && button is Left
            &&& kind matches Some(GestureKind::TextSelect { pane_id }) ==> region
                == HitRegion::ReadingLensBody(pane_id) && button is Left
            &&& region matches HitRegion::ReadingLensTitleBar(pane_id) ==> (button is Left ==> kind
                == Some(GestureKind::LensDrag { pane_id }))
            &&& region matches HitRegion::ReadingLensBody(pane_id) ==> (button is Left ==> kind
                == Some(GestureKind::TextSelect { pane_id }))
        }),
{
}

/// A scroll goes to what is under the pointer: to the pane, to the sidebar, to the tree,
/// or to the atlas, which is zoomed with a modifier and panned without.
pub proof fn scrolls_go_to_what_is_under_the_pointer(
    region: HitRegion,
    delta: Point,
    modifiers: ModifierKeys,
    zoom_factor: Scalar,
    pane_id: u64,
)
    ensures
        scroll_route(
            HitRegion::ReadingLensBody(pane_id),
            delta,
            modifiers,
            zoom_factor,
        ) == (ScrollRouting::LensScroll { pane_id, dx: delta.0, dy: delta.1 }),
        scroll_route(
            HitRegion::ReadingLensTitleBar(pane_id),
            delta,
            modifiers,
            zoom_factor,
        ) == (ScrollRouting::LensScroll { pane_id, dx: delta.0, dy: delta.1 }),
        region is AtlasBackground && (modifiers.cmd || modifiers.ctrl) ==> scroll_route(
            region,
            delta,
            modifiers,
            zoom_factor,
        ) == (ScrollRouting::AtlasZoom { factor: zoom_factor }),
        region is AtlasBackground && !modifiers.cmd && !modifiers.ctrl ==> scroll_route(
            region,
            delta,
            modifiers,
            zoom_factor,
        ) == (ScrollRouting::AtlasPan { dx: delta.0, dy: delta.1 }),
        region is SidebarContent ==> scroll_route(region, delta, modifiers, zoom_factor) == (
        ScrollRouting::SidebarScroll { dy: delta.1 }),
        region is TreeProjection ==> scroll_route(region, delta, modifiers, zoom_factor) == (
        ScrollRouting::TreeScroll { dy: delta.1 }),
        scroll_route(region, delta, modifiers, zoom_factor) is Ignored ==> !(region
            is AtlasBackground || region is ReadingLensBody || region is ReadingLensTitleBar
            || region is SidebarContent || region is TreeProjection),
{
}

} // verus!
