//! Focus model, focus ring navigation, and bounded focus-return stack.
//!
//! Focus is independent of selection: changing focus does not steal or alter
//! the active selection, and changing selection does not steal focus unless
//! explicitly commanded. The focus-return stack guarantees predictable return
//! to the exact prior surface when modal overlays (e.g. search palette) dismiss.
use std::collections::VecDeque;

use vstd::prelude::*;

use super::sidebar::SidebarPanel;

verus! {

/// A focusable surface in the user interface.
#[derive(Clone, Copy, Debug, PartialEq, Eq, Hash, Structural)]
pub enum FocusTarget {
    /// The main spatial atlas surface.
    Atlas,
    /// An active panel in the collapsible sidebar.
    Sidebar(SidebarPanel),
    /// The open source reading lens.
    ReadingLens,
    /// The overlay search and command palette.
    SearchPalette,
    /// The hierarchical scope breadcrumbs strip.
    Breadcrumbs,
    /// The conventional hierarchical outline / file tree view.
    TreeProjection,
}

impl FocusTarget {
    /// Human-readable label for debugging and accessibility surfaces.
    pub fn label(self) -> (r: &'static str)
        ensures
            r@ == match self {
                FocusTarget::Atlas => "Spatial Atlas"@,
                FocusTarget::Sidebar(panel) => panel.name(),
                FocusTarget::ReadingLens => "Source Reading Lens"@,
                FocusTarget::SearchPalette => "Search Palette"@,
                FocusTarget::Breadcrumbs => "Scope Breadcrumbs"@,
                FocusTarget::TreeProjection => "File Tree Projection"@,
            },
    {
        match self {
            FocusTarget::Atlas => "Spatial Atlas",
            FocusTarget::Sidebar(panel) => panel.label(),
            FocusTarget::ReadingLens => "Source Reading Lens",
            FocusTarget::SearchPalette => "Search Palette",
            FocusTarget::Breadcrumbs => "Scope Breadcrumbs",
            FocusTarget::TreeProjection => "File Tree Projection",
        }
    }

    /// Whether this target is a modal overlay that requires focus-return on exit.
    pub fn is_modal(self) -> (r: bool)
        ensures
            r == (self is SearchPalette),
    {
        matches!(self, FocusTarget::SearchPalette)
    }
}

/// Directional movement across focusable surfaces or list elements.
#[derive(Clone, Copy, Debug, PartialEq, Eq, Structural)]
pub enum FocusDirection {
    /// Next element in the tab sequence.
    Next,
    /// Previous element in the tab sequence.
    Prev,
    /// Upward directional movement.
    Up,
    /// Downward directional movement.
    Down,
    /// Leftward directional movement (e.g. tree collapse, breadcrumb back).
    Left,
    /// Rightward directional movement (e.g. tree expand, breadcrumb forward).
    Right,
}

/// The last `capacity` items of a sequence.
pub open spec fn newest<A>(s: Seq<A>, capacity: nat) -> Seq<A> {
    if s.len() > capacity {
        s.subrange(s.len() - capacity, s.len() as int)
    } else {
        s
    }
}

/// What a return stack holds, oldest first, and how many it keeps.
#[verifier::ext_equal]
pub ghost struct FocusStackModel {
    pub targets: Seq<FocusTarget>,
    pub capacity: nat,
}

impl FocusStackModel {
    pub open spec fn push(self, target: FocusTarget) -> FocusStackModel {
        FocusStackModel { targets: newest(self.targets.push(target), self.capacity), ..self }
    }
}

/// Bounded focus-return stack for modal overlay dismissal.
#[derive(Clone, Debug, PartialEq)]
pub struct FocusStack {
    stack: VecDeque<FocusTarget>,
    capacity: usize,
}

impl View for FocusStack {
    type V = FocusStackModel;

    closed spec fn view(&self) -> FocusStackModel {
        FocusStackModel { targets: self.stack@, capacity: self.capacity as nat }
    }
}

impl FocusStack {
    pub const DEFAULT_CAPACITY: usize = 32;

    /// Never empty of room, never over its room.
    pub open spec fn wf(self) -> bool {
        0 < self@.capacity && self@.targets.len() <= self@.capacity
    }

    pub fn new(capacity: usize) -> (r: Self)
        ensures
            r.wf(),
            r@.targets.len() == 0,
            r@.capacity == if capacity == 0 {
                Self::DEFAULT_CAPACITY
            } else {
                capacity
            },
    {
        let cap: usize = if capacity == 0 {
            Self::DEFAULT_CAPACITY
        } else {
            capacity
        };
        FocusStack { stack: VecDeque::new(), capacity: cap }
    }

    /// Adds the newest target; the oldest leaves when there is no room.
    pub fn push(&mut self, target: FocusTarget)
        requires
            old(self).wf(),
        ensures
            final(self).wf(),
            final(self)@ == old(self)@.push(target),
    {
        if self.stack.len() >= self.capacity {
            self.stack.pop_front();
        }
        self.stack.push_back(target);
        assert(self@.targets =~= old(self)@.push(target).targets);
    }

    pub fn pop(&mut self) -> (r: Option<FocusTarget>)
        requires
            old(self).wf(),
        ensures
            final(self).wf(),
            final(self)@.capacity == old(self)@.capacity,
            old(self)@.targets.len() == 0 ==> r is None && final(self)@ == old(self)@,
            old(self)@.targets.len() > 0 ==> r == Some(old(self)@.targets.last())
                && final(self)@.targets == old(self)@.targets.drop_last(),
    {
        self.stack.pop_back()
    }

    pub fn peek(&self) -> (r: Option<FocusTarget>)
        ensures
            self@.targets.len() == 0 ==> r is None,
            self@.targets.len() > 0 ==> r == Some(self@.targets.last()),
    {
        let n: usize = self.stack.len();
        if n == 0 {
            None
        } else {
            Some(self.stack[n - 1])
        }
    }

    pub fn len(&self) -> (r: usize)
        ensures
            r == self@.targets.len(),
    {
        self.stack.len()
    }

    pub fn is_empty(&self) -> (r: bool)
        ensures
            r == (self@.targets.len() == 0),
    {
        self.stack.len() == 0
    }

    pub fn clear(&mut self)
        requires
            old(self).wf(),
        ensures
            final(self).wf(),
            final(self)@ == (FocusStackModel { targets: Seq::empty(), ..old(self)@ }),
    {
        self.stack.clear();
    }
}

impl Default for FocusStack {
    fn default() -> (r: Self)
        ensures
            r.wf(),
            r@.targets.len() == 0,
            r@.capacity == FocusStack::DEFAULT_CAPACITY,
    {
        FocusStack::new(FocusStack::DEFAULT_CAPACITY)
    }
}

/// The focused surface and the way back.
#[verifier::ext_equal]
pub ghost struct FocusModel {
    pub current: FocusTarget,
    pub stack: FocusStackModel,
}

impl FocusModel {
    /// Focus on a surface, with no way back.
    pub open spec fn at(initial: FocusTarget) -> FocusModel {
        FocusModel {
            current: initial,
            stack: FocusStackModel {
                targets: Seq::empty(),
                capacity: FocusStack::DEFAULT_CAPACITY as nat,
            },
        }
    }

    /// There is room for the way back, and it is kept within it.
    pub open spec fn bounded(self) -> bool {
        &&& self.stack.capacity == FocusStack::DEFAULT_CAPACITY
        &&& self.stack.targets.len() <= self.stack.capacity
    }

    /// Focus moves to `target`, remembering where it was; nothing happens when
    /// it is already there.
    pub open spec fn set_focus(self, target: FocusTarget) -> FocusModel {
        if self.current == target {
            self
        } else {
            FocusModel { current: target, stack: self.stack.push(self.current) }
        }
    }

    /// Focus goes back to the newest remembered target, if there is one.
    pub open spec fn return_focus(self) -> FocusModel {
        if self.stack.targets.len() == 0 {
            self
        } else {
            FocusModel {
                current: self.stack.targets.last(),
                stack: FocusStackModel { targets: self.stack.targets.drop_last(), ..self.stack },
            }
        }
    }
}

/// Ordered sequence of main non-modal surfaces for tab-ring navigation; the
/// reading lens takes part only while one is available.
pub open spec fn tab_ring(lens_available: bool) -> Seq<FocusTarget> {
    let always = seq![
        FocusTarget::Atlas,
        FocusTarget::Breadcrumbs,
        FocusTarget::TreeProjection,
        FocusTarget::Sidebar(SidebarPanel::Inspector),
    ];
    if lens_available {
        always.push(FocusTarget::ReadingLens)
    } else {
        always
    }
}

/// Where one step along the ring leads. A surface outside the ring steps to
/// its start or end, and a sideways direction stays or goes to the start.
pub open spec fn tab_target(
    current: FocusTarget,
    direction: FocusDirection,
    lens_available: bool,
) -> FocusTarget {
    let ring = tab_ring(lens_available);
    let n = ring.len() as int;
    if ring.contains(current) {
        let at = ring.index_of(current);
        match direction {
            FocusDirection::Next => ring[(at + 1) % n],
            FocusDirection::Prev => ring[(at + n - 1) % n],
            _ => current,
        }
    } else {
        match direction {
            FocusDirection::Prev => ring[n - 1],
            _ => ring[0],
        }
    }
}

/// Coordinates the current focus target, tab ring order, and focus-return.
#[derive(Clone, Debug, PartialEq)]
pub struct FocusManager {
    current: FocusTarget,
    stack: FocusStack,
}

impl View for FocusManager {
    type V = FocusModel;

    closed spec fn view(&self) -> FocusModel {
        FocusModel { current: self.current, stack: self.stack@ }
    }
}

impl FocusManager {
    /// The way back is within its bound.
    pub open spec fn wf(self) -> bool {
        self@.bounded()
    }

    pub fn new(initial: FocusTarget) -> (r: Self)
        ensures
            r.wf(),
            r@ == FocusModel::at(initial),
    {
        let r = FocusManager { current: initial, stack: FocusStack::default() };
        assert(r@.stack.targets =~= Seq::empty());
        r
    }

    pub fn current(&self) -> (r: FocusTarget)
        ensures
            r == self@.current,
    {
        self.current
    }

    pub fn stack_depth(&self) -> (r: usize)
        ensures
            r == self@.stack.targets.len(),
    {
        self.stack.len()
    }

    /// Explicitly set focus to `target`.
    ///
    /// If `target` is different from `current`, the previous target is pushed
    /// onto the focus-return stack.
    pub fn set_focus(&mut self, target: FocusTarget)
        requires
            old(self).wf(),
        ensures
            final(self).wf(),
            final(self)@ == old(self)@.set_focus(target),
    {
        if self.current != target {
            self.stack.push(self.current);
            self.current = target;
        }
    }

    /// Return focus to the most recent prior target on the stack.
    ///
    /// Returns the restored target, or `None` if the stack was empty.
    pub fn return_focus(&mut self) -> (r: Option<FocusTarget>)
        requires
            old(self).wf(),
        ensures
            final(self).wf(),
            final(self)@ == old(self)@.return_focus(),
            r == if old(self)@.stack.targets.len() == 0 {
                None
            } else {
                Some(final(self)@.current)
            },
    {
        if let Some(prev) = self.stack.pop() {
            self.current = prev;
            Some(prev)
        } else {
            None
        }
    }

    /// Advance or retreat through the tab ring.
    pub fn navigate_tab(&mut self, direction: FocusDirection, lens_available: bool) -> (r:
        FocusTarget)
        requires
            old(self).wf(),
        ensures
            final(self).wf(),
            r == tab_target(old(self)@.current, direction, lens_available),
            final(self)@ == old(self)@.set_focus(r),
    {
        let mut ring: Vec<FocusTarget> = Vec::new();
        ring.push(FocusTarget::Atlas);
        ring.push(FocusTarget::Breadcrumbs);
        ring.push(FocusTarget::TreeProjection);
        ring.push(FocusTarget::Sidebar(SidebarPanel::Inspector));
        if lens_available {
            ring.push(FocusTarget::ReadingLens);
        }
        let n: usize = ring.len();
        assert(ring@ =~= tab_ring(lens_available));
        let mut at: usize = 0;
        while at < n && ring[at] != self.current
            invariant
                n == ring.len(),
                at <= n,
                forall|i: int| 0 <= i < at ==> ring@[i] != self.current,
            decreases n - at,
        {
            at = at + 1;
        }
        assert(at < n ==> ring@.contains(self.current) && ring@.index_of(self.current) == at);
        let target = if at < n {
            match direction {
                FocusDirection::Next => ring[(at + 1) % n],
                FocusDirection::Prev => ring[(at + n - 1) % n],
                _ => self.current,
            }
        } else {
            match direction {
                FocusDirection::Prev => ring[n - 1],
                _ => ring[0],
            }
        };
        self.set_focus(target);
        target
    }
}

impl Default for FocusManager {
    fn default() -> (r: Self)
        ensures
            r.wf(),
            r@ == FocusModel::at(FocusTarget::Atlas),
    {
        FocusManager::new(FocusTarget::Atlas)
    }
}

/// Dismissing an overlay leads back to the exact surface it covered. The way
/// back from there is the same as before too, unless opening the overlay had to
/// forget the oldest of it.
pub proof fn return_undoes_set_focus(focus: FocusModel, target: FocusTarget)
    requires
        focus.bounded(),
        focus.current != target,
    ensures
        focus.set_focus(target).bounded(),
        focus.set_focus(target).stack.targets.len() > 0,
        focus.set_focus(target).return_focus().bounded(),
        focus.set_focus(target).return_focus().current == focus.current,
        focus.stack.targets.len() < FocusStack::DEFAULT_CAPACITY ==> focus.set_focus(
            target,
        ).return_focus() == focus,
{
    if focus.stack.targets.len() < FocusStack::DEFAULT_CAPACITY {
        assert(focus.set_focus(target).return_focus().stack.targets =~= focus.stack.targets);
    }
}

/// With no way back, returning changes nothing.
pub proof fn nothing_to_return_to(focus: FocusModel)
    requires
        focus.stack.targets.len() == 0,
    ensures
        focus.return_focus() == focus,
{
}

proof fn lemma_ring_position(lens_available: bool, at: int)
    requires
        0 <= at < tab_ring(lens_available).len(),
    ensures
        tab_ring(lens_available).contains(tab_ring(lens_available)[at]),
        tab_ring(lens_available).index_of(tab_ring(lens_available)[at]) == at,
{
    let ring = tab_ring(lens_available);
    let found = ring.index_of(ring[at]);
    assert(ring.contains(ring[at]));
    assert(ring[found] == ring[at]);
}

proof fn lemma_ring_step(at: int, n: int)
    requires
        0 <= at < n,
    ensures
        (at + 1) % n == (if at + 1 < n {
            at + 1
        } else {
            0
        }),
        (at + n - 1) % n == (if at > 0 {
            at - 1
        } else {
            n - 1
        }),
{
    if at + 1 < n {
        vstd::arithmetic::div_mod::lemma_small_mod((at + 1) as nat, n as nat);
    } else {
        vstd::arithmetic::div_mod::lemma_mod_self_0(n);
    }
    if at > 0 {
        vstd::arithmetic::div_mod::lemma_mod_add_multiples_vanish(at - 1, n);
        vstd::arithmetic::div_mod::lemma_small_mod((at - 1) as nat, n as nat);
    } else {
        vstd::arithmetic::div_mod::lemma_small_mod((n - 1) as nat, n as nat);
    }
}

/// A step back along the ring undoes a step forward.
pub proof fn next_then_prev(current: FocusTarget, lens_available: bool)
    requires
        tab_ring(lens_available).contains(current),
    ensures
        tab_target(
            tab_target(current, FocusDirection::Next, lens_available),
            FocusDirection::Prev,
            lens_available,
        ) == current,
{
    let n = tab_ring(lens_available).len() as int;
    let at = tab_ring(lens_available).index_of(current);
    lemma_ring_step(at, n);
    lemma_ring_position(lens_available, (at + 1) % n);
    lemma_ring_step((at + 1) % n, n);
}

/// A step forward along the ring undoes a step back.
pub proof fn prev_then_next(current: FocusTarget, lens_available: bool)
    requires
        tab_ring(lens_available).contains(current),
    ensures
        tab_target(
            tab_target(current, FocusDirection::Prev, lens_available),
            FocusDirection::Next,
            lens_available,
        ) == current,
{
    let n = tab_ring(lens_available).len() as int;
    let at = tab_ring(lens_available).index_of(current);
    lemma_ring_step(at, n);
    lemma_ring_position(lens_available, (at + n - 1) % n);
    lemma_ring_step((at + n - 1) % n, n);
}

/// The tab ring goes from the atlas to the breadcrumbs, the tree and the inspector, to the
/// reading lens if there is one, and back to the atlas; backwards it goes the other way
/// round. From anywhere else it is entered at its start, and backwards at its end.
pub proof fn the_tab_ring_is_walked_in_order(current: FocusTarget, lens_available: bool)
    ensures
        ({
            let next = tab_target(current, FocusDirection::Next, lens_available);
            let prev = tab_target(current, FocusDirection::Prev, lens_available);
            let inspector = FocusTarget::Sidebar(SidebarPanel::Inspector);
            let last = if lens_available {
                FocusTarget::ReadingLens
            } else {
                inspector
            };
            &&& current is Atlas ==> next is Breadcrumbs && prev == last
            &&& current is Breadcrumbs ==> next is TreeProjection && prev is Atlas
            &&& current is TreeProjection ==> next == inspector && prev is Breadcrumbs
            &&& current == inspector ==> prev is TreeProjection && next == (if lens_available {
                FocusTarget::ReadingLens
            } else {
                FocusTarget::Atlas
            })
            &&& current is ReadingLens && lens_available ==> next is Atlas && prev == inspector
            &&& !(current is Atlas || current is Breadcrumbs || current is TreeProjection || current
                == inspector || current is ReadingLens && lens_available) ==> next is Atlas && prev
                == last
        }),
{
    let ring = tab_ring(lens_available);
    let n = ring.len() as int;
    assert(ring[0] == FocusTarget::Atlas);
    assert(ring[1] == FocusTarget::Breadcrumbs);
    assert(ring[2] == FocusTarget::TreeProjection);
    assert(ring[3] == FocusTarget::Sidebar(SidebarPanel::Inspector));
    if lens_available {
        assert(ring[4] == FocusTarget::ReadingLens);
    }
    if ring.contains(current) {
        let at = ring.index_of(current);
        assert(0 <= at < n && ring[at] == current);
        assert(at == 0 || at == 1 || at == 2 || at == 3 || at == 4);
        if lens_available {
            assert(n == 5);
            assert((at + 1) % 5 == if at == 4 {
                0
            } else {
                at + 1
            }) by (nonlinear_arith)
                requires
                    0 <= at < 5,
            ;
            assert((at + 4) % 5 == if at == 0 {
                4
            } else {
                at - 1
            }) by (nonlinear_arith)
                requires
                    0 <= at < 5,
            ;
        } else {
            assert(n == 4);
            assert((at + 1) % 4 == if at == 3 {
                0
            } else {
                at + 1
            }) by (nonlinear_arith)
                requires
                    0 <= at < 4,
            ;
            assert((at + 3) % 4 == if at == 0 {
                3
            } else {
                at - 1
            }) by (nonlinear_arith)
                requires
                    0 <= at < 4,
            ;
        }
    } else {
        assert(!ring.contains(ring[0]) || current != ring[0]);
        assert(current != ring[1] && current != ring[2] && current != ring[3]);
        assert(lens_available ==> current != ring[4]);
    }
}

} // verus!
