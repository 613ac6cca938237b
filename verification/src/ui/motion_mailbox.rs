//! Motion coalescing mailbox and bounded discrete input queue.
//!
//! - Motion is coalesced into a latest-state mailbox so high-frequency continuous
//!   events (mouse moves, scroll ticks, pinch deltas) never overflow event rings
//!   or cause interaction stalls.
//! - Ordered discrete commands (pointer down, pointer up, key down, key up, focus changes,
//!   marked-text commits) are preserved in order in a bounded queue.
//! - Per-frame processing is bounded, with explicit backpressure tracking.
use std::collections::VecDeque;

use vstd::prelude::*;

use super::focus::{newest, FocusTarget};
use super::gesture::{HitRegion, ModifierKeys, PointerButton};
use crate::model::{group_views, views};
use crate::scalar::{Point, Scalar};

verus! {

broadcast use group_views;

/// Discrete input events whose order must be strictly preserved.
#[derive(Debug, PartialEq)]
pub enum DiscreteInputEvent<T = String> {
    /// Pointer press at specific coordinates.
    PointerDown { region: HitRegion, pos: Point, button: PointerButton, modifiers: ModifierKeys },
    /// Pointer release at specific coordinates.
    PointerUp { pos: Point, button: PointerButton },
    /// Discrete key press.
    KeyDown { key: T, modifiers: ModifierKeys },
    /// Discrete key release.
    KeyUp { key: T },
    /// User clicked or focused a specific UI target.
    FocusTargetSelected(FocusTarget),
    /// Native IME marked-text commit.
    MarkedTextCommit(T),
}

impl View for DiscreteInputEvent {
    type V = DiscreteInputEvent<Seq<char>>;

    open spec fn view(&self) -> DiscreteInputEvent<Seq<char>> {
        match *self {
            DiscreteInputEvent::PointerDown { region, pos, button, modifiers } => {
                DiscreteInputEvent::PointerDown { region, pos, button, modifiers }
            },
            DiscreteInputEvent::PointerUp { pos, button } => DiscreteInputEvent::PointerUp {
                pos,
                button,
            },
            DiscreteInputEvent::KeyDown { key, modifiers } => DiscreteInputEvent::KeyDown {
                key: key@,
                modifiers,
            },
            DiscreteInputEvent::KeyUp { key } => DiscreteInputEvent::KeyUp { key: key@ },
            DiscreteInputEvent::FocusTargetSelected(target) => {
                DiscreteInputEvent::FocusTargetSelected(target)
            },
            DiscreteInputEvent::MarkedTextCommit(text) => DiscreteInputEvent::MarkedTextCommit(
                text@,
            ),
        }
    }
}

/// Coalesced continuous motion data consumed in a single frame.
#[derive(Clone, Copy, Debug, PartialEq, Eq)]
pub struct CoalescedMotion {
    /// Accumulated camera/pointer delta `(dx, dy)` from move events.
    pub pan_delta: Point,
    /// Accumulated scroll delta `(dx, dy)` from wheel/trackpad events.
    pub scroll_delta: Point,
    /// Accumulated pinch magnification scale factor.
    pub pinch_magnification: Scalar,
    /// Latest reported pointer coordinate, if any move occurred.
    pub latest_pointer: Option<Point>,
    /// Number of high-frequency ticks coalesced into this frame.
    pub coalesced_count: usize,
}

/// Both coordinates are zero.
pub open spec fn origin() -> Point {
    (Scalar { bits: 0 }, Scalar { bits: 0 })
}

/// Either coordinate is noticeable.
pub open spec fn point_noticeable(p: Point) -> bool {
    p.0.noticeable() || p.1.noticeable()
}

/// Whether either coordinate is noticeable.
pub fn exceeds_epsilon(p: Point) -> (r: bool)
    ensures
        r == point_noticeable(p),
{
    p.0.exceeds_epsilon() || p.1.exceeds_epsilon()
}

/// What waits in the mailbox.
#[verifier::ext_equal]
pub ghost struct MailboxModel {
    pub queue: Seq<DiscreteInputEvent<Seq<char>>>,
    pub capacity: nat,
    pub pan: Point,
    pub scroll: Point,
    pub pinch: Scalar,
    pub latest_pointer: Option<Point>,
    pub ticks: u64,
    pub dropped: u64,
}

impl MailboxModel {
    /// A mailbox in which nothing waits.
    pub open spec fn blank(capacity: nat) -> MailboxModel {
        MailboxModel {
            queue: Seq::empty(),
            capacity,
            pan: origin(),
            scroll: origin(),
            pinch: Scalar { bits: 0 },
            latest_pointer: None,
            ticks: 0,
            dropped: 0,
        }
    }
}

/// One more, staying at the largest number.
pub open spec fn saturating_next(n: u64) -> u64 {
    if n == u64::MAX {
        n
    } else {
        (n + 1) as u64
    }
}

impl MailboxModel {
    /// The accumulated motion is more than rounding noise.
    pub open spec fn moving(self) -> bool {
        point_noticeable(self.pan) || point_noticeable(self.scroll) || self.pinch.noticeable()
    }

    /// The newest events stay; one that does not fit pushes out the oldest.
    pub open spec fn push_discrete(self, event: DiscreteInputEvent<Seq<char>>) -> MailboxModel {
        MailboxModel {
            queue: newest(self.queue.push(event), self.capacity),
            dropped: if self.queue.len() >= self.capacity {
                saturating_next(self.dropped)
            } else {
                self.dropped
            },
            ..self
        }
    }

    pub open spec fn record_move(self, pos: Point, pan: Point) -> MailboxModel {
        MailboxModel {
            pan,
            latest_pointer: Some(pos),
            ticks: saturating_next(self.ticks),
            ..self
        }
    }

    pub open spec fn record_scroll(self, scroll: Point) -> MailboxModel {
        MailboxModel { scroll, ticks: saturating_next(self.ticks), ..self }
    }

    pub open spec fn record_pinch(self, pinch: Scalar) -> MailboxModel {
        MailboxModel { pinch, ticks: saturating_next(self.ticks), ..self }
    }

    /// The motion that a frame would consume.
    pub open spec fn motion(self) -> Option<CoalescedMotion> {
        if self.moving() || self.latest_pointer is Some {
            Some(
                CoalescedMotion {
                    pan_delta: self.pan,
                    scroll_delta: self.scroll,
                    pinch_magnification: self.pinch,
                    latest_pointer: self.latest_pointer,
                    coalesced_count: self.ticks as usize,
                },
            )
        } else {
            None
        }
    }

    /// No motion is left.
    pub open spec fn still(self) -> MailboxModel {
        MailboxModel {
            pan: origin(),
            scroll: origin(),
            pinch: Scalar { bits: 0 },
            latest_pointer: None,
            ticks: 0,
            ..self
        }
    }

    pub open spec fn take_motion(self) -> MailboxModel {
        if self.motion() is Some {
            self.still()
        } else {
            self
        }
    }

    /// How many events a bounded batch holds.
    pub open spec fn batch_len(self, max_events: nat) -> nat {
        if max_events < self.queue.len() {
            max_events
        } else {
            self.queue.len()
        }
    }

    /// The oldest events, at most this many.
    pub open spec fn batch(self, max_events: nat) -> Seq<DiscreteInputEvent<Seq<char>>> {
        self.queue.subrange(0, self.batch_len(max_events) as int)
    }

    pub open spec fn drained(self, max_events: nat) -> MailboxModel {
        MailboxModel {
            queue: self.queue.subrange(
                self.batch_len(max_events) as int,
                self.queue.len() as int,
            ),
            ..self
        }
    }
}

/// Mailbox that coalesces high-frequency continuous motion while queueing discrete inputs.
#[derive(Debug, PartialEq)]
pub struct MotionMailbox {
    discrete_queue: VecDeque<DiscreteInputEvent>,
    capacity: usize,
    accumulated_pan: Point,
    accumulated_scroll: Point,
    accumulated_pinch: Scalar,
    latest_pointer: Option<Point>,
    coalesced_move_ticks: u64,
    dropped_discrete_events: u64,
}

impl View for MotionMailbox {
    type V = MailboxModel;

    closed spec fn view(&self) -> MailboxModel {
        MailboxModel {
            queue: views(self.discrete_queue@),
            capacity: self.capacity as nat,
            pan: self.accumulated_pan,
            scroll: self.accumulated_scroll,
            pinch: self.accumulated_pinch,
            latest_pointer: self.latest_pointer,
            ticks: self.coalesced_move_ticks,
            dropped: self.dropped_discrete_events,
        }
    }
}

impl MotionMailbox {
    pub const DEFAULT_QUEUE_CAPACITY: usize = 128;

    /// There is room for an event, and never more events than room.
    pub open spec fn wf(self) -> bool {
        0 < self@.capacity && self@.queue.len() <= self@.capacity
    }

    pub fn new(capacity: usize) -> (r: Self)
        ensures
            r.wf(),
            r@ == MailboxModel::blank(
                if capacity == 0 {
                    Self::DEFAULT_QUEUE_CAPACITY as nat
                } else {
                    capacity as nat
                },
            ),
    {
        let cap: usize = if capacity == 0 {
            Self::DEFAULT_QUEUE_CAPACITY
        } else {
            capacity
        };
        let r = MotionMailbox {
            discrete_queue: VecDeque::new(),
            capacity: cap,
            accumulated_pan: (Scalar::zero(), Scalar::zero()),
            accumulated_scroll: (Scalar::zero(), Scalar::zero()),
            accumulated_pinch: Scalar::zero(),
            latest_pointer: None,
            coalesced_move_ticks: 0,
            dropped_discrete_events: 0,
        };
        assert(r@.queue =~= Seq::empty());
        r
    }

    /// Enqueue a discrete event. If the queue is full, the oldest event is dropped
    /// to provide backpressure, and the drop counter is incremented.
    pub fn push_discrete(&mut self, event: DiscreteInputEvent) -> (r: bool)
        requires
            old(self).wf(),
        ensures
            final(self).wf(),
            final(self)@ == old(self)@.push_discrete(event@),
            r == (old(self)@.queue.len() < old(self)@.capacity),
    {
        let ghost target = old(self)@.push_discrete(event@).queue;
        if self.discrete_queue.len() >= self.capacity {
            self.discrete_queue.pop_front();
            self.dropped_discrete_events = self.dropped_discrete_events.saturating_add(1);
            self.discrete_queue.push_back(event);
            assert(self@.queue =~= target);
            false
        } else {
            self.discrete_queue.push_back(event);
            assert(self@.queue =~= target);
            true
        }
    }

    /// Record a high-frequency continuous pointer move; `pan` is the
    /// accumulated delta including this one.
    pub fn record_move(&mut self, pos: Point, pan: Point)
        requires
            old(self).wf(),
        ensures
            final(self).wf(),
            final(self)@ == old(self)@.record_move(pos, pan),
    {
        self.accumulated_pan = pan;
        self.latest_pointer = Some(pos);
        self.coalesced_move_ticks = self.coalesced_move_ticks.saturating_add(1);
    }

    /// Record a high-frequency continuous scroll/wheel delta; `scroll` is the
    /// accumulated delta including this one.
    pub fn record_scroll(&mut self, scroll: Point)
        requires
            old(self).wf(),
        ensures
            final(self).wf(),
            final(self)@ == old(self)@.record_scroll(scroll),
    {
        self.accumulated_scroll = scroll;
        self.coalesced_move_ticks = self.coalesced_move_ticks.saturating_add(1);
    }

    /// Record a continuous pinch magnification delta; `pinch` is the
    /// accumulated magnification including this one.
    pub fn record_pinch(&mut self, pinch: Scalar)
        requires
            old(self).wf(),
        ensures
            final(self).wf(),
            final(self)@ == old(self)@.record_pinch(pinch),
    {
        self.accumulated_pinch = pinch;
        self.coalesced_move_ticks = self.coalesced_move_ticks.saturating_add(1);
    }

    /// The pan accumulated so far.
    pub fn accumulated_pan(&self) -> (r: Point)
        ensures
            r == self@.pan,
    {
        self.accumulated_pan
    }

    /// The scroll accumulated so far.
    pub fn accumulated_scroll(&self) -> (r: Point)
        ensures
            r == self@.scroll,
    {
        self.accumulated_scroll
    }

    /// The pinch magnification accumulated so far.
    pub fn accumulated_pinch(&self) -> (r: Scalar)
        ensures
            r == self@.pinch,
    {
        self.accumulated_pinch
    }

    fn is_moving(&self) -> (r: bool)
        ensures
            r == self@.moving(),
    {
        exceeds_epsilon(self.accumulated_pan) || exceeds_epsilon(self.accumulated_scroll)
            || self.accumulated_pinch.exceeds_epsilon()
    }

    /// Check if any motion or discrete events are pending.
    pub fn has_pending(&self) -> (r: bool)
        ensures
            r == (self@.queue.len() > 0 || self@.moving()),
    {
        self.discrete_queue.len() > 0 || self.is_moving()
    }

    /// Take and reset the coalesced continuous motion for this frame.
    pub fn take_motion(&mut self) -> (r: Option<CoalescedMotion>)
        requires
            old(self).wf(),
        ensures
            final(self).wf(),
            r == old(self)@.motion(),
            final(self)@ == old(self)@.take_motion(),
    {
        if !self.is_moving() && self.latest_pointer.is_none() {
            return None;
        }
        let motion = CoalescedMotion {
            pan_delta: self.accumulated_pan,
            scroll_delta: self.accumulated_scroll,
            pinch_magnification: self.accumulated_pinch,
            latest_pointer: self.latest_pointer,
            coalesced_count: self.coalesced_move_ticks as usize,
        };
        self.settle();
        Some(motion)
    }

    fn settle(&mut self)
        requires
            old(self).wf(),
        ensures
            final(self).wf(),
            final(self)@ == old(self)@.still(),
    {
        self.accumulated_pan = (Scalar::zero(), Scalar::zero());
        self.accumulated_scroll = (Scalar::zero(), Scalar::zero());
        self.accumulated_pinch = Scalar::zero();
        self.latest_pointer = None;
        self.coalesced_move_ticks = 0;
    }

    /// Drain at most `max_events` discrete events from the queue for bounded per-frame consumption.
    pub fn drain_discrete_batch(&mut self, max_events: usize) -> (r: Vec<DiscreteInputEvent>)
        requires
            old(self).wf(),
        ensures
            final(self).wf(),
            views(r@) == old(self)@.batch(max_events as nat),
            final(self)@ == old(self)@.drained(max_events as nat),
    {
        let mut batch: Vec<DiscreteInputEvent> = Vec::new();
        let total: usize = self.discrete_queue.len();
        let count: usize = if max_events < total {
            max_events
        } else {
            total
        };
        let ghost before = self.discrete_queue@;
        let mut i: usize = 0;
        while i < count
            invariant
                i <= count <= before.len() == total,
                batch@ == before.subrange(0, i as int),
                self.discrete_queue@ == before.subrange(i as int, total as int),
                self@ == (MailboxModel { queue: self@.queue, ..old(self)@ }),
            decreases count - i,
        {
            if let Some(event) = self.discrete_queue.pop_front() {
                batch.push(event);
            }
            i = i + 1;
            assert(batch@ =~= before.subrange(0, i as int));
            assert(self.discrete_queue@ =~= before.subrange(i as int, total as int));
        }
        assert(views(batch@) =~= old(self)@.batch(max_events as nat));
        assert(self@.queue =~= old(self)@.drained(max_events as nat).queue);
        batch
    }

    pub fn discrete_len(&self) -> (r: usize)
        ensures
            r == self@.queue.len(),
    {
        self.discrete_queue.len()
    }

    pub fn dropped_discrete_count(&self) -> (r: u64)
        ensures
            r == self@.dropped,
    {
        self.dropped_discrete_events
    }

    pub fn reset(&mut self)
        requires
            old(self).wf(),
        ensures
            final(self).wf(),
            final(self)@ == (MailboxModel { queue: Seq::empty(), ..old(self)@.still() }),
    {
        self.discrete_queue.clear();
        self.settle();
        assert(self@.queue =~= Seq::empty());
    }
}

impl Default for MotionMailbox {
    fn default() -> (r: Self)
        ensures
            r.wf(),
            r@ == MailboxModel::blank(MotionMailbox::DEFAULT_QUEUE_CAPACITY as nat),
    {
        MotionMailbox::new(MotionMailbox::DEFAULT_QUEUE_CAPACITY)
    }
}

/// Draining in two batches gives the events in the order of one batch.
pub proof fn batches_preserve_order(mailbox: MailboxModel, first: nat, second: nat)
    ensures
        mailbox.batch(first) + mailbox.drained(first).batch(second) == mailbox.batch(
            first + second,
        ),
        mailbox.drained(first).drained(second) == mailbox.drained(first + second),
{
    assert(mailbox.batch(first) + mailbox.drained(first).batch(second) =~= mailbox.batch(
        first + second,
    ));
    assert(mailbox.drained(first).drained(second).queue =~= mailbox.drained(first + second).queue);
}

/// A queue with room keeps every event behind those already waiting.
pub proof fn push_keeps_order(mailbox: MailboxModel, event: DiscreteInputEvent<Seq<char>>)
    requires
        mailbox.queue.len() < mailbox.capacity,
    ensures
        mailbox.push_discrete(event).queue == mailbox.queue.push(event),
        mailbox.push_discrete(event).dropped == mailbox.dropped,
{
}

/// Motion is consumed once.
pub proof fn motion_is_taken_once(mailbox: MailboxModel)
    ensures
        mailbox.take_motion().motion() is None,
{
}

} // verus!
