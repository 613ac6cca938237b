use fcb::identity::{ArenaOwnerId, FileId};
use fcb::scalar::{stagger, Scalar};
use fcb::ui::breadcrumbs::ScopeBreadcrumbs;
use fcb::ui::focus::{FocusDirection, FocusManager, FocusStack, FocusTarget};
use fcb::ui::gesture::{
    GestureArbitrator, GestureKind, HitRegion, ModifierKeys, PointerButton, PointerStep,
    ScrollRouting,
};
use fcb::ui::motion_mailbox::{DiscreteInputEvent, MotionMailbox};
use fcb::ui::reading_panes::ReadingPaneManager;
use fcb::ui::sidebar::{HistoryItem, HistoryState, SidebarPanel, SidebarState};
use fcb::ui::tree::{TreeNode, TreeNodeKind, TreeProjection};

fn scalar(value: f32) -> Scalar {
    Scalar { bits: value.to_bits() }
}

fn point(x: f32, y: f32) -> (Scalar, Scalar) {
    (scalar(x), scalar(y))
}

#[test]
fn scalars_behave_like_the_numbers_they_hold() {
    let values = [-2.5f32, -0.0, 0.0, 1.0e-9, 0.25, 640.0, f32::INFINITY, f32::NEG_INFINITY, f32::NAN];
    for a in values {
        assert_eq!(scalar(a).is_nan(), a.is_nan());
        assert_eq!(scalar(a).is_finite(), a.is_finite());
        for b in values {
            assert_eq!(scalar(a).less(scalar(b)), a < b);
        }
    }
    assert_eq!(scalar(900.0).clamp(scalar(200.0), scalar(800.0)), scalar(800.0));
    assert_eq!(scalar(1.0).clamp(scalar(200.0), scalar(800.0)), scalar(200.0));
    assert_eq!(scalar(-3.0).floor_at_zero(), scalar(0.0));
    assert_eq!(scalar(3.0).floor_at_zero(), scalar(3.0));
    for count in [0usize, 1, 2, 7, 1000] {
        let shift = count as f32 * 30.0;
        assert_eq!(stagger(count), point(80.0 + shift, 60.0 + shift));
    }
}

#[test]
fn the_focus_stack_forgets_its_oldest() {
    let mut stack = FocusStack::new(2);
    assert_eq!(stack.peek(), None);
    stack.push(FocusTarget::Atlas);
    stack.push(FocusTarget::Breadcrumbs);
    stack.push(FocusTarget::ReadingLens);
    assert_eq!(stack.len(), 2);
    assert_eq!(stack.pop(), Some(FocusTarget::ReadingLens));
    assert_eq!(stack.pop(), Some(FocusTarget::Breadcrumbs));
    assert_eq!(stack.pop(), None);
    assert!(FocusTarget::SearchPalette.is_modal());
    assert!(!FocusTarget::Atlas.is_modal());
}

#[test]
fn tabbing_forth_and_back_returns() {
    for lens in [false, true] {
        let mut focus = FocusManager::new(FocusTarget::Atlas);
        let next = focus.navigate_tab(FocusDirection::Next, lens);
        assert_ne!(next, FocusTarget::Atlas);
        assert_eq!(focus.navigate_tab(FocusDirection::Prev, lens), FocusTarget::Atlas);
    }
    let mut focus = FocusManager::new(FocusTarget::Atlas);
    focus.set_focus(FocusTarget::Sidebar(SidebarPanel::Outline));
    assert_eq!(focus.stack_depth(), 1);
    assert_eq!(focus.return_focus(), Some(FocusTarget::Atlas));
    assert_eq!(focus.current(), FocusTarget::Atlas);
}

#[test]
fn returning_leads_back_even_from_a_full_stack() {
    for lens in [false, true] {
        let mut focus = FocusManager::new(FocusTarget::Breadcrumbs);
        assert_eq!(focus.navigate_tab(FocusDirection::Prev, lens), FocusTarget::Atlas);
        assert_eq!(focus.navigate_tab(FocusDirection::Next, lens), FocusTarget::Breadcrumbs);
    }
    let mut focus = FocusManager::new(FocusTarget::Atlas);
    assert_eq!(focus.return_focus(), None);
    assert_eq!(focus, FocusManager::new(FocusTarget::Atlas));
    let targets = [FocusTarget::Breadcrumbs, FocusTarget::TreeProjection];
    for round in 0..70 {
        let before = focus.clone();
        let depth = focus.stack_depth();
        focus.set_focus(FocusTarget::SearchPalette);
        assert_eq!(focus.return_focus(), Some(before.current()));
        assert_eq!(focus.current(), before.current());
        if depth < FocusStack::DEFAULT_CAPACITY {
            assert_eq!(focus, before);
        }
        focus.set_focus(targets[round % 2]);
    }
    assert_eq!(focus.stack_depth(), FocusStack::DEFAULT_CAPACITY);
}

fn visit(id: u64) -> HistoryItem {
    HistoryItem {
        id,
        path: format!("file{id}"),
        description: String::new(),
        timestamp_nanos: id,
    }
}

#[test]
fn history_branches_where_it_was_left() {
    let mut history = HistoryState::default();
    assert!(!history.can_go_back());
    for id in 1..=3 {
        history.push(visit(id));
    }
    assert_eq!(history.go_back().unwrap().id, 2);
    assert_eq!(history.go_forward().unwrap().id, 3);
    history.go_back();
    history.go_back();
    assert!(!history.can_go_back());
    history.push(visit(9));
    assert!(!history.can_go_forward());
    assert_eq!(history.go_back().unwrap().id, 1);
}

#[test]
fn the_sidebar_keeps_its_width_when_collapsed() {
    let mut sidebar = SidebarState::new();
    let before = sidebar.width;
    sidebar.toggle_collapsed();
    assert!(sidebar.is_collapsed);
    assert_eq!(sidebar.width, before);
    sidebar.set_width(scalar(10_000.0));
    assert_eq!(sidebar.width, sidebar.max_width);
    sidebar.set_width(scalar(1.0));
    assert_eq!(sidebar.width, sidebar.min_width);
}

fn node(id: u64, parent: Option<u64>, kind: TreeNodeKind, depth: usize) -> TreeNode {
    TreeNode {
        id,
        parent_id: parent,
        name: format!("n{id}"),
        path: format!("p{id}"),
        kind,
        depth,
        is_expanded: false,
        file_id: None,
    }
}

#[test]
fn arrows_walk_the_visible_rows() {
    let mut tree = TreeProjection::with_nodes(vec![
        node(1, None, TreeNodeKind::Directory, 0),
        node(2, Some(1), TreeNodeKind::File, 1),
        node(3, None, TreeNodeKind::File, 0),
    ]);
    assert!(tree.get_node(1).unwrap().is_directory());
    assert!(tree.find_by_path(&"p2".to_string()).unwrap().is_file());
    tree.select(1);
    let selected = tree.selected_id();
    assert_eq!(tree.move_down().unwrap().id, 3);
    assert_eq!(tree.move_down().unwrap().id, 3);
    assert_eq!(tree.move_up().unwrap().id, 1);
    assert_eq!(tree.selected_id(), selected);
    tree.move_right();
    assert_eq!(*tree.visible_rows(), [1, 2, 3]);
    tree.move_down();
    assert_eq!(tree.focused_id(), Some(2));
    assert_eq!(tree.move_left().unwrap().id, 1);
    tree.move_left();
    assert_eq!(*tree.visible_rows(), [1, 3]);
    tree.toggle(1).unwrap();
    assert_eq!(*tree.visible_rows(), [1, 2, 3]);
}

#[test]
fn breadcrumbs_are_cut_at_a_segment() {
    let mut crumbs = ScopeBreadcrumbs::new();
    crumbs.set_from_path("src/ui/tree.rs");
    let count = crumbs.segments.len();
    assert_eq!(crumbs.navigate_left().unwrap().label, "ui");
    assert_eq!(crumbs.navigate_right().unwrap().label, "tree.rs");
    assert!(crumbs.truncate_to(count).is_none());
    let cut = crumbs.truncate_to(count - 2).unwrap();
    assert_eq!(cut.label, "ui");
    assert!(cut.is_current);
    assert_eq!(crumbs.segments.len(), count - 1);
    assert_eq!(crumbs.focused_segment().unwrap().label, "ui");
}

#[test]
fn a_full_mailbox_drops_its_oldest_event() {
    let key = |name: &str| DiscreteInputEvent::KeyUp { key: name.to_string() };
    let mut mailbox = MotionMailbox::new(2);
    assert!(mailbox.push_discrete(key("a")));
    assert!(mailbox.push_discrete(key("b")));
    assert!(!mailbox.push_discrete(key("c")));
    assert_eq!(mailbox.dropped_discrete_count(), 1);
    assert_eq!(mailbox.discrete_len(), 2);
    let batch = mailbox.drain_discrete_batch(5);
    assert!(matches!(&batch[0], DiscreteInputEvent::KeyUp { key } if key == "b"));
    mailbox.record_scroll(point(0.0, 5.0));
    mailbox.record_pinch(scalar(1.5));
    assert_eq!(mailbox.accumulated_scroll(), point(0.0, 5.0));
    assert_eq!(mailbox.accumulated_pinch(), scalar(1.5));
    let motion = mailbox.take_motion().unwrap();
    assert_eq!(motion.scroll_delta, point(0.0, 5.0));
    assert_eq!(motion.pinch_magnification, scalar(1.5));
    assert!(mailbox.take_motion().is_none());
}

#[test]
fn a_drag_belongs_to_the_region_it_started_in() {
    let mut gestures = GestureArbitrator::new();
    let kind = gestures.start_pointer_drag(
        HitRegion::ReadingLensTitleBar(4),
        point(1.0, 1.0),
        PointerButton::Left,
        ModifierKeys::none(),
        false,
    );
    assert_eq!(kind, Some(GestureKind::LensDrag { pane_id: 4 }));
    assert!(gestures.is_active());
    let step = PointerStep { delta: point(2.0, 3.0), total: point(2.0, 3.0) };
    assert_eq!(
        gestures.update_pointer_move(point(3.0, 4.0), step),
        Some((GestureKind::LensDrag { pane_id: 4 }, point(2.0, 3.0)))
    );
    assert_eq!(gestures.owner_region(), Some(HitRegion::ReadingLensTitleBar(4)));
    assert_eq!(gestures.complete_pointer(), Some(GestureKind::LensDrag { pane_id: 4 }));
    gestures.reset_idle();
    assert!(!gestures.is_active());
    let over_lens = gestures.route_scroll(
        HitRegion::ReadingLensBody(7),
        point(0.0, 9.0),
        ModifierKeys::none(),
        scalar(1.1),
    );
    assert_eq!(
        over_lens,
        ScrollRouting::LensScroll { pane_id: 7, dx: scalar(0.0), dy: scalar(9.0) }
    );
    assert_eq!(gestures.route_pinch(HitRegion::ReadingLensBody(7), scalar(1.5)), None);
    assert_eq!(
        gestures.route_pinch(HitRegion::AtlasBackground, scalar(1.5)),
        Some(scalar(1.5))
    );
}

#[test]
fn panes_are_changed_one_at_a_time() {
    let owner = ArenaOwnerId::new(3).unwrap();
    let file = |n| FileId::new(owner, n).unwrap();
    let mut panes = ReadingPaneManager::new();
    let a = panes.open_or_focus(file(1), "a".to_string(), None);
    let b = panes.open_or_focus(file(2), "b".to_string(), None);
    let untouched = panes.get_pane(b).unwrap().position;
    assert!(panes.translate_pane(a, point(-4.0, 12.0)));
    assert_eq!(panes.get_pane(a).unwrap().position, point(0.0, 12.0));
    assert_eq!(panes.get_pane(b).unwrap().position, untouched);
    assert!(panes.scroll_pane(a, point(0.0, 7.0)));
    assert_eq!(panes.get_pane(a).unwrap().scroll_offset, point(0.0, 7.0));
    assert!(panes.set_text_selection(a, Some((1, 4))));
    assert!(!panes.translate_pane(99, point(0.0, 0.0)));
    assert!(panes.toggle_pin(a));
    assert_eq!(panes.unpinned_count(), 1);
    assert_eq!(panes.first_unpinned_id(), Some(b));
    assert!(panes.unpin_pane(a));
    assert_eq!(panes.close_pane(b).unwrap().file_id, file(2));
    assert_eq!(panes.active_pane_id(), Some(a));
    assert!(panes.close_pane(b).is_none());
    assert!(panes.is_any_open());
}
