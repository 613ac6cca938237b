use fcb::capture::SourceCapture;
use fcb::identity::{ArenaOwnerId, ByteRange, FileId, QueryGeneration, SourceRevision};
use fcb::scalar::Scalar;
use fcb::search::reader::{
    DetectedEncoding, ReaderLimits, ReadingAnchor, ReadingSeekState, ReadingTarget, SearchHit,
    SourceReader,
};
use fcb::ui::gesture::PointerStep;
use fcb::ui::reducer::PointerMotion;
use fcb::ui::search_navigation::IndexedSearchReport;
use fcb::ui::{
    CapturedSearchActivation, DiscreteInputEvent, FocusDirection, FocusManager, FocusTarget,
    GestureKind, HitRegion, ModifierKeys, MotionMailbox, PointerButton, ReadingPaneManager,
    ReadingPaneOpenError, ScopeBreadcrumbs, SearchActivationError, SearchResultEntry, SidebarPanel,
    TreeNode, TreeNodeKind, TreeProjection, UiAction, UiCommand, UiEventKind,
    UiEventRing, UiReducer, UiReductionOutcome, UiState,
};

fn owner() -> ArenaOwnerId {
    ArenaOwnerId::new(1).unwrap()
}

fn file(n: u64) -> FileId {
    FileId::new(owner(), n).unwrap()
}

fn generation(n: u64) -> QueryGeneration {
    QueryGeneration::new(owner(), n).unwrap()
}

fn scalar(value: f32) -> Scalar {
    Scalar { bits: value.to_bits() }
}

fn point(x: f32, y: f32) -> (Scalar, Scalar) {
    (scalar(x), scalar(y))
}

fn act(state: &mut UiState, action: UiAction) -> UiReductionOutcome {
    UiReducer::reduce(state, action, 7)
}

fn result(id: u64, n: u64, range: (u64, u64)) -> SearchResultEntry {
    SearchResultEntry {
        id,
        file_id: file(n),
        path: format!("src/{n}.rs"),
        line_number: 1,
        byte_range: range,
        excerpt: String::new(),
    }
}

#[test]
fn focus_comes_back_to_where_it_was() {
    let mut focus = FocusManager::new(FocusTarget::Atlas);
    focus.set_focus(FocusTarget::SearchPalette);
    assert_eq!(focus.current(), FocusTarget::SearchPalette);
    assert_eq!(focus.return_focus(), Some(FocusTarget::Atlas));
    assert_eq!(focus.return_focus(), None);
    let next = focus.navigate_tab(FocusDirection::Next, false);
    assert_eq!(next, FocusTarget::Breadcrumbs);
    assert_eq!(focus.navigate_tab(FocusDirection::Prev, false), FocusTarget::Atlas);
}

#[test]
fn selecting_a_file_never_steals_the_focus() {
    let mut state = UiState::new(owner());
    let outcome =
        act(&mut state, UiAction::SelectFile { file_id: file(3), path: "a/b.rs".to_string() });
    assert_eq!(state.focus.current(), FocusTarget::Atlas);
    assert_eq!(state.selected_file, Some((file(3), "a/b.rs".to_string())));
    assert_eq!(
        outcome.commands,
        [
            UiCommand::RequestCapture { file_id: file(3), path: "a/b.rs".to_string() },
            UiCommand::RequestRedraw
        ]
    );
    act(&mut state, UiAction::FocusChange(FocusTarget::TreeProjection));
    assert_eq!(state.selected_file, Some((file(3), "a/b.rs".to_string())));
    assert_eq!(state.sidebar.history.entries.len(), 1);
    assert_eq!(state.sidebar.history.entries[0].description, "Selected file a/b.rs");
}

#[test]
fn stale_results_are_rejected_and_new_queries_supersede() {
    let mut state = UiState::new(owner());
    act(&mut state, UiAction::SearchQueryChanged("first".to_string()));
    let first = state.active_query_generation.unwrap();
    act(&mut state, UiAction::SearchQueryChanged("second".to_string()));
    let second = state.active_query_generation.unwrap();
    assert_ne!(first, second);
    let outcome = act(
        &mut state,
        UiAction::SearchResultsReceived {
            query_generation: first,
            results: vec![result(1, 1, (0, 1))],
            has_more: false,
        },
    );
    assert!(matches!(
        outcome.emitted_events[0],
        UiEventKind::StaleResultsRejected { rejected_gen, .. } if rejected_gen == first.get()
    ));
    assert!(state.sidebar.results.results.is_empty());
    act(
        &mut state,
        UiAction::SearchResultsReceived {
            query_generation: second,
            results: vec![result(1, 1, (0, 1))],
            has_more: true,
        },
    );
    assert_eq!(state.sidebar.results.results.len(), 1);
    assert!(state.sidebar.results.has_more);
}

#[test]
fn the_palette_gives_the_focus_back() {
    let mut state = UiState::new(owner());
    act(&mut state, UiAction::FocusChange(FocusTarget::TreeProjection));
    act(&mut state, UiAction::KeyboardShortcut("Cmd+P".to_string()));
    assert!(state.search_palette_open);
    assert_eq!(state.focus.current(), FocusTarget::SearchPalette);
    act(&mut state, UiAction::CloseSearchPalette);
    assert!(!state.search_palette_open);
    assert_eq!(state.focus.current(), FocusTarget::TreeProjection);
}

fn motion(dx: f32, target: (f32, f32)) -> PointerMotion {
    PointerMotion {
        step: PointerStep { delta: point(dx, 0.0), total: point(dx, 0.0) },
        pane_target: point(target.0, target.1),
        text_extent: (dx.abs() * 10.0) as usize,
        sidebar_width: scalar(300.0 - dx),
    }
}

#[test]
fn dragging_a_lens_moves_that_lens_alone() {
    let mut state = UiState::new(owner());
    act(
        &mut state,
        UiAction::OpenReadingLens { file_id: file(1), path: "a".to_string(), line: None },
    );
    let id = state.reading_panes.active_pane_id().unwrap();
    act(
        &mut state,
        UiAction::PointerDown {
            region: HitRegion::ReadingLensTitleBar(id),
            pos: point(0.0, 0.0),
            button: PointerButton::Left,
            modifiers: ModifierKeys::none(),
        },
    );
    let outcome = act(
        &mut state,
        UiAction::PointerMove { pos: point(5.0, 0.0), motion: motion(5.0, (105.0, 100.0)) },
    );
    assert!(outcome
        .commands
        .contains(&UiCommand::ReadingPaneMoved { pane_id: id, pos: point(105.0, 100.0) }));
    assert!(!outcome.commands.iter().any(|c| matches!(c, UiCommand::CameraPan { .. })));
    let canceled = act(&mut state, UiAction::KeyboardShortcut("Escape".to_string()));
    assert!(canceled.emitted_events.contains(&UiEventKind::GestureCancelled));
    assert_eq!(state.reading_panes.len(), 1);
    let outcome = act(
        &mut state,
        UiAction::PointerMove { pos: point(9.0, 0.0), motion: motion(4.0, (0.0, 0.0)) },
    );
    assert!(!outcome.changed);
}

#[test]
fn sidebar_width_stays_in_its_bounds() {
    let mut state = UiState::new(owner());
    act(
        &mut state,
        UiAction::SetSidebarWidth { width: scalar(5000.0), change: scalar(-500.0) },
    );
    assert_eq!(state.sidebar.width, scalar(800.0));
    act(&mut state, UiAction::SetSidebarWidth { width: scalar(1.0), change: scalar(600.0) });
    assert_eq!(state.sidebar.width, scalar(200.0));
}

#[test]
fn gestures_own_the_pointer_and_orbit_is_deliberate() {
    let mut state = UiState::new(owner());
    let down = |modifiers| UiAction::PointerDown {
        region: HitRegion::AtlasBackground,
        pos: point(0.0, 0.0),
        button: PointerButton::Left,
        modifiers,
    };
    act(&mut state, down(ModifierKeys::alt()));
    assert_ne!(state.gesture_arbitrator.current_kind(), Some(GestureKind::CameraOrbit));
    act(&mut state, UiAction::CancelGesture);
    act(&mut state, UiAction::SetCityMode(true));
    act(&mut state, down(ModifierKeys::alt()));
    assert_eq!(state.gesture_arbitrator.current_kind(), Some(GestureKind::CameraOrbit));
    assert_eq!(state.gesture_arbitrator.owner_region(), Some(HitRegion::AtlasBackground));
}

#[test]
fn the_mailbox_keeps_the_order_and_takes_motion_once() {
    let mut mailbox = MotionMailbox::new(4);
    mailbox.push_discrete(DiscreteInputEvent::KeyDown { key: "a".to_string(), modifiers: ModifierKeys::none() });
    mailbox.push_discrete(DiscreteInputEvent::KeyDown { key: "b".to_string(), modifiers: ModifierKeys::none() });
    mailbox.record_move(point(3.0, 4.0), point(1.0, 2.0));
    assert!(mailbox.has_pending());
    let motion = mailbox.take_motion().unwrap();
    assert_eq!(motion.pan_delta, point(1.0, 2.0));
    assert_eq!(motion.latest_pointer, Some(point(3.0, 4.0)));
    assert_eq!(motion.coalesced_count, 1);
    assert!(mailbox.take_motion().is_none());
    let batch = mailbox.drain_discrete_batch(1);
    assert!(matches!(&batch[0], DiscreteInputEvent::KeyDown { key, .. } if key == "a"));
    assert_eq!(mailbox.drain_discrete_batch(9).len(), 1);
}

#[test]
fn breadcrumbs_and_panes_are_plain() {
    let mut crumbs = ScopeBreadcrumbs::new();
    crumbs.set_from_path("src//ui/a.rs");
    assert_eq!(crumbs.segments.last().unwrap().label, "a.rs");
    assert!(crumbs.as_display_string().ends_with("src \u{203a} ui \u{203a} a.rs"));
    let mut panes = ReadingPaneManager::new();
    let a = panes.open_or_focus(file(1), "a".to_string(), None);
    let b = panes.open_or_focus(file(2), "b".to_string(), Some(3));
    assert_eq!(panes.open_or_focus(file(1), "a".to_string(), Some(9)), a);
    assert_eq!(panes.len(), 2);
    assert!(panes.pin_pane(a));
    assert_eq!(panes.pinned_count(), 1);
    assert_eq!(panes.close_active_or_top_unpinned(), Some(b));
    assert_eq!(panes.close_active_or_top_unpinned(), None);
    let first = panes.get_pane(a).unwrap().position;
    assert_eq!(first, point(80.0, 60.0));
    assert_eq!(
        panes.open_captured(
            file(3),
            SourceRevision::new(owner(), 1).unwrap(),
            "c".to_string(),
            1,
            ByteRange::new(0, 4).unwrap()
        ),
        Ok(3)
    );
    assert_eq!(panes.get_pane(3).unwrap().selection, Some((0, 4)));
}

#[test]
fn collapsing_hides_what_expanding_showed() {
    let node = |id: u64, parent: Option<u64>, kind: TreeNodeKind, depth: usize| TreeNode {
        id: id,
        parent_id: parent,
        name: format!("n{id}"),
        path: format!("p{id}"),
        kind,
        depth,
        is_expanded: false,
        file_id: None,
    };
    let mut tree = TreeProjection::with_nodes(vec![
        node(1, None, TreeNodeKind::Directory, 0),
        node(2, Some(1), TreeNodeKind::File, 1),
        node(3, None, TreeNodeKind::File, 0),
    ]);
    let before = tree.visible_rows().clone();
    assert_eq!(before, [1, 3]);
    tree.expand(1).unwrap();
    assert_eq!(*tree.visible_rows(), [1, 2, 3]);
    tree.collapse(1).unwrap();
    assert_eq!(*tree.visible_rows(), before);
    assert!(tree.expand(9).is_err());
    assert_eq!(tree.select(3).unwrap().name, "n3");
    assert_eq!(tree.selected_id(), Some(3));
}

#[test]
fn the_event_ring_keeps_the_newest() {
    let mut state = UiState::new(owner());
    for i in 0..300u64 {
        act(&mut state, UiAction::SetCityMode(i % 2 == 0));
    }
    assert_eq!(state.event_ring.len(), UiEventRing::DEFAULT_CAPACITY.min(300));
    assert_eq!(state.event_ring.last().unwrap().seq, state.seq_counter);
    assert_eq!(state.seq_counter, 300);
}

fn capture(bytes: &[u8]) -> SourceCapture {
    SourceCapture::from_bytes(
        owner(),
        file(1),
        SourceRevision::new(owner(), 5).unwrap(),
        "src/1.rs".to_string(),
        bytes.to_vec(),
    )
    .unwrap()
}

fn anchor(source: &SourceCapture, range: ByteRange, generation: QueryGeneration) -> ReadingAnchor {
    let encoding = DetectedEncoding::Utf8 { has_bom: false };
    let reader = SourceReader::new(source, encoding, ReaderLimits::default(), |_| true).unwrap();
    let mut seek = reader.seek(ReadingTarget::Range(range), generation).unwrap();
    seek.step(1024, generation, || false).unwrap();
    match seek.state() {
        ReadingSeekState::Ready(anchor) => anchor,
        other => panic!("unexpected {other:?}"),
    }
}

fn report(source: &SourceCapture, range: ByteRange, generation: QueryGeneration) -> IndexedSearchReport {
    IndexedSearchReport {
        finished: true,
        failed: false,
        generation,
        matches: vec![SearchHit {
            file_id: source.file(),
            revision: source.revision(),
            original_byte_range: range,
            occurrence_id: 44,
        }],
    }
}

#[test]
fn an_exact_hit_opens_in_its_capture_without_another_request() {
    let source = capture(b"one\ntwo three");
    let mut state = UiState::new(owner());
    act(&mut state, UiAction::OpenSearchPalette);
    act(&mut state, UiAction::SearchQueryChanged("two".to_string()));
    let generation = state.active_query_generation.unwrap();
    let range = ByteRange::new(4, 7).unwrap();
    let found = report(&source, range, generation);
    let at = anchor(&source, range, generation);
    let activation = CapturedSearchActivation::from_report(&source, &found, 0, at).unwrap();
    assert_eq!(
        UiReducer::activate_captured_search_result(&mut state, &activation, 9),
        Err(SearchActivationError::StaleSelection)
    );
    act(
        &mut state,
        UiAction::SearchResultsReceived {
            query_generation: generation,
            results: vec![result(44, 1, (4, 7))],
            has_more: false,
        },
    );
    state.sidebar.results.selected_index = Some(0);
    let outcome = UiReducer::activate_captured_search_result(&mut state, &activation, 9).unwrap();
    assert_eq!(outcome.commands, [UiCommand::RequestRedraw]);
    assert!(outcome.changed);
    assert!(outcome.emitted_events.contains(&UiEventKind::LensToggled { open: true }));
    assert_eq!(state.focus.current(), FocusTarget::ReadingLens);
    assert!(!state.search_palette_open);
    assert_eq!(state.reading_lens_file, Some((file(1), "src/1.rs".to_string(), Some(2))));
    let pane = state.reading_panes.active_pane().unwrap();
    assert_eq!(pane.revision, Some(source.revision()));
    assert_eq!(pane.selection, Some((4, 7)));
    act(&mut state, UiAction::SearchQueryChanged("other".to_string()));
    assert_eq!(
        UiReducer::activate_captured_search_result(&mut state, &activation, 9),
        Err(SearchActivationError::StaleQuery)
    );
}

#[test]
fn a_new_interface_is_blank() {
    let state = UiState::new(owner());
    assert_eq!(state.focus.current(), FocusTarget::Atlas);
    assert_eq!(state.focus.stack_depth(), 0);
    assert_eq!(state.sidebar.active_panel, SidebarPanel::Inspector);
    assert_eq!(state.sidebar.width, scalar(300.0));
    assert!(state.sidebar.outline.symbols.is_empty());
    assert!(state.tree.visible_rows().is_empty());
    assert_eq!(state.reading_panes.active_pane_id(), None);
    assert_eq!(state.seq_counter, 0);
    assert!(!state.is_city_mode);
}

#[test]
fn reports_that_do_not_fit_are_refused() {
    let source = capture(b"one\ntwo three");
    let range = ByteRange::new(4, 7).unwrap();
    let at = anchor(&source, range, generation(3));
    let good = report(&source, range, generation(3));
    let refused = |report: &IndexedSearchReport, index: usize, at: ReadingAnchor| {
        CapturedSearchActivation::from_report(&source, report, index, at).err()
    };
    let failed = IndexedSearchReport { failed: true, ..report(&source, range, generation(3)) };
    assert_eq!(refused(&failed, 0, at), Some(SearchActivationError::InvalidReport));
    let other = report(&source, range, generation(4));
    assert_eq!(refused(&other, 0, at), Some(SearchActivationError::StaleQuery));
    assert_eq!(refused(&good, 1, at), Some(SearchActivationError::MissingHit));
    let elsewhere = report(&source, ByteRange::new(4, 8).unwrap(), generation(3));
    assert_eq!(refused(&elsewhere, 0, at), Some(SearchActivationError::InvalidTarget));
    assert_eq!(refused(&good, 0, at), None);
    assert_eq!(SearchActivationError::MissingHit.code(), "SEARCH_ACTIVATION_MissingHit");
    assert_eq!(
        SearchActivationError::Pane(ReadingPaneOpenError::RangeTooLarge).code(),
        "SEARCH_ACTIVATION_Pane(RangeTooLarge)"
    );
    assert_eq!(SidebarPanel::Inspector, SidebarPanel::Inspector);
}
