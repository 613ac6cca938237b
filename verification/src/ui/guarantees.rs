//! What holds of the interface as a whole, whatever the action.
use vstd::prelude::*;

use super::focus::{return_undoes_set_focus, FocusDirection, FocusStack, FocusTarget};
use super::gesture::{lens_scroll_is_isolated, HitRegion, ModifierKeys};
use super::reading_panes::{file_from, PaneModel};
use super::reducer::{OutcomeModel, PointerMotion, ScrollMotion, Step, UiAction, UiModel};
use super::sidebar::SearchResultEntry;
use crate::identity::{FileId, QueryGeneration};
use crate::scalar::Point;

verus! {

/// Selecting a file never moves the focus.
pub proof fn selection_keeps_focus(step: Step, file_id: FileId, path: Seq<char>, now: u64)
    ensures
        step.reduce(UiAction::SelectFile { file_id, path }, now).state.focus == step.state.focus,
        step.reduce(UiAction::SelectFile { file_id, path }, now).state.selected_file == Some(
            (file_id, path),
        ),
        step.reduce(UiAction::ClearSelection, now).state.focus == step.state.focus,
{
    reveal(Step::select_file);
    reveal(Step::clear_selection);
}

/// Moving the focus never changes the selection.
pub proof fn focus_keeps_selection(
    step: Step,
    target: FocusTarget,
    direction: FocusDirection,
    now: u64,
)
    ensures
        step.reduce(UiAction::FocusChange(target), now).state.selected_file
            == step.state.selected_file,
        step.reduce(UiAction::FocusNavigate(direction), now).state.selected_file
            == step.state.selected_file,
        step.reduce(UiAction::FocusReturn, now).state.selected_file == step.state.selected_file,
        step.reduce(UiAction::FocusChange(target), now).state.tree == step.state.tree,
        step.reduce(UiAction::FocusChange(target), now).state.focus.current == target,
{
    reveal(Step::focus_to);
    reveal(Step::focus_return);
}

/// A batch of another attempt leaves the shown results, the selected row and
/// everything but the event log as they were.
pub proof fn stale_results_are_rejected(
    step: Step,
    query_generation: QueryGeneration,
    results: Seq<SearchResultEntry<Seq<char>>>,
    has_more: bool,
    now: u64,
)
    requires
        step.state.active_query_generation != Some(query_generation),
    ensures
        ({
            let after = step.reduce(
                UiAction::SearchResultsReceived { query_generation, results, has_more },
                now,
            );
            &&& after.state == (UiModel {
                event_ring: after.state.event_ring,
                seq_counter: after.state.seq_counter,
                ..step.state
            })
            &&& after.outcome.commands == step.outcome.commands
            &&& after.outcome.changed == step.outcome.changed
        }),
{
    reveal(Step::results_received);
}

/// Typing supersedes the attempt that was running: unless the numbering wraps
/// onto it, a late batch of the old attempt no longer changes the results.
pub proof fn new_query_supersedes(
    step: Step,
    query: Seq<char>,
    late: QueryGeneration,
    results: Seq<SearchResultEntry<Seq<char>>>,
    has_more: bool,
    now: u64,
)
    requires
        step.state.seq_counter.wrapping_add(100) != 0,
        late.value != step.state.seq_counter.wrapping_add(100),
    ensures
        ({
            let asked = step.reduce(UiAction::SearchQueryChanged(query), now);
            asked.reduce(
                UiAction::SearchResultsReceived { query_generation: late, results, has_more },
                now,
            ).state.sidebar.results == asked.state.sidebar.results
        }),
{
    reveal(Step::query_changed);
    reveal(Step::results_received);
}

/// Escape cancels a running gesture and does nothing else.
pub proof fn escape_cancels_gesture_first(step: Step, now: u64)
    requires
        step.state.gesture.active(),
    ensures
        ({
            let after = step.reduce(UiAction::KeyboardShortcut("Escape"@), now);
            &&& !after.state.gesture.active()
            &&& after.state.search_palette_open == step.state.search_palette_open
            &&& after.state.panes == step.state.panes
            &&& after.state.focus == step.state.focus
            &&& after.state.reading_lens_open == step.state.reading_lens_open
        }),
{
    reveal(Step::shortcut);
    reveal(Step::escape);
    reveal(Step::cancel_gesture);
}

/// Dismissing the palette restores the focus that was there before it opened and
/// changes nothing else. The way back is restored too, unless opening the palette
/// had to forget the oldest of it.
pub proof fn palette_round_trip(step: Step, now: u64)
    requires
        !step.state.search_palette_open,
        step.state.focus.current != FocusTarget::SearchPalette,
        step.state.focus.bounded(),
    ensures
        ({
            let opened = step.reduce(UiAction::OpenSearchPalette, now);
            let closed = opened.reduce(UiAction::CloseSearchPalette, now);
            &&& opened.state.focus.current == FocusTarget::SearchPalette
            &&& closed.state.focus.current == step.state.focus.current
            &&& closed.state == (UiModel { focus: closed.state.focus, ..step.state })
            &&& step.state.focus.stack.targets.len() < FocusStack::DEFAULT_CAPACITY
                ==> closed.state == step.state
        }),
{
    reveal(Step::open_palette);
    reveal(Step::close_palette);
    return_undoes_set_focus(step.state.focus, FocusTarget::SearchPalette);
}

/// Scrolling over a reading lens hands out no camera command.
pub proof fn lens_scroll_never_moves_camera(
    step: Step,
    region: HitRegion,
    delta: Point,
    modifiers: ModifierKeys,
    motion: ScrollMotion,
    now: u64,
    i: int,
)
    requires
        region is ReadingLensBody || region is ReadingLensTitleBar,
        step.outcome == OutcomeModel::nothing(),
        0 <= i < step.reduce(
            UiAction::ScrollEvent { region, delta, modifiers, motion },
            now,
        ).outcome.commands.len(),
    ensures
        ({
            let command = step.reduce(
                UiAction::ScrollEvent { region, delta, modifiers, motion },
                now,
            ).outcome.commands[i];
            command is ReadingPaneScrolled || command is RequestRedraw
        }),
{
    reveal(Step::scroll);
    lens_scroll_is_isolated(region, delta, modifiers, motion.zoom_factor);
}

/// Moving a pane changes no more than the panes, the gesture and the log: the
/// atlas, its selection and the tree stay.
pub proof fn lens_drag_keeps_atlas(step: Step, pos: Point, motion: PointerMotion, now: u64)
    requires
        step.state.gesture.kind() matches Some(kind) && kind is LensDrag,
    ensures
        ({
            let after = step.reduce(UiAction::PointerMove { pos, motion }, now).state;
            after == (UiModel {
                gesture: after.gesture,
                panes: after.panes,
                event_ring: after.event_ring,
                seq_counter: after.seq_counter,
                ..step.state
            })
        }),
{
    reveal(Step::pointer_move);
    reveal(Step::drag_pane);
}

proof fn lemma_file_shown(panes: Seq<PaneModel>, file_id: FileId, k: int, i: int)
    requires
        0 <= i <= k < panes.len(),
        panes[k].file_id == file_id,
    ensures
        file_from(panes, file_id, i) matches Some(n) && i <= n <= k,
    decreases k - i,
{
    if i < k && panes[i].file_id != file_id {
        lemma_file_shown(panes, file_id, k, i + 1);
    }
}

/// Opening a file that some pane shows adds no pane.
pub proof fn reopening_adds_no_pane(
    step: Step,
    file_id: FileId,
    path: Seq<char>,
    line: Option<usize>,
    now: u64,
)
    requires
        exists|k: int|
            0 <= k < step.state.panes.panes.len() && (#[trigger] step.state.panes.panes[k]).file_id
                == file_id,
    ensures
        step.reduce(
            UiAction::OpenReadingLens { file_id, path, line },
            now,
        ).state.panes.panes.len() == step.state.panes.panes.len(),
{
    reveal(Step::open_lens);
    let panes = step.state.panes.panes;
    let k = choose|k: int| 0 <= k < panes.len() && (#[trigger] panes[k]).file_id == file_id;
    lemma_file_shown(panes, file_id, k, 0);
}

} // verus!
