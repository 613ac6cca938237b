//! Opening a search hit in the exact capture that was searched.
//!
//! A worker resolves a hit to an anchor; the hit is then opened only while its
//! query and its selection are still the published ones. No path is used as
//! authority, and nothing is captured again.
use vstd::prelude::*;

use crate::capture::{byte_len, text_len, CaptureModel, SourceCapture};
use crate::identity::{ByteRange, QueryGeneration};
use crate::search::reader::{ReaderError, ReadingAnchor, SearchHit};
use crate::ui::focus::FocusTarget;
use crate::ui::reading_panes::{ReadingPaneOpenError, MAX_READING_PATH_BYTES};
use crate::ui::reducer::{
    step_of, OutcomeModel, Step, UiCommand, UiEventKind, UiModel, UiReducer, UiReductionOutcome,
    UiState,
};
use crate::ui::sidebar::{row_item, InspectorModel, OutlineModel, SearchResultEntry, SidebarModel};

verus! {

broadcast use crate::model::group_views;

#[derive(Clone, Copy, Debug, PartialEq, Eq, Structural)]
pub enum SearchActivationError {
    InvalidReport,
    MissingHit,
    StaleQuery,
    StaleSelection,
    InvalidTarget,
    ResourceDenied,
    Reader(ReaderError),
    Pane(ReadingPaneOpenError),
}

impl SearchActivationError {
    pub open spec fn code_spec(self) -> Seq<char> {
        match self {
            SearchActivationError::InvalidReport => "SEARCH_ACTIVATION_InvalidReport"@,
            SearchActivationError::MissingHit => "SEARCH_ACTIVATION_MissingHit"@,
            SearchActivationError::StaleQuery => "SEARCH_ACTIVATION_StaleQuery"@,
            SearchActivationError::StaleSelection => "SEARCH_ACTIVATION_StaleSelection"@,
            SearchActivationError::InvalidTarget => "SEARCH_ACTIVATION_InvalidTarget"@,
            SearchActivationError::ResourceDenied => "SEARCH_ACTIVATION_ResourceDenied"@,
            SearchActivationError::Reader(e) => e.code_spec(),
            SearchActivationError::Pane(ReadingPaneOpenError::RangeTooLarge) => {
                "SEARCH_ACTIVATION_Pane(RangeTooLarge)"@
            },
        }
    }

    pub fn code(self) -> (r: &'static str)
        ensures
            r@ == self.code_spec(),
    {
        match self {
            SearchActivationError::InvalidReport => "SEARCH_ACTIVATION_InvalidReport",
            SearchActivationError::MissingHit => "SEARCH_ACTIVATION_MissingHit",
            SearchActivationError::StaleQuery => "SEARCH_ACTIVATION_StaleQuery",
            SearchActivationError::StaleSelection => "SEARCH_ACTIVATION_StaleSelection",
            SearchActivationError::InvalidTarget => "SEARCH_ACTIVATION_InvalidTarget",
            SearchActivationError::ResourceDenied => "SEARCH_ACTIVATION_ResourceDenied",
            SearchActivationError::Reader(e) => e.code(),
            SearchActivationError::Pane(ReadingPaneOpenError::RangeTooLarge) => {
                "SEARCH_ACTIVATION_Pane(RangeTooLarge)"
            },
        }
    }
}

/// What a search over captures reports.
#[derive(Debug)]
pub struct IndexedSearchReport {
    pub finished: bool,
    pub failed: bool,
    pub generation: QueryGeneration,
    pub matches: Vec<SearchHit>,
}

/// A hit and its place, in the source that was searched.
#[derive(Debug)]
pub struct CapturedSearchActivation<'source> {
    pub source: &'source SourceCapture,
    pub anchor: ReadingAnchor,
    pub occurrence_id: u64,
}

/// Why a hit of a report cannot be opened at an anchor, if so.
pub open spec fn report_error(
    source: CaptureModel,
    report: IndexedSearchReport,
    hit_index: int,
    anchor: ReadingAnchor,
) -> Option<SearchActivationError> {
    if !report.finished || report.failed {
        Some(SearchActivationError::InvalidReport)
    } else if anchor.generation != report.generation {
        Some(SearchActivationError::StaleQuery)
    } else if hit_index >= report.matches@.len() {
        Some(SearchActivationError::MissingHit)
    } else if anchor.refusal(source, report.generation) is Some {
        Some(SearchActivationError::Reader(anchor.refusal(source, report.generation)->0))
    } else {
        let hit = report.matches@[hit_index];
        if hit.file_id != source.file || hit.revision != source.revision || anchor.selection
            != Some(hit.original_byte_range) || hit.original_byte_range.start
            == hit.original_byte_range.end || hit.original_byte_range.end > source.bytes.len() {
            Some(SearchActivationError::InvalidTarget)
        } else {
            None
        }
    }
}

impl<'source> CapturedSearchActivation<'source> {
    /// Pairs a hit of a finished report with the anchor that it was resolved to.
    pub fn from_report(
        source: &'source SourceCapture,
        report: &IndexedSearchReport,
        hit_index: usize,
        anchor: ReadingAnchor,
    ) -> (r: Result<Self, SearchActivationError>)
        ensures
            match report_error(source@, *report, hit_index as int, anchor) {
                Some(e) => r matches Err(f) && f == e,
                None => r matches Ok(activation) && activation.source == source
                    && activation.anchor == anchor && activation.occurrence_id
                    == report.matches@[hit_index as int].occurrence_id,
            },
    {
        if !report.finished || report.failed {
            return Err(SearchActivationError::InvalidReport);
        }
        if anchor.generation != report.generation {
            return Err(SearchActivationError::StaleQuery);
        }
        if hit_index >= report.matches.len() {
            return Err(SearchActivationError::MissingHit);
        }
        let hit = &report.matches[hit_index];
        match anchor.validate_delivery(source, report.generation) {
            Ok(()) => {},
            Err(e) => {
                return Err(SearchActivationError::Reader(e));
            },
        }
        if hit.file_id != source.file || hit.revision != source.revision || anchor.selection
            != Some(hit.original_byte_range) || hit.original_byte_range.start
            == hit.original_byte_range.end || hit.original_byte_range.end
            > source.bytes.len() as u64 {
            return Err(SearchActivationError::InvalidTarget);
        }
        Ok(CapturedSearchActivation { source, anchor, occurrence_id: hit.occurrence_id })
    }

    pub fn source(&self) -> (r: &'source SourceCapture)
        ensures
            r == self.source,
    {
        self.source
    }

    pub fn anchor(&self) -> (r: ReadingAnchor)
        ensures
            r == self.anchor,
    {
        self.anchor
    }

    pub fn generation(&self) -> (r: QueryGeneration)
        ensures
            r == self.anchor.generation,
    {
        self.anchor.generation
    }

    pub fn occurrence_id(&self) -> (r: u64)
        ensures
            r == self.occurrence_id,
    {
        self.occurrence_id
    }

    /// The row that is selected, if it still is this hit and may be opened.
    pub open spec fn row(self, state: UiModel) -> Result<
        (SearchResultEntry<Seq<char>>, ByteRange, usize),
        SearchActivationError,
    > {
        let results = state.sidebar.results;
        if state.owner != self.source@.owner {
            Err(SearchActivationError::InvalidTarget)
        } else if results.query_generation != Some(self.anchor.generation) {
            Err(SearchActivationError::StaleQuery)
        } else {
            match row_item(results.results, results.selected_index) {
                None => Err(SearchActivationError::StaleSelection),
                Some(entry) => match self.anchor.selection {
                    None => Err(SearchActivationError::InvalidTarget),
                    Some(range) => if entry.id != self.occurrence_id || entry.file_id
                        != self.source@.file || entry.byte_range != (range.start, range.end) {
                        Err(SearchActivationError::StaleSelection)
                    } else if self.anchor.refusal(self.source@, self.anchor.generation) is Some {
                        Err(
                            SearchActivationError::Reader(
                                self.anchor.refusal(self.source@, self.anchor.generation)->0,
                            ),
                        )
                    } else if self.anchor.line > usize::MAX {
                        Err(SearchActivationError::InvalidTarget)
                    } else if entry.path.len() == 0 || text_len(entry.path)
                        > MAX_READING_PATH_BYTES {
                        Err(SearchActivationError::InvalidTarget)
                    } else if range.start > usize::MAX || range.end > usize::MAX {
                        Err(SearchActivationError::Pane(ReadingPaneOpenError::RangeTooLarge))
                    } else {
                        Ok((entry, range, self.anchor.line as usize))
                    },
                },
            }
        }
    }

    /// Finds the selected row, while it still is this hit and may be opened.
    fn find_row(&self, state: &UiState) -> (r: Result<
        (String, ByteRange, usize),
        SearchActivationError,
    >)
        ensures
            match self.row(state@) {
                Err(e) => r matches Err(f) && f == e,
                Ok((entry, range, line)) => r matches Ok(found) && found.0@ == entry.path
                    && found.1 == range && found.2 == line,
            },
    {
        if state.owner != self.source.owner {
            return Err(SearchActivationError::InvalidTarget);
        }
        if state.sidebar.results.query_generation != Some(self.anchor.generation) {
            return Err(SearchActivationError::StaleQuery);
        }
        let entry = match state.sidebar.results.selected_result() {
            Some(entry) => entry,
            None => {
                return Err(SearchActivationError::StaleSelection);
            },
        };
        let range = match self.anchor.selection {
            Some(range) => range,
            None => {
                return Err(SearchActivationError::InvalidTarget);
            },
        };
        if entry.id != self.occurrence_id || entry.file_id != self.source.file
            || entry.byte_range.0 != range.start || entry.byte_range.1 != range.end {
            return Err(SearchActivationError::StaleSelection);
        }
        match self.anchor.validate_delivery(self.source, self.anchor.generation) {
            Ok(()) => {},
            Err(e) => {
                return Err(SearchActivationError::Reader(e));
            },
        }
        if self.anchor.line > usize::MAX as u64 {
            return Err(SearchActivationError::InvalidTarget);
        }
        let line: usize = self.anchor.line as usize;
        let path = match copy_path(&entry.path) {
            Ok(path) => path,
            Err(e) => {
                return Err(e);
            },
        };
        if range.start > usize::MAX as u64 || range.end > usize::MAX as u64 {
            return Err(SearchActivationError::Pane(ReadingPaneOpenError::RangeTooLarge));
        }
        Ok((path, range, line))
    }

    /// The state with the hit's pane open, and what was shown of another
    /// revision forgotten.
    pub open spec fn opened(self, state: UiModel, path: Seq<char>, range: ByteRange, line: usize) -> UiModel {
        let file = self.source@.file;
        let revision = self.source@.revision;
        let known = state.sidebar.inspector.file_id == Some(file)
            && state.sidebar.inspector.revision == Some(revision);
        UiModel {
            panes: state.panes.open_captured(file, revision, path, line, range),
            sidebar: if known {
                state.sidebar
            } else {
                SidebarModel {
                    inspector: InspectorModel::blank(),
                    outline: OutlineModel {
                        file_path: None,
                        symbols: Seq::empty(),
                        selected_symbol_index: None,
                    },
                    ..state.sidebar
                }
            },
            ..state
        }
    }

    /// The state once the file is selected: the palette makes way for the lens.
    pub open spec fn settled(self, state: UiModel, path: Seq<char>, line: usize) -> UiModel {
        UiModel {
            sidebar: SidebarModel {
                inspector: InspectorModel {
                    revision: Some(self.source@.revision),
                    ..state.sidebar.inspector
                },
                ..state.sidebar
            },
            search_palette_open: false,
            focus: if state.search_palette_open && state.focus.current
                == FocusTarget::SearchPalette {
                state.focus.return_focus()
            } else {
                state.focus
            },
            reading_lens_open: true,
            reading_lens_file: Some((self.source@.file, path, Some(line))),
            ..state
        }
    }

    /// The state and what is handed back once the hit is open. A redraw is all
    /// that is asked of the host.
    pub open spec fn activated(
        self,
        state: UiModel,
        path: Seq<char>,
        range: ByteRange,
        line: usize,
        now: u64,
    ) -> Step {
        let nothing = OutcomeModel::nothing();
        let chosen = (Step { state: self.opened(state, path, range, line), outcome: nothing }).select_file(
            self.source@.file,
            path,
            now,
        );
        let focused = (Step {
            state: self.settled(chosen.state, path, line),
            outcome: nothing,
        }).focus_to(FocusTarget::ReadingLens, now);
        let kind = UiEventKind::LensToggled { open: true };
        Step {
            state: focused.state.record_event(kind, now),
            outcome: OutcomeModel {
                commands: seq![UiCommand::RequestRedraw],
                emitted_events: (chosen.outcome.emitted_events
                    + focused.outcome.emitted_events).push(kind),
                changed: true,
            },
        }
    }
}

fn copy_path(path: &String) -> (r: Result<String, SearchActivationError>)
    ensures
        if path@.len() == 0 || text_len(path@) > MAX_READING_PATH_BYTES {
            r matches Err(e) && e == SearchActivationError::InvalidTarget
        } else {
            r matches Ok(copy) && copy@ == path@
        },
{
    let bytes: usize = byte_len(path);
    proof {
        crate::text::empty_text(path@);
    }
    if bytes == 0 || bytes > MAX_READING_PATH_BYTES {
        return Err(SearchActivationError::InvalidTarget);
    }
    Ok(path.clone())
}

impl UiReducer {
    /// Opens an exact content hit whose query and selection are still published.
    /// A refused hit changes nothing. No capture is requested.
    pub fn activate_captured_search_result(
        state: &mut UiState,
        target: &CapturedSearchActivation<'_>,
        now_nanos: u64,
    ) -> (r: Result<UiReductionOutcome, SearchActivationError>)
        requires
            old(state).wf(),
        ensures
            final(state).wf(),
            match target.row(old(state)@) {
                Err(e) => r matches Err(f) && f == e && final(state)@ == old(state)@,
                Ok((entry, range, line)) => r matches Ok(outcome) && step_of(*final(state), outcome)
                    == target.activated(old(state)@, entry.path, range, line, now_nanos),
            },
    {
        let (path, range, line): (String, ByteRange, usize) = match target.find_row(state) {
            Ok(found) => found,
            Err(e) => {
                return Err(e);
            },
        };
        Ok(UiReducer::show_hit(state, target, path, range, line, now_nanos))
    }

    fn show_hit(
        state: &mut UiState,
        target: &CapturedSearchActivation<'_>,
        path: String,
        range: ByteRange,
        line: usize,
        now_nanos: u64,
    ) -> (r: UiReductionOutcome)
        requires
            old(state).wf(),
            range.start <= usize::MAX,
            range.end <= usize::MAX,
        ensures
            final(state).wf(),
            step_of(*final(state), r) == target.activated(
                old(state)@,
                path@,
                range,
                line,
                now_nanos,
            ),
    {
        let ghost label = path@;
        UiReducer::open_hit(state, target, path.clone(), range, line);
        let lens_path = path.clone();
        let mut chosen = UiReductionOutcome::default();
        UiReducer::select_file(state, &mut chosen, target.source.file, path, now_nanos);
        UiReducer::settle_hit(state, target, lens_path, line);
        let mut focus = UiReductionOutcome::default();
        UiReducer::focus_to(state, &mut focus, FocusTarget::ReadingLens, now_nanos);
        let mut outcome = UiReductionOutcome {
            commands: Vec::new(),
            emitted_events: chosen.emitted_events,
            changed: true,
        };
        outcome.emitted_events.append(&mut focus.emitted_events);
        state.record_event(UiEventKind::LensToggled { open: true }, now_nanos);
        outcome.emitted_events.push(UiEventKind::LensToggled { open: true });
        outcome.commands.push(UiCommand::RequestRedraw);
        assert(outcome@.commands =~= seq![UiCommand::RequestRedraw]);
        outcome
    }

    fn open_hit(
        state: &mut UiState,
        target: &CapturedSearchActivation<'_>,
        path: String,
        range: ByteRange,
        line: usize,
    )
        requires
            old(state).wf(),
            range.start <= usize::MAX,
            range.end <= usize::MAX,
        ensures
            final(state).wf(),
            final(state)@ == target.opened(old(state)@, path@, range, line),
    {
        let file_id = target.source.file;
        let revision = target.source.revision;
        let _ = state.reading_panes.open_captured(file_id, revision, path, line, range);
        if state.sidebar.inspector.file_id != Some(file_id) || state.sidebar.inspector.revision
            != Some(revision) {
            state.sidebar.inspector.clear();
            state.sidebar.outline.clear();
        }
    }

    fn settle_hit(
        state: &mut UiState,
        target: &CapturedSearchActivation<'_>,
        path: String,
        line: usize,
    )
        requires
            old(state).wf(),
        ensures
            final(state).wf(),
            final(state)@ == target.settled(old(state)@, path@, line),
    {
        state.sidebar.inspector.revision = Some(target.source.revision);
        if state.search_palette_open {
            state.search_palette_open = false;
            if state.focus.current() == FocusTarget::SearchPalette {
                let _ = state.focus.return_focus();
            }
        }
        state.reading_lens_open = true;
        state.reading_lens_file = Some((target.source.file, path, Some(line)));
    }
}

/// Opening a hit asks the host for a redraw and nothing else: no commands of
/// selecting its file or moving the focus are passed on, but for those that a
/// redraw covers and the capture that is held already.
pub proof fn activation_requests_no_capture(
    target: CapturedSearchActivation,
    state: UiModel,
    path: Seq<char>,
    range: ByteRange,
    line: usize,
    now: u64,
)
    ensures
        target.activated(state, path, range, line, now).outcome.commands == seq![
            UiCommand::<Seq<char>>::RequestRedraw,
        ],
        forall|i: int|
            0 <= i < (Step {
                state: target.opened(state, path, range, line),
                outcome: OutcomeModel::nothing(),
            }).select_file(target.source@.file, path, now).outcome.commands.len() ==> ({
                let command = #[trigger] (Step {
                    state: target.opened(state, path, range, line),
                    outcome: OutcomeModel::nothing(),
                }).select_file(target.source@.file, path, now).outcome.commands[i];
                command is RequestCapture || command is RequestRedraw
            }),
{
    reveal(Step::select_file);
}

/// An open hit is shown in the lens, in the pane of its exact capture, and has
/// the focus.
pub proof fn activation_shows_the_hit(
    target: CapturedSearchActivation,
    state: UiModel,
    path: Seq<char>,
    range: ByteRange,
    line: usize,
    now: u64,
)
    ensures
        ({
            let after = target.activated(state, path, range, line, now).state;
            &&& after.reading_lens_open
            &&& after.reading_lens_file == Some((target.source@.file, path, Some(line)))
            &&& after.focus.current == FocusTarget::ReadingLens
            &&& after.selected_file == Some((target.source@.file, path))
            &&& after.sidebar.inspector.revision == Some(target.source@.revision)
            &&& after.panes == state.panes.open_captured(
                target.source@.file,
                target.source@.revision,
                path,
                line,
                range,
            )
        }),
{
    reveal(Step::select_file);
    reveal(Step::focus_to);
}

} // verus!
