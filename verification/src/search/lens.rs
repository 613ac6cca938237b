//! The exact source reading lens: gutter, guides, brackets, find in file,
//! far-line navigation and exact selection.
pub mod brackets;
pub mod find;
pub mod finding;
pub mod guides;
pub mod rows;
pub mod showing;
pub mod wrapping;

use vstd::prelude::*;

use self::find::{FindInFileSession, FindOptions, FindSessionModel};
use crate::capture::{CaptureModel, SourceCapture};
use crate::envelope::put_raw;
use crate::identity::{ByteRange, FileId, QueryGeneration, SourceRevision};
use crate::model::maybe;
use crate::search::reader::{LineNumber, ReaderError};
use crate::text::{decimal, decimal_in, right_aligned};

verus! {

/// Bytes beyond which a single line is treated as a huge line.
pub const LENS_HUGE_LINE_BYTE_LIMIT: usize = 65_536;

/// Columns materialized beyond the visible viewport.
pub const DEFAULT_OVERSCAN_COLUMNS: u32 = 32;

/// Wrap mode for reading source lines in the lens.
#[derive(Clone, Copy, Debug, PartialEq, Eq, Structural)]
pub enum WrapMode {
    /// No wrapping: the horizontal scroll offset applies.
    NoWrap,
    /// Wrap lines to fit within the viewport's character width.
    ViewportWidth,
    /// Wrap lines at an explicit column limit.
    ColumnLimit(u32),
}

/// Guide display options for the reading lens.
#[derive(Clone, Copy, Debug, PartialEq, Eq, Structural)]
pub struct GuideOptions {
    /// Show visible symbols for spaces, tabs and line terminators.
    pub show_whitespace: bool,
    /// Show indentation guides at tab stop intervals.
    pub show_indent_guides: bool,
    /// Highlight the bracket pair around the active position.
    pub show_bracket_guides: bool,
    /// Columns per tab stop.
    pub tab_width: u32,
}

impl GuideOptions {
    pub open spec fn standard() -> GuideOptions {
        GuideOptions {
            show_whitespace: false,
            show_indent_guides: true,
            show_bracket_guides: true,
            tab_width: 4,
        }
    }
}

impl Default for GuideOptions {
    fn default() -> (r: Self)
        ensures
            r == GuideOptions::standard(),
    {
        GuideOptions {
            show_whitespace: false,
            show_indent_guides: true,
            show_bracket_guides: true,
            tab_width: 4,
        }
    }
}

/// Viewport geometry for the reading lens in physical or logical units.
#[derive(Clone, Copy, Debug, PartialEq, Eq, Structural)]
pub struct LensViewport {
    pub width_px: u32,
    pub height_px: u32,
    pub line_height_px: u32,
    pub char_width_px: u32,
}

impl LensViewport {
    /// Every measure is positive.
    pub open spec fn wf(self) -> bool {
        self.width_px > 0 && self.height_px > 0 && self.line_height_px > 0 && self.char_width_px > 0
    }

    pub open spec fn lines(self) -> nat {
        (self.height_px / self.line_height_px) as nat
    }

    pub open spec fn columns(self) -> nat {
        (self.width_px / self.char_width_px) as nat
    }

    pub fn new(
        width_px: u32,
        height_px: u32,
        line_height_px: u32,
        char_width_px: u32,
    ) -> (r: Result<Self, ReaderError>)
        ensures
            r == ({
                let viewport = LensViewport { width_px, height_px, line_height_px, char_width_px };
                if viewport.wf() {
                    Ok::<LensViewport, ReaderError>(viewport)
                } else {
                    Err(ReaderError::InvalidLimits)
                }
            }),
    {
        if width_px == 0 || height_px == 0 || line_height_px == 0 || char_width_px == 0 {
            return Err(ReaderError::InvalidLimits);
        }
        Ok(LensViewport { width_px, height_px, line_height_px, char_width_px })
    }

    /// Number of complete lines visible vertically in the viewport.
    pub fn visible_lines_count(&self) -> (r: usize)
        requires
            self.line_height_px > 0,
        ensures
            r == self.lines(),
    {
        (self.height_px / self.line_height_px) as usize
    }

    /// Number of character columns visible horizontally in the viewport.
    pub fn visible_columns_count(&self) -> (r: usize)
        requires
            self.char_width_px > 0,
        ensures
            r == self.columns(),
    {
        (self.width_px / self.char_width_px) as usize
    }
}

/// Configuration of the line number gutter.
#[derive(Clone, Copy, Debug, PartialEq, Eq, Structural)]
pub struct GutterConfig {
    pub show_line_numbers: bool,
    /// Character padding on each side of the line number.
    pub padding_chars: usize,
}

impl Default for GutterConfig {
    fn default() -> (r: Self)
        ensures
            r == GutterConfig::standard(),
    {
        GutterConfig { show_line_numbers: true, padding_chars: 1 }
    }
}

/// How many decimal digits a number has.
pub open spec fn digits(n: nat) -> nat
    decreases n,
{
    if n < 10 {
        1
    } else {
        digits(n / 10) + 1
    }
}

impl GutterConfig {
    pub open spec fn standard() -> GutterConfig {
        GutterConfig { show_line_numbers: true, padding_chars: 1 }
    }

    /// The gutter's width in characters.
    pub open spec fn width(self, total_lines: u64) -> nat {
        if !self.show_line_numbers {
            0
        } else {
            digits(total_lines as nat) + self.padding_chars as nat * 2
        }
    }

    /// A line number as the gutter shows it.
    pub open spec fn shown(self, line: u64, total_lines: u64) -> Seq<char> {
        if !self.show_line_numbers {
            Seq::empty()
        } else {
            right_aligned(decimal(line as nat), digits(total_lines as nat))
        }
    }

    /// Number of decimal digits required to represent `total_lines` (minimum
    /// one).
    pub fn digit_count(total_lines: u64) -> (r: usize)
        ensures
            r == digits(total_lines as nat),
            1 <= r <= 20,
    {
        let mut n: u64 = total_lines;
        let mut count: usize = 1;
        proof {
            digits_are_bounded(total_lines as nat, 20);
        }
        while n >= 10
            invariant
                count >= 1,
                digits(total_lines as nat) == digits(n as nat) + count - 1,
                digits(total_lines as nat) <= 20,
            decreases n,
        {
            n = n / 10;
            count = count + 1;
        }
        count
    }

    /// Total gutter width in characters, padding included.
    pub fn gutter_width_chars(&self, total_lines: u64) -> (r: usize)
        requires
            self.width(total_lines) <= usize::MAX,
        ensures
            r == self.width(total_lines),
    {
        if !self.show_line_numbers {
            0
        } else {
            let count: usize = Self::digit_count(total_lines);
            count + self.padding_chars * 2
        }
    }

    /// Total gutter width in pixels.
    pub fn gutter_width_px(&self, total_lines: u64, char_width_px: u32) -> (r: u32)
        requires
            self.width(total_lines) * char_width_px as nat <= u32::MAX,
            self.width(total_lines) <= u32::MAX,
        ensures
            r == self.width(total_lines) * char_width_px as nat,
    {
        (self.gutter_width_chars(total_lines) as u32) * char_width_px
    }

    /// A line number right-aligned within the gutter's digits.
    pub fn format_line_number(&self, line: u64, total_lines: u64) -> (r: String)
        ensures
            r@ == self.shown(line, total_lines),
    {
        if !self.show_line_numbers {
            let r = String::new();
            assert(r@ =~= Seq::<char>::empty());
            return r;
        }
        decimal_in(line, Self::digit_count(total_lines))
    }
}

/// Ten to a power.
pub open spec fn power_of_ten(k: nat) -> nat
    decreases k,
{
    if k == 0 {
        1
    } else {
        10 * power_of_ten((k - 1) as nat)
    }
}

/// A number below ten to the `k` has at most `k` digits, and any number has as
/// many digits as its decimal form has characters.
pub proof fn digits_count_characters(n: nat)
    ensures
        decimal(n).len() == digits(n),
        n < power_of_ten(digits(n)),
        n > 0 ==> power_of_ten((digits(n) - 1) as nat) <= n,
    decreases n,
{
    if n >= 10 {
        digits_count_characters(n / 10);
        assert(power_of_ten(digits(n)) == 10 * power_of_ten(digits(n / 10)));
        assert(power_of_ten((digits(n) - 1) as nat) == 10 * power_of_ten(
            (digits(n / 10) - 1) as nat,
        ));
    } else {
        assert(power_of_ten(1) == 10) by {
            assert(power_of_ten(0) == 1);
        }
    }
}

proof fn digits_are_bounded(n: nat, k: nat)
    requires
        n < power_of_ten(k) || n <= u64::MAX && k == 20,
        k >= 1,
    ensures
        1 <= digits(n) <= k,
    decreases k,
{
    if k == 20 {
        assert(power_of_ten(20) == 100_000_000_000_000_000_000) by {
            reveal_with_fuel(power_of_ten, 21);
        }
    }
    if n >= 10 {
        if k == 1 {
            assert(power_of_ten(1) == 10) by {
                assert(power_of_ten(0) == 1);
            }
        }
        digits_are_bounded(n / 10, (k - 1) as nat);
    }
}

/// Operational mode label for a rendered lens line row.
#[derive(Clone, Copy, Debug, PartialEq, Eq, Structural)]
pub enum LensModeLabel {
    /// Exact line representation.
    Exact,
    /// Huge line horizontally virtualized (only the visible window is
    /// materialized).
    WindowVirtualized,
    /// Complex context exceeds the shaping budget.
    ContextPending,
    /// Pathological or invalid sequence presented in escaped logical format.
    LogicalFallback,
}

impl LensModeLabel {
    pub open spec fn name(self) -> Seq<char> {
        match self {
            LensModeLabel::Exact => "EXACT"@,
            LensModeLabel::WindowVirtualized => "WINDOW_VIRTUALIZED"@,
            LensModeLabel::ContextPending => "CONTEXT_PENDING"@,
            LensModeLabel::LogicalFallback => "LOGICAL_FALLBACK"@,
        }
    }

    pub fn as_str(self) -> (r: &'static str)
        ensures
            r@ == self.name(),
    {
        match self {
            LensModeLabel::Exact => "EXACT",
            LensModeLabel::WindowVirtualized => "WINDOW_VIRTUALIZED",
            LensModeLabel::ContextPending => "CONTEXT_PENDING",
            LensModeLabel::LogicalFallback => "LOGICAL_FALLBACK",
        }
    }
}

/// The result of navigating to an exact line in the reading lens.
#[derive(Clone, Copy, Debug, PartialEq, Eq, Structural)]
pub enum LineNavigationResult {
    /// The requested line resolved within the indexed extent.
    Resolved { line: LineNumber, target_scroll_y: u64 },
    /// The requested line is beyond the indexed boundary.
    PendingFarJump { target_line: LineNumber, indexed_through_line: u64 },
    /// The requested line exceeds the known total lines of the file.
    OutOfBounds { target_line: LineNumber, total_lines: u64 },
}

/// An exact source selection anchored within the reading lens.
#[derive(Clone, Copy, Debug, PartialEq, Eq, Structural)]
pub struct LensSelection {
    pub file: FileId,
    pub revision: SourceRevision,
    pub generation: QueryGeneration,
    pub byte_range: ByteRange,
    pub start_line: u64,
    pub start_col: u32,
    pub end_line: u64,
    pub end_col: u32,
}

/// Exact copied selection paired with its provenance.
#[derive(Debug, PartialEq, Eq)]
pub struct SelectionProvenance<T = String, B = Vec<u8>> {
    pub logical_path: T,
    pub file: FileId,
    pub revision: SourceRevision,
    pub byte_range: ByteRange,
    pub start_line: u64,
    pub start_col: u32,
    pub end_line: u64,
    pub end_col: u32,
    pub exact_bytes: B,
}

impl View for SelectionProvenance {
    type V = SelectionProvenance<Seq<char>, Seq<u8>>;

    open spec fn view(&self) -> SelectionProvenance<Seq<char>, Seq<u8>> {
        SelectionProvenance {
            logical_path: self.logical_path@,
            file: self.file,
            revision: self.revision,
            byte_range: self.byte_range,
            start_line: self.start_line,
            start_col: self.start_col,
            end_line: self.end_line,
            end_col: self.end_col,
            exact_bytes: self.exact_bytes@,
        }
    }
}

impl LensSelection {
    /// Why a delivery of the selection is refused, if it is.
    pub open spec fn refusal(self, capture: CaptureModel, generation: QueryGeneration) -> Option<
        ReaderError,
    > {
        if self.file.owner != capture.owner || generation.owner != capture.owner {
            Some(ReaderError::OwnerMismatch)
        } else if self.file != capture.file || self.revision != capture.revision {
            Some(ReaderError::StaleSource)
        } else if self.generation != generation {
            Some(ReaderError::StaleQuery)
        } else {
            None
        }
    }

    /// The bytes selected, where they can be copied.
    pub open spec fn selected(self, capture: CaptureModel, max_budget_bytes: usize) -> Result<
        Seq<u8>,
        ReaderError,
    > {
        match self.refusal(capture, self.generation) {
            Some(e) => Err(e),
            None => if self.byte_range.end > usize::MAX || self.byte_range.start
                > self.byte_range.end {
                Err(ReaderError::InvalidRange)
            } else if self.byte_range.end - self.byte_range.start > max_budget_bytes {
                Err(ReaderError::ResourceDenied)
            } else if self.byte_range.end > capture.bytes.len() {
                Err(ReaderError::InvalidRange)
            } else {
                Ok(
                    capture.bytes.subrange(
                        self.byte_range.start as int,
                        self.byte_range.end as int,
                    ),
                )
            },
        }
    }

    /// Validates delivery against the source capture and the active generation.
    pub fn validate(&self, capture: &SourceCapture, generation: QueryGeneration) -> (r: Result<
        (),
        ReaderError,
    >)
        ensures
            r == (match self.refusal(capture@, generation) {
                Some(e) => Err::<(), ReaderError>(e),
                None => Ok(()),
            }),
    {
        if self.file.owner != capture.owner || generation.owner != capture.owner {
            return Err(ReaderError::OwnerMismatch);
        }
        if self.file != capture.file || self.revision != capture.revision {
            return Err(ReaderError::StaleSource);
        }
        if self.generation != generation {
            return Err(ReaderError::StaleQuery);
        }
        Ok(())
    }

    /// The exact captured bytes: CRLF, bidi and nulls are kept.
    pub fn copy_exact_bytes<'a>(&self, capture: &'a SourceCapture, max_budget_bytes: usize) -> (r:
        Result<&'a [u8], ReaderError>)
        ensures
            match self.selected(capture@, max_budget_bytes) {
                Ok(bytes) => r matches Ok(copy) && copy@ == bytes,
                Err(e) => r matches Err(f) && f == e,
            },
    {
        match self.validate(capture, self.generation) {
            Ok(()) => {},
            Err(e) => {
                return Err(e);
            },
        }
        let range = self.byte_range;
        if range.end > usize::MAX as u64 || range.start > range.end {
            return Err(ReaderError::InvalidRange);
        }
        let start: usize = range.start as usize;
        let end: usize = range.end as usize;
        if end - start > max_budget_bytes {
            return Err(ReaderError::ResourceDenied);
        }
        if end > capture.bytes.len() {
            return Err(ReaderError::InvalidRange);
        }
        Ok(vstd::slice::slice_subrange(capture.bytes.as_slice(), start, end))
    }

    /// Copy with provenance metadata.
    pub fn copy_with_provenance(&self, capture: &SourceCapture, max_budget_bytes: usize) -> (r:
        Result<SelectionProvenance, ReaderError>)
        ensures
            match self.selected(capture@, max_budget_bytes) {
                Ok(bytes) => r matches Ok(copy) && copy@ == (SelectionProvenance {
                    logical_path: capture@.logical_path,
                    file: self.file,
                    revision: self.revision,
                    byte_range: self.byte_range,
                    start_line: self.start_line,
                    start_col: self.start_col,
                    end_line: self.end_line,
                    end_col: self.end_col,
                    exact_bytes: bytes,
                }),
                Err(e) => r matches Err(f) && f == e,
            },
    {
        match self.copy_exact_bytes(capture, max_budget_bytes) {
            Err(e) => Err(e),
            Ok(exact) => {
                let mut exact_bytes: Vec<u8> = Vec::new();
                put_raw(&mut exact_bytes, exact);
                assert(exact_bytes@ =~= exact@);
                Ok(
                    SelectionProvenance {
                        logical_path: capture.logical_path.clone(),
                        file: self.file,
                        revision: self.revision,
                        byte_range: self.byte_range,
                        start_line: self.start_line,
                        start_col: self.start_col,
                        end_line: self.end_line,
                        end_col: self.end_col,
                        exact_bytes,
                    },
                )
            },
        }
    }
}

/// The interactive source reading lens.
#[derive(Debug)]
pub struct SourceReadingLens<F = FindInFileSession> {
    pub viewport: LensViewport,
    pub wrap_mode: WrapMode,
    pub guide_options: GuideOptions,
    pub gutter_config: GutterConfig,
    pub scroll_y_line: u64,
    pub scroll_x_cols: u32,
    pub find_session: Option<F>,
    pub active_selection: Option<LensSelection>,
    pub cursor_offset: Option<usize>,
}

/// The model of a lens.
pub type LensModel = SourceReadingLens<FindSessionModel>;

impl View for SourceReadingLens {
    type V = SourceReadingLens<FindSessionModel>;

    open spec fn view(&self) -> SourceReadingLens<FindSessionModel> {
        SourceReadingLens {
            viewport: self.viewport,
            wrap_mode: self.wrap_mode,
            guide_options: self.guide_options,
            gutter_config: self.gutter_config,
            scroll_y_line: self.scroll_y_line,
            scroll_x_cols: self.scroll_x_cols,
            find_session: maybe(self.find_session),
            active_selection: self.active_selection,
            cursor_offset: self.cursor_offset,
        }
    }
}

impl<F> SourceReadingLens<F> {
    /// The geometry is usable and the first visible line is a line.
    pub open spec fn wf(self) -> bool {
        self.viewport.wf() && self.scroll_y_line >= 1
    }

    /// The lens and the answer after a navigation.
    pub open spec fn navigated(
        self,
        target_line: LineNumber,
        indexed_through: u64,
        total_lines: Option<u64>,
    ) -> (SourceReadingLens<F>, LineNavigationResult) {
        if total_lines matches Some(total) && target_line.value > total {
            (
                self,
                LineNavigationResult::OutOfBounds { target_line, total_lines: total_lines->Some_0 },
            )
        } else if target_line.value <= indexed_through {
            (
                SourceReadingLens { scroll_y_line: target_line.value, ..self },
                LineNavigationResult::Resolved {
                    line: target_line,
                    target_scroll_y: target_line.value,
                },
            )
        } else {
            (
                self,
                LineNavigationResult::PendingFarJump {
                    target_line,
                    indexed_through_line: indexed_through,
                },
            )
        }
    }
}

impl SourceReadingLens {
    pub fn new(viewport: LensViewport) -> (r: Self)
        ensures
            r@ == (SourceReadingLens::<FindSessionModel> {
                viewport,
                wrap_mode: WrapMode::NoWrap,
                guide_options: GuideOptions::standard(),
                gutter_config: GutterConfig::standard(),
                scroll_y_line: 1,
                scroll_x_cols: 0,
                find_session: None,
                active_selection: None,
                cursor_offset: None,
            }),
            viewport.wf() ==> r.wf(),
    {
        SourceReadingLens {
            viewport,
            wrap_mode: WrapMode::NoWrap,
            guide_options: GuideOptions::default(),
            gutter_config: GutterConfig::default(),
            scroll_y_line: 1,
            scroll_x_cols: 0,
            find_session: None,
            active_selection: None,
            cursor_offset: None,
        }
    }

    pub fn viewport(&self) -> (r: &LensViewport)
        ensures
            *r == self@.viewport,
    {
        &self.viewport
    }

    pub fn set_viewport(&mut self, viewport: LensViewport)
        ensures
            final(self)@ == (SourceReadingLens { viewport, ..old(self)@ }),
    {
        self.viewport = viewport;
    }

    pub fn wrap_mode(&self) -> (r: WrapMode)
        ensures
            r == self@.wrap_mode,
    {
        self.wrap_mode
    }

    pub fn set_wrap_mode(&mut self, mode: WrapMode)
        ensures
            final(self)@ == (SourceReadingLens { wrap_mode: mode, ..old(self)@ }),
    {
        self.wrap_mode = mode;
    }

    pub fn guide_options(&self) -> (r: &GuideOptions)
        ensures
            *r == self@.guide_options,
    {
        &self.guide_options
    }

    pub fn guide_options_mut(&mut self) -> (r: &mut GuideOptions)
        ensures
            *r == old(self)@.guide_options,
            final(self)@ == (SourceReadingLens { guide_options: *final(r), ..old(self)@ }),
    {
        &mut self.guide_options
    }

    pub fn gutter_config(&self) -> (r: &GutterConfig)
        ensures
            *r == self@.gutter_config,
    {
        &self.gutter_config
    }

    pub fn gutter_config_mut(&mut self) -> (r: &mut GutterConfig)
        ensures
            *r == old(self)@.gutter_config,
            final(self)@ == (SourceReadingLens { gutter_config: *final(r), ..old(self)@ }),
    {
        &mut self.gutter_config
    }

    pub fn scroll_y_line(&self) -> (r: u64)
        ensures
            r == self@.scroll_y_line,
    {
        self.scroll_y_line
    }

    pub fn set_scroll_y_line(&mut self, line: u64)
        ensures
            final(self)@ == (SourceReadingLens {
                scroll_y_line: if line < 1 {
                    1
                } else {
                    line
                },
                ..old(self)@
            }),
    {
        self.scroll_y_line = if line < 1 {
            1
        } else {
            line
        };
    }

    pub fn scroll_x_cols(&self) -> (r: u32)
        ensures
            r == self@.scroll_x_cols,
    {
        self.scroll_x_cols
    }

    pub fn set_scroll_x_cols(&mut self, cols: u32)
        ensures
            final(self)@ == (SourceReadingLens { scroll_x_cols: cols, ..old(self)@ }),
    {
        self.scroll_x_cols = cols;
    }

    pub fn cursor_offset(&self) -> (r: Option<usize>)
        ensures
            r == self@.cursor_offset,
    {
        self.cursor_offset
    }

    pub fn set_cursor_offset(&mut self, offset: Option<usize>)
        ensures
            final(self)@ == (SourceReadingLens { cursor_offset: offset, ..old(self)@ }),
    {
        self.cursor_offset = offset;
    }

    pub fn active_selection(&self) -> (r: Option<&LensSelection>)
        ensures
            match self@.active_selection {
                Some(selection) => r == Some(&selection),
                None => r is None,
            },
    {
        match &self.active_selection {
            Some(selection) => Some(selection),
            None => None,
        }
    }

    pub fn set_selection(&mut self, selection: Option<LensSelection>)
        ensures
            final(self)@ == (SourceReadingLens { active_selection: selection, ..old(self)@ }),
    {
        self.active_selection = selection;
    }

    /// Perform an exact line navigation with an explicit pending state for far
    /// lines.
    pub fn navigate_to_line(
        &mut self,
        target_line: LineNumber,
        indexed_through: u64,
        total_lines: Option<u64>,
    ) -> (r: LineNavigationResult)
        ensures
            (final(self)@, r) == old(self)@.navigated(target_line, indexed_through, total_lines),
            old(self).wf() && target_line.value > 0 ==> final(self).wf(),
    {
        if let Some(total) = total_lines {
            if target_line.value > total {
                return LineNavigationResult::OutOfBounds { target_line, total_lines: total };
            }
        }
        if target_line.value <= indexed_through {
            self.scroll_y_line = target_line.value;
            LineNavigationResult::Resolved { line: target_line, target_scroll_y: target_line.value }
        } else {
            LineNavigationResult::PendingFarJump {
                target_line,
                indexed_through_line: indexed_through,
            }
        }
    }

    /// Initiate or replace a find-in-file search across the source capture.
    pub fn start_find(&mut self, capture: &SourceCapture, query: &str, options: FindOptions)
        requires
            capture@.bytes.len() < usize::MAX,
        ensures
            final(self)@ == (SourceReadingLens {
                find_session: Some(FindSessionModel::searched(capture@.bytes, query@, options)),
                ..old(self)@
            }),
    {
        let session = FindInFileSession::search(capture, query, options);
        self.find_session = Some(session);
    }

    pub fn find_session(&self) -> (r: Option<&FindInFileSession>)
        ensures
            match self@.find_session {
                Some(session) => r matches Some(s) && s@ == session,
                None => r is None,
            },
    {
        match &self.find_session {
            Some(session) => Some(session),
            None => None,
        }
    }

    pub fn find_session_mut(&mut self) -> (r: Option<&mut FindInFileSession>)
        ensures
            match r {
                Some(session) => old(self)@.find_session == Some(session@) && final(self)@ == (
                SourceReadingLens { find_session: Some(final(session)@), ..old(self)@ }),
                None => old(self)@.find_session is None && final(self)@ == old(self)@,
            },
    {
        match &mut self.find_session {
            Some(session) => Some(session),
            None => None,
        }
    }

    pub fn clear_find(&mut self)
        ensures
            final(self)@ == (SourceReadingLens { find_session: None, ..old(self)@ }),
    {
        self.find_session = None;
    }
}

/// A far or impossible jump never moves the lens, and a resolved one shows
/// exactly the line asked for.
pub proof fn navigation_is_exact_or_inert(
    lens: LensModel,
    target: LineNumber,
    indexed_through: u64,
    total_lines: Option<u64>,
)
    ensures
        ({
            let (next, answer) = lens.navigated(target, indexed_through, total_lines);
            &&& answer is Resolved ==> next.scroll_y_line == target.value
            &&& answer !is Resolved ==> next == lens
            &&& answer is Resolved <==> target.value <= indexed_through && (
            total_lines matches Some(total) ==> target.value <= total)
        }),
{
}

} // verus!
