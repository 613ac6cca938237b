//! The visible rows of a lens.
use vstd::prelude::*;

use crate::capture::SourceCapture;
use crate::identity::ByteRange;
use crate::model::{group_views, views};
use crate::search::lens::brackets::{
    find_matching_bracket, is_bracket_match, BracketMatchResult, BracketPairMatch,
};
use crate::search::lens::find::{FindInFileSession, FindMatch};
use crate::search::lens::guides::{
    compute_indent_guides, compute_whitespace_markers, guides, markers, IndentGuide,
    WhitespaceMarker,
};
use crate::search::lens::{
    LensModel, LensModeLabel, SourceReadingLens, WrapMode, DEFAULT_OVERSCAN_COLUMNS,
    LENS_HUGE_LINE_BYTE_LIMIT,
};
use crate::search::reader::ReaderError;
use crate::text::{lossy_text, text_chars, text_from_utf8_lossy, text_of};

verus! {

broadcast use group_views;

/// A rendered virtual line row within the active lens viewport.
#[derive(Debug, PartialEq, Eq)]
pub struct VirtualLineRow<T = String, G = Vec<IndentGuide>, W = Vec<WhitespaceMarker>, R = Vec<(u32, u32)>> {
    pub line_number: u64,
    pub formatted_line_number: T,
    pub raw_byte_range: ByteRange,
    pub text: T,
    pub is_wrapped_continuation: bool,
    pub indent_guides: G,
    pub whitespace_markers: W,
    pub bracket_highlight: Option<BracketPairMatch>,
    pub find_match_ranges: R,
    pub mode_label: LensModeLabel,
}

/// The model of a row.
pub type RowModel = VirtualLineRow<
    Seq<char>,
    Seq<IndentGuide>,
    Seq<WhitespaceMarker>,
    Seq<(u32, u32)>,
>;

impl View for VirtualLineRow {
    type V = VirtualLineRow<Seq<char>, Seq<IndentGuide>, Seq<WhitespaceMarker>, Seq<(u32, u32)>>;

    open spec fn view(&self) -> VirtualLineRow<
        Seq<char>,
        Seq<IndentGuide>,
        Seq<WhitespaceMarker>,
        Seq<(u32, u32)>,
    > {
        VirtualLineRow {
            line_number: self.line_number,
            formatted_line_number: self.formatted_line_number@,
            raw_byte_range: self.raw_byte_range,
            text: self.text@,
            is_wrapped_continuation: self.is_wrapped_continuation,
            indent_guides: self.indent_guides@,
            whitespace_markers: self.whitespace_markers@,
            bracket_highlight: self.bracket_highlight,
            find_match_ranges: self.find_match_ranges@,
            mode_label: self.mode_label,
        }
    }
}

/// What the rows of one line show besides its text.
#[derive(Debug, PartialEq, Eq)]
pub struct LineFacts<R = Vec<(u32, u32)>> {
    pub number: u64,
    pub total_lines: u64,
    pub range: ByteRange,
    pub huge: bool,
    pub bracket: Option<BracketPairMatch>,
    pub found: R,
}

impl View for LineFacts {
    type V = LineFacts<Seq<(u32, u32)>>;

    open spec fn view(&self) -> LineFacts<Seq<(u32, u32)>> {
        LineFacts {
            number: self.number,
            total_lines: self.total_lines,
            range: self.range,
            huge: self.huge,
            bracket: self.bracket,
            found: self.found@,
        }
    }
}

/// Where a line starts, where its content ends and where it ends, terminator
/// included.
pub open spec fn line_span(bytes: Seq<u8>, starts: Seq<usize>, k: int) -> Result<
    (int, int, int),
    ReaderError,
> {
    let start = starts[k] as int;
    let end = if k + 1 < starts.len() {
        starts[k + 1] as int
    } else {
        bytes.len() as int
    };
    if start > end || end > bytes.len() {
        Err(ReaderError::InvalidRange)
    } else {
        let content_end = if end - start >= 2 && bytes[end - 2] == 13 && bytes[end - 1] == 10 {
            end - 2
        } else if end - start >= 1 && (bytes[end - 1] == 10 || bytes[end - 1] == 13) {
            end - 1
        } else {
            end
        };
        Ok((start, content_end, end))
    }
}

/// The columns of the matches on a line, from the `i`th match on.
pub open spec fn columns_from(matches: Seq<FindMatch>, line: u64, i: int) -> Seq<(u32, u32)>
    decreases matches.len() - i,
{
    if i < 0 || i >= matches.len() {
        Seq::empty()
    } else {
        let rest = columns_from(matches, line, i + 1);
        if matches[i].line_number == line {
            seq![
                (
                    matches[i].column,
                    matches[i].column.wrapping_add(matches[i].length as u32),
                ),
            ] + rest
        } else {
            rest
        }
    }
}

/// Whether a bracket pair touches a line.
pub open spec fn touches(pair: BracketPairMatch, start: int, end: int) -> bool {
    start <= pair.open_offset < end || start <= pair.close_offset < end
}

/// The pair that a match result holds.
pub open spec fn pair_of(result: BracketMatchResult) -> Option<BracketPairMatch> {
    match result {
        BracketMatchResult::Matched(pair) => Some(pair),
        _ => None,
    }
}

/// Some of the characters, as far as there are any.
pub open spec fn window(text: Seq<char>, from: int, to: int) -> Seq<char> {
    let end = if to < text.len() {
        to
    } else {
        text.len() as int
    };
    if from >= end {
        Seq::empty()
    } else {
        text.subrange(from, end)
    }
}

/// A sum of columns, at most the largest one.
pub open spec fn column_sum(a: int, b: int) -> int {
    if a + b > u32::MAX {
        u32::MAX as int
    } else {
        a + b
    }
}

impl LensModel {
    /// Whether `pair` is the bracket pair to highlight.
    pub open spec fn highlights(self, bytes: Seq<u8>, pair: Option<BracketPairMatch>) -> bool {
        match self.cursor_offset {
            Some(cursor) if self.guide_options.show_bracket_guides => exists|
                result: BracketMatchResult,
            |
                #[trigger] is_bracket_match(bytes, cursor as int, result) && pair == pair_of(
                    result,
                ),
            _ => pair is None,
        }
    }

    /// The indentation guides shown for a line.
    pub open spec fn shown_guides(self, text: Seq<char>) -> Seq<IndentGuide> {
        if self.guide_options.show_indent_guides {
            guides(text, self.guide_options.tab_width)
        } else {
            Seq::empty()
        }
    }

    /// The whitespace markers shown for a text.
    pub open spec fn shown_markers(self, text: Seq<char>) -> Seq<WhitespaceMarker> {
        if self.guide_options.show_whitespace {
            markers(text, self.guide_options.tab_width)
        } else {
            Seq::empty()
        }
    }

    /// The row of a line that is not wrapped.
    pub open spec fn plain_row(self, facts: LineFacts<Seq<(u32, u32)>>, text: Seq<char>) -> RowModel {
        let from = self.scroll_x_cols as int;
        VirtualLineRow {
            line_number: facts.number,
            formatted_line_number: self.gutter_config.shown(facts.number, facts.total_lines),
            raw_byte_range: facts.range,
            text: if facts.huge {
                window(
                    text,
                    from,
                    column_sum(
                        column_sum(from, self.viewport.columns() as int),
                        DEFAULT_OVERSCAN_COLUMNS as int,
                    ),
                )
            } else {
                window(text, from, text.len() as int)
            },
            is_wrapped_continuation: false,
            indent_guides: self.shown_guides(text),
            whitespace_markers: self.shown_markers(text),
            bracket_highlight: facts.bracket,
            find_match_ranges: facts.found,
            mode_label: if facts.huge {
                LensModeLabel::WindowVirtualized
            } else {
                LensModeLabel::Exact
            },
        }
    }

    /// Characters per wrapped row.
    pub open spec fn wrap_columns(self) -> int {
        let columns = match self.wrap_mode {
            WrapMode::ColumnLimit(limit) => limit as int,
            _ => self.viewport.columns() as int,
        };
        if columns < 1 {
            1
        } else {
            columns
        }
    }

    /// A wrapped row that starts at `from`.
    pub open spec fn wrapped_row(
        self,
        facts: LineFacts<Seq<(u32, u32)>>,
        text: Seq<char>,
        from: int,
    ) -> RowModel {
        let part = window(text, from, from + self.wrap_columns());
        VirtualLineRow {
            line_number: facts.number,
            formatted_line_number: if from == 0 {
                self.gutter_config.shown(facts.number, facts.total_lines)
            } else {
                Seq::empty()
            },
            raw_byte_range: facts.range,
            text: part,
            is_wrapped_continuation: from != 0,
            indent_guides: if from == 0 {
                self.shown_guides(text)
            } else {
                Seq::empty()
            },
            whitespace_markers: self.shown_markers(part),
            bracket_highlight: facts.bracket,
            find_match_ranges: if from == 0 {
                facts.found
            } else {
                Seq::empty()
            },
            mode_label: if facts.huge {
                LensModeLabel::WindowVirtualized
            } else {
                LensModeLabel::Exact
            },
        }
    }

    /// The wrapped rows of a line from a character on, at most `budget`.
    pub open spec fn wrapped_from(
        self,
        facts: LineFacts<Seq<(u32, u32)>>,
        text: Seq<char>,
        from: int,
        budget: int,
    ) -> Seq<RowModel>
        decreases budget,
    {
        if budget <= 0 || from >= text.len() {
            Seq::empty()
        } else {
            seq![self.wrapped_row(facts, text, from)] + self.wrapped_from(
                facts,
                text,
                from + self.wrap_columns(),
                budget - 1,
            )
        }
    }

    /// The row of an empty line that would be wrapped.
    pub open spec fn empty_row(self, facts: LineFacts<Seq<(u32, u32)>>) -> RowModel {
        VirtualLineRow {
            line_number: facts.number,
            formatted_line_number: self.gutter_config.shown(facts.number, facts.total_lines),
            raw_byte_range: facts.range,
            text: Seq::empty(),
            is_wrapped_continuation: false,
            indent_guides: Seq::empty(),
            whitespace_markers: Seq::empty(),
            bracket_highlight: facts.bracket,
            find_match_ranges: facts.found,
            mode_label: LensModeLabel::Exact,
        }
    }

    /// The rows of one line, at most `budget`.
    pub open spec fn line_rows(
        self,
        facts: LineFacts<Seq<(u32, u32)>>,
        text: Seq<char>,
        budget: int,
    ) -> Seq<RowModel> {
        if budget <= 0 {
            Seq::empty()
        } else if self.wrap_mode is NoWrap {
            seq![self.plain_row(facts, text)]
        } else if text.len() == 0 {
            seq![self.empty_row(facts)]
        } else {
            self.wrapped_from(facts, text, 0, budget)
        }
    }

    /// What the rows of the `k`th line show besides its text.
    pub open spec fn facts(
        self,
        total_lines: u64,
        huge_line_bytes: u64,
        pair: Option<BracketPairMatch>,
        k: int,
        span: (int, int, int),
    ) -> LineFacts<Seq<(u32, u32)>> {
        LineFacts {
            number: (k + 1) as u64,
            total_lines,
            range: ByteRange { start: span.0 as u64, end: span.2 as u64 },
            huge: span.1 - span.0 > LENS_HUGE_LINE_BYTE_LIMIT || span.1 - span.0 > huge_line_bytes,
            bracket: match pair {
                Some(p) if touches(p, span.0, span.2) => Some(p),
                _ => None,
            },
            found: match self.find_session {
                Some(session) => columns_from(session.matches, (k + 1) as u64, 0),
                None => Seq::empty(),
            },
        }
    }

    /// The rows from the `k`th line on, at most `budget`.
    pub open spec fn rows_from(
        self,
        bytes: Seq<u8>,
        starts: Seq<usize>,
        total_lines: u64,
        huge_line_bytes: u64,
        pair: Option<BracketPairMatch>,
        k: int,
        budget: int,
    ) -> Result<Seq<RowModel>, ReaderError>
        decreases starts.len() - k,
    {
        if budget <= 0 || k < 0 || k >= starts.len() || k >= total_lines {
            Ok(Seq::empty())
        } else {
            match line_span(bytes, starts, k) {
                Err(e) => Err(e),
                Ok(span) => {
                    let rows = self.line_rows(
                        self.facts(total_lines, huge_line_bytes, pair, k, span),
                        lossy_text(bytes.subrange(span.0, span.1)),
                        budget,
                    );
                    match self.rows_from(
                        bytes,
                        starts,
                        total_lines,
                        huge_line_bytes,
                        pair,
                        k + 1,
                        budget - rows.len(),
                    ) {
                        Err(e) => Err(e),
                        Ok(rest) => Ok(rows + rest),
                    }
                },
            }
        }
    }

    /// The visible rows.
    pub open spec fn visible_rows(
        self,
        bytes: Seq<u8>,
        starts: Seq<usize>,
        total_lines: u64,
        huge_line_bytes: u64,
        pair: Option<BracketPairMatch>,
    ) -> Result<Seq<RowModel>, ReaderError> {
        self.rows_from(
            bytes,
            starts,
            total_lines,
            huge_line_bytes,
            pair,
            self.scroll_y_line - 1,
            self.viewport.lines() as int,
        )
    }
}

/// Some of the characters as text, as far as there are any.
fn window_text(chars: &Vec<char>, from: usize, to: usize) -> (r: String)
    ensures
        r@ == window(chars@, from as int, to as int),
{
    let end: usize = if to < chars.len() {
        to
    } else {
        chars.len()
    };
    if from >= end {
        let r = String::new();
        assert(r@ =~= window(chars@, from as int, to as int));
        r
    } else {
        text_of(chars, from, end)
    }
}

fn copy_ranges(ranges: &Vec<(u32, u32)>) -> (r: Vec<(u32, u32)>)
    ensures
        r@ == ranges@,
{
    let mut out: Vec<(u32, u32)> = Vec::new();
    let mut i: usize = 0;
    while i < ranges.len()
        invariant
            i <= ranges@.len(),
            out@ == ranges@.subrange(0, i as int),
        decreases ranges.len() - i,
    {
        out.push(ranges[i]);
        i = i + 1;
        assert(out@ =~= ranges@.subrange(0, i as int));
    }
    assert(out@ =~= ranges@);
    out
}

/// The columns of the matches on a line.
fn columns_on(session: &FindInFileSession, line: u64) -> (r: Vec<(u32, u32)>)
    ensures
        r@ == columns_from(session@.matches, line, 0),
{
    let mut out: Vec<(u32, u32)> = Vec::new();
    let mut i: usize = 0;
    assert(out@ + columns_from(session@.matches, line, 0) =~= columns_from(
        session@.matches,
        line,
        0,
    ));
    while i < session.matches.len()
        invariant
            i <= session@.matches.len(),
            out@ + columns_from(session@.matches, line, i as int) == columns_from(
                session@.matches,
                line,
                0,
            ),
        decreases session.matches.len() - i,
    {
        let m = session.matches[i];
        if m.line_number == line {
            out.push((m.column, m.column.wrapping_add(#[verifier::truncate] (m.length as u32))));
        }
        i = i + 1;
        assert(out@ + columns_from(session@.matches, line, i as int) =~= columns_from(
            session@.matches,
            line,
            0,
        ));
    }
    assert(out@ =~= columns_from(session@.matches, line, 0));
    out
}

impl SourceReadingLens {
    fn guides_of(&self, text: &str) -> (r: Vec<IndentGuide>)
        ensures
            r@ == self@.shown_guides(text@),
    {
        if self.guide_options.show_indent_guides {
            compute_indent_guides(text, self.guide_options.tab_width)
        } else {
            Vec::new()
        }
    }

    fn markers_of(&self, text: &str) -> (r: Vec<WhitespaceMarker>)
        ensures
            r@ == self@.shown_markers(text@),
    {
        if self.guide_options.show_whitespace {
            compute_whitespace_markers(text, self.guide_options.tab_width)
        } else {
            Vec::new()
        }
    }

    fn plain(&self, facts: &LineFacts, text: &str) -> (r: VirtualLineRow)
        requires
            self.wf(),
        ensures
            r@ == self@.plain_row(facts@, text@),
    {
        let chars = text_chars(text);
        let from: u32 = self.scroll_x_cols;
        let shown = if facts.huge {
            let columns: u32 = self.viewport.width_px / self.viewport.char_width_px;
            let to: u32 = from.saturating_add(columns).saturating_add(DEFAULT_OVERSCAN_COLUMNS);
            window_text(&chars, from as usize, to as usize)
        } else {
            window_text(&chars, from as usize, chars.len())
        };
        VirtualLineRow {
            line_number: facts.number,
            formatted_line_number: self.gutter_config.format_line_number(
                facts.number,
                facts.total_lines,
            ),
            raw_byte_range: facts.range,
            text: shown,
            is_wrapped_continuation: false,
            indent_guides: self.guides_of(text),
            whitespace_markers: self.markers_of(text),
            bracket_highlight: facts.bracket,
            find_match_ranges: copy_ranges(&facts.found),
            mode_label: if facts.huge {
                LensModeLabel::WindowVirtualized
            } else {
                LensModeLabel::Exact
            },
        }
    }

    fn blank(&self, facts: &LineFacts) -> (r: VirtualLineRow)
        ensures
            r@ == self@.empty_row(facts@),
    {
        let text = String::new();
        assert(text@ =~= Seq::<char>::empty());
        VirtualLineRow {
            line_number: facts.number,
            formatted_line_number: self.gutter_config.format_line_number(
                facts.number,
                facts.total_lines,
            ),
            raw_byte_range: facts.range,
            text,
            is_wrapped_continuation: false,
            indent_guides: Vec::new(),
            whitespace_markers: Vec::new(),
            bracket_highlight: facts.bracket,
            find_match_ranges: copy_ranges(&facts.found),
            mode_label: LensModeLabel::Exact,
        }
    }

    fn wrapped(
        &self,
        facts: &LineFacts,
        text: &str,
        chars: &Vec<char>,
        from: usize,
        columns: usize,
    ) -> (r: VirtualLineRow)
        requires
            self.wf(),
            chars@ == text@,
            from < text@.len(),
            columns == self@.wrap_columns(),
        ensures
            r@ == self@.wrapped_row(facts@, text@, from as int),
    {
        let end: usize = if columns < chars.len() - from {
            from + columns
        } else {
            chars.len()
        };
        let part = text_of(chars, from, end);
        assert(part@ == window(text@, from as int, from + self@.wrap_columns()));
        let first = from == 0;
        let number = if first {
            self.gutter_config.format_line_number(facts.number, facts.total_lines)
        } else {
            String::new()
        };
        assert(!first ==> number@ =~= Seq::<char>::empty());
        let markers = self.markers_of(part.as_str());
        VirtualLineRow {
            line_number: facts.number,
            formatted_line_number: number,
            raw_byte_range: facts.range,
            text: part,
            is_wrapped_continuation: !first,
            indent_guides: if first {
                self.guides_of(text)
            } else {
                Vec::new()
            },
            whitespace_markers: markers,
            bracket_highlight: facts.bracket,
            find_match_ranges: if first {
                copy_ranges(&facts.found)
            } else {
                Vec::new()
            },
            mode_label: if facts.huge {
                LensModeLabel::WindowVirtualized
            } else {
                LensModeLabel::Exact
            },
        }
    }

    /// The rows of one line, at most `budget`, given its text.
    pub fn line_rows(&self, facts: &LineFacts, text: &str, budget: usize) -> (r: Vec<VirtualLineRow>)
        requires
            self.wf(),
        ensures
            views(r@) == self@.line_rows(facts@, text@, budget as int),
    {
        let mut out: Vec<VirtualLineRow> = Vec::new();
        if budget == 0 {
            assert(views(out@) =~= self@.line_rows(facts@, text@, 0));
            return out;
        }
        match self.wrap_mode {
            WrapMode::NoWrap => {
                out.push(self.plain(facts, text));
                assert(views(out@) =~= self@.line_rows(facts@, text@, budget as int));
                return out;
            },
            _ => {},
        }
        let chars = text_chars(text);
        if chars.len() == 0 {
            out.push(self.blank(facts));
            assert(views(out@) =~= self@.line_rows(facts@, text@, budget as int));
            return out;
        }
        let limit: u32 = match self.wrap_mode {
            WrapMode::ColumnLimit(limit) => limit,
            _ => self.viewport.width_px / self.viewport.char_width_px,
        };
        let columns: usize = if limit < 1 {
            1
        } else {
            limit as usize
        };
        let mut from: usize = 0;
        let mut done = false;
        let ghost all = self@.wrapped_from(facts@, text@, 0, budget as int);
        assert(views(out@) + all =~= all);
        while !done
            invariant
                self.wf(),
                chars@ == text@,
                columns == self@.wrap_columns(),
                from <= chars@.len(),
                done || from < chars.len() && out@.len() < budget,
                out@.len() <= budget,
                !done ==> views(out@) + self@.wrapped_from(
                    facts@,
                    text@,
                    from as int,
                    budget - out@.len(),
                ) == all,
                done ==> views(out@) == all,
            decreases budget - out@.len(), if done {
                0int
            } else {
                1int
            },
        {
            let ghost before = views(out@);
            let row = self.wrapped(facts, text, &chars, from, columns);
            out.push(row);
            let ghost rest = self@.wrapped_from(
                facts@,
                text@,
                from + columns,
                budget - out@.len(),
            );
            assert(all =~= views(out@) + rest);
            if columns >= chars.len() - from || out.len() >= budget {
                done = true;
                assert(rest =~= Seq::<RowModel>::empty());
                assert(views(out@) =~= all);
            } else {
                from = from + columns;
            }
        }
        out
    }

    /// Materializes the visible virtual rows according to viewport geometry,
    /// scroll, wrap mode and guide options. Lines of more than
    /// `huge_line_bytes` bytes are huge too.
    pub fn render_visible_rows(
        &self,
        capture: &SourceCapture,
        line_starts: &Vec<usize>,
        total_lines: u64,
        huge_line_bytes: u64,
    ) -> (r: Result<Vec<VirtualLineRow>, ReaderError>)
        requires
            self.wf(),
        ensures
            exists|pair: Option<BracketPairMatch>|
                {
                    &&& #[trigger] self@.highlights(capture@.bytes, pair)
                    &&& match self@.visible_rows(
                        capture@.bytes,
                        line_starts@,
                        total_lines,
                        huge_line_bytes,
                        pair,
                    ) {
                        Ok(rows) => r matches Ok(out) && views(out@) == rows,
                        Err(e) => r matches Err(f) && f == e,
                    }
                },
    {
        let bytes = &capture.bytes;
        let max_rows: usize = self.viewport.visible_lines_count();
        let pair: Option<BracketPairMatch> = match self.cursor_offset {
            Some(cursor) => if self.guide_options.show_bracket_guides {
                match find_matching_bracket(bytes, cursor) {
                    BracketMatchResult::Matched(pair) => Some(pair),
                    _ => None,
                }
            } else {
                None
            },
            None => None,
        };
        assert(self@.highlights(bytes@, pair));
        let mut rows: Vec<VirtualLineRow> = Vec::new();
        let ghost all = self@.visible_rows(bytes@, line_starts@, total_lines, huge_line_bytes, pair);
        if self.scroll_y_line - 1 >= line_starts.len() as u64 {
            assert(views(rows@) =~= Seq::<RowModel>::empty());
            assert(bytes@ == capture@.bytes);
            assert(all == Ok::<Seq<RowModel>, ReaderError>(Seq::empty()));
            return Ok(rows);
        }
        let mut k: usize = (self.scroll_y_line - 1) as usize;
        assert(all is Ok ==> views(rows@) + all->Ok_0 =~= all->Ok_0);
        while rows.len() < max_rows && (k as u64) < total_lines && k < line_starts.len()
            invariant
                self.wf(),
                bytes@ == capture@.bytes,
                max_rows == self@.viewport.lines(),
                rows@.len() <= max_rows,
                k <= line_starts@.len(),
                all == self@.visible_rows(
                    bytes@,
                    line_starts@,
                    total_lines,
                    huge_line_bytes,
                    pair,
                ),
                self@.highlights(bytes@, pair),
                match self@.rows_from(
                    bytes@,
                    line_starts@,
                    total_lines,
                    huge_line_bytes,
                    pair,
                    k as int,
                    max_rows - rows@.len(),
                ) {
                    Ok(rest) => all == Ok::<Seq<RowModel>, ReaderError>(views(rows@) + rest),
                    Err(e) => all == Err::<Seq<RowModel>, ReaderError>(e),
                },
            decreases line_starts.len() - k,
        {
            let start: usize = line_starts[k];
            let end: usize = if line_starts.len() - k > 1 {
                line_starts[k + 1]
            } else {
                bytes.len()
            };
            if start > end || end > bytes.len() {
                return Err(ReaderError::InvalidRange);
            }
            let content_end: usize = if end - start >= 2 && bytes[end - 2] == 13 && bytes[end - 1]
                == 10 {
                end - 2
            } else if end - start >= 1 && (bytes[end - 1] == 10 || bytes[end - 1] == 13) {
                end - 1
            } else {
                end
            };
            let ghost span = (start as int, content_end as int, end as int);
            assert(line_span(bytes@, line_starts@, k as int) == Ok::<
                (int, int, int),
                ReaderError,
            >(span));
            let number: u64 = k as u64 + 1;
            let length: usize = content_end - start;
            let facts = LineFacts {
                number,
                total_lines,
                range: ByteRange { start: start as u64, end: end as u64 },
                huge: length > LENS_HUGE_LINE_BYTE_LIMIT || length as u64 > huge_line_bytes,
                bracket: match pair {
                    Some(p) => if start <= p.open_offset && p.open_offset < end || start
                        <= p.close_offset && p.close_offset < end {
                        Some(p)
                    } else {
                        None
                    },
                    None => None,
                },
                found: match &self.find_session {
                    Some(session) => columns_on(session, number),
                    None => Vec::new(),
                },
            };
            assert(facts@ == self@.facts(total_lines, huge_line_bytes, pair, k as int, span));
            let content = vstd::slice::slice_subrange(bytes.as_slice(), start, content_end);
            let text = text_from_utf8_lossy(content);
            let mut more = self.line_rows(&facts, text.as_str(), max_rows - rows.len());
            let ghost before = rows@;
            let ghost added = more@;
            proof {
                lemma_line_rows(self@, facts@, text@, max_rows - rows@.len());
            }
            rows.append(&mut more);
            assert(views(rows@) =~= views(before) + views(added));
            k = k + 1;
            proof {
                let rest = self@.rows_from(
                    bytes@,
                    line_starts@,
                    total_lines,
                    huge_line_bytes,
                    pair,
                    k as int,
                    max_rows - rows@.len(),
                );
                if rest is Ok {
                    assert(views(before) + (views(added) + rest->Ok_0) =~= views(rows@)
                        + rest->Ok_0);
                }
            }
        }
        assert(all is Ok ==> views(rows@) =~= all->Ok_0);
        Ok(rows)
    }
}

/// A line takes at least one row and no more than the budget.
proof fn lemma_line_rows(
    lens: LensModel,
    facts: LineFacts<Seq<(u32, u32)>>,
    text: Seq<char>,
    budget: int,
)
    requires
        budget > 0,
    ensures
        1 <= lens.line_rows(facts, text, budget).len() <= budget,
{
    lemma_wrapped_len(lens, facts, text, 0, budget);
}

proof fn lemma_wrapped_len(
    lens: LensModel,
    facts: LineFacts<Seq<(u32, u32)>>,
    text: Seq<char>,
    from: int,
    budget: int,
)
    requires
        budget >= 0,
    ensures
        lens.wrapped_from(facts, text, from, budget).len() <= budget,
    decreases budget,
{
    if budget > 0 && from < text.len() {
        lemma_wrapped_len(lens, facts, text, from + lens.wrap_columns(), budget - 1);
    }
}

/// No more rows are shown than fit into the viewport.
pub proof fn rows_fit_the_viewport(
    lens: LensModel,
    bytes: Seq<u8>,
    starts: Seq<usize>,
    total_lines: u64,
    huge_line_bytes: u64,
    pair: Option<BracketPairMatch>,
)
    requires
        lens.wf(),
    ensures
        lens.visible_rows(bytes, starts, total_lines, huge_line_bytes, pair) matches Ok(rows)
            ==> rows.len() <= lens.viewport.lines(),
{
    lemma_rows_len(
        lens,
        bytes,
        starts,
        total_lines,
        huge_line_bytes,
        pair,
        lens.scroll_y_line - 1,
        lens.viewport.lines() as int,
    );
}

proof fn lemma_rows_len(
    lens: LensModel,
    bytes: Seq<u8>,
    starts: Seq<usize>,
    total_lines: u64,
    huge_line_bytes: u64,
    pair: Option<BracketPairMatch>,
    k: int,
    budget: int,
)
    requires
        budget >= 0,
    ensures
        lens.rows_from(bytes, starts, total_lines, huge_line_bytes, pair, k, budget) matches Ok(
            rows,
        ) ==> rows.len() <= budget,
    decreases starts.len() - k,
{
    if budget > 0 && 0 <= k < starts.len() && k < total_lines {
        if let Ok(span) = line_span(bytes, starts, k) {
            let facts = lens.facts(total_lines, huge_line_bytes, pair, k, span);
            let text = lossy_text(bytes.subrange(span.0, span.1));
            lemma_line_rows(lens, facts, text, budget);
            lemma_rows_len(
                lens,
                bytes,
                starts,
                total_lines,
                huge_line_bytes,
                pair,
                k + 1,
                budget - lens.line_rows(facts, text, budget).len(),
            );
        }
    }
}

/// The texts of rows, one after the other.
pub open spec fn joined(rows: Seq<RowModel>) -> Seq<char>
    decreases rows.len(),
{
    if rows.len() == 0 {
        Seq::empty()
    } else {
        rows[0].text + joined(rows.subrange(1, rows.len() as int))
    }
}

/// Wrapping loses, adds and reorders nothing: with room for all rows, their
/// texts join to the line.
pub proof fn wrapped_rows_join_to_the_line(
    lens: LensModel,
    facts: LineFacts<Seq<(u32, u32)>>,
    text: Seq<char>,
    budget: int,
)
    requires
        !(lens.wrap_mode is NoWrap),
        budget >= text.len(),
        budget >= 1,
    ensures
        joined(lens.line_rows(facts, text, budget)) == text,
{
    let rows = lens.line_rows(facts, text, budget);
    if text.len() == 0 {
        assert(joined(rows.subrange(1, 1)) =~= Seq::<char>::empty());
        assert(joined(rows) =~= text);
    } else {
        lemma_joined(lens, facts, text, 0, budget);
        assert(text.subrange(0, text.len() as int) =~= text);
    }
}

proof fn lemma_joined(
    lens: LensModel,
    facts: LineFacts<Seq<(u32, u32)>>,
    text: Seq<char>,
    from: int,
    budget: int,
)
    requires
        0 <= from,
        from <= text.len() ==> budget >= text.len() - from,
        budget >= 0,
    ensures
        joined(lens.wrapped_from(facts, text, from, budget)) == (if from <= text.len() {
            text.subrange(from, text.len() as int)
        } else {
            Seq::empty()
        }),
    decreases budget,
{
    let rows = lens.wrapped_from(facts, text, from, budget);
    if from < text.len() {
        let next = from + lens.wrap_columns();
        let rest = lens.wrapped_from(facts, text, next, budget - 1);
        lemma_joined(lens, facts, text, next, budget - 1);
        assert(rows.subrange(1, rows.len() as int) =~= rest);
        assert(joined(rows) =~= text.subrange(from, text.len() as int));
    } else {
        assert(joined(rows) =~= Seq::<char>::empty());
        if from == text.len() {
            assert(text.subrange(from, text.len() as int) =~= Seq::<char>::empty());
        }
    }
}

} // verus!
