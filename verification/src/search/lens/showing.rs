//! What the rows of a lens show, told by the bytes alone.
use vstd::prelude::*;

use super::brackets::BracketPairMatch;
use super::find::FindMatch;
use super::guides::{guides, markers};
use super::rows::{columns_from, line_span, RowModel};
use super::wrapping::goes_on;
use super::{digits, LensModel, WrapMode};
use crate::model::{lemma_filter_end, lemma_filter_from};
use crate::text::{decimal, digit, lossy_text, right_aligned, spaces};

verus! {

/// The bytes of a line, its terminator among them.
pub open spec fn whole_line(bytes: Seq<u8>, starts: Seq<usize>, k: int) -> Seq<u8> {
    bytes.subrange(
        starts[k] as int,
        if k + 1 < starts.len() {
            starts[k + 1] as int
        } else {
            bytes.len() as int
        },
    )
}

/// A line is a content and a terminator: a carriage return and a line feed, one of
/// the two, or nothing. The content does not end like a terminator, unless it ends
/// with what could not belong to the same one.
pub open spec fn splits_into(line: Seq<u8>, content: Seq<u8>, terminator: Seq<u8>) -> bool {
    &&& line == content + terminator
    &&& terminator == seq![0x0du8, 0x0au8] || terminator == seq![0x0au8] || terminator == seq![
        0x0du8,
    ] || terminator.len() == 0
    &&& terminator.len() == 0 ==> content.len() == 0 || content.last() != 0x0a && content.last()
        != 0x0d
    &&& terminator == seq![0x0au8] ==> content.len() == 0 || content.last() != 0x0d
}

/// The text that a row of a line without wrapping shows, scrolled by some columns.
pub open spec fn scrolled(text: Seq<char>, columns: int) -> Seq<char> {
    if columns <= text.len() {
        text.skip(columns)
    } else {
        Seq::empty()
    }
}

/// The spans of the matches on a line, by column.
pub open spec fn spans_on(matches: Seq<FindMatch>, line: u64) -> Seq<(u32, u32)> {
    matches.filter(|m: FindMatch| m.line_number == line).map_values(
        |m: FindMatch| (m.column, m.column.wrapping_add(m.length as u32)),
    )
}

/// A row shows a line without wrapping: its number, all of its bytes by position,
/// its text from the scrolled column on, the matches on it, the guides and markers of its
/// text, and the bracket pair if an end of it is on the line.
pub open spec fn shows_line(
    lens: LensModel,
    bytes: Seq<u8>,
    starts: Seq<usize>,
    huge_line_bytes: u64,
    pair: Option<BracketPairMatch>,
    row: RowModel,
    k: int,
    content: Seq<u8>,
) -> bool {
    let text = scrolled(lossy_text(content), lens.scroll_x_cols as int);
    let huge = content.len() > 65_536 || content.len() > huge_line_bytes;
    let width = lens.viewport.width_px / lens.viewport.char_width_px;
    let end = starts[k] + whole_line(bytes, starts, k).len();
    &&& row.line_number == k + 1
    &&& row.raw_byte_range.start == starts[k]
    &&& row.raw_byte_range.end == starts[k] + whole_line(bytes, starts, k).len()
    &&& !row.is_wrapped_continuation
    &&& !huge ==> row.text == text && row.mode_label is Exact
    &&& huge ==> row.text.is_prefix_of(text) && row.mode_label is WindowVirtualized
    &&& huge && lens.scroll_x_cols + width + 32 <= u32::MAX ==> row.text.len() == (if text.len()
        <= width + 32 {
        text.len() as int
    } else {
        width + 32
    })
    &&& row.find_match_ranges == (match lens.find_session {
        Some(session) => spans_on(session.matches, (k + 1) as u64),
        None => Seq::empty(),
    })
    &&& if lens.gutter_config.show_line_numbers {
        number_read(row.formatted_line_number) == k + 1
    } else {
        row.formatted_line_number.len() == 0
    }
    &&& row.indent_guides == (if lens.guide_options.show_indent_guides {
        guides(lossy_text(content), lens.guide_options.tab_width)
    } else {
        Seq::empty()
    })
    &&& row.whitespace_markers == (if lens.guide_options.show_whitespace {
        markers(lossy_text(content), lens.guide_options.tab_width)
    } else {
        Seq::empty()
    })
    &&& row.bracket_highlight == (match pair {
        Some(p) => if starts[k] <= p.open_offset < end || starts[k] <= p.close_offset < end {
            pair
        } else {
            None
        },
        None => None,
    })
}

/// The number that digits tell, behind any spaces.
pub open spec fn number_read(text: Seq<char>) -> int
    decreases text.len(),
{
    if text.len() == 0 || text.last() == ' ' {
        0
    } else {
        number_read(text.drop_last()) * 10 + (text.last() as int - 48)
    }
}

proof fn lemma_decimal(n: nat)
    ensures
        number_read(decimal(n)) == n,
    decreases n,
{
    let text = decimal(n);
    assert(digit(n % 10) as int == 48 + n % 10);
    if n < 10 {
        assert(text.drop_last() =~= Seq::empty());
        assert(number_read(Seq::empty()) == 0);
        assert(text.last() == digit(n % 10));
    } else {
        lemma_decimal(n / 10);
        assert(text.drop_last() =~= decimal(n / 10));
        assert(text.last() == digit(n % 10));
    }
}

proof fn lemma_padded(n: nat, text: Seq<char>)
    requires
        forall|i: int| 0 <= i < text.len() ==> #[trigger] text[i] != ' ',
    ensures
        number_read(spaces(n) + text) == number_read(text),
    decreases text.len(),
{
    let all = spaces(n) + text;
    if text.len() > 0 {
        assert(all.drop_last() =~= spaces(n) + text.drop_last());
        assert(all.last() == text.last());
        assert(text.last() != ' ');
        assert forall|i: int| 0 <= i < text.drop_last().len() implies #[trigger] text.drop_last()[i]
            != ' ' by {
            assert(text[i] != ' ');
        }
        lemma_padded(n, text.drop_last());
    } else if all.len() > 0 {
        assert(all.last() == ' ');
    }
}

proof fn lemma_digits_only(n: nat)
    ensures
        forall|i: int| 0 <= i < decimal(n).len() ==> #[trigger] decimal(n)[i] != ' ',
    decreases n,
{
    if n >= 10 {
        lemma_digits_only(n / 10);
        assert forall|i: int| 0 <= i < decimal(n).len() implies #[trigger] decimal(n)[i] != ' ' by {
            if i < decimal(n / 10).len() {
                assert(decimal(n)[i] == decimal(n / 10)[i]);
            } else {
                assert(decimal(n)[i] == digit(n % 10));
            }
        }
    }
}

proof fn lemma_number(n: nat, width: nat)
    ensures
        number_read(right_aligned(decimal(n), width)) == n,
{
    lemma_decimal(n);
    lemma_digits_only(n);
    if decimal(n).len() < width {
        lemma_padded((width - decimal(n).len()) as nat, decimal(n));
    }
}

/// Without wrapping, each visible line has one row, from the line scrolled to on, as
/// many as fit, and the row shows the line's text from the column scrolled to on: all
/// of it, unless the line is huge.
pub proof fn unwrapped_rows_show_their_lines(
    lens: LensModel,
    bytes: Seq<u8>,
    starts: Seq<usize>,
    total_lines: u64,
    huge_line_bytes: u64,
    pair: Option<BracketPairMatch>,
    r: int,
    content: Seq<u8>,
    terminator: Seq<u8>,
)
    requires
        lens.wf(),
        lens.wrap_mode is NoWrap,
        1 <= lens.scroll_y_line,
        starts.len() < u64::MAX,
        bytes.len() <= usize::MAX,
        lens.visible_rows(bytes, starts, total_lines, huge_line_bytes, pair) is Ok,
        0 <= r,
        lens.scroll_y_line - 1 + r < starts.len(),
        lens.scroll_y_line - 1 + r < total_lines,
        r < lens.viewport.height_px / lens.viewport.line_height_px,
        splits_into(
            whole_line(bytes, starts, lens.scroll_y_line - 1 + r),
            content,
            terminator,
        ),
    ensures
        ({
            let rows = lens.visible_rows(bytes, starts, total_lines, huge_line_bytes, pair)->Ok_0;
            &&& r < rows.len()
            &&& shows_line(
                lens,
                bytes,
                starts,
                huge_line_bytes,
                pair,
                rows[r],
                lens.scroll_y_line - 1 + r,
                content,
            )
        }),
{
    lemma_rows(
        lens,
        bytes,
        starts,
        total_lines,
        huge_line_bytes,
        pair,
        lens.scroll_y_line - 1,
        lens.viewport.lines() as int,
        r,
        content,
        terminator,
    );
}

/// The same line splits in one way, and there its content ends.
proof fn lemma_split(
    bytes: Seq<u8>,
    starts: Seq<usize>,
    k: int,
    content: Seq<u8>,
    terminator: Seq<u8>,
)
    requires
        0 <= k < starts.len(),
        line_span(bytes, starts, k) is Ok,
        splits_into(whole_line(bytes, starts, k), content, terminator),
    ensures
        ({
            let span = line_span(bytes, starts, k)->Ok_0;
            &&& span.0 == starts[k]
            &&& span.2 == starts[k] + whole_line(bytes, starts, k).len()
            &&& bytes.subrange(span.0, span.1) == content
            &&& span.1 - span.0 == content.len()
        }),
{
    let line = whole_line(bytes, starts, k);
    let span = line_span(bytes, starts, k)->Ok_0;
    let n = line.len() as int;
    assert(line =~= bytes.subrange(span.0, span.2));
    assert(n == content.len() + terminator.len());
    if n > 0 {
        assert(line[n - 1] == bytes[span.2 - 1]);
        if terminator.len() > 0 {
            assert(line[n - 1] == terminator.last());
        } else {
            assert(line[n - 1] == content.last());
        }
    }
    if n > 1 {
        assert(line[n - 2] == bytes[span.2 - 2]);
        if terminator.len() == 2 {
            assert(line[n - 2] == terminator[0]);
        } else if terminator.len() == 1 {
            assert(line[n - 2] == content.last());
        }
    }
    assert(span.1 - span.0 == content.len());
    assert(bytes.subrange(span.0, span.1) =~= content) by {
        assert forall|i: int| 0 <= i < content.len() implies bytes[span.0 + i] == content[i] by {
            assert(line[i] == content[i]);
        }
    }
}

proof fn lemma_spans(matches: Seq<FindMatch>, line: u64, i: int)
    requires
        0 <= i <= matches.len(),
    ensures
        columns_from(matches, line, i) == matches.skip(i).filter(
            |m: FindMatch| m.line_number == line,
        ).map_values(|m: FindMatch| (m.column, m.column.wrapping_add(m.length as u32))),
    decreases matches.len() - i,
{
    let keep = |m: FindMatch| m.line_number == line;
    let span = |m: FindMatch| (m.column, m.column.wrapping_add(m.length as u32));
    if i < matches.len() {
        lemma_spans(matches, line, i + 1);
        lemma_filter_from(matches, keep, i);
        let rest = matches.skip(i + 1).filter(keep);
        assert((seq![matches[i]] + rest).map_values(span) =~= seq![span(matches[i])]
            + rest.map_values(span));
    } else {
        lemma_filter_end(matches, keep);
        assert(Seq::<FindMatch>::empty().map_values(span) =~= Seq::empty());
    }
}

proof fn lemma_rows(
    lens: LensModel,
    bytes: Seq<u8>,
    starts: Seq<usize>,
    total_lines: u64,
    huge_line_bytes: u64,
    pair: Option<BracketPairMatch>,
    k: int,
    budget: int,
    r: int,
    content: Seq<u8>,
    terminator: Seq<u8>,
)
    requires
        lens.wrap_mode is NoWrap,
        0 <= k,
        starts.len() < u64::MAX,
        bytes.len() <= usize::MAX,
        lens.rows_from(bytes, starts, total_lines, huge_line_bytes, pair, k, budget) is Ok,
        0 <= r < budget,
        k + r < starts.len(),
        k + r < total_lines,
        splits_into(whole_line(bytes, starts, k + r), content, terminator),
    ensures
        ({
            let rows = lens.rows_from(
                bytes,
                starts,
                total_lines,
                huge_line_bytes,
                pair,
                k,
                budget,
            )->Ok_0;
            &&& r < rows.len()
            &&& shows_line(lens, bytes, starts, huge_line_bytes, pair, rows[r], k + r, content)
        }),
    decreases r,
{
    let rows = lens.rows_from(bytes, starts, total_lines, huge_line_bytes, pair, k, budget)->Ok_0;
    let span = line_span(bytes, starts, k)->Ok_0;
    let facts = lens.facts(total_lines, huge_line_bytes, pair, k, span);
    let text = lossy_text(bytes.subrange(span.0, span.1));
    let first = lens.line_rows(facts, text, budget);
    assert(first =~= seq![lens.plain_row(facts, text)]);
    assert(lens.rows_from(
        bytes,
        starts,
        total_lines,
        huge_line_bytes,
        pair,
        k + 1,
        budget - 1,
    ) is Ok);
    if r == 0 {
        lemma_split(bytes, starts, k, content, terminator);
        lemma_number((k + 1) as nat, digits(total_lines as nat));
        if let Some(session) = lens.find_session {
            lemma_spans(session.matches, (k + 1) as u64, 0);
            assert(session.matches.skip(0) =~= session.matches);
        }
        let row = lens.plain_row(facts, text);
        let c = lens.scroll_x_cols as int;
        assert(rows[0] == row);
        let shown = scrolled(text, c);
        if facts.huge {
            assert(row.text.is_prefix_of(shown));
        } else {
            assert(row.text =~= shown);
        }
    } else {
        lemma_rows(
            lens,
            bytes,
            starts,
            total_lines,
            huge_line_bytes,
            pair,
            k + 1,
            budget - 1,
            r - 1,
            content,
            terminator,
        );
        let rest = lens.rows_from(
            bytes,
            starts,
            total_lines,
            huge_line_bytes,
            pair,
            k + 1,
            budget - 1,
        )->Ok_0;
        assert(rows[r] == rest[r - 1]);
    }
}

/// Rows run from line to line: the first is of this line, and each next one is of the same
/// line or of the next.
pub open spec fn runs_from(rows: Seq<RowModel>, number: int) -> bool {
    &&& rows.len() > 0 ==> rows[0].line_number == number
    &&& forall|i: int| 0 < i < rows.len() ==> follows(rows, i)
}

/// A row is of the line of the row before it, or of the next.
pub open spec fn follows(rows: Seq<RowModel>, i: int) -> bool {
    rows[i].line_number == rows[i - 1].line_number || rows[i].line_number == rows[i - 1].line_number
        + 1
}

proof fn lemma_runs(
    lens: LensModel,
    bytes: Seq<u8>,
    starts: Seq<usize>,
    total_lines: u64,
    huge_line_bytes: u64,
    pair: Option<BracketPairMatch>,
    k: int,
    budget: int,
)
    requires
        !(lens.wrap_mode is NoWrap),
        0 <= k,
    ensures
        lens.rows_from(bytes, starts, total_lines, huge_line_bytes, pair, k, budget) matches Ok(
            rows,
        ) ==> {
            &&& runs_from(rows, k + 1)
            &&& rows.len() < budget && k < starts.len() && k < total_lines ==> rows.len() > 0
                && rows.last().line_number == if starts.len() < total_lines {
                starts.len() as int
            } else {
                total_lines as int
            }
        },
    decreases starts.len() - k,
{
    let all = lens.rows_from(bytes, starts, total_lines, huge_line_bytes, pair, k, budget);
    if all is Ok && 0 < budget && k < starts.len() && k < total_lines {
        let span = line_span(bytes, starts, k)->Ok_0;
        let facts = lens.facts(total_lines, huge_line_bytes, pair, k, span);
        let text = lossy_text(bytes.subrange(span.0, span.1));
        let head = lens.line_rows(facts, text, budget);
        super::wrapping::wrapped_lines_are_shown_in_full_rows(lens, facts, text, budget);
        let left = budget - head.len();
        lemma_runs(lens, bytes, starts, total_lines, huge_line_bytes, pair, k + 1, left);
        let rest = lens.rows_from(
            bytes,
            starts,
            total_lines,
            huge_line_bytes,
            pair,
            k + 1,
            left,
        )->Ok_0;
        let rows = all->Ok_0;
        let n = head.len() as int;
        assert(rows == head + rest);
        assert(rows[0] == head[0]);
        assert forall|i: int| 0 < i < rows.len() implies follows(rows, i) by {
            if i < n {
                assert(rows[i] == head[i] && rows[i - 1] == head[i - 1]);
            } else if i == n {
                assert(rows[i] == rest[0] && rows[i - 1] == head[n - 1]);
            } else {
                assert(rows[i] == rest[i - n] && rows[i - 1] == rest[i - 1 - n]);
                assert(follows(rest, i - n));
            }
        }
        if rest.len() > 0 {
            assert(rows.last() == rest.last());
        } else {
            assert(rows.last() == head[n - 1]);
        }
    }
}

/// With wrapping, rows start at the line scrolled to and go through the lines without
/// leaving one out, to the last line or to the end of the viewport. A row of which the
/// next one goes on with the same line is as wide as was asked for, or as the viewport.
pub proof fn wrapped_rows_go_through_the_lines(
    lens: LensModel,
    bytes: Seq<u8>,
    starts: Seq<usize>,
    total_lines: u64,
    huge_line_bytes: u64,
    pair: Option<BracketPairMatch>,
)
    requires
        lens.wf(),
        !(lens.wrap_mode is NoWrap),
        1 <= lens.scroll_y_line,
    ensures
        lens.visible_rows(bytes, starts, total_lines, huge_line_bytes, pair) matches Ok(rows) ==> {
            let width = match lens.wrap_mode {
                WrapMode::ColumnLimit(limit) => limit as int,
                _ => (lens.viewport.width_px / lens.viewport.char_width_px) as int,
            };
            let height = lens.viewport.height_px / lens.viewport.line_height_px;
            &&& rows.len() <= height
            &&& runs_from(rows, lens.scroll_y_line as int)
            &&& rows.len() < height && lens.scroll_y_line <= starts.len() && lens.scroll_y_line
                <= total_lines ==> rows.len() > 0 && rows.last().line_number == if starts.len()
                < total_lines {
                starts.len() as int
            } else {
                total_lines as int
            }
            &&& forall|i: int| #[trigger]
                goes_on(rows, i) ==> rows[i - 1].text.len() == if width < 1 {
                    1
                } else {
                    width
                }
        },
{
    super::wrapping::wrapped_rows_show_whole_lines(
        lens,
        bytes,
        starts,
        total_lines,
        huge_line_bytes,
        pair,
    );
    lemma_runs(
        lens,
        bytes,
        starts,
        total_lines,
        huge_line_bytes,
        pair,
        lens.scroll_y_line - 1,
        lens.viewport.lines() as int,
    );
}

} // verus!
