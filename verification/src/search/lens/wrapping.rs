//! Wrapped rows show their lines whole: rows are full but for a line's last, and
//! only the line that runs out of the viewport is cut.
use vstd::prelude::*;

use crate::search::lens::brackets::BracketPairMatch;
use crate::search::lens::rows::{line_span, window, LineFacts, RowModel};
use crate::search::lens::LensModel;
use crate::text::lossy_text;

verus! {

/// What the rows of one line show together.
pub open spec fn line_text(rows: Seq<RowModel>, number: u64) -> Seq<char>
    decreases rows.len(),
{
    if rows.len() == 0 {
        Seq::empty()
    } else {
        line_text(rows.drop_last(), number) + (if rows.last().line_number == number {
            rows.last().text
        } else {
            Seq::empty()
        })
    }
}

/// The text of a line without its terminator.
pub open spec fn line_content(bytes: Seq<u8>, starts: Seq<usize>, number: u64) -> Seq<char> {
    let span = line_span(bytes, starts, number - 1)->Ok_0;
    lossy_text(bytes.subrange(span.0, span.1))
}

/// Whether one row goes on with the line of the row before it.
pub open spec fn goes_on(rows: Seq<RowModel>, i: int) -> bool {
    0 < i < rows.len() && rows[i - 1].line_number == rows[i].line_number
}

/// Rows come in the order of the lines, a row goes on with a line exactly if it is
/// not the line's first, and a row that another goes on from has the full width.
pub open spec fn laid_out(rows: Seq<RowModel>, width: int) -> bool {
    &&& forall|i: int, j: int|
        0 <= i < j < rows.len() ==> (#[trigger] rows[i]).line_number <= (
        #[trigger] rows[j]).line_number
    &&& forall|i: int|
        0 <= i < rows.len() ==> (#[trigger] rows[i]).is_wrapped_continuation == goes_on(rows, i)
    &&& forall|i: int| #[trigger] goes_on(rows, i) ==> rows[i - 1].text.len() == width
}

/// The rows of a line show a beginning of it, and all of it if a later line is
/// shown too.
pub open spec fn told(rows: Seq<RowModel>, bytes: Seq<u8>, starts: Seq<usize>) -> bool {
    &&& forall|i: int|
        0 <= i < rows.len() ==> line_text(rows, (#[trigger] rows[i]).line_number).is_prefix_of(
            line_content(bytes, starts, rows[i].line_number),
        )
    &&& forall|i: int, j: int|
        0 <= i < j < rows.len() && (#[trigger] rows[i]).line_number < (
        #[trigger] rows[j]).line_number ==> line_text(rows, rows[i].line_number) == line_content(
            bytes,
            starts,
            rows[i].line_number,
        )
}

proof fn lemma_joined(a: Seq<RowModel>, b: Seq<RowModel>, number: u64)
    ensures
        line_text(a + b, number) == line_text(a, number) + line_text(b, number),
    decreases b.len(),
{
    if b.len() == 0 {
        assert(a + b =~= a);
        assert(line_text(a, number) + line_text(b, number) =~= line_text(a, number));
    } else {
        assert((a + b).drop_last() =~= a + b.drop_last());
        assert((a + b).last() == b.last());
        lemma_joined(a, b.drop_last(), number);
        let last = if b.last().line_number == number {
            b.last().text
        } else {
            Seq::empty()
        };
        assert(line_text(a, number) + line_text(b.drop_last(), number) + last =~= line_text(
            a,
            number,
        ) + (line_text(b.drop_last(), number) + last));
    }
}

proof fn lemma_elsewhere(rows: Seq<RowModel>, number: u64)
    requires
        forall|i: int| 0 <= i < rows.len() ==> (#[trigger] rows[i]).line_number != number,
    ensures
        line_text(rows, number) == Seq::<char>::empty(),
    decreases rows.len(),
{
    if rows.len() > 0 {
        assert(rows[rows.len() - 1].line_number != number);
        assert forall|i: int| 0 <= i < rows.drop_last().len() implies (
        #[trigger] rows.drop_last()[i]).line_number != number by {
            assert(rows.drop_last()[i] == rows[i]);
        }
        lemma_elsewhere(rows.drop_last(), number);
    }
}

proof fn lemma_single(row: RowModel)
    ensures
        line_text(seq![row], row.line_number) == row.text,
{
    reveal_with_fuel(line_text, 2);
    assert(seq![row].drop_last() =~= Seq::<RowModel>::empty());
    assert(Seq::<char>::empty() + row.text =~= row.text);
}

/// The wrapped rows from a character on.
proof fn lemma_wrapped(
    lens: LensModel,
    facts: LineFacts<Seq<(u32, u32)>>,
    text: Seq<char>,
    from: int,
    budget: int,
)
    requires
        0 <= from < text.len(),
        budget > 0,
    ensures
        ({
            let rows = lens.wrapped_from(facts, text, from, budget);
            let rest = text.subrange(from, text.len() as int);
            &&& 0 < rows.len() <= budget
            &&& forall|i: int|
                0 <= i < rows.len() ==> (#[trigger] rows[i]).line_number == facts.number
                    && rows[i].is_wrapped_continuation == (from > 0 || i > 0)
            &&& forall|i: int|
                0 <= i < rows.len() - 1 ==> (#[trigger] rows[i]).text.len() == lens.wrap_columns()
            &&& line_text(rows, facts.number).is_prefix_of(rest)
            &&& rows.len() < budget ==> line_text(rows, facts.number) == rest
        }),
    decreases budget,
{
    let width = lens.wrap_columns();
    let rows = lens.wrapped_from(facts, text, from, budget);
    let all = text.subrange(from, text.len() as int);
    let row = lens.wrapped_row(facts, text, from);
    let rest = lens.wrapped_from(facts, text, from + width, budget - 1);
    assert(row.text == window(text, from, from + width));
    assert(rows =~= seq![row] + rest);
    lemma_joined(seq![row], rest, facts.number);
    lemma_single(row);
    if from + width < text.len() && budget > 1 {
        lemma_wrapped(lens, facts, text, from + width, budget - 1);
        let after = text.subrange(from + width, text.len() as int);
        let told = line_text(rest, facts.number);
        assert(all =~= row.text + after);
        assert(told =~= after.subrange(0, told.len() as int));
        assert(row.text + told =~= all.subrange(0, (row.text + told).len() as int));
        assert forall|i: int| 0 <= i < rows.len() implies (#[trigger] rows[i]).line_number
            == facts.number && rows[i].is_wrapped_continuation == (from > 0 || i > 0) by {
            if i > 0 {
                assert(rows[i] == rest[i - 1]);
            }
        }
        assert forall|i: int| 0 <= i < rows.len() - 1 implies (#[trigger] rows[i]).text.len()
            == width by {
            if i > 0 {
                assert(rows[i] == rest[i - 1]);
            }
        }
    } else {
        assert(rest =~= Seq::<RowModel>::empty());
        assert(row.text + Seq::<char>::empty() =~= row.text);
        assert(row.text =~= all.subrange(0, row.text.len() as int));
        if from + width >= text.len() {
            assert(row.text =~= all);
        }
    }
}

/// A line that is wrapped takes rows of full width but for the last, the first of
/// which alone starts the line. Together they show a beginning of the line, and
/// all of it if they are fewer than there is room for.
pub proof fn wrapped_lines_are_shown_in_full_rows(
    lens: LensModel,
    facts: LineFacts<Seq<(u32, u32)>>,
    text: Seq<char>,
    budget: int,
)
    requires
        !(lens.wrap_mode is NoWrap),
        budget > 0,
    ensures
        ({
            let rows = lens.line_rows(facts, text, budget);
            &&& 0 < rows.len() <= budget
            &&& forall|i: int|
                0 <= i < rows.len() ==> (#[trigger] rows[i]).line_number == facts.number
                    && rows[i].is_wrapped_continuation == (i > 0)
            &&& forall|i: int|
                0 <= i < rows.len() - 1 ==> (#[trigger] rows[i]).text.len() == lens.wrap_columns()
            &&& line_text(rows, facts.number).is_prefix_of(text)
            &&& rows.len() < budget ==> line_text(rows, facts.number) == text
        }),
{
    if text.len() == 0 {
        lemma_single(lens.empty_row(facts));
        assert(text =~= Seq::<char>::empty());
        assert(text.subrange(0, 0) =~= text);
    } else {
        lemma_wrapped(lens, facts, text, 0, budget);
        assert(text.subrange(0, text.len() as int) =~= text);
    }
}

/// The rows from the `k`th line on are laid out and tell their lines.
proof fn lemma_rows(
    lens: LensModel,
    bytes: Seq<u8>,
    starts: Seq<usize>,
    total_lines: u64,
    huge_line_bytes: u64,
    pair: Option<BracketPairMatch>,
    k: int,
    budget: int,
)
    requires
        !(lens.wrap_mode is NoWrap),
        budget >= 0,
    ensures
        lens.rows_from(bytes, starts, total_lines, huge_line_bytes, pair, k, budget) matches Ok(
            rows,
        ) ==> {
            &&& rows.len() <= budget
            &&& forall|i: int| 0 <= i < rows.len() ==> (#[trigger] rows[i]).line_number > k
            &&& laid_out(rows, lens.wrap_columns())
            &&& told(rows, bytes, starts)
        },
    decreases starts.len() - k,
{
    let all = lens.rows_from(bytes, starts, total_lines, huge_line_bytes, pair, k, budget);
    if all is Ok && 0 < budget && 0 <= k < starts.len() && k < total_lines {
        let span = line_span(bytes, starts, k)->Ok_0;
        let facts = lens.facts(total_lines, huge_line_bytes, pair, k, span);
        let text = lossy_text(bytes.subrange(span.0, span.1));
        let head = lens.line_rows(facts, text, budget);
        wrapped_lines_are_shown_in_full_rows(lens, facts, text, budget);
        let left = budget - head.len();
        lemma_rows(lens, bytes, starts, total_lines, huge_line_bytes, pair, k + 1, left);
        let rest = lens.rows_from(
            bytes,
            starts,
            total_lines,
            huge_line_bytes,
            pair,
            k + 1,
            left,
        )->Ok_0;
        let rows = head + rest;
        let n = head.len() as int;
        let number = (k + 1) as u64;
        assert(all->Ok_0 == rows);
        assert(facts.number == number);
        assert(line_content(bytes, starts, number) == text);
        assert forall|i: int| 0 <= i < n implies #[trigger] rows[i] == head[i] by {}
        assert forall|i: int| n <= i < rows.len() implies #[trigger] rows[i] == rest[i - n] by {}
        assert forall|i: int| 0 <= i < rows.len() implies (#[trigger] rows[i]).line_number > k by {}
        assert forall|i: int, j: int| 0 <= i < j < rows.len() implies (
        #[trigger] rows[i]).line_number <= (#[trigger] rows[j]).line_number by {}
        assert forall|i: int| 0 <= i < rows.len() implies goes_on(rows, i) == (if i < n {
            i > 0
        } else {
            goes_on(rest, i - n)
        }) by {
            if i > 0 {
                assert(rows[i - 1].line_number <= rows[i].line_number);
                if i == n {
                    assert(rows[n - 1] == head[n - 1]);
                    assert(rest[0].line_number > k + 1);
                }
            }
        }
        assert forall|i: int| 0 <= i < rows.len() implies (
        #[trigger] rows[i]).is_wrapped_continuation == goes_on(rows, i) by {
            if i >= n {
                assert(rest[i - n].is_wrapped_continuation == goes_on(rest, i - n));
            }
        }
        assert forall|i: int| #[trigger] goes_on(rows, i) implies rows[i - 1].text.len()
            == lens.wrap_columns() by {
            if i < n {
                assert(head[i - 1].text.len() == lens.wrap_columns());
            } else {
                assert(goes_on(rest, i - n));
                assert(rest[i - n - 1].text.len() == lens.wrap_columns());
            }
        }
        assert forall|i: int| 0 <= i < rows.len() implies line_text(
            rows,
            (#[trigger] rows[i]).line_number,
        ) == (if i < n {
            line_text(head, number)
        } else {
            line_text(rest, rows[i].line_number)
        }) by {
            let shown = rows[i].line_number;
            lemma_joined(head, rest, shown);
            if i < n {
                lemma_elsewhere(rest, shown);
                assert(line_text(head, shown) + Seq::<char>::empty() =~= line_text(head, shown));
            } else {
                assert(rows[i] == rest[i - n]);
                lemma_elsewhere(head, shown);
                assert(Seq::<char>::empty() + line_text(rest, shown) =~= line_text(rest, shown));
            }
        }
        assert(told(rows, bytes, starts)) by {
            assert forall|i: int, j: int|
                0 <= i < j < rows.len() && (#[trigger] rows[i]).line_number < (
                #[trigger] rows[j]).line_number implies line_text(rows, rows[i].line_number)
                == line_content(bytes, starts, rows[i].line_number) by {
                if i >= n {
                    assert(rest[i - n].line_number < rest[j - n].line_number);
                } else {
                    assert(j >= n);
                    assert(rest.len() > 0);
                    assert(left > 0);
                }
            }
            assert forall|i: int| 0 <= i < rows.len() implies line_text(
                rows,
                (#[trigger] rows[i]).line_number,
            ).is_prefix_of(line_content(bytes, starts, rows[i].line_number)) by {
                if i >= n {
                    assert(line_text(rest, rest[i - n].line_number).is_prefix_of(
                        line_content(bytes, starts, rest[i - n].line_number),
                    ));
                }
            }
        }
    }
}

/// The visible rows of a lens that wraps its lines are no more than the viewport
/// holds. The rows of a line stand together, the first of them alone starts the
/// line, and all but the last have the full width. Joined they give a beginning of
/// the line without its terminator, and all of the line if a later line is visible.
pub proof fn wrapped_rows_show_whole_lines(
    lens: LensModel,
    bytes: Seq<u8>,
    starts: Seq<usize>,
    total_lines: u64,
    huge_line_bytes: u64,
    pair: Option<BracketPairMatch>,
)
    requires
        !(lens.wrap_mode is NoWrap),
    ensures
        lens.visible_rows(bytes, starts, total_lines, huge_line_bytes, pair) matches Ok(rows) ==> {
            &&& rows.len() <= lens.viewport.lines()
            &&& laid_out(rows, lens.wrap_columns())
            &&& told(rows, bytes, starts)
        },
{
    lemma_rows(
        lens,
        bytes,
        starts,
        total_lines,
        huge_line_bytes,
        pair,
        lens.scroll_y_line - 1,
        lens.viewport.lines() as int,
    );
}

} // verus!
