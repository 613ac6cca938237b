//! Whitespace markers and indentation guides.
//!
//! Columns are counted in 32 bits and wrap around.
pub mod columns;

use vstd::prelude::*;

use crate::text::text_chars;

verus! {

/// Visual representation of whitespace tokens.
#[derive(Clone, Copy, Debug, PartialEq, Eq, Structural)]
pub enum WhitespaceKind {
    Space,
    Tab,
    LineFeed,
    CarriageReturn,
    CrLf,
}

impl WhitespaceKind {
    pub open spec fn shown(self) -> Seq<char> {
        match self {
            WhitespaceKind::Space => "\u{b7}"@,
            WhitespaceKind::Tab => "\u{2192}"@,
            WhitespaceKind::LineFeed => "\u{240a}"@,
            WhitespaceKind::CarriageReturn => "\u{240d}"@,
            WhitespaceKind::CrLf => "\u{240d}\u{240a}"@,
        }
    }

    pub fn symbol(self) -> (r: &'static str)
        ensures
            r@ == self.shown(),
    {
        match self {
            WhitespaceKind::Space => "\u{b7}",
            WhitespaceKind::Tab => "\u{2192}",
            WhitespaceKind::LineFeed => "\u{240a}",
            WhitespaceKind::CarriageReturn => "\u{240d}",
            WhitespaceKind::CrLf => "\u{240d}\u{240a}",
        }
    }
}

/// A whitespace guide marker at an exact visual column.
#[derive(Clone, Copy, Debug, PartialEq, Eq, Structural)]
pub struct WhitespaceMarker {
    pub column: u32,
    pub kind: WhitespaceKind,
}

/// An indentation guide indicator at a column level.
#[derive(Clone, Copy, Debug, PartialEq, Eq, Structural)]
pub struct IndentGuide {
    pub column: u32,
    pub level: u32,
}

/// Columns from one tab stop to the next.
pub open spec fn tab_step(tab_width: u32) -> u32 {
    if tab_width == 0 {
        4
    } else {
        tab_width
    }
}

/// Columns from `column` to the next tab stop.
pub open spec fn to_tab_stop(column: u32, step: u32) -> u32 {
    (step - column % step) as u32
}

/// The whitespace token at `i`: its kind, the characters it has and the columns
/// it takes. Other characters have no kind.
pub open spec fn token_at(text: Seq<char>, i: int, column: u32, step: u32) -> (
    Option<WhitespaceKind>,
    int,
    u32,
) {
    if text[i] == ' ' {
        (Some(WhitespaceKind::Space), 1, 1)
    } else if text[i] == '\t' {
        (Some(WhitespaceKind::Tab), 1, to_tab_stop(column, step))
    } else if text[i] == '\r' && i + 1 < text.len() && text[i + 1] == '\n' {
        (Some(WhitespaceKind::CrLf), 2, 2)
    } else if text[i] == '\r' {
        (Some(WhitespaceKind::CarriageReturn), 1, 1)
    } else if text[i] == '\n' {
        (Some(WhitespaceKind::LineFeed), 1, 1)
    } else {
        (None, 1, 1)
    }
}

/// The whitespace markers of a text from `i` on.
pub open spec fn markers_from(text: Seq<char>, i: int, column: u32, step: u32) -> Seq<
    WhitespaceMarker,
>
    decreases text.len() - i,
{
    if i < 0 || i >= text.len() {
        Seq::empty()
    } else {
        let (kind, chars, columns) = token_at(text, i, column, step);
        let rest = markers_from(text, i + chars, column.wrapping_add(columns), step);
        match kind {
            Some(kind) => seq![WhitespaceMarker { column, kind }] + rest,
            None => rest,
        }
    }
}

/// The whitespace markers of a text.
pub open spec fn markers(text: Seq<char>, tab_width: u32) -> Seq<WhitespaceMarker> {
    markers_from(text, 0, 0, tab_step(tab_width))
}

/// The indentation guides of a text's leading whitespace from `i` on.
pub open spec fn guides_from(text: Seq<char>, i: int, column: u32, step: u32) -> Seq<IndentGuide>
    decreases text.len() - i,
{
    if i < 0 || i >= text.len() {
        Seq::empty()
    } else if text[i] == ' ' {
        let next = column.wrapping_add(1);
        let rest = guides_from(text, i + 1, next, step);
        if next % step == 0 {
            seq![
                IndentGuide {
                    column: next.wrapping_sub(step),
                    level: ((next / step) as u32).wrapping_sub(1),
                },
            ] + rest
        } else {
            rest
        }
    } else if text[i] == '\t' {
        seq![IndentGuide { column, level: (column / step) as u32 }] + guides_from(
            text,
            i + 1,
            column.wrapping_add(to_tab_stop(column, step)),
            step,
        )
    } else {
        Seq::empty()
    }
}

/// The indentation guides of a text.
pub open spec fn guides(text: Seq<char>, tab_width: u32) -> Seq<IndentGuide> {
    guides_from(text, 0, 0, tab_step(tab_width))
}

/// Computes whitespace markers for a text.
pub fn compute_whitespace_markers(text: &str, tab_width: u32) -> (r: Vec<WhitespaceMarker>)
    ensures
        r@ == markers(text@, tab_width),
{
    let chars = text_chars(text);
    let step: u32 = if tab_width == 0 {
        4
    } else {
        tab_width
    };
    let mut out: Vec<WhitespaceMarker> = Vec::new();
    let mut column: u32 = 0;
    let mut i: usize = 0;
    assert(out@ + markers_from(text@, 0, 0, step) =~= markers_from(text@, 0, 0, step));
    while i < chars.len()
        invariant
            i <= chars.len(),
            chars@ == text@,
            step == tab_step(tab_width),
            out@ + markers_from(text@, i as int, column, step) == markers(text@, tab_width),
        decreases chars.len() - i,
    {
        let ghost before = out@;
        let ghost (kind, count, columns) = token_at(text@, i as int, column, step);
        let c = chars[i];
        if c == ' ' {
            out.push(WhitespaceMarker { column, kind: WhitespaceKind::Space });
            column = column.wrapping_add(1);
            i = i + 1;
        } else if c == '\t' {
            out.push(WhitespaceMarker { column, kind: WhitespaceKind::Tab });
            column = column.wrapping_add(step - column % step);
            i = i + 1;
        } else if c == '\r' {
            if chars.len() - i > 1 && chars[i + 1] == '\n' {
                out.push(WhitespaceMarker { column, kind: WhitespaceKind::CrLf });
                column = column.wrapping_add(2);
                i = i + 2;
            } else {
                out.push(WhitespaceMarker { column, kind: WhitespaceKind::CarriageReturn });
                column = column.wrapping_add(1);
                i = i + 1;
            }
        } else if c == '\n' {
            out.push(WhitespaceMarker { column, kind: WhitespaceKind::LineFeed });
            column = column.wrapping_add(1);
            i = i + 1;
        } else {
            column = column.wrapping_add(1);
            i = i + 1;
        }
        assert(out@ + markers_from(text@, i as int, column, step) =~= before + markers_from(
            text@,
            i - count,
            out@.len() as u32,
            step,
        ) || out@ + markers_from(text@, i as int, column, step) =~= markers(text@, tab_width));
    }
    assert(out@ =~= markers(text@, tab_width));
    out
}

/// Computes indentation guide columns for a leading whitespace prefix.
pub fn compute_indent_guides(text: &str, tab_width: u32) -> (r: Vec<IndentGuide>)
    ensures
        r@ == guides(text@, tab_width),
{
    let chars = text_chars(text);
    let step: u32 = if tab_width == 0 {
        4
    } else {
        tab_width
    };
    let mut out: Vec<IndentGuide> = Vec::new();
    let mut column: u32 = 0;
    let mut i: usize = 0;
    assert(out@ + guides_from(text@, 0, 0, step) =~= guides_from(text@, 0, 0, step));
    while i < chars.len() && (chars[i] == ' ' || chars[i] == '\t')
        invariant
            i <= chars.len(),
            chars@ == text@,
            step == tab_step(tab_width),
            out@ + guides_from(text@, i as int, column, step) == guides(text@, tab_width),
        decreases chars.len() - i,
    {
        if chars[i] == ' ' {
            column = column.wrapping_add(1);
            if column % step == 0 {
                out.push(
                    IndentGuide {
                        column: column.wrapping_sub(step),
                        level: (column / step).wrapping_sub(1),
                    },
                );
            }
        } else {
            out.push(IndentGuide { column, level: column / step });
            column = column.wrapping_add(step - column % step);
        }
        i = i + 1;
        assert(out@ + guides_from(text@, i as int, column, step) =~= guides(text@, tab_width));
    }
    assert(out@ =~= guides(text@, tab_width));
    out
}

/// Without wrapping lines or huge columns, guides stand at the tab stops: a
/// guide's column is its level times the step, for text indented by spaces.
pub proof fn space_guides_stand_at_tab_stops(text: Seq<char>, tab_width: u32, k: int)
    requires
        text.len() < u32::MAX,
        forall|i: int| 0 <= i < text.len() ==> text[i] != '\t',
        0 <= k < guides(text, tab_width).len(),
    ensures
        guides(text, tab_width)[k].column == k * tab_step(tab_width),
        guides(text, tab_width)[k].level == k,
{
    assert(0 * tab_step(tab_width) as int == 0) by (nonlinear_arith);
    lemma_space_guides(text, 0, 0, tab_step(tab_width), 0, k);
}

proof fn lemma_space_guides(text: Seq<char>, i: int, column: u32, step: u32, done: int, k: int)
    requires
        step > 0,
        0 <= i <= text.len() < u32::MAX,
        column == i,
        0 <= done,
        done * step <= column < (done + 1) * step,
        forall|i: int| 0 <= i < text.len() ==> text[i] != '\t',
        0 <= k < guides_from(text, i, column, step).len(),
    ensures
        guides_from(text, i, column, step)[k].column == (done + k) * step,
        guides_from(text, i, column, step)[k].level == done + k,
    decreases text.len() - i,
{
    let next = column.wrapping_add(1);
    assert(next == column + 1);
    assert((done + 1) * step == done * step + step) by (nonlinear_arith);
    assert((done + 2) * step == done * step + step + step) by (nonlinear_arith);
    if next == (done + 1) * step {
        assert(next as int % step as int == 0 && next as int / step as int == done + 1)
            by (nonlinear_arith)
            requires
                next == (done + 1) * step,
                step > 0,
        ;
        if k > 0 {
            lemma_space_guides(text, i + 1, next, step, done + 1, k - 1);
        }
    } else {
        assert(next as int % step as int != 0) by (nonlinear_arith)
            requires
                done * step < next < (done + 1) * step,
                step > 0,
        {
            let q = next as int / step as int;
            assert(next == q * step + next as int % step as int);
            if next as int % step as int == 0 {
                assert(q * step == next);
                assert(q > done);
                assert(q < done + 1);
            }
        }
        lemma_space_guides(text, i + 1, next, step, done, k);
    }
}

} // verus!
