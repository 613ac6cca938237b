//! Where markers and guides stand, told by the characters alone.
use vstd::prelude::*;

use super::{
    guides, guides_from, markers, markers_from, tab_step, token_at, IndentGuide, WhitespaceKind,
    WhitespaceMarker,
};

verus! {

/// Columns from one tab stop to the next: four, unless said otherwise.
pub open spec fn stops(tab_width: u32) -> int {
    if tab_width == 0 {
        4
    } else {
        tab_width as int
    }
}

/// The column that a character stands in: a tab reaches to the next tab stop, any other
/// character takes one column.
pub open spec fn column_of(text: Seq<char>, i: int, stop: int) -> int
    decreases i,
{
    if i <= 0 {
        0
    } else if text[i - 1] == '\t' {
        (column_of(text, i - 1, stop) / stop + 1) * stop
    } else {
        column_of(text, i - 1, stop) + 1
    }
}

/// The marker that a character has. The line feed of a CRLF shares that of the carriage
/// return.
pub open spec fn marker_of(text: Seq<char>, i: int) -> Option<WhitespaceKind> {
    if text[i] == ' ' {
        Some(WhitespaceKind::Space)
    } else if text[i] == '\t' {
        Some(WhitespaceKind::Tab)
    } else if text[i] == '\r' {
        if i + 1 < text.len() && text[i + 1] == '\n' {
            Some(WhitespaceKind::CrLf)
        } else {
            Some(WhitespaceKind::CarriageReturn)
        }
    } else if text[i] == '\n' && !(i > 0 && text[i - 1] == '\r') {
        Some(WhitespaceKind::LineFeed)
    } else {
        None
    }
}

/// Places from one on, in order: all of those with a marker, and no others.
pub open spec fn marked_places(text: Seq<char>, from: int, at: Seq<int>) -> bool {
    &&& forall|k: int|
        0 <= k < at.len() ==> from <= #[trigger] at[k] < text.len() && marker_of(text, at[k])
            is Some
    &&& forall|k: int, l: int| 0 <= k < l < at.len() ==> #[trigger] at[k] < #[trigger] at[l]
    &&& forall|i: int|
        from <= i < text.len() && #[trigger] marker_of(text, i) is Some ==> at.contains(i)
}

/// A text of indentation up to a place.
pub open spec fn indented(text: Seq<char>, to: int) -> bool {
    forall|i: int| 0 <= i < to ==> #[trigger] text[i] == ' ' || text[i] == '\t'
}

/// The guide that a character of the indentation gives: a tab one where it stands, a
/// space one where it fills the columns up to a tab stop.
pub open spec fn guide_of(text: Seq<char>, i: int, stop: int) -> Option<(int, int)> {
    let column = column_of(text, i, stop);
    if !indented(text, i + 1) {
        None
    } else if text[i] == '\t' {
        Some((column, column / stop))
    } else if (column + 1) % stop == 0 {
        Some((column + 1 - stop, (column + 1) / stop - 1))
    } else {
        None
    }
}

/// Places from one on, in order: all of those with a guide, and no others.
pub open spec fn guiding_places(text: Seq<char>, from: int, stop: int, at: Seq<int>) -> bool {
    &&& forall|k: int|
        0 <= k < at.len() ==> from <= #[trigger] at[k] < text.len() && guide_of(
            text,
            at[k],
            stop,
        ) is Some
    &&& forall|k: int, l: int| 0 <= k < l < at.len() ==> #[trigger] at[k] < #[trigger] at[l]
    &&& forall|i: int|
        from <= i < text.len() && #[trigger] guide_of(text, i, stop) is Some ==> at.contains(i)
}

proof fn lemma_column(text: Seq<char>, i: int, stop: int)
    requires
        stop > 0,
        0 <= i,
    ensures
        0 <= column_of(text, i, stop) <= i * stop,
    decreases i,
{
    if i > 0 {
        lemma_column(text, i - 1, stop);
        let c = column_of(text, i - 1, stop);
        assert(0 <= c / stop && (c / stop + 1) * stop <= c + stop && 0 <= (c / stop + 1) * stop)
            by (nonlinear_arith)
            requires
                stop > 0,
                c >= 0,
        ;
        assert(i * stop == (i - 1) * stop + stop) by (nonlinear_arith);
    } else {
        assert(0 * stop == 0) by (nonlinear_arith);
    }
}

proof fn lemma_fits(text: Seq<char>, i: int, stop: int)
    requires
        stop > 0,
        0 <= i <= text.len(),
        text.len() * stop <= u32::MAX,
    ensures
        0 <= column_of(text, i, stop) <= u32::MAX,
{
    lemma_column(text, i, stop);
    assert(i * stop <= text.len() * stop) by (nonlinear_arith)
        requires
            i <= text.len(),
            stop > 0,
    ;
}

proof fn lemma_next_stop(c: int, stop: int)
    requires
        stop > 0,
        c >= 0,
    ensures
        c + (stop - c % stop) == (c / stop + 1) * stop,
{
    assert(c + (stop - c % stop) == (c / stop + 1) * stop) by (nonlinear_arith)
        requires
            stop > 0,
            c >= 0,
    ;
}

proof fn lemma_markers(text: Seq<char>, i: int, column: u32, step: u32) -> (at: Seq<int>)
    requires
        step > 0,
        0 <= i <= text.len(),
        text.len() * step <= u32::MAX,
        column == column_of(text, i, step as int),
        i < text.len() && text[i] == '\n' ==> !(i > 0 && text[i - 1] == '\r'),
    ensures
        marked_places(text, i, at),
        at.len() == markers_from(text, i, column, step).len(),
        forall|k: int|
            0 <= k < at.len() ==> (#[trigger] markers_from(text, i, column, step)[k]).column
                == column_of(text, at[k], step as int) && Some(
                markers_from(text, i, column, step)[k].kind,
            ) == marker_of(text, at[k]),
    decreases text.len() - i,
{
    let stop = step as int;
    if i >= text.len() {
        Seq::empty()
    } else {
        let (kind, chars, columns) = token_at(text, i, column, step);
        lemma_next_stop(column as int, stop);
        lemma_fits(text, i + 1, stop);
        if chars == 2 {
            lemma_fits(text, i + 2, stop);
            assert(column_of(text, i + 1, stop) == column + 1);
            assert(column_of(text, i + 2, stop) == column + 2);
        }
        let next = column.wrapping_add(columns);
        assert(next == column_of(text, i + chars, stop));
        let rest = lemma_markers(text, i + chars, next, step);
        let tail = markers_from(text, i + chars, next, step);
        let all = markers_from(text, i, column, step);
        if let Some(kind) = kind {
            let at = seq![i] + rest;
            assert(all =~= seq![WhitespaceMarker { column, kind }] + tail);
            assert forall|p: int|
                i <= p < text.len() && #[trigger] marker_of(text, p) is Some implies at.contains(
                p,
            ) by {
                if p == i {
                    assert(at[0] == i);
                } else {
                    assert(p >= i + chars);
                    let k = choose|k: int| 0 <= k < rest.len() && rest[k] == p;
                    assert(at[k + 1] == p);
                }
            }
            assert forall|k: int| 0 <= k < at.len() implies (#[trigger] all[k]).column
                == column_of(text, at[k], stop) && Some(all[k].kind) == marker_of(
                text,
                at[k],
            ) by {
                if k > 0 {
                    assert(all[k] == tail[k - 1]);
                    assert(at[k] == rest[k - 1]);
                }
            }
            assert forall|k: int, l: int| 0 <= k < l < at.len() implies #[trigger] at[k]
                < #[trigger] at[l] by {
                assert(at[l] == rest[l - 1]);
                if k > 0 {
                    assert(at[k] == rest[k - 1]);
                }
            }
            assert forall|k: int| 0 <= k < at.len() implies i <= #[trigger] at[k] < text.len()
                && marker_of(text, at[k]) is Some by {
                if k > 0 {
                    assert(at[k] == rest[k - 1]);
                }
            }
            at
        } else {
            rest
        }
    }
}

/// Every space, tab and line ending of a text has one marker, in order, in the column
/// that it stands in, and nothing else has one.
pub proof fn markers_stand_at_the_whitespace(text: Seq<char>, tab_width: u32) -> (at: Seq<int>)
    requires
        text.len() * stops(tab_width) <= u32::MAX,
    ensures
        marked_places(text, 0, at),
        at.len() == markers(text, tab_width).len(),
        forall|k: int|
            0 <= k < at.len() ==> (#[trigger] markers(text, tab_width)[k]).column == column_of(
                text,
                at[k],
                stops(tab_width),
            ) && Some(markers(text, tab_width)[k].kind) == marker_of(text, at[k]),
{
    lemma_markers(text, 0, 0, tab_step(tab_width))
}

proof fn lemma_guides(text: Seq<char>, i: int, column: u32, step: u32) -> (at: Seq<int>)
    requires
        step > 0,
        0 <= i <= text.len(),
        text.len() * step <= u32::MAX,
        column == column_of(text, i, step as int),
        indented(text, i),
    ensures
        guiding_places(text, i, step as int, at),
        at.len() == guides_from(text, i, column, step).len(),
        forall|k: int|
            0 <= k < at.len() ==> guide_of(text, at[k], step as int) == Some(
                (
                    (#[trigger] guides_from(text, i, column, step)[k]).column as int,
                    guides_from(text, i, column, step)[k].level as int,
                ),
            ),
    decreases text.len() - i,
{
    let stop = step as int;
    if i >= text.len() {
        Seq::empty()
    } else if text[i] != ' ' && text[i] != '\t' {
        assert forall|p: int| i <= p < text.len() && #[trigger] guide_of(text, p, stop)
            is Some implies Seq::<int>::empty().contains(p) by {
            assert(indented(text, p + 1));
        }
        Seq::empty()
    } else {
        lemma_next_stop(column as int, stop);
        lemma_fits(text, i + 1, stop);
        let next = column_of(text, i + 1, stop) as u32;
        assert(column.wrapping_add(super::to_tab_stop(column, step)) == next || text[i] == ' ');
        assert(column.wrapping_add(1) == next || text[i] == '\t');
        if text[i] == ' ' && next as int % stop == 0 {
            assert(next as int / stop >= 1 && next >= stop) by (nonlinear_arith)
                requires
                    next as int % stop == 0,
                    next as int > 0,
                    stop > 0,
            ;
        }
        let rest = lemma_guides(text, i + 1, next, step);
        let tail = guides_from(text, i + 1, next, step);
        let all = guides_from(text, i, column, step);
        if guide_of(text, i, stop) is Some {
            let at = seq![i] + rest;
            let (c, l) = guide_of(text, i, stop)->0;
            assert(0 <= l <= u32::MAX) by (nonlinear_arith)
                requires
                    l == column as int / stop || l == next as int / stop - 1 && next as int / stop
                        >= 1,
                    0 <= column <= u32::MAX,
                    0 <= next <= u32::MAX,
                    stop > 0,
            ;
            assert(all =~= seq![IndentGuide { column: c as u32, level: l as u32 }] + tail);
            assert forall|p: int| i <= p < text.len() && #[trigger] guide_of(text, p, stop)
                is Some implies at.contains(p) by {
                if p == i {
                    assert(at[0] == i);
                } else {
                    let k = choose|k: int| 0 <= k < rest.len() && rest[k] == p;
                    assert(at[k + 1] == p);
                }
            }
            assert forall|k: int| 0 <= k < at.len() implies guide_of(text, at[k], stop) == Some(
                ((#[trigger] all[k]).column as int, all[k].level as int),
            ) by {
                if k > 0 {
                    assert(all[k] == tail[k - 1]);
                    assert(at[k] == rest[k - 1]);
                }
            }
            assert forall|k: int, l: int| 0 <= k < l < at.len() implies #[trigger] at[k]
                < #[trigger] at[l] by {
                assert(at[l] == rest[l - 1]);
                if k > 0 {
                    assert(at[k] == rest[k - 1]);
                }
            }
            assert forall|k: int| 0 <= k < at.len() implies i <= #[trigger] at[k] < text.len()
                && guide_of(text, at[k], stop) is Some by {
                if k > 0 {
                    assert(at[k] == rest[k - 1]);
                }
            }
            at
        } else {
            rest
        }
    }
}

/// The guides of a text are those of its indentation: every tab gives one, and every
/// space that fills the columns up to a tab stop, in order, and nothing else gives one.
pub proof fn guides_follow_the_indentation(text: Seq<char>, tab_width: u32) -> (at: Seq<int>)
    requires
        text.len() * stops(tab_width) <= u32::MAX,
    ensures
        guiding_places(text, 0, stops(tab_width), at),
        at.len() == guides(text, tab_width).len(),
        forall|k: int|
            0 <= k < at.len() ==> guide_of(text, at[k], stops(tab_width)) == Some(
                (
                    (#[trigger] guides(text, tab_width)[k]).column as int,
                    guides(text, tab_width)[k].level as int,
                ),
            ),
{
    lemma_guides(text, 0, 0, tab_step(tab_width))
}

} // verus!
