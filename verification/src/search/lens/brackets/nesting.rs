//! What bracket matching finds, told by the bytes alone.
use vstd::prelude::*;

use super::{
    is_bracket_match, lemma_split, nested, opened, opened_over, pairs, target, BracketKind,
    BracketMatchResult,
};

verus! {

/// `(` goes with `)`, `[` with `]`, `{` with `}` and `<` with `>`.
pub open spec fn go_together(open: u8, close: u8) -> bool {
    ||| open == 40 && close == 41
    ||| open == 91 && close == 93
    ||| open == 123 && close == 125
    ||| open == 60 && close == 62
}

/// One of the eight brackets.
pub open spec fn any_bracket(byte: u8) -> bool {
    ||| byte == 40 || byte == 41
    ||| byte == 91 || byte == 93
    ||| byte == 123 || byte == 125
    ||| byte == 60 || byte == 62
}

/// A stretch in which brackets are balanced: it is empty, or starts with a byte that is
/// no bracket, or with a balanced stretch in a pair of brackets, and the rest is
/// balanced.
pub open spec fn balanced(bytes: Seq<u8>, from: int, to: int) -> bool
    decreases to - from,
{
    ||| from >= to
    ||| !any_bracket(bytes[from]) && balanced(bytes, from + 1, to)
    ||| exists|m: int|
        from < m < to && balanced(bytes, from + 1, m) && #[trigger] go_together(
            bytes[from],
            bytes[m],
        ) && balanced(bytes, m + 1, to)
}

/// Brackets that enclose a balanced stretch.
pub open spec fn encloses(bytes: Seq<u8>, i: int, j: int) -> bool {
    0 <= i < j < bytes.len() && go_together(bytes[i], bytes[j]) && balanced(bytes, i + 1, j)
}

/// The byte that a kind of bracket starts with.
pub open spec fn starts_with(kind: BracketKind, byte: u8) -> bool {
    match kind {
        BracketKind::Paren => byte == 40,
        BracketKind::Bracket => byte == 91,
        BracketKind::Brace => byte == 123,
        BracketKind::Angle => byte == 60,
    }
}

/// Where a cursor looks: at its own byte if that is a bracket, or else at the one before
/// it.
pub open spec fn looks_at(bytes: Seq<u8>, cursor: int, at: int) -> bool {
    ||| at == cursor && 0 <= at < bytes.len() && any_bracket(bytes[at])
    ||| at == cursor - 1 && 0 <= at < bytes.len() && any_bracket(bytes[at]) && !(cursor
        < bytes.len() && any_bracket(bytes[cursor]))
}

/// The right answer at a cursor.
pub open spec fn rightly_matched(bytes: Seq<u8>, cursor: int, r: BracketMatchResult) -> bool {
    match r {
        BracketMatchResult::Matched(pair) => {
            &&& encloses(bytes, pair.open_offset as int, pair.close_offset as int)
            &&& starts_with(pair.kind, bytes[pair.open_offset as int])
            &&& looks_at(bytes, cursor, pair.open_offset as int) || looks_at(
                bytes,
                cursor,
                pair.close_offset as int,
            )
        },
        BracketMatchResult::Unmatched { offset, kind, is_open } => {
            &&& looks_at(bytes, cursor, offset as int)
            &&& forall|k: int| !#[trigger] encloses(bytes, offset as int, k)
            &&& forall|k: int| !#[trigger] encloses(bytes, k, offset as int)
            &&& is_open == starts_with(kind, bytes[offset as int])
            &&& exists|open: u8| #[trigger]
                starts_with(kind, open) && (bytes[offset as int] == open || go_together(
                    open,
                    bytes[offset as int],
                ))
        },
        BracketMatchResult::NoBracket => forall|at: int| !looks_at(bytes, cursor, at),
    }
}

proof fn lemma_balanced(open: Seq<BracketKind>, bytes: Seq<u8>, from: int, to: int)
    requires
        balanced(bytes, from, to),
    ensures
        opened_over(open, bytes, from, to) == Some(open),
    decreases to - from,
{
    if from < to {
        if !any_bracket(bytes[from]) && balanced(bytes, from + 1, to) {
            lemma_balanced(open, bytes, from + 1, to);
        } else {
            let m = choose|m: int|
                from < m < to && balanced(bytes, from + 1, m) && #[trigger] go_together(
                    bytes[from],
                    bytes[m],
                ) && balanced(bytes, m + 1, to);
            let inner = opened(open, bytes[from])->0;
            lemma_balanced(inner, bytes, from + 1, m);
            lemma_split(inner, bytes, from + 1, m, to);
            assert(opened(inner, bytes[m])->0 =~= open);
            lemma_balanced(open, bytes, m + 1, to);
        }
    }
}

/// Where the innermost open bracket is closed.
proof fn lemma_closed(open: Seq<BracketKind>, bytes: Seq<u8>, from: int, to: int) -> (m: int)
    requires
        open.len() > 0,
        opened_over(open, bytes, from, to) == Some(Seq::<BracketKind>::empty()),
    ensures
        from <= m < to,
        bytes[m] == open.last().closer(),
        balanced(bytes, from, m),
        opened_over(open.drop_last(), bytes, m + 1, to) == Some(Seq::<BracketKind>::empty()),
    decreases to - from,
{
    let byte = bytes[from];
    let next = opened(open, byte)->0;
    if !any_bracket(byte) {
        let m = lemma_closed(open, bytes, from + 1, to);
        m
    } else if BracketKind::of_open(byte) is Some {
        let first = lemma_closed(next, bytes, from + 1, to);
        assert(next.drop_last() =~= open);
        let m = lemma_closed(open, bytes, first + 1, to);
        assert(go_together(bytes[from], bytes[first]));
        assert(balanced(bytes, from + 1, first));
        assert(balanced(bytes, from, m));
        m
    } else {
        from
    }
}

proof fn lemma_nested(bytes: Seq<u8>, from: int, to: int)
    ensures
        nested(bytes, from, to) <==> balanced(bytes, from, to),
    decreases to - from,
{
    let none = Seq::<BracketKind>::empty();
    if balanced(bytes, from, to) {
        lemma_balanced(none, bytes, from, to);
    }
    if nested(bytes, from, to) && from < to {
        let byte = bytes[from];
        if !any_bracket(byte) {
            lemma_nested(bytes, from + 1, to);
        } else {
            let next = opened(none, byte)->0;
            let m = lemma_closed(next, bytes, from + 1, to);
            assert(next.drop_last() =~= none);
            lemma_nested(bytes, m + 1, to);
            assert(go_together(byte, bytes[m]));
            assert(balanced(bytes, from + 1, m));
        }
    }
}

proof fn lemma_pairs(bytes: Seq<u8>, kind: BracketKind, i: int, j: int)
    ensures
        pairs(bytes, kind, i, j) <==> encloses(bytes, i, j) && starts_with(kind, bytes[i]),
{
    lemma_nested(bytes, i + 1, j);
}

/// Matching finds the bracket at the cursor, or else the one before it, and the bracket
/// that encloses a balanced stretch with it. It finds none exactly if there is none.
pub proof fn matches_enclose_balanced_text(bytes: Seq<u8>, cursor: int, r: BracketMatchResult)
    requires
        is_bracket_match(bytes, cursor, r),
    ensures
        rightly_matched(bytes, cursor, r),
{
    assert forall|kind: BracketKind, i: int, j: int| #[trigger]
        pairs(bytes, kind, i, j) <==> encloses(bytes, i, j) && starts_with(kind, bytes[i]) by {
        lemma_pairs(bytes, kind, i, j);
    }
    if let Some(at) = target(bytes, cursor) {
        match r {
            BracketMatchResult::Unmatched { offset, kind, is_open } => {
                assert forall|k: int| !#[trigger] encloses(bytes, at, k) by {
                    lemma_pairs(bytes, kind, at, k);
                }
                assert forall|k: int| !#[trigger] encloses(bytes, k, at) by {
                    lemma_pairs(bytes, kind, k, at);
                }
                let open = kind.opener();
                assert(starts_with(kind, open));
                assert(go_together(open, bytes[at]) || bytes[at] == open);
            },
            _ => {},
        }
    }
}

} // verus!
