//! Matching of delimiters around a position.
pub mod nesting;

use vstd::prelude::*;

verus! {

/// Delimiter bracket families supported for guide highlighting.
#[derive(Clone, Copy, Debug, PartialEq, Eq, Structural)]
pub enum BracketKind {
    Paren,
    Bracket,
    Brace,
    Angle,
}

impl BracketKind {
    pub open spec fn opener(self) -> u8 {
        match self {
            BracketKind::Paren => 40,
            BracketKind::Bracket => 91,
            BracketKind::Brace => 123,
            BracketKind::Angle => 60,
        }
    }

    pub open spec fn closer(self) -> u8 {
        match self {
            BracketKind::Paren => 41,
            BracketKind::Bracket => 93,
            BracketKind::Brace => 125,
            BracketKind::Angle => 62,
        }
    }

    pub open spec fn of_open(byte: u8) -> Option<BracketKind> {
        if byte == 40 {
            Some(BracketKind::Paren)
        } else if byte == 91 {
            Some(BracketKind::Bracket)
        } else if byte == 123 {
            Some(BracketKind::Brace)
        } else if byte == 60 {
            Some(BracketKind::Angle)
        } else {
            None
        }
    }

    pub open spec fn of_close(byte: u8) -> Option<BracketKind> {
        if byte == 41 {
            Some(BracketKind::Paren)
        } else if byte == 93 {
            Some(BracketKind::Bracket)
        } else if byte == 125 {
            Some(BracketKind::Brace)
        } else if byte == 62 {
            Some(BracketKind::Angle)
        } else {
            None
        }
    }

    pub fn open_char(self) -> (r: u8)
        ensures
            r == self.opener(),
    {
        match self {
            BracketKind::Paren => 40,
            BracketKind::Bracket => 91,
            BracketKind::Brace => 123,
            BracketKind::Angle => 60,
        }
    }

    pub fn close_char(self) -> (r: u8)
        ensures
            r == self.closer(),
    {
        match self {
            BracketKind::Paren => 41,
            BracketKind::Bracket => 93,
            BracketKind::Brace => 125,
            BracketKind::Angle => 62,
        }
    }

    pub fn from_open(byte: u8) -> (r: Option<Self>)
        ensures
            r == BracketKind::of_open(byte),
    {
        match byte {
            40 => Some(BracketKind::Paren),
            91 => Some(BracketKind::Bracket),
            123 => Some(BracketKind::Brace),
            60 => Some(BracketKind::Angle),
            _ => None,
        }
    }

    pub fn from_close(byte: u8) -> (r: Option<Self>)
        ensures
            r == BracketKind::of_close(byte),
    {
        match byte {
            41 => Some(BracketKind::Paren),
            93 => Some(BracketKind::Bracket),
            125 => Some(BracketKind::Brace),
            62 => Some(BracketKind::Angle),
            _ => None,
        }
    }
}

/// A matched pair of enclosing brackets.
#[derive(Clone, Copy, Debug, PartialEq, Eq, Structural)]
pub struct BracketPairMatch {
    pub kind: BracketKind,
    pub open_offset: usize,
    pub close_offset: usize,
}

/// The result of bracket matching around an active byte offset.
#[derive(Clone, Copy, Debug, PartialEq, Eq, Structural)]
pub enum BracketMatchResult {
    /// A balanced pair of matching brackets was located.
    Matched(BracketPairMatch),
    /// A bracket was encountered but its counterpart is missing, or is not reached
    /// because a bracket between them is mismatched or left open.
    Unmatched { offset: usize, kind: BracketKind, is_open: bool },
    /// No bracket exists at or just before the inspected offset.
    NoBracket,
}

/// Whether a byte is a bracket.
pub open spec fn is_bracket(byte: u8) -> bool {
    BracketKind::of_open(byte) is Some || BracketKind::of_close(byte) is Some
}

/// The bracket looked at: the one at the cursor, or else the one before it.
pub open spec fn target(bytes: Seq<u8>, cursor: int) -> Option<int> {
    if 0 <= cursor < bytes.len() && is_bracket(bytes[cursor]) {
        Some(cursor)
    } else if 0 < cursor <= bytes.len() && is_bracket(bytes[cursor - 1]) {
        Some(cursor - 1)
    } else {
        None
    }
}

/// The brackets that are open behind a byte, given those open before it. There
/// are none to speak of where the byte closes a bracket that is not the innermost
/// open one.
pub open spec fn opened(open: Seq<BracketKind>, byte: u8) -> Option<Seq<BracketKind>> {
    match BracketKind::of_open(byte) {
        Some(kind) => Some(open.push(kind)),
        None => match BracketKind::of_close(byte) {
            Some(kind) => if open.len() > 0 && open.last() == kind {
                Some(open.drop_last())
            } else {
                None
            },
            None => Some(open),
        },
    }
}

/// The brackets that are open behind the bytes from one position up to another,
/// unless one of them closes what is not open.
pub open spec fn opened_over(
    open: Seq<BracketKind>,
    bytes: Seq<u8>,
    from: int,
    to: int,
) -> Option<Seq<BracketKind>>
    decreases to - from,
{
    if from >= to {
        Some(open)
    } else {
        match opened(open, bytes[from]) {
            Some(next) => opened_over(next, bytes, from + 1, to),
            None => None,
        }
    }
}

/// Whether a stretch is properly nested: every bracket in it, of whatever kind,
/// is closed in it by one of its own kind, the innermost first.
pub open spec fn nested(bytes: Seq<u8>, from: int, to: int) -> bool {
    opened_over(Seq::empty(), bytes, from, to) == Some(Seq::<BracketKind>::empty())
}

/// Whether the brackets at `i` and `j` belong together: they are of one kind, and
/// what stands between them is properly nested.
pub open spec fn pairs(bytes: Seq<u8>, kind: BracketKind, i: int, j: int) -> bool {
    &&& 0 <= i < j < bytes.len()
    &&& bytes[i] == kind.opener()
    &&& bytes[j] == kind.closer()
    &&& nested(bytes, i + 1, j)
}

/// Whether `r` is the answer of bracket matching at a cursor.
pub open spec fn is_bracket_match(bytes: Seq<u8>, cursor: int, r: BracketMatchResult) -> bool {
    match target(bytes, cursor) {
        None => r is NoBracket,
        Some(at) => match BracketKind::of_open(bytes[at]) {
            Some(kind) => match r {
                BracketMatchResult::Matched(pair) => pair.kind == kind && pair.open_offset == at
                    && pairs(bytes, kind, at, pair.close_offset as int),
                BracketMatchResult::Unmatched { offset, kind: k, is_open } => offset == at && k
                    == kind && is_open && forall|j: int| !#[trigger] pairs(bytes, kind, at, j),
                BracketMatchResult::NoBracket => false,
            },
            None => {
                let kind = BracketKind::of_close(bytes[at])->Some_0;
                match r {
                    BracketMatchResult::Matched(pair) => pair.kind == kind && pair.close_offset
                        == at && pairs(bytes, kind, pair.open_offset as int, at),
                    BracketMatchResult::Unmatched { offset, kind: k, is_open } => offset == at && k
                        == kind && !is_open && forall|i: int|
                        !#[trigger] pairs(bytes, kind, i, at),
                    BracketMatchResult::NoBracket => false,
                }
            },
        },
    }
}

pub proof fn lemma_split(open: Seq<BracketKind>, bytes: Seq<u8>, i: int, k: int, j: int)
    requires
        i <= k <= j,
    ensures
        match opened_over(open, bytes, i, k) {
            Some(next) => opened_over(open, bytes, i, j) == opened_over(next, bytes, k, j),
            None => opened_over(open, bytes, i, j) is None,
        },
    decreases k - i,
{
    if i < k {
        if let Some(next) = opened(open, bytes[i]) {
            lemma_split(next, bytes, i + 1, k, j);
        }
    }
}

/// The brackets that a byte leaves to be opened before it, given those that are
/// closed behind it and not opened there.
spec fn awaited(closed: Seq<BracketKind>, byte: u8) -> Option<Seq<BracketKind>> {
    match BracketKind::of_open(byte) {
        Some(kind) => if closed.len() > 0 && closed.last() == kind {
            Some(closed.drop_last())
        } else {
            None
        },
        None => match BracketKind::of_close(byte) {
            Some(kind) => Some(closed.push(kind)),
            None => Some(closed),
        },
    }
}

/// The brackets that a stretch leaves to be opened before it.
spec fn awaited_over(bytes: Seq<u8>, from: int, to: int) -> Option<Seq<BracketKind>>
    decreases to - from,
{
    if from >= to {
        Some(Seq::empty())
    } else {
        match awaited_over(bytes, from + 1, to) {
            Some(closed) => awaited(closed, bytes[from]),
            None => None,
        }
    }
}

/// What a stretch closes is exactly what it awaits.
proof fn lemma_awaited(open: Seq<BracketKind>, bytes: Seq<u8>, from: int, to: int)
    ensures
        opened_over(open, bytes, from, to) == Some(Seq::<BracketKind>::empty()) <==> awaited_over(
            bytes,
            from,
            to,
        ) == Some(open),
    decreases to - from,
{
    if from < to {
        let byte = bytes[from];
        if let Some(next) = opened(open, byte) {
            lemma_awaited(next, bytes, from + 1, to);
            if awaited_over(bytes, from + 1, to) == Some(next) {
                assert(awaited(next, byte)->0 =~= open);
            }
        }
        if let Some(closed) = awaited_over(bytes, from + 1, to) {
            lemma_awaited(closed, bytes, from + 1, to);
            if awaited(closed, byte) == Some(open) {
                assert(opened(open, byte)->0 =~= closed);
            }
        }
    }
}

/// Nothing before a mismatch mends it.
proof fn lemma_mismatch(bytes: Seq<u8>, i: int, k: int, j: int)
    requires
        i <= k <= j,
        awaited_over(bytes, k, j) is None,
    ensures
        awaited_over(bytes, i, j) is None,
    decreases k - i,
{
    if i < k {
        lemma_mismatch(bytes, i + 1, k, j);
    }
}

/// A bracket belongs to at most one other, and the one is found from the other:
/// looking at either end of a matched pair gives the same pair.
pub proof fn matching_is_symmetric(
    bytes: Seq<u8>,
    cursor: int,
    r: BracketMatchResult,
    other: int,
    s: BracketMatchResult,
)
    requires
        is_bracket_match(bytes, cursor, r),
        r matches BracketMatchResult::Matched(pair) && (other == pair.open_offset || other
            == pair.close_offset),
        is_bracket_match(bytes, other, s),
    ensures
        s == r,
{
    let pair = r->Matched_0;
    let i = pair.open_offset as int;
    let j = pair.close_offset as int;
    let kind = pair.kind;
    assert(target(bytes, i) == Some(i));
    assert(target(bytes, j) == Some(j));
    assert(pairs(bytes, kind, i, j));
    if let BracketMatchResult::Matched(found) = s {
        if other == i {
            lemma_unique(bytes, kind, i, j, i, found.close_offset as int);
        } else {
            lemma_unique(bytes, kind, i, j, found.open_offset as int, j);
        }
    }
}

/// Pairs that share an end are the same.
proof fn lemma_unique(bytes: Seq<u8>, kind: BracketKind, i: int, j: int, a: int, b: int)
    requires
        pairs(bytes, kind, i, j),
        pairs(bytes, kind, a, b),
        i == a || j == b,
    ensures
        i == a && j == b,
{
    let none = Seq::<BracketKind>::empty();
    if i == a {
        if j < b {
            lemma_split(none, bytes, i + 1, j, b);
        } else if b < j {
            lemma_split(none, bytes, i + 1, b, j);
        }
    } else {
        lemma_awaited(none, bytes, i + 1, j);
        lemma_awaited(none, bytes, a + 1, j);
        if i < a {
            lemma_mismatch(bytes, i + 1, a, j);
        } else {
            lemma_mismatch(bytes, a + 1, i, j);
        }
    }
}

/// Looks for the counterpart of the opening bracket at `offset`.
fn find_close(bytes: &Vec<u8>, kind: BracketKind, offset: usize) -> (r: Option<usize>)
    requires
        offset < bytes@.len(),
        bytes@[offset as int] == kind.opener(),
    ensures
        match r {
            Some(j) => pairs(bytes@, kind, offset as int, j as int),
            None => forall|j: int| !#[trigger] pairs(bytes@, kind, offset as int, j),
        },
{
    let ghost none = Seq::<BracketKind>::empty();
    let mut open: Vec<BracketKind> = Vec::new();
    assert(offset < bytes.len());
    let mut i: usize = offset + 1;
    while i < bytes.len()
        invariant
            offset < i <= bytes.len(),
            bytes@[offset as int] == kind.opener(),
            none == Seq::<BracketKind>::empty(),
            forall|j: int|
                i <= j ==> #[trigger] opened_over(none, bytes@, offset + 1, j) == opened_over(
                    open@,
                    bytes@,
                    i as int,
                    j,
                ),
            forall|j: int| j < i ==> !#[trigger] pairs(bytes@, kind, offset as int, j),
        decreases bytes.len() - i,
    {
        let b = bytes[i];
        let ghost before = open@;
        assert(opened_over(none, bytes@, offset + 1, i as int) == Some(before));
        match BracketKind::from_open(b) {
            Some(k) => {
                open.push(k);
            },
            None => match BracketKind::from_close(b) {
                Some(k) => {
                    if open.len() == 0 || open[open.len() - 1] != k {
                        let found = open.len() == 0 && k == kind;
                        assert forall|j: int| i < j implies !#[trigger] pairs(
                            bytes@,
                            kind,
                            offset as int,
                            j,
                        ) by {
                            assert(opened_over(none, bytes@, offset + 1, j) is None);
                        }
                        if found {
                            assert(before =~= none);
                            return Some(i);
                        }
                        assert(!pairs(bytes@, kind, offset as int, i as int));
                        return None;
                    }
                    open.pop();
                    assert(open@ =~= before.drop_last());
                },
                None => {},
            },
        }
        assert(opened(before, b) == Some(open@));
        assert(!pairs(bytes@, kind, offset as int, i as int));
        i = i + 1;
    }
    None
}

/// Looks for the counterpart of the closing bracket at `offset`.
fn find_open(bytes: &Vec<u8>, kind: BracketKind, offset: usize) -> (r: Option<usize>)
    requires
        offset < bytes@.len(),
        bytes@[offset as int] == kind.closer(),
    ensures
        match r {
            Some(i) => pairs(bytes@, kind, i as int, offset as int),
            None => forall|i: int| !#[trigger] pairs(bytes@, kind, i, offset as int),
        },
{
    let ghost none = Seq::<BracketKind>::empty();
    let mut closed: Vec<BracketKind> = Vec::new();
    let mut i: usize = offset;
    assert(closed@ =~= none);
    while i > 0
        invariant
            i <= offset < bytes.len(),
            bytes@[offset as int] == kind.closer(),
            none == Seq::<BracketKind>::empty(),
            awaited_over(bytes@, i as int, offset as int) == Some(closed@),
            forall|k: int| i <= k ==> !#[trigger] pairs(bytes@, kind, k, offset as int),
        decreases i,
    {
        let ghost before = closed@;
        i = i - 1;
        let b = bytes[i];
        proof {
            lemma_awaited(none, bytes@, i + 1, offset as int);
        }
        match BracketKind::from_open(b) {
            Some(k) => {
                if closed.len() == 0 || closed[closed.len() - 1] != k {
                    let found = closed.len() == 0 && k == kind;
                    if found {
                        assert(before =~= none);
                        return Some(i);
                    }
                    assert(awaited(before, b) is None);
                    assert forall|k: int| !#[trigger] pairs(bytes@, kind, k, offset as int) by {
                        if 0 <= k < i {
                            lemma_mismatch(bytes@, k + 1, i as int, offset as int);
                            lemma_awaited(none, bytes@, k + 1, offset as int);
                        }
                    }
                    return None;
                }
                closed.pop();
                assert(closed@ =~= before.drop_last());
            },
            None => match BracketKind::from_close(b) {
                Some(k) => {
                    closed.push(k);
                },
                None => {},
            },
        }
        assert(awaited(before, b) == Some(closed@));
        assert(!pairs(bytes@, kind, i as int, offset as int));
    }
    None
}

/// Bidirectional bracket matcher over source bytes around an offset. Brackets of
/// all kinds nest: a pair that crosses another, or has an unclosed bracket of any
/// kind in it, is no pair.
pub fn find_matching_bracket(bytes: &Vec<u8>, cursor_offset: usize) -> (r: BracketMatchResult)
    ensures
        is_bracket_match(bytes@, cursor_offset as int, r),
{
    let n = bytes.len();
    let at: usize = if cursor_offset < n && (BracketKind::from_open(bytes[cursor_offset]).is_some()
        || BracketKind::from_close(bytes[cursor_offset]).is_some()) {
        cursor_offset
    } else if cursor_offset > 0 && cursor_offset - 1 < n && (BracketKind::from_open(
        bytes[cursor_offset - 1],
    ).is_some() || BracketKind::from_close(bytes[cursor_offset - 1]).is_some()) {
        cursor_offset - 1
    } else {
        return BracketMatchResult::NoBracket;
    };
    assert(target(bytes@, cursor_offset as int) == Some(at as int));
    match BracketKind::from_open(bytes[at]) {
        Some(kind) => match find_close(bytes, kind, at) {
            Some(j) => BracketMatchResult::Matched(
                BracketPairMatch { kind, open_offset: at, close_offset: j },
            ),
            None => BracketMatchResult::Unmatched { offset: at, kind, is_open: true },
        },
        None => match BracketKind::from_close(bytes[at]) {
            Some(kind) => match find_open(bytes, kind, at) {
                Some(i) => BracketMatchResult::Matched(
                    BracketPairMatch { kind, open_offset: i, close_offset: at },
                ),
                None => BracketMatchResult::Unmatched { offset: at, kind, is_open: false },
            },
            None => BracketMatchResult::NoBracket,
        },
    }
}

/// What a stretch opens and closes does not touch what was open before it.
proof fn lemma_beneath(
    base: Seq<BracketKind>,
    open: Seq<BracketKind>,
    bytes: Seq<u8>,
    from: int,
    to: int,
)
    requires
        opened_over(open, bytes, from, to) is Some,
    ensures
        opened_over(base + open, bytes, from, to) == Some(
            base + opened_over(open, bytes, from, to)->0,
        ),
    decreases to - from,
{
    if from < to {
        let next = opened(open, bytes[from])->0;
        assert(opened(base + open, bytes[from]) == Some(base + next)) by {
            match BracketKind::of_open(bytes[from]) {
                Some(kind) => {
                    assert((base + open).push(kind) =~= base + open.push(kind));
                },
                None => {
                    if BracketKind::of_close(bytes[from]) is Some {
                        assert((base + open).drop_last() =~= base + open.drop_last());
                    }
                },
            }
        }
        lemma_beneath(base, next, bytes, from + 1, to);
    }
}

/// Pairs of whatever kinds lie apart or one within the other: they never cross.
pub proof fn pairs_do_not_cross(
    bytes: Seq<u8>,
    one: BracketKind,
    i: int,
    j: int,
    other: BracketKind,
    a: int,
    b: int,
)
    requires
        pairs(bytes, one, i, j),
        pairs(bytes, other, a, b),
        i < a < j,
    ensures
        b < j,
{
    let none = Seq::<BracketKind>::empty();
    if j <= b {
        lemma_split(none, bytes, i + 1, a, j);
        let outer = opened_over(none, bytes, i + 1, a)->0;
        let base = outer.push(other);
        assert(opened_over(outer, bytes, a, j) == opened_over(base, bytes, a + 1, j));
        lemma_split(none, bytes, a + 1, j, b);
        lemma_beneath(base, none, bytes, a + 1, j);
        assert(base + none =~= base);
        assert((base + opened_over(none, bytes, a + 1, j)->0).len() > 0);
    }
}

} // verus!
