//! Where the lines of a capture start, told by its bytes alone, and what a request
//! finds among them.
use vstd::prelude::*;

use super::{
    after, is_position, lemma_token, origin, reaches, requests_find_what_a_full_scan_finds, token,
    Cursor, DetectedEncoding, IndexModel, ReadingSeekState, ReadingTarget, SeekParts,
};
use crate::capture::CaptureModel;
use crate::identity::QueryGeneration;

verus! {

/// Bytes of a unit of text.
pub open spec fn unit_size(encoding: DetectedEncoding) -> int {
    match encoding {
        DetectedEncoding::Utf8 { .. } => 1,
        DetectedEncoding::Utf16Le => 2,
        DetectedEncoding::Utf16Be => 2,
    }
}

/// A unit of text, its low byte first or last.
pub open spec fn unit_of(bytes: Seq<u8>, encoding: DetectedEncoding, i: int) -> int {
    match encoding {
        DetectedEncoding::Utf8 { .. } => bytes[i] as int,
        DetectedEncoding::Utf16Le => bytes[i + 1] * 256 + bytes[i],
        DetectedEncoding::Utf16Be => bytes[i] * 256 + bytes[i + 1],
    }
}

/// Where text starts: behind the mark, if there is one.
pub open spec fn text_start(bytes: Seq<u8>, encoding: DetectedEncoding) -> int {
    let mark = match encoding {
        DetectedEncoding::Utf8 { has_bom: true } => 3int,
        DetectedEncoding::Utf8 { has_bom: false } => 0int,
        DetectedEncoding::Utf16Le => 2int,
        DetectedEncoding::Utf16Be => 2int,
    };
    if bytes.len() < mark {
        bytes.len() as int
    } else {
        mark
    }
}

/// A line starts here because one ended: behind a line feed, and behind a carriage
/// return unless a line feed follows it.
pub open spec fn line_break(bytes: Seq<u8>, encoding: DetectedEncoding, p: int) -> bool {
    let w = unit_size(encoding);
    let first = text_start(bytes, encoding);
    &&& first + w <= p <= bytes.len()
    &&& (p - first) % w == 0
    &&& unit_of(bytes, encoding, p - w) == 0x0a || unit_of(bytes, encoding, p - w) == 0x0d && !(p + w
        <= bytes.len() && unit_of(bytes, encoding, p) == 0x0a)
}

/// All starts of lines behind the first, up to a position.
pub open spec fn breaks_to(bytes: Seq<u8>, encoding: DetectedEncoding, i: int) -> Set<int> {
    Set::new(|p: int| p <= i && line_break(bytes, encoding, p))
}

/// The line with this number starts here.
pub open spec fn starts_line(
    bytes: Seq<u8>,
    encoding: DetectedEncoding,
    number: int,
    start: int,
) -> bool {
    &&& start == text_start(bytes, encoding) || line_break(bytes, encoding, start)
    &&& breaks_to(bytes, encoding, start).finite()
    &&& breaks_to(bytes, encoding, start).len() == number - 1
}

/// A cursor knows its line: as many lines started up to it, and the last of them
/// where it says.
pub open spec fn knows_its_line(
    bytes: Seq<u8>,
    encoding: DetectedEncoding,
    c: Cursor,
) -> bool {
    let first = text_start(bytes, encoding);
    &&& first <= c.offset <= bytes.len()
    &&& c.offset == bytes.len() || (c.offset - first) % unit_size(encoding) == 0
    &&& breaks_to(bytes, encoding, c.offset as int).finite()
    &&& c.line == breaks_to(bytes, encoding, c.offset as int).len() + 1
    &&& c.line <= c.offset + 1
    &&& c.start <= c.offset
    &&& starts_line(bytes, encoding, c.line as int, c.start as int)
}

proof fn lemma_origin(bytes: Seq<u8>, encoding: DetectedEncoding)
    requires
        bytes.len() < usize::MAX,
    ensures
        knows_its_line(bytes, encoding, origin(bytes, encoding)),
        origin(bytes, encoding).offset == text_start(bytes, encoding),
{
    let first = text_start(bytes, encoding);
    assert(breaks_to(bytes, encoding, first) =~= Set::<int>::empty());
}

/// One token on, a cursor still knows its line.
proof fn lemma_after(bytes: Seq<u8>, encoding: DetectedEncoding, c: Cursor)
    requires
        bytes.len() < usize::MAX,
        knows_its_line(bytes, encoding, c),
        c.offset < bytes.len(),
    ensures
        knows_its_line(bytes, encoding, after(bytes, encoding, c)),
        c.offset < after(bytes, encoding, c).offset,
        c.line <= after(bytes, encoding, c).line <= c.line + 1,
        after(bytes, encoding, c).line == c.line ==> after(bytes, encoding, c).start == c.start,
        after(bytes, encoding, c).line > c.line ==> after(bytes, encoding, c).start == after(
            bytes,
            encoding,
            c,
        ).offset,
        forall|p: int|
            c.offset < p < after(bytes, encoding, c).offset ==> !line_break(bytes, encoding, p),
{
    let w = unit_size(encoding);
    let first = text_start(bytes, encoding);
    let i = c.offset as int;
    let next = after(bytes, encoding, c);
    let j = next.offset as int;
    lemma_token(bytes, encoding, i);
    let newline = token(bytes, encoding, i).1;
    let before = breaks_to(bytes, encoding, i);
    let behind = breaks_to(bytes, encoding, j);
    assert(forall|p: int| i < p < j ==> !line_break(bytes, encoding, p));
    assert(line_break(bytes, encoding, j) == newline);
    if newline {
        assert(behind =~= before.insert(j));
        assert(breaks_to(bytes, encoding, next.start as int) == behind);
    } else {
        assert(behind =~= before);
    }
}

/// Every position of a capture knows its line.
pub proof fn positions_know_their_line(bytes: Seq<u8>, encoding: DetectedEncoding, c: Cursor)
    requires
        bytes.len() < usize::MAX,
        is_position(bytes, encoding, c),
    ensures
        knows_its_line(bytes, encoding, c),
{
    lemma_origin(bytes, encoding);
    lemma_walk(bytes, encoding, origin(bytes, encoding), c);
}

proof fn lemma_walk(bytes: Seq<u8>, encoding: DetectedEncoding, from: Cursor, to: Cursor)
    requires
        bytes.len() < usize::MAX,
        knows_its_line(bytes, encoding, from),
        reaches(bytes, encoding, from, to),
    ensures
        knows_its_line(bytes, encoding, to),
    decreases to.offset - from.offset,
{
    if from != to {
        lemma_after(bytes, encoding, from);
        lemma_walk(bytes, encoding, after(bytes, encoding, from), to);
    }
}

/// What a request should come to: a line is found at its start, and is out of range
/// exactly if there are fewer lines; a byte is found where it is, on the line that
/// started last up to it.
pub open spec fn rightly_found(
    bytes: Seq<u8>,
    encoding: DetectedEncoding,
    target: ReadingTarget,
    byte: int,
    found: ReadingSeekState,
) -> bool {
    let lines = breaks_to(bytes, encoding, bytes.len() as int).len() + 1;
    match target {
        ReadingTarget::Line(line) => match found {
            ReadingSeekState::Ready(at) => at.line == line.value && at.offset == at.line_start
                && starts_line(bytes, encoding, line.value as int, at.offset as int) && line.value
                <= lines,
            ReadingSeekState::OutOfRange => line.value > lines,
            _ => false,
        },
        _ => found matches ReadingSeekState::Ready(at) && at.offset == byte && at.line
            == breaks_to(bytes, encoding, byte).len() + 1 && at.line_start <= byte && starts_line(
            bytes,
            encoding,
            at.line as int,
            at.line_start as int,
        ),
    }
}

/// What is found is of the capture and of the request, and selects the range that was
/// asked for.
pub open spec fn tells_of(
    found: ReadingSeekState,
    source: CaptureModel,
    target: ReadingTarget,
    generation: QueryGeneration,
) -> bool {
    found matches ReadingSeekState::Ready(at) ==> {
        &&& at.file == source.file
        &&& at.revision == source.revision
        &&& at.generation == generation
        &&& match target {
            ReadingTarget::Range(range) => at.selection == Some(range),
            _ => at.selection is None,
        }
    }
}

proof fn lemma_more_breaks(bytes: Seq<u8>, encoding: DetectedEncoding, c: Cursor)
    requires
        bytes.len() < usize::MAX,
        knows_its_line(bytes, encoding, c),
    ensures
        breaks_to(bytes, encoding, bytes.len() as int).finite(),
        c.line <= breaks_to(bytes, encoding, bytes.len() as int).len() + 1,
        c.offset == bytes.len() ==> c.line == breaks_to(bytes, encoding, bytes.len() as int).len()
            + 1,
    decreases bytes.len() - c.offset,
{
    if c.offset < bytes.len() {
        lemma_after(bytes, encoding, c);
        lemma_more_breaks(bytes, encoding, after(bytes, encoding, c));
    }
}

proof fn lemma_found(seek: SeekParts, source: CaptureModel, c: Cursor)
    requires
        source.bytes.len() < usize::MAX,
        knows_its_line(source.bytes, seek.encoding, c),
        seek.target matches ReadingTarget::Line(line) ==> c.line <= line.value
            && seek.target_byte is None,
        !(seek.target is Line) ==> (seek.target_byte matches Some(t) && c.offset <= t
            <= source.bytes.len()),
    ensures
        rightly_found(
            source.bytes,
            seek.encoding,
            seek.target,
            seek.target_byte->0 as int,
            seek.found_from(source, c),
        ),
        tells_of(seek.found_from(source, c), source, seek.target, seek.generation),
    decreases source.bytes.len() - c.offset,
{
    let bytes = source.bytes;
    let encoding = seek.encoding;
    lemma_more_breaks(bytes, encoding, c);
    let here = seek.state_at(source, c);
    if here is Pending {
        lemma_after(bytes, encoding, c);
        let next = after(bytes, encoding, c);
        let past = seek.state_past(source, c);
        lemma_more_breaks(bytes, encoding, next);
        if let Some(t) = seek.target_byte {
            if t < next.offset {
                assert(breaks_to(bytes, encoding, t as int) =~= breaks_to(
                    bytes,
                    encoding,
                    c.offset as int,
                ));
            }
        }
        if past is Pending {
            lemma_found(seek, source, next);
        }
    }
}

/// A request finds what it asks for, as the bytes alone tell: the start of a line by
/// its number, or the line of a byte. A byte within the mark counts as the first
/// behind it.
pub proof fn requests_find_lines_by_the_bytes(
    index: IndexModel,
    source: CaptureModel,
    target: ReadingTarget,
    generation: QueryGeneration,
)
    requires
        index.wf(source),
        target matches ReadingTarget::Line(line) ==> line.value > 0,
    ensures
        ({
            let asked = index.request(source, target, generation);
            let first = text_start(source.bytes, index.encoding);
            let byte = match target {
                ReadingTarget::Line(_) => 0int,
                ReadingTarget::Byte(n) => if n < first {
                    first
                } else {
                    n as int
                },
                ReadingTarget::Range(range) => if range.start < first {
                    first
                } else {
                    range.start as int
                },
            };
            let within = match target {
                ReadingTarget::Line(_) => true,
                ReadingTarget::Byte(n) => n <= source.bytes.len(),
                ReadingTarget::Range(range) => range.start <= source.bytes.len() && range.end
                    <= source.bytes.len(),
            };
            &&& asked is Ok <==> generation.owner == source.owner && within
            &&& asked matches Ok(seek) ==> rightly_found(
                source.bytes,
                index.encoding,
                target,
                byte,
                seek.outcome(source),
            ) && tells_of(seek.outcome(source), source, target, generation)
        }),
{
    lemma_origin(source.bytes, index.encoding);
    requests_find_what_a_full_scan_finds(index, source, target, generation);
    if let Ok(seek) = index.request(source, target, generation) {
        lemma_found(seek, source, origin(source.bytes, index.encoding));
    }
}

} // verus!
