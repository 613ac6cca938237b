//! Bounded source windows.
//!
//! A window keeps only the visible bytes and lines plus a little decoding
//! context; it never materializes a whole giant line. Decoding belongs to the
//! host, which hands in the decoded text and how its characters map to original
//! bytes. Decoded ranges are local to the window.
pub mod boundaries;
pub mod rows;

use vstd::layout::size_of;
use vstd::prelude::*;
use vstd::utf8::{
    encode_utf8, encode_utf8_valid_utf8, is_char_boundary, length_of_first_scalar,
    pop_first_scalar, valid_utf8,
};

use crate::capture::{CaptureModel, SourceCapture};
use crate::envelope::text_from_utf8;
use crate::identity::{ArenaOwnerId, ByteRange, FileId, QueryGeneration, SourceRevision};
use crate::memory::wide_size;
use crate::model::maybe;
use crate::search::reader::{
    newline_token, read_unit, token, unit_at, Cursor, DetectedEncoding, IndexModel, ReaderError,
    ReaderIndex, ReadingAnchor, SourceReader,
};
use crate::text::bytes_of;

verus! {

/// Most bytes of one window.
pub const MAX_READING_WINDOW_BYTES: usize = 262_144;

/// Most rows of one window.
pub const MAX_READING_WINDOW_LINES: usize = 4096;

#[derive(Clone, Copy, Debug, PartialEq, Eq, Structural)]
pub struct ReadingWindowOptions {
    pub max_bytes: usize,
    pub max_lines: usize,
}

impl ReadingWindowOptions {
    pub open spec fn valid(self) -> bool {
        4 <= self.max_bytes <= MAX_READING_WINDOW_BYTES && 1 <= self.max_lines
            <= MAX_READING_WINDOW_LINES
    }
}

impl Default for ReadingWindowOptions {
    fn default() -> (r: Self)
        ensures
            r == (ReadingWindowOptions { max_bytes: 32_768, max_lines: 100 }),
    {
        ReadingWindowOptions { max_bytes: 32_768, max_lines: 100 }
    }
}

#[derive(Clone, Copy, Debug, PartialEq, Eq, Structural)]
pub enum LineEnding {
    NoEnding,
    Lf,
    Cr,
    CrLf,
}

/// A range of decoded UTF-8 bytes, local to a window.
#[derive(Clone, Copy, Debug, PartialEq, Eq, Structural)]
pub struct DecodedUtf8Range {
    pub start: u64,
    pub end: u64,
}

#[derive(Clone, Copy, Debug, PartialEq, Eq, Structural)]
pub struct ReadingLine {
    pub number: u64,
    /// Visible original bytes, the row's terminator included.
    pub raw_range: ByteRange,
    /// Visible original bytes without the terminator.
    pub content_range: ByteRange,
    /// Decoded bytes without the terminator, local to the window.
    pub text_range: DecodedUtf8Range,
    pub ending: LineEnding,
    pub continued_before: bool,
    pub continued_after: bool,
}

/// How a stretch of decoded text came about.
#[derive(Clone, Copy, Debug, PartialEq, Eq, Structural)]
pub enum SpanKind {
    Exact,
    ReplacementMalformed,
    EscapedByte,
}

/// One decoded character and the original bytes it stands for.
#[derive(Clone, Copy, Debug, PartialEq, Eq, Structural)]
pub struct MappingSpan {
    pub raw_start: u64,
    pub raw_end: u64,
    pub decoded_start: u64,
    pub decoded_end: u64,
    pub kind: SpanKind,
}

/// Decoded text and where its characters come from.
#[derive(Debug)]
pub struct WindowMap<T = String, S = Vec<MappingSpan>> {
    pub text: T,
    pub raw_base: u64,
    pub spans: S,
}

/// The model of a map: the text by its bytes.
pub type MapModel = WindowMap<Seq<u8>, Seq<MappingSpan>>;

impl View for WindowMap {
    type V = WindowMap<Seq<u8>, Seq<MappingSpan>>;

    open spec fn view(&self) -> WindowMap<Seq<u8>, Seq<MappingSpan>> {
        WindowMap {
            text: encode_utf8(self.text@),
            raw_base: self.raw_base,
            spans: self.spans@,
        }
    }
}

/// The decoded offset of an original one, from the `i`th span on.
pub open spec fn decoded_from(spans: Seq<MappingSpan>, offset: u64, i: int) -> Option<u64>
    decreases spans.len() - i,
{
    if i < 0 || i >= spans.len() {
        None
    } else if spans[i].raw_start == offset {
        Some(spans[i].decoded_start)
    } else if spans[i].raw_end == offset {
        Some(spans[i].decoded_end)
    } else {
        decoded_from(spans, offset, i + 1)
    }
}

/// The original offset of a decoded one, from the `i`th span on.
pub open spec fn raw_from(spans: Seq<MappingSpan>, offset: u64, i: int) -> Option<u64>
    decreases spans.len() - i,
{
    if i < 0 || i >= spans.len() {
        None
    } else if spans[i].decoded_start == offset {
        Some(spans[i].raw_start)
    } else if spans[i].decoded_end == offset {
        Some(spans[i].raw_end)
    } else {
        raw_from(spans, offset, i + 1)
    }
}

impl MapModel {
    /// The decoded offset of an original one, if a character starts or ends
    /// there.
    pub open spec fn decoded(self, offset: u64) -> Option<u64> {
        if offset == self.raw_base {
            Some(0)
        } else {
            decoded_from(self.spans, offset, 0)
        }
    }

    /// The original offset of a decoded one, if a character starts or ends
    /// there.
    pub open spec fn raw(self, offset: u64) -> Option<u64> {
        if self.spans.len() == 0 && offset == 0 {
            Some(self.raw_base)
        } else {
            raw_from(self.spans, offset, 0)
        }
    }

    /// Whether any character in a range of original bytes is a replacement.
    pub open spec fn replaces(self, range: ByteRange) -> bool {
        exists|i: int|
            0 <= i < self.spans.len() && (#[trigger] self.spans[i]).raw_start < range.end
                && self.spans[i].raw_end > range.start && !(self.spans[i].kind is Exact)
    }
}

impl WindowMap {
    pub(crate) fn byte_to_decoded_utf8_offset(&self, offset: u64) -> (r: Option<u64>)
        ensures
            r == self@.decoded(offset),
    {
        if offset == self.raw_base {
            return Some(0);
        }
        let mut i: usize = 0;
        while i < self.spans.len()
            invariant
                i <= self.spans@.len(),
                offset != self.raw_base,
                decoded_from(self.spans@, offset, i as int) == decoded_from(self.spans@, offset, 0),
            decreases self.spans.len() - i,
        {
            let span = self.spans[i];
            if span.raw_start == offset {
                return Some(span.decoded_start);
            }
            if span.raw_end == offset {
                return Some(span.decoded_end);
            }
            i = i + 1;
        }
        None
    }

    pub(crate) fn decoded_to_byte_offset(&self, offset: u64) -> (r: Option<u64>)
        ensures
            r == self@.raw(offset),
    {
        if self.spans.len() == 0 && offset == 0 {
            return Some(self.raw_base);
        }
        let mut i: usize = 0;
        while i < self.spans.len()
            invariant
                i <= self.spans@.len(),
                !(self.spans@.len() == 0 && offset == 0),
                raw_from(self.spans@, offset, i as int) == raw_from(self.spans@, offset, 0),
            decreases self.spans.len() - i,
        {
            let span = self.spans[i];
            if span.decoded_start == offset {
                return Some(span.raw_start);
            }
            if span.decoded_end == offset {
                return Some(span.raw_end);
            }
            i = i + 1;
        }
        None
    }

    pub(crate) fn replacements_in(&self, range: ByteRange) -> (r: bool)
        ensures
            r == self@.replaces(range),
    {
        let mut i: usize = 0;
        while i < self.spans.len()
            invariant
                i <= self.spans@.len(),
                forall|k: int|
                    0 <= k < i ==> !((#[trigger] self.spans@[k]).raw_start < range.end
                        && self.spans@[k].raw_end > range.start && !(self.spans@[k].kind is Exact)),
            decreases self.spans.len() - i,
        {
            let span = self.spans[i];
            let exact = match span.kind {
                SpanKind::Exact => true,
                _ => false,
            };
            if span.raw_start < range.end && span.raw_end > range.start && !exact {
                assert(self@.spans[i as int] == span);
                return true;
            }
            i = i + 1;
        }
        false
    }
}

/// One row found by scanning.
#[derive(Clone, Copy, Debug, PartialEq, Eq, Structural)]
pub struct RowDraft {
    pub start: usize,
    pub content_end: usize,
    pub end: usize,
    pub ending: LineEnding,
    pub next: Option<Cursor>,
}

/// What a window will hold.
#[derive(Clone, Copy, Debug, PartialEq, Eq, Structural)]
pub struct WindowPlan {
    pub end: usize,
    pub rows: usize,
    pub next: Option<Cursor>,
}

/// The kind of the terminator at a position.
pub open spec fn ending_at(bytes: Seq<u8>, encoding: DetectedEncoding, i: int) -> LineEnding {
    if token(bytes, encoding, i).0 == encoding.unit() * 2 {
        LineEnding::CrLf
    } else if unit_at(bytes, encoding, i) == 13 {
        LineEnding::Cr
    } else {
        LineEnding::Lf
    }
}

/// The row that starts at a cursor, scanned from `at` on and no further than
/// `limit`.
pub open spec fn row_from(
    bytes: Seq<u8>,
    encoding: DetectedEncoding,
    c: Cursor,
    at: int,
    limit: int,
) -> Result<RowDraft, ReaderError>
    decreases limit - at,
{
    let (width, newline) = token(bytes, encoding, at);
    if at >= limit {
        Ok(
            RowDraft {
                start: c.offset,
                content_end: at as usize,
                end: at as usize,
                ending: LineEnding::NoEnding,
                next: if at < bytes.len() {
                    Some(Cursor { offset: at as usize, ..c })
                } else {
                    None
                },
            },
        )
    } else if width > limit - at || width <= 0 {
        Err(ReaderError::EncodingError)
    } else if newline {
        if c.line == u64::MAX {
            Err(ReaderError::InvalidRange)
        } else {
            let end = (at + width) as usize;
            Ok(
                RowDraft {
                    start: c.offset,
                    content_end: at as usize,
                    end,
                    ending: ending_at(bytes, encoding, at),
                    next: Some(Cursor { offset: end, line: (c.line + 1) as u64, start: end }),
                },
            )
        }
    } else {
        row_from(bytes, encoding, c, at + width, limit)
    }
}

/// The row that starts at a cursor.
pub open spec fn row_at(bytes: Seq<u8>, encoding: DetectedEncoding, c: Cursor, limit: int) -> Result<
    RowDraft,
    ReaderError,
> {
    row_from(bytes, encoding, c, c.offset as int, limit)
}

/// The plan of the rows from a cursor on, after so many rows.
pub open spec fn plan_from(
    bytes: Seq<u8>,
    encoding: DetectedEncoding,
    c: Cursor,
    limit: int,
    max_lines: int,
    rows: int,
) -> Result<WindowPlan, ReaderError>
    decreases max_lines - rows,
{
    match row_at(bytes, encoding, c, limit) {
        Err(e) => Err(e),
        Ok(row) => {
            let last = Ok(WindowPlan { end: row.end, rows: (rows + 1) as usize, next: row.next });
            match row.next {
                Some(next) => if rows + 1 < max_lines && (next.offset < limit || limit
                    == bytes.len()) {
                    plan_from(bytes, encoding, next, limit, max_lines, rows + 1)
                } else {
                    last
                },
                None => last,
            }
        },
    }
}

/// Whether the bytes from `start` are one whole character that ends beyond
/// `offset`.
pub open spec fn spans_over(bytes: Seq<u8>, start: int, offset: int) -> bool {
    let width: int = if 0xc2 <= bytes[start] <= 0xdf {
        2
    } else if 0xe0 <= bytes[start] <= 0xef {
        3
    } else if 0xf0 <= bytes[start] <= 0xf4 {
        4
    } else {
        1
    };
    start + width > offset && start + width <= bytes.len() && valid_utf8(
        bytes.subrange(start, start + width),
    )
}

/// The start of the character that an offset is inside of, looked for from
/// `start` on.
pub open spec fn character_start(bytes: Seq<u8>, start: int, offset: int) -> int
    decreases offset - start,
{
    if start >= offset {
        offset
    } else if spans_over(bytes, start, offset) {
        start
    } else {
        character_start(bytes, start + 1, offset)
    }
}

/// The nearest place at or before an offset that splits no character, no pair
/// of surrogates and no CRLF.
pub open spec fn floor_of(bytes: Seq<u8>, encoding: DetectedEncoding, offset: int) -> int {
    if offset >= bytes.len() {
        bytes.len() as int
    } else if encoding.wide() {
        let even = offset - offset % 2;
        if even >= 2 && even + 1 < bytes.len() && {
            let previous = unit_at(bytes, encoding, even - 2);
            let current = unit_at(bytes, encoding, even);
            (0xd800 <= previous <= 0xdbff && 0xdc00 <= current <= 0xdfff) || (previous == 13
                && current == 10)
        } {
            even - 2
        } else {
            even
        }
    } else {
        let first = if offset < 3 {
            0
        } else {
            offset - 3
        };
        let at = character_start(bytes, first, offset);
        if at > 0 && bytes[at] == 10 && bytes[at - 1] == 13 {
            at - 1
        } else {
            at
        }
    }
}

pub(crate) fn floor_boundary(bytes: &Vec<u8>, encoding: DetectedEncoding, offset: usize) -> (r: usize)
    ensures
        r == floor_of(bytes@, encoding, offset as int),
        r <= bytes@.len(),
        r <= offset || r == bytes@.len(),
{
    let n = bytes.len();
    if offset >= n {
        return n;
    }
    if encoding.is_utf16() {
        let even: usize = offset - offset % 2;
        if even >= 2 && n - even > 1 {
            let previous: u16 = read_unit(bytes, encoding, even - 2);
            let current: u16 = read_unit(bytes, encoding, even);
            if (0xd800 <= previous && previous <= 0xdbff && 0xdc00 <= current && current <= 0xdfff)
                || (previous == 13 && current == 10) {
                return even - 2;
            }
        }
        return even;
    }
    let mut start: usize = if offset < 3 {
        0
    } else {
        offset - 3
    };
    let mut at: usize = offset;
    let ghost found = character_start(bytes@, start as int, offset as int);
    let mut done = false;
    while !done && start < offset
        invariant
            start <= offset < n,
            n == bytes.len(),
            at <= offset,
            !done ==> at == offset && found == character_start(
                bytes@,
                start as int,
                offset as int,
            ),
            done ==> at == found,
        decreases offset - start, if done {
            0int
        } else {
            1int
        },
    {
        let b = bytes[start];
        let width: usize = if 0xc2 <= b && b <= 0xdf {
            2
        } else if 0xe0 <= b && b <= 0xef {
            3
        } else if 0xf0 <= b && b <= 0xf4 {
            4
        } else {
            1
        };
        if width > offset - start && width <= n - start && text_from_utf8(
            bytes_of(bytes, start, start + width),
        ).is_some() {
            at = start;
            done = true;
        } else {
            start = start + 1;
        }
    }
    if at > 0 && bytes[at] == 10 && bytes[at - 1] == 13 {
        at - 1
    } else {
        at
    }
}

/// Whether a step gave up because it was told to.
pub open spec fn gave_up<T, C: FnMut() -> bool>(r: Result<T, ReaderError>, canceled: C) -> bool {
    r matches Err(ReaderError::Canceled) && call_ensures(canceled, (), true)
}

fn scan_row<C: FnMut() -> bool>(
    bytes: &Vec<u8>,
    encoding: DetectedEncoding,
    c: Cursor,
    limit: usize,
    canceled: &mut C,
) -> (r: Result<RowDraft, ReaderError>)
    requires
        limit <= bytes@.len(),
        c.offset <= bytes@.len(),
        call_requires(*old(canceled), ()),
    ensures
        *final(canceled) == *old(canceled),
        gave_up(r, *old(canceled)) || r == row_at(bytes@, encoding, c, limit as int),
        r matches Ok(row) ==> row.start == c.offset && row.start <= row.content_end <= row.end
            <= bytes@.len() && (row.next matches Some(next) ==> next.offset == row.end),
{
    let mut at: usize = c.offset;
    while at < limit
        invariant
            c.offset <= at <= bytes@.len(),
            limit <= bytes.len(),
            *canceled == *old(canceled),
            call_requires(*canceled, ()),
            row_from(bytes@, encoding, c, at as int, limit as int) == row_at(
                bytes@,
                encoding,
                c,
                limit as int,
            ),
        decreases limit - at,
    {
        if canceled() {
            return Err(ReaderError::Canceled);
        }
        let (width, newline) = newline_token(bytes, encoding, at);
        proof {
            crate::search::reader::lemma_token(bytes@, encoding, at as int);
        }
        if width > limit - at {
            return Err(ReaderError::EncodingError);
        }
        if newline {
            let unit: usize = if encoding.is_utf16() {
                2
            } else {
                1
            };
            let ending = if width == unit * 2 {
                LineEnding::CrLf
            } else if read_unit(bytes, encoding, at) == 13 {
                LineEnding::Cr
            } else {
                LineEnding::Lf
            };
            if c.line == u64::MAX {
                return Err(ReaderError::InvalidRange);
            }
            let end: usize = at + width;
            return Ok(
                RowDraft {
                    start: c.offset,
                    content_end: at,
                    end,
                    ending,
                    next: Some(Cursor { offset: end, line: c.line + 1, start: end }),
                },
            );
        }
        at = at + width;
    }
    Ok(
        RowDraft {
            start: c.offset,
            content_end: at,
            end: at,
            ending: LineEnding::NoEnding,
            next: if at < bytes.len() {
                Some(Cursor { offset: at, line: c.line, start: c.start })
            } else {
                None
            },
        },
    )
}

fn plan_window<C: FnMut() -> bool>(
    bytes: &Vec<u8>,
    encoding: DetectedEncoding,
    first: Cursor,
    limit: usize,
    max_lines: usize,
    canceled: &mut C,
) -> (r: Result<WindowPlan, ReaderError>)
    requires
        limit <= bytes@.len(),
        first.offset <= bytes@.len(),
        1 <= max_lines,
        call_requires(*old(canceled), ()),
    ensures
        *final(canceled) == *old(canceled),
        gave_up(r, *old(canceled)) || r == plan_from(
            bytes@,
            encoding,
            first,
            limit as int,
            max_lines as int,
            0,
        ),
        r matches Ok(plan) ==> first.offset <= plan.end <= bytes@.len() && 1 <= plan.rows
            <= max_lines,
{
    let mut c = first;
    let mut rows: usize = 0;
    loop
        invariant
            limit <= bytes@.len(),
            first.offset <= c.offset <= bytes@.len(),
            rows < max_lines,
            *canceled == *old(canceled),
            call_requires(*canceled, ()),
            plan_from(bytes@, encoding, first, limit as int, max_lines as int, 0) == plan_from(
                bytes@,
                encoding,
                c,
                limit as int,
                max_lines as int,
                rows as int,
            ),
        decreases max_lines - rows,
    {
        let row = match scan_row(bytes, encoding, c, limit, canceled) {
            Ok(row) => row,
            Err(e) => {
                return Err(e);
            },
        };
        rows = rows + 1;
        match row.next {
            Some(next) => {
                if rows < max_lines && (next.offset < limit || limit == bytes.len()) {
                    c = next;
                } else {
                    return Ok(WindowPlan { end: row.end, rows, next: row.next });
                }
            },
            None => {
                return Ok(WindowPlan { end: row.end, rows, next: row.next });
            },
        }
    }
}

/// A decoded offset, local to the window.
pub open spec fn local(map: MapModel, base: int, offset: u64) -> Result<u64, ReaderError> {
    match map.decoded(offset) {
        Some(decoded) if decoded >= base => Ok((decoded - base) as u64),
        _ => Err(ReaderError::EncodingError),
    }
}

/// A row as the window shows it.
pub open spec fn line_of(bytes: Seq<u8>, map: MapModel, base: int, c: Cursor, row: RowDraft) -> Result<
    ReadingLine,
    ReaderError,
> {
    match local(map, base, row.start as u64) {
        Err(e) => Err(e),
        Ok(start) => match local(map, base, row.content_end as u64) {
            Err(e) => Err(e),
            Ok(end) => if start > end {
                Err(ReaderError::InvalidRange)
            } else {
                Ok(
                    ReadingLine {
                        number: c.line,
                        raw_range: ByteRange { start: row.start as u64, end: row.end as u64 },
                        content_range: ByteRange {
                            start: row.start as u64,
                            end: row.content_end as u64,
                        },
                        text_range: DecodedUtf8Range { start, end },
                        ending: row.ending,
                        continued_before: row.start > c.start,
                        continued_after: row.ending is NoEnding && row.end < bytes.len(),
                    },
                )
            },
        },
    }
}

/// The cursor after a row.
pub open spec fn next_of(c: Cursor, row: RowDraft) -> Cursor {
    match row.next {
        Some(next) => next,
        None => c,
    }
}

/// So many rows from a cursor on.
pub open spec fn lines_from(
    bytes: Seq<u8>,
    encoding: DetectedEncoding,
    map: MapModel,
    base: int,
    c: Cursor,
    end: int,
    count: int,
) -> Result<Seq<ReadingLine>, ReaderError>
    decreases count,
{
    if count <= 0 {
        Ok(Seq::empty())
    } else {
        match row_at(bytes, encoding, c, end) {
            Err(e) => Err(e),
            Ok(row) => match line_of(bytes, map, base, c, row) {
                Err(e) => Err(e),
                Ok(line) => match lines_from(
                    bytes,
                    encoding,
                    map,
                    base,
                    next_of(c, row),
                    end,
                    count - 1,
                ) {
                    Err(e) => Err(e),
                    Ok(rest) => Ok(seq![line] + rest),
                },
            },
        }
    }
}

/// The model of a window.
pub ghost struct WindowModel {
    pub anchor: ReadingAnchor,
    pub raw_range: ByteRange,
    pub next: Option<ReadingAnchor>,
    pub rows: Seq<ReadingLine>,
    pub map: MapModel,
    pub decoded_base: int,
}

/// What planning a window settles: where it starts, its plan and where decoding
/// starts.
pub open spec fn layout_of(
    index: IndexModel,
    source: CaptureModel,
    anchor: ReadingAnchor,
    options: ReadingWindowOptions,
) -> Result<(Cursor, WindowPlan, int), ReaderError> {
    let bytes = source.bytes;
    let offset = if anchor.offset < index.content_start {
        index.content_start
    } else {
        anchor.offset
    };
    let start = floor_of(bytes, index.encoding, offset as int);
    let limit = floor_of(
        bytes,
        index.encoding,
        if start + options.max_bytes < bytes.len() {
            start + options.max_bytes
        } else {
            bytes.len() as int
        },
    );
    let first = Cursor { offset: start as usize, line: anchor.line, start: anchor.line_start };
    match plan_from(bytes, index.encoding, first, limit, options.max_lines as int, 0) {
        Err(e) => Err(e),
        Ok(plan) => Ok(
            (
                first,
                plan,
                if index.encoding.wide() && start > 0 {
                    floor_of(bytes, index.encoding, start - 1)
                } else {
                    start
                },
            ),
        ),
    }
}

/// Bytes charged for a window.
pub open spec fn window_charge(raw_count: int, rows: int) -> nat {
    ((raw_count + 8) * (4 * size_of::<MappingSpan>() + 16) + rows * size_of::<ReadingLine>()
        + size_of::<ReadingWindow>()) as nat
}

/// A window of planned rows, given the decoded text.
pub open spec fn assembled(
    index: IndexModel,
    source: CaptureModel,
    anchor: ReadingAnchor,
    layout: (Cursor, WindowPlan, int),
    map: MapModel,
) -> Result<WindowModel, ReaderError> {
    let (first, plan, map_start) = layout;
    match map.decoded(first.offset as u64) {
        None => Err(ReaderError::EncodingError),
        Some(base) => if !is_char_boundary(map.text, base as int) || base > usize::MAX {
            Err(ReaderError::EncodingError)
        } else {
            match lines_from(
                source.bytes,
                index.encoding,
                map,
                base as int,
                first,
                plan.end as int,
                plan.rows as int,
            ) {
                Err(e) => Err(e),
                Ok(rows) => Ok(
                    WindowModel {
                        anchor,
                        raw_range: ByteRange { start: first.offset as u64, end: plan.end as u64 },
                        next: match plan.next {
                            Some(c) => Some(
                                ReadingAnchor {
                                    offset: c.offset,
                                    line: c.line,
                                    line_start: c.start,
                                    ..anchor
                                },
                            ),
                            None => None,
                        },
                        rows,
                        map,
                        decoded_base: base as int,
                    },
                ),
            }
        },
    }
}

/// What a window request gives when nothing is canceled, given whether memory
/// was granted and the decoded text.
pub open spec fn windowed(
    index: IndexModel,
    source: CaptureModel,
    anchor: ReadingAnchor,
    generation: QueryGeneration,
    options: ReadingWindowOptions,
    granted: bool,
    decoded: Option<MapModel>,
) -> Result<WindowModel, ReaderError> {
    match anchor.refusal(source, generation) {
        Some(e) => Err(e),
        None => if !options.valid() {
            Err(ReaderError::InvalidLimits)
        } else {
            match layout_of(index, source, anchor, options) {
                Err(e) => Err(e),
                Ok(layout) => if window_charge(layout.1.end - layout.2, layout.1.rows as int)
                    > usize::MAX {
                    Err(ReaderError::InvalidLimits)
                } else if !granted {
                    Err(ReaderError::ResourceDenied)
                } else {
                    match decoded {
                        None => Err(ReaderError::EncodingError),
                        Some(map) => assembled(index, source, anchor, layout, map),
                    }
                },
            }
        },
    }
}

/// Decoded text of a selection with its original bytes.
#[derive(Clone, Copy, Debug, PartialEq, Eq)]
pub struct ReadingSelection<'a> {
    pub text: &'a str,
    pub original_bytes: &'a [u8],
    pub original_range: ByteRange,
    pub contains_replacements: bool,
}

/// What a frame shows of a source.
#[derive(Clone, Copy, Debug, PartialEq, Eq, Structural)]
pub struct FramePlan {
    pub owner: ArenaOwnerId,
    pub file: FileId,
    pub revision: SourceRevision,
    pub range: ByteRange,
}

/// A bounded window of a capture.
#[derive(Debug)]
pub struct ReadingWindow<'source> {
    pub source: &'source SourceCapture,
    pub anchor: ReadingAnchor,
    pub raw_range: ByteRange,
    pub next: Option<ReadingAnchor>,
    pub rows: Vec<ReadingLine>,
    pub map: WindowMap,
    pub decoded_base: usize,
}

impl<'source> View for ReadingWindow<'source> {
    type V = WindowModel;

    open spec fn view(&self) -> WindowModel {
        WindowModel {
            anchor: self.anchor,
            raw_range: self.raw_range,
            next: self.next,
            rows: self.rows@,
            map: self.map@,
            decoded_base: self.decoded_base as int,
        }
    }
}

/// The stretch of a text between two offsets, where neither splits a character.
pub open spec fn slice_of(text: Seq<u8>, start: int, end: int) -> Option<Seq<u8>> {
    if start <= end && is_char_boundary(text, start) && is_char_boundary(text, end) {
        Some(text.subrange(start, end))
    } else {
        None
    }
}

impl WindowModel {
    /// The text starts at a character.
    pub open spec fn wf(self) -> bool {
        &&& valid_utf8(self.map.text)
        &&& 0 <= self.decoded_base <= self.map.text.len()
        &&& is_char_boundary(self.map.text, self.decoded_base)
    }

    /// The bytes of the window's text.
    pub open spec fn text(self) -> Seq<u8> {
        self.map.text.subrange(self.decoded_base, self.map.text.len() as int)
    }

    /// The original bytes that a decoded range stands for.
    pub open spec fn raw_of(self, range: DecodedUtf8Range, source: CaptureModel) -> Result<
        ByteRange,
        ReaderError,
    > {
        if range.end > usize::MAX || self.decoded_base + range.end > u64::MAX || slice_of(
            self.text(),
            range.start as int,
            range.end as int,
        ) is None {
            Err(ReaderError::InvalidRange)
        } else {
            match (
                self.map.raw((self.decoded_base + range.start) as u64),
                self.map.raw((self.decoded_base + range.end) as u64),
            ) {
                (Some(start), Some(end)) => if start <= end && end <= source.bytes.len() {
                    Ok(ByteRange { start, end })
                } else {
                    Err(ReaderError::InvalidRange)
                },
                _ => Err(ReaderError::InvalidRange),
            }
        }
    }

    /// The decoded range of original bytes.
    pub open spec fn text_of(self, range: ByteRange) -> Result<DecodedUtf8Range, ReaderError> {
        if range.start < self.raw_range.start || range.end > self.raw_range.end {
            Err(ReaderError::InvalidRange)
        } else {
            match (
                local(self.map, self.decoded_base, range.start),
                local(self.map, self.decoded_base, range.end),
            ) {
                (Ok(start), Ok(end)) => if start <= end {
                    Ok(DecodedUtf8Range { start, end })
                } else {
                    Err(ReaderError::InvalidRange)
                },
                _ => Err(ReaderError::InvalidRange),
            }
        }
    }
}

/// A stretch of a text, where neither end splits a character.
pub(crate) fn slice_text<'a>(text: &'a str, start: usize, end: usize) -> (r: Option<&'a str>)
    ensures
        match slice_of(encode_utf8(text@), start as int, end as int) {
            Some(bytes) => r matches Some(t) && encode_utf8(t@) == bytes,
            None => r is None,
        },
{
    if start > end || !text.is_char_boundary(start) || !text.is_char_boundary(end) {
        return None;
    }
    proof {
        encode_utf8_valid_utf8(text@);
        lemma_boundary_suffix(encode_utf8(text@), start as int, end as int);
    }
    let (_, tail) = text.split_at(start);
    let (middle, _) = tail.split_at(end - start);
    assert(encode_utf8(middle@) =~= encode_utf8(text@).subrange(start as int, end as int));
    Some(middle)
}

/// A later boundary of a text is one of the text from an earlier boundary on.
proof fn lemma_boundary_suffix(bytes: Seq<u8>, start: int, end: int)
    requires
        valid_utf8(bytes),
        start <= end,
        is_char_boundary(bytes, start),
        is_char_boundary(bytes, end),
    ensures
        0 <= start <= end <= bytes.len(),
        is_char_boundary(bytes.subrange(start, bytes.len() as int), end - start),
    decreases bytes.len(),
{
    if start == 0 {
        assert(bytes.subrange(0, bytes.len() as int) =~= bytes);
    } else {
        let rest = pop_first_scalar(bytes);
        let width = length_of_first_scalar(bytes);
        lemma_boundary_suffix(rest, start - width, end - width);
        assert(rest.subrange(start - width, rest.len() as int) =~= bytes.subrange(
            start,
            bytes.len() as int,
        ));
    }
}

impl<'source> ReadingWindow<'source> {
    pub fn anchor(&self) -> (r: ReadingAnchor)
        ensures
            r == self@.anchor,
    {
        self.anchor
    }

    pub fn raw_range(&self) -> (r: ByteRange)
        ensures
            r == self@.raw_range,
    {
        self.raw_range
    }

    pub fn next_anchor(&self) -> (r: Option<ReadingAnchor>)
        ensures
            r == self@.next,
    {
        self.next
    }

    pub fn lines(&self) -> (r: &Vec<ReadingLine>)
        ensures
            r@ == self@.rows,
    {
        &self.rows
    }

    pub fn text(&self) -> (r: &str)
        requires
            self@.wf(),
        ensures
            encode_utf8(r@) == self@.text(),
    {
        let (_, tail) = self.map.text.as_str().split_at(self.decoded_base);
        tail
    }

    pub fn line_text(&self, row: usize) -> (r: Option<&str>)
        requires
            self@.wf(),
        ensures
            match (if row < self@.rows.len() && self@.rows[row as int].text_range.end
                <= usize::MAX {
                let range = self@.rows[row as int].text_range;
                slice_of(self@.text(), range.start as int, range.end as int)
            } else {
                None
            }) {
                Some(bytes) => r matches Some(t) && encode_utf8(t@) == bytes,
                None => r is None,
            },
    {
        if row >= self.rows.len() {
            return None;
        }
        let range = self.rows[row].text_range;
        if range.end > usize::MAX as u64 || range.start > range.end {
            return None;
        }
        slice_text(self.text(), range.start as usize, range.end as usize)
    }

    pub fn has_replacements(&self) -> (r: bool)
        ensures
            r == self@.map.replaces(self@.raw_range),
    {
        self.map.replacements_in(self.raw_range)
    }

    pub fn reaches_eof(&self) -> (r: bool)
        ensures
            r == self@.next is None,
    {
        self.next.is_none()
    }

    pub fn frame_plan(&self) -> (r: FramePlan)
        ensures
            r == (FramePlan {
                owner: self.source@.owner,
                file: self.source@.file,
                revision: self.source@.revision,
                range: self@.raw_range,
            }),
    {
        FramePlan {
            owner: self.source.owner,
            file: self.source.file,
            revision: self.source.revision,
            range: self.raw_range,
        }
    }

    pub fn validate_delivery(&self, source: &SourceCapture, generation: QueryGeneration) -> (r:
        Result<(), ReaderError>)
        ensures
            r == (match self@.anchor.refusal(source@, generation) {
                Some(e) => Err::<(), ReaderError>(e),
                None => Ok(()),
            }),
    {
        self.anchor.validate_delivery(source, generation)
    }

    /// A decoded selection must end on character boundaries. Offsets inside a
    /// character and out of the window are refused.
    pub fn text_selection(&self, range: DecodedUtf8Range) -> (r: Result<
        ReadingSelection<'_>,
        ReaderError,
    >)
        requires
            self@.wf(),
        ensures
            match self@.raw_of(range, self.source@) {
                Err(e) => r matches Err(f) && f == e,
                Ok(raw) => r matches Ok(selection) && selection.original_range == raw
                    && encode_utf8(selection.text@) == self@.text().subrange(
                    range.start as int,
                    range.end as int,
                ) && selection.original_bytes@ == self.source@.bytes.subrange(
                    raw.start as int,
                    raw.end as int,
                ) && selection.contains_replacements == self@.map.replaces(raw),
            },
    {
        if range.end > usize::MAX as u64 || range.start > range.end {
            return Err(ReaderError::InvalidRange);
        }
        let start: usize = range.start as usize;
        let end: usize = range.end as usize;
        let base: u64 = self.decoded_base as u64;
        if range.end > u64::MAX - base {
            return Err(ReaderError::InvalidRange);
        }
        let text = match slice_text(self.text(), start, end) {
            Some(text) => text,
            None => {
                return Err(ReaderError::InvalidRange);
            },
        };
        let first: u64 = match self.map.decoded_to_byte_offset(base + range.start) {
            Some(first) => first,
            None => {
                return Err(ReaderError::InvalidRange);
            },
        };
        let last: u64 = match self.map.decoded_to_byte_offset(base + range.end) {
            Some(last) => last,
            None => {
                return Err(ReaderError::InvalidRange);
            },
        };
        if first > last || last > self.source.bytes.len() as u64 {
            return Err(ReaderError::InvalidRange);
        }
        let raw = ByteRange { start: first, end: last };
        let original_bytes = vstd::slice::slice_subrange(
            self.source.bytes.as_slice(),
            first as usize,
            last as usize,
        );
        Ok(
            ReadingSelection {
                text,
                original_bytes,
                original_range: raw,
                contains_replacements: self.map.replacements_in(raw),
            },
        )
    }

    /// The decoded range of original bytes, local to the window. Bytes inside a
    /// character have none.
    pub fn source_to_text(&self, range: ByteRange) -> (r: Result<DecodedUtf8Range, ReaderError>)
        ensures
            r == self@.text_of(range),
    {
        if range.start < self.raw_range.start || range.end > self.raw_range.end {
            return Err(ReaderError::InvalidRange);
        }
        let base: u64 = self.decoded_base as u64;
        let start: u64 = match self.map.byte_to_decoded_utf8_offset(range.start) {
            Some(n) => n,
            None => {
                return Err(ReaderError::InvalidRange);
            },
        };
        let end: u64 = match self.map.byte_to_decoded_utf8_offset(range.end) {
            Some(n) => n,
            None => {
                return Err(ReaderError::InvalidRange);
            },
        };
        if start < base || end < base || start > end {
            return Err(ReaderError::InvalidRange);
        }
        Ok(DecodedUtf8Range { start: start - base, end: end - base })
    }
}

fn local_offset(map: &WindowMap, base: u64, offset: u64) -> (r: Result<u64, ReaderError>)
    ensures
        r == local(map@, base as int, offset),
{
    match map.byte_to_decoded_utf8_offset(offset) {
        Some(decoded) => if decoded >= base {
            Ok(decoded - base)
        } else {
            Err(ReaderError::EncodingError)
        },
        None => Err(ReaderError::EncodingError),
    }
}

fn read_line(bytes: &Vec<u8>, map: &WindowMap, base: u64, c: Cursor, row: RowDraft) -> (r: Result<
    ReadingLine,
    ReaderError,
>)
    ensures
        r == line_of(bytes@, map@, base as int, c, row),
{
    let start: u64 = match local_offset(map, base, row.start as u64) {
        Ok(n) => n,
        Err(e) => {
            return Err(e);
        },
    };
    let end: u64 = match local_offset(map, base, row.content_end as u64) {
        Ok(n) => n,
        Err(e) => {
            return Err(e);
        },
    };
    if start > end {
        return Err(ReaderError::InvalidRange);
    }
    let open = match row.ending {
        LineEnding::NoEnding => true,
        _ => false,
    };
    Ok(
        ReadingLine {
            number: c.line,
            raw_range: ByteRange { start: row.start as u64, end: row.end as u64 },
            content_range: ByteRange { start: row.start as u64, end: row.content_end as u64 },
            text_range: DecodedUtf8Range { start, end },
            ending: row.ending,
            continued_before: row.start > c.start,
            continued_after: open && row.end < bytes.len(),
        },
    )
}

fn read_lines<C: FnMut() -> bool>(
    bytes: &Vec<u8>,
    encoding: DetectedEncoding,
    map: &WindowMap,
    base: u64,
    first: Cursor,
    end: usize,
    count: usize,
    canceled: &mut C,
) -> (r: Result<Vec<ReadingLine>, ReaderError>)
    requires
        end <= bytes@.len(),
        first.offset <= bytes@.len(),
        call_requires(*old(canceled), ()),
    ensures
        *final(canceled) == *old(canceled),
        gave_up(r, *old(canceled)) || match lines_from(
            bytes@,
            encoding,
            map@,
            base as int,
            first,
            end as int,
            count as int,
        ) {
            Ok(rows) => r matches Ok(out) && out@ == rows,
            Err(e) => r matches Err(f) && f == e,
        },
{
    let mut out: Vec<ReadingLine> = Vec::new();
    let mut c = first;
    let mut done: usize = 0;
    let ghost all = lines_from(
        bytes@,
        encoding,
        map@,
        base as int,
        first,
        end as int,
        count as int,
    );
    assert(all is Ok ==> out@ + all->Ok_0 =~= all->Ok_0);
    while done < count
        invariant
            done <= count,
            end <= bytes@.len(),
            c.offset <= bytes@.len(),
            *canceled == *old(canceled),
            call_requires(*canceled, ()),
            all == lines_from(
                bytes@,
                encoding,
                map@,
                base as int,
                first,
                end as int,
                count as int,
            ),
            match lines_from(
                bytes@,
                encoding,
                map@,
                base as int,
                c,
                end as int,
                count - done,
            ) {
                Ok(rest) => all == Ok::<Seq<ReadingLine>, ReaderError>(out@ + rest),
                Err(e) => all == Err::<Seq<ReadingLine>, ReaderError>(e),
            },
        decreases count - done,
    {
        let row = match scan_row(bytes, encoding, c, end, canceled) {
            Ok(row) => row,
            Err(e) => {
                return Err(e);
            },
        };
        let line = match read_line(bytes, map, base, c, row) {
            Ok(line) => line,
            Err(e) => {
                return Err(e);
            },
        };
        let ghost before = out@;
        out.push(line);
        match row.next {
            Some(next) => {
                c = next;
            },
            None => {},
        }
        done = done + 1;
        proof {
            let rest = lines_from(
                bytes@,
                encoding,
                map@,
                base as int,
                c,
                end as int,
                count - done,
            );
            if rest is Ok {
                assert(before + (seq![line] + rest->Ok_0) =~= out@ + rest->Ok_0);
            }
        }
    }
    assert(all is Ok ==> out@ =~= all->Ok_0);
    Ok(out)
}

impl ReaderIndex {
    /// Plans a window.
    fn layout<C: FnMut() -> bool>(
        &self,
        source: &SourceCapture,
        anchor: ReadingAnchor,
        options: ReadingWindowOptions,
        canceled: &mut C,
    ) -> (r: Result<(Cursor, WindowPlan, usize), ReaderError>)
        requires
            options.valid(),
            call_requires(*old(canceled), ()),
        ensures
            *final(canceled) == *old(canceled),
            gave_up(r, *old(canceled)) || match layout_of(self@, source@, anchor, options) {
                Ok((first, plan, map_start)) => r == Ok::<
                    (Cursor, WindowPlan, usize),
                    ReaderError,
                >((first, plan, map_start as usize)) && 0 <= map_start <= usize::MAX,
                Err(e) => r == Err::<(Cursor, WindowPlan, usize), ReaderError>(e),
            },
            r matches Ok((first, plan, map_start)) ==> map_start <= first.offset <= plan.end
                <= source@.bytes.len() && 1 <= plan.rows <= options.max_lines,
    {
        let bytes = &source.bytes;
        let offset: usize = if anchor.offset < self.content_start {
            self.content_start
        } else {
            anchor.offset
        };
        let start: usize = floor_boundary(bytes, self.encoding, offset);
        let far: usize = if options.max_bytes < bytes.len() - start {
            start + options.max_bytes
        } else {
            bytes.len()
        };
        let limit: usize = floor_boundary(bytes, self.encoding, far);
        let first = Cursor { offset: start, line: anchor.line, start: anchor.line_start };
        let plan = match plan_window(
            bytes,
            self.encoding,
            first,
            limit,
            options.max_lines,
            canceled,
        ) {
            Ok(plan) => plan,
            Err(e) => {
                return Err(e);
            },
        };
        let map_start: usize = if self.encoding.is_utf16() && start > 0 {
            floor_boundary(bytes, self.encoding, start - 1)
        } else {
            start
        };
        Ok((first, plan, map_start))
    }

    /// Assembles a planned window, given the decoded text.
    fn assemble<'source, C: FnMut() -> bool>(
        &self,
        source: &'source SourceCapture,
        anchor: ReadingAnchor,
        first: Cursor,
        plan: WindowPlan,
        map: WindowMap,
        canceled: &mut C,
    ) -> (r: Result<ReadingWindow<'source>, ReaderError>)
        requires
            first.offset <= plan.end <= source@.bytes.len(),
            call_requires(*old(canceled), ()),
        ensures
            *final(canceled) == *old(canceled),
            gave_up(r, *old(canceled)) || match assembled(
                self@,
                source@,
                anchor,
                (first, plan, 0),
                map@,
            ) {
                Ok(window) => r matches Ok(w) && w@ == window && w.source == source && w@.wf(),
                Err(e) => r matches Err(f) && f == e,
            },
    {
        let base: u64 = match map.byte_to_decoded_utf8_offset(first.offset as u64) {
            Some(base) => base,
            None => {
                return Err(ReaderError::EncodingError);
            },
        };
        if base > usize::MAX as u64 || !map.text.as_str().is_char_boundary(base as usize) {
            return Err(ReaderError::EncodingError);
        }
        proof {
            encode_utf8_valid_utf8(map.text@);
            lemma_boundary_suffix(map@.text, base as int, base as int);
        }
        let rows = match read_lines(
            &source.bytes,
            self.encoding,
            &map,
            base,
            first,
            plan.end,
            plan.rows,
            canceled,
        ) {
            Ok(rows) => rows,
            Err(e) => {
                return Err(e);
            },
        };
        let next: Option<ReadingAnchor> = match plan.next {
            Some(c) => Some(
                ReadingAnchor {
                    file: anchor.file,
                    revision: anchor.revision,
                    generation: anchor.generation,
                    line: c.line,
                    line_start: c.start,
                    offset: c.offset,
                    selection: anchor.selection,
                },
            ),
            None => None,
        };
        Ok(
            ReadingWindow {
                source,
                anchor,
                raw_range: ByteRange { start: first.offset as u64, end: plan.end as u64 },
                next,
                rows,
                map,
                decoded_base: base as usize,
            },
        )
    }

    /// Produces a bounded window. `decode` is handed where decoding starts and
    /// ends and the encoding to read, without a mark: a window starts behind it.
    /// It gives nothing if the bytes cannot be decoded.
    pub fn window<
        'source,
        A: FnOnce(u64) -> bool,
        D: FnOnce(usize, usize, DetectedEncoding) -> Option<WindowMap>,
        C: FnMut() -> bool,
    >(
        &self,
        source: &'source SourceCapture,
        anchor: ReadingAnchor,
        active_generation: QueryGeneration,
        options: ReadingWindowOptions,
        reserve: A,
        decode: D,
        mut canceled: C,
    ) -> (r: Result<ReadingWindow<'source>, ReaderError>)
        requires
            forall|charge: u64| call_requires(reserve, (charge,)),
            forall|from: usize, to: usize, e: DetectedEncoding|
                from <= to <= source@.bytes.len() ==> call_requires(decode, (from, to, e)),
            call_requires(canceled, ()),
        ensures
            r matches Ok(window) ==> window@.wf() && window.source == source,
            gave_up(r, canceled) || exists|granted: bool, decoded: Option<WindowMap>|
                #[trigger] window_answers(
                    self@,
                    source@,
                    anchor,
                    active_generation,
                    options,
                    granted,
                    decoded,
                    reserve,
                    decode,
                ) && is_window(
                    r,
                    windowed(
                        self@,
                        source@,
                        anchor,
                        active_generation,
                        options,
                        granted,
                        maybe(decoded),
                    ),
                ),
    {
        let ghost asked = |granted: bool, decoded: Option<WindowMap>|
            window_answers(
                self@,
                source@,
                anchor,
                active_generation,
                options,
                granted,
                decoded,
                reserve,
                decode,
            );
        match anchor.validate_delivery(source, active_generation) {
            Ok(()) => {},
            Err(e) => {
                assert(asked(false, None));
                return Err(e);
            },
        }
        if options.max_bytes < 4 || options.max_bytes > MAX_READING_WINDOW_BYTES
            || options.max_lines < 1 || options.max_lines > MAX_READING_WINDOW_LINES {
            assert(asked(false, None));
            return Err(ReaderError::InvalidLimits);
        }
        if canceled() {
            return Err(ReaderError::Canceled);
        }
        let (first, plan, map_start) = match self.layout(source, anchor, options, &mut canceled) {
            Ok(layout) => layout,
            Err(e) => {
                proof {
                    if layout_of(self@, source@, anchor, options) is Err {
                        assert(asked(false, None));
                    }
                }
                return Err(e);
            },
        };
        let charge: u128 = window_cost(plan.end - map_start, plan.rows);
        if charge > usize::MAX as u128 {
            assert(asked(false, None));
            return Err(ReaderError::InvalidLimits);
        }
        if !reserve(charge as u64) {
            assert(asked(false, None));
            return Err(ReaderError::ResourceDenied);
        }
        if canceled() {
            return Err(ReaderError::Canceled);
        }
        let decoded = decode(map_start, plan.end, self.encoding.without_mark());
        assert(asked(true, decoded));
        let map = match decoded {
            Some(map) => map,
            None => {
                return Err(ReaderError::EncodingError);
            },
        };
        let window = match self.assemble(source, anchor, first, plan, map, &mut canceled) {
            Ok(window) => window,
            Err(e) => {
                return Err(e);
            },
        };
        if canceled() {
            return Err(ReaderError::Canceled);
        }
        Ok(window)
    }

    /// Borrows exact source bytes; marks, CRLF and malformed bytes are
    /// included.
    pub fn raw_selection<'source>(
        source: &'source SourceCapture,
        range: ByteRange,
        max_bytes: usize,
    ) -> (r: Result<&'source [u8], ReaderError>)
        ensures
            if range.end > usize::MAX || range.start > range.end {
                r matches Err(e) && e == ReaderError::InvalidRange
            } else if range.end - range.start > max_bytes {
                r matches Err(e) && e == ReaderError::InvalidLimits
            } else if range.end > source@.bytes.len() {
                r matches Err(e) && e == ReaderError::InvalidRange
            } else {
                r matches Ok(bytes) && bytes@ == source@.bytes.subrange(
                    range.start as int,
                    range.end as int,
                )
            },
    {
        if range.end > usize::MAX as u64 || range.start > range.end {
            return Err(ReaderError::InvalidRange);
        }
        let start: usize = range.start as usize;
        let end: usize = range.end as usize;
        if end - start > max_bytes {
            return Err(ReaderError::InvalidLimits);
        }
        if end > source.bytes.len() {
            return Err(ReaderError::InvalidRange);
        }
        Ok(vstd::slice::slice_subrange(source.bytes.as_slice(), start, end))
    }
}

impl<'source> SourceReader<'source> {
    /// Produces a bounded window of text. At most the allowed bytes and rows
    /// are shown; a character or CRLF at the limit may shorten them.
    pub fn window<
        A: FnOnce(u64) -> bool,
        D: FnOnce(usize, usize, DetectedEncoding) -> Option<WindowMap>,
        C: FnMut() -> bool,
    >(
        &self,
        anchor: ReadingAnchor,
        active_generation: QueryGeneration,
        options: ReadingWindowOptions,
        reserve: A,
        decode: D,
        canceled: C,
    ) -> (r: Result<ReadingWindow<'source>, ReaderError>)
        requires
            forall|charge: u64| call_requires(reserve, (charge,)),
            forall|from: usize, to: usize, e: DetectedEncoding|
                from <= to <= self.source@.bytes.len() ==> call_requires(decode, (from, to, e)),
            call_requires(canceled, ()),
        ensures
            r matches Ok(window) ==> window@.wf() && window.source == self.source,
            gave_up(r, canceled) || exists|granted: bool, decoded: Option<WindowMap>|
                #[trigger] window_answers(
                    self.index@,
                    self.source@,
                    anchor,
                    active_generation,
                    options,
                    granted,
                    decoded,
                    reserve,
                    decode,
                ) && is_window(
                    r,
                    windowed(
                        self.index@,
                        self.source@,
                        anchor,
                        active_generation,
                        options,
                        granted,
                        maybe(decoded),
                    ),
                ),
    {
        self.index.window(
            self.source,
            anchor,
            active_generation,
            options,
            reserve,
            decode,
            canceled,
        )
    }

    /// Borrows exact source bytes; marks, CRLF and malformed bytes are
    /// included.
    pub fn raw_selection(&self, range: ByteRange, max_bytes: usize) -> (r: Result<
        &'source [u8],
        ReaderError,
    >)
        ensures
            if range.end > usize::MAX || range.start > range.end {
                r matches Err(e) && e == ReaderError::InvalidRange
            } else if range.end - range.start > max_bytes {
                r matches Err(e) && e == ReaderError::InvalidLimits
            } else if range.end > self.source@.bytes.len() {
                r matches Err(e) && e == ReaderError::InvalidRange
            } else {
                r matches Ok(bytes) && bytes@ == self.source@.bytes.subrange(
                    range.start as int,
                    range.end as int,
                )
            },
    {
        ReaderIndex::raw_selection(self.source, range, max_bytes)
    }
}

/// Whether a window request answers as a model says.
pub open spec fn is_window(
    r: Result<ReadingWindow<'_>, ReaderError>,
    result: Result<WindowModel, ReaderError>,
) -> bool {
    match result {
        Ok(window) => r matches Ok(w) && w@ == window,
        Err(e) => r matches Err(f) && f == e,
    }
}

/// Whether the answers to a window request are those that its callbacks gave
/// to what they were asked.
pub open spec fn window_answers<
    A: FnOnce(u64) -> bool,
    D: FnOnce(usize, usize, DetectedEncoding) -> Option<WindowMap>,
>(
    index: IndexModel,
    source: CaptureModel,
    anchor: ReadingAnchor,
    generation: QueryGeneration,
    options: ReadingWindowOptions,
    granted: bool,
    decoded: Option<WindowMap>,
    reserve: A,
    decode: D,
) -> bool {
    anchor.refusal(source, generation) is None && options.valid() ==> (layout_of(
        index,
        source,
        anchor,
        options,
    ) matches Ok((first, plan, map_start)) ==> {
        let charge = window_charge(plan.end - map_start, plan.rows as int);
        charge <= usize::MAX ==> {
            &&& call_ensures(reserve, (charge as u64,), granted)
            &&& granted ==> call_ensures(
                decode,
                (map_start as usize, plan.end, index.encoding.unmarked()),
                decoded,
            )
        }
    })
}

fn window_cost(raw_count: usize, rows: usize) -> (r: u128)
    requires
        rows <= MAX_READING_WINDOW_LINES,
    ensures
        r <= usize::MAX || window_charge(raw_count as int, rows as int) <= usize::MAX ==> r
            == window_charge(raw_count as int, rows as int),
{
    let span: u128 = wide_size::<MappingSpan>();
    let row: u128 = wide_size::<ReadingLine>();
    let count: u128 = raw_count as u128 + 8;
    let most: u128 = usize::MAX as u128;
    let unit: u128 = 4 * span + 16;
    let rest: u128 = wide_size::<ReadingWindow>();
    assert(rows * row <= 4096 * 0xffff_ffff_ffff_ffff) by (nonlinear_arith)
        requires
            0 <= rows <= 4096,
            0 <= row <= 0xffff_ffff_ffff_ffff,
    ;
    let tail: u128 = rows as u128 * row + rest;
    if unit > most || count > most {
        assert(count * unit >= unit && count * unit >= count) by (nonlinear_arith)
            requires
                count >= 8,
                unit >= 16,
        ;
        return most + 1;
    }
    assert(count * unit <= 0xffff_ffff_ffff_ffff * 0xffff_ffff_ffff_ffff) by (nonlinear_arith)
        requires
            0 <= count <= 0xffff_ffff_ffff_ffff,
            0 <= unit <= 0xffff_ffff_ffff_ffff,
    ;
    let head: u128 = count * unit;
    if head > most {
        return most + 1;
    }
    head + tail
}

/// What a scanned row satisfies.
pub proof fn lemma_row(bytes: Seq<u8>, encoding: DetectedEncoding, c: Cursor, at: int, limit: int)
    requires
        0 <= c.offset <= at <= bytes.len() <= usize::MAX,
        limit <= bytes.len(),
    ensures
        row_from(bytes, encoding, c, at, limit) matches Ok(row) ==> {
            &&& row.start == c.offset
            &&& at <= row.content_end <= row.end
            &&& row.end <= limit || row.end == at
            &&& row.ending is NoEnding ==> row.end >= limit && (row.next matches Some(next)
                ==> next.offset == row.end && row.end < bytes.len())
            &&& !(row.ending is NoEnding) ==> (row.next matches Some(next) && next.offset
                == row.end)
        },
    decreases limit - at,
{
    if at < limit {
        crate::search::reader::lemma_token(bytes, encoding, at);
        let (width, newline) = token(bytes, encoding, at);
        if width <= limit - at && !newline {
            lemma_row(bytes, encoding, c, at + width, limit);
        }
    }
}

/// A row ended by a terminator is the same under any limit beyond it.
proof fn lemma_row_shorter(
    bytes: Seq<u8>,
    encoding: DetectedEncoding,
    c: Cursor,
    at: int,
    limit: int,
    end: int,
)
    requires
        0 <= c.offset <= at <= bytes.len() <= usize::MAX,
        end <= limit <= bytes.len(),
        row_from(bytes, encoding, c, at, limit) matches Ok(row) && row.end <= end && !(
        row.ending is NoEnding),
    ensures
        row_from(bytes, encoding, c, at, end) == row_from(bytes, encoding, c, at, limit),
    decreases limit - at,
{
    lemma_row(bytes, encoding, c, at, limit);
    if at < limit {
        crate::search::reader::lemma_token(bytes, encoding, at);
        let (width, newline) = token(bytes, encoding, at);
        if width <= limit - at && !newline {
            lemma_row(bytes, encoding, c, at + width, limit);
            lemma_row_shorter(bytes, encoding, c, at + width, limit, end);
        }
    }
}

/// Rows that follow one another from `from` to `to`.
pub open spec fn tiles(rows: Seq<ReadingLine>, from: int, to: int) -> bool {
    &&& rows.len() > 0
    &&& rows[0].raw_range.start == from
    &&& rows.last().raw_range.end == to
    &&& forall|k: int, l: int|
        0 <= k < l < rows.len() && l == k + 1 ==> (#[trigger] rows[k]).raw_range.end == (
        #[trigger] rows[l]).raw_range.start
}

proof fn lemma_plan(
    bytes: Seq<u8>,
    encoding: DetectedEncoding,
    map: MapModel,
    base: int,
    c: Cursor,
    limit: int,
    max_lines: int,
    rows: int,
)
    requires
        c.offset <= bytes.len() <= usize::MAX,
        limit <= bytes.len(),
        0 <= rows < max_lines <= usize::MAX,
    ensures
        plan_from(bytes, encoding, c, limit, max_lines, rows) matches Ok(plan) ==> {
            &&& c.offset <= plan.end
            &&& plan.end <= limit || plan.end == c.offset
            &&& rows < plan.rows <= max_lines
            &&& plan.next matches Some(next) ==> next.offset == plan.end
            &&& lines_from(
                bytes,
                encoding,
                map,
                base,
                c,
                plan.end as int,
                plan.rows - rows,
            ) matches Ok(lines) ==> lines.len() == plan.rows - rows && tiles(
                lines,
                c.offset as int,
                plan.end as int,
            )
        },
    decreases max_lines - rows,
{
    if let Ok(row) = row_at(bytes, encoding, c, limit) {
        lemma_row(bytes, encoding, c, c.offset as int, limit);
        if let Ok(plan) = plan_from(bytes, encoding, c, limit, max_lines, rows) {
            let goes_on = row.next is Some && rows + 1 < max_lines && (row.next->Some_0.offset
                < limit || limit == bytes.len());
            if goes_on {
                let next = row.next->Some_0;
                lemma_plan(bytes, encoding, map, base, next, limit, max_lines, rows + 1);
                if plan.end <= limit {
                    lemma_row_shorter(
                        bytes,
                        encoding,
                        c,
                        c.offset as int,
                        limit,
                        plan.end as int,
                    );
                }
                let all = lines_from(
                    bytes,
                    encoding,
                    map,
                    base,
                    c,
                    plan.end as int,
                    plan.rows - rows,
                );
                if let Ok(lines) = all {
                    let rest = lines_from(
                        bytes,
                        encoding,
                        map,
                        base,
                        next,
                        plan.end as int,
                        plan.rows - rows - 1,
                    )->Ok_0;
                    let line = line_of(bytes, map, base, c, row)->Ok_0;
                    assert(lines =~= seq![line] + rest);
                    assert forall|k: int, l: int|
                        0 <= k < l < lines.len() && l == k + 1 implies (
                    #[trigger] lines[k]).raw_range.end == (#[trigger] lines[l]).raw_range.start by {
                        assert(lines[l] == rest[k]);
                        if k > 0 {
                            assert(lines[k] == rest[k - 1]);
                        }
                    }
                }
            } else {
                if row.ending is NoEnding {
                    if plan.end > limit {
                        assert(row_at(bytes, encoding, c, plan.end as int) == row_at(
                            bytes,
                            encoding,
                            c,
                            limit,
                        ));
                    }
                } else {
                    lemma_row_shorter(
                        bytes,
                        encoding,
                        c,
                        c.offset as int,
                        limit,
                        plan.end as int,
                    );
                }
                let all = lines_from(bytes, encoding, map, base, c, plan.end as int, 1);
                if let Ok(lines) = all {
                    let line = line_of(bytes, map, base, c, row)->Ok_0;
                    assert(lines_from(
                        bytes,
                        encoding,
                        map,
                        base,
                        next_of(c, row),
                        plan.end as int,
                        0,
                    ) == Ok::<Seq<ReadingLine>, ReaderError>(Seq::empty()));
                    assert(lines =~= seq![line]);
                }
            }
        }
    }
}

pub proof fn lemma_floor(bytes: Seq<u8>, encoding: DetectedEncoding, offset: int)
    requires
        0 <= offset,
    ensures
        0 <= floor_of(bytes, encoding, offset) <= bytes.len(),
        floor_of(bytes, encoding, offset) <= offset || bytes.len() <= offset,
{
    if offset < bytes.len() && !encoding.wide() {
        lemma_character_start(
            bytes,
            if offset < 3 {
                0
            } else {
                offset - 3
            },
            offset,
        );
    }
}

pub proof fn lemma_character_start(bytes: Seq<u8>, start: int, offset: int)
    requires
        0 <= start <= offset,
    ensures
        start <= character_start(bytes, start, offset) <= offset,
    decreases offset - start,
{
    if start < offset && !spans_over(bytes, start, offset) {
        lemma_character_start(bytes, start + 1, offset);
    }
}

/// A window shows no more bytes and rows than it may, its rows follow one
/// another without gap or overlap over exactly its bytes, and the next window
/// continues where it ends.
pub proof fn windows_are_bounded_and_continue(
    index: IndexModel,
    source: CaptureModel,
    anchor: ReadingAnchor,
    generation: QueryGeneration,
    options: ReadingWindowOptions,
    granted: bool,
    decoded: Option<MapModel>,
)
    requires
        source.bytes.len() <= usize::MAX,
    ensures
        windowed(index, source, anchor, generation, options, granted, decoded) matches Ok(window)
            ==> {
            &&& window.raw_range.end - window.raw_range.start <= options.max_bytes
            &&& 1 <= window.rows.len() <= options.max_lines
            &&& tiles(
                window.rows,
                window.raw_range.start as int,
                window.raw_range.end as int,
            )
            &&& window.next matches Some(next) ==> next.offset == window.raw_range.end
                && next.file == anchor.file && next.revision == anchor.revision
                && next.generation == anchor.generation
        },
{
    if let Ok(window) = windowed(index, source, anchor, generation, options, granted, decoded) {
        let bytes = source.bytes;
        let (first, plan, map_start) = layout_of(index, source, anchor, options)->Ok_0;
        let offset = if anchor.offset < index.content_start {
            index.content_start
        } else {
            anchor.offset
        };
        lemma_floor(bytes, index.encoding, offset as int);
        let start = floor_of(bytes, index.encoding, offset as int);
        let far = if start + options.max_bytes < bytes.len() {
            start + options.max_bytes
        } else {
            bytes.len() as int
        };
        lemma_floor(bytes, index.encoding, far);
        let limit = floor_of(bytes, index.encoding, far);
        lemma_plan(
            bytes,
            index.encoding,
            window.map,
            window.decoded_base,
            first,
            limit,
            options.max_lines as int,
            0,
        );
    }
}

} // verus!
