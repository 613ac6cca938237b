//! Reading of a retained capture, without any particular renderer.
//!
//! Sparse byte checkpoints are reserved once; there is no vector of line
//! offsets. Indexing and far jumps are separate resumable operations.
//!
//! Reading rows use editor semantics: an empty capture has line one and a final
//! newline creates a final empty row. CRLF is one terminator, in UTF-16 too.
//! Byte offsets inside a terminator belong to the row before it.
pub mod lines;
pub mod retained;

use vstd::layout::size_of;
use vstd::prelude::*;

use crate::capture::{CaptureModel, SourceCapture};
use crate::identity::{ByteRange, FileId, QueryGeneration, SourceRevision};
use crate::memory::wide_size;

verus! {

#[derive(Clone, Copy, Debug, PartialEq, Eq, Structural)]
pub enum ReaderError {
    InvalidLimits,
    InvalidRange,
    AllocationFailed,
    ResourceDenied,
    OwnerMismatch,
    StaleSource,
    StaleQuery,
    LineOutOfBounds,
    Canceled,
    StepTooSmall,
    EncodingError,
}

impl ReaderError {
    /// The stable code of an error.
    pub open spec fn code_spec(self) -> Seq<char> {
        match self {
            ReaderError::InvalidLimits => "READER_INVALID_LIMITS"@,
            ReaderError::InvalidRange => "READER_INVALID_RANGE"@,
            ReaderError::AllocationFailed => "READER_ALLOCATION_FAILED"@,
            ReaderError::ResourceDenied => "READER_RESOURCE_DENIED"@,
            ReaderError::OwnerMismatch => "READER_OWNER_MISMATCH"@,
            ReaderError::StaleSource => "READER_STALE_SOURCE"@,
            ReaderError::StaleQuery => "READER_STALE_QUERY"@,
            ReaderError::LineOutOfBounds => "READER_LINE_OUT_OF_BOUNDS"@,
            ReaderError::Canceled => "READER_CANCELED"@,
            ReaderError::StepTooSmall => "READER_STEP_TOO_SMALL"@,
            ReaderError::EncodingError => "READER_ENCODING_ERROR"@,
        }
    }

    pub fn code(self) -> (r: &'static str)
        ensures
            r@ == self.code_spec(),
    {
        match self {
            ReaderError::InvalidLimits => "READER_INVALID_LIMITS",
            ReaderError::InvalidRange => "READER_INVALID_RANGE",
            ReaderError::AllocationFailed => "READER_ALLOCATION_FAILED",
            ReaderError::ResourceDenied => "READER_RESOURCE_DENIED",
            ReaderError::OwnerMismatch => "READER_OWNER_MISMATCH",
            ReaderError::StaleSource => "READER_STALE_SOURCE",
            ReaderError::StaleQuery => "READER_STALE_QUERY",
            ReaderError::LineOutOfBounds => "READER_LINE_OUT_OF_BOUNDS",
            ReaderError::Canceled => "READER_CANCELED",
            ReaderError::StepTooSmall => "READER_STEP_TOO_SMALL",
            ReaderError::EncodingError => "READER_ENCODING_ERROR",
        }
    }
}

/// A line number, counted from one.
#[derive(Clone, Copy, Debug, PartialEq, Eq, Structural)]
pub struct LineNumber {
    pub value: u64,
}

impl LineNumber {
    pub fn new(value: u64) -> (r: Option<Self>)
        ensures
            r == (if value == 0 {
                None
            } else {
                Some(LineNumber { value })
            }),
    {
        if value == 0 {
            None
        } else {
            Some(LineNumber { value })
        }
    }

    pub fn get(self) -> (r: u64)
        ensures
            r == self.value,
    {
        self.value
    }
}

/// Most bytes of one step.
pub const MAX_READER_STEP_BYTES: usize = 65_536;

/// Most checkpoints of one reader.
pub const MAX_READER_CHECKPOINTS: usize = 65_536;

/// How a capture's bytes are encoded, as its first bytes told.
#[derive(Clone, Copy, Debug, PartialEq, Eq, Structural)]
pub enum DetectedEncoding {
    Utf8 { has_bom: bool },
    Utf16Le,
    Utf16Be,
}

impl DetectedEncoding {
    pub open spec fn wide(self) -> bool {
        !(self is Utf8)
    }

    /// Bytes of the byte order mark.
    pub open spec fn mark(self) -> nat {
        match self {
            DetectedEncoding::Utf8 { has_bom } => if has_bom {
                3
            } else {
                0
            },
            _ => 2,
        }
    }

    /// Bytes of one code unit.
    pub open spec fn unit(self) -> int {
        if self.wide() {
            2
        } else {
            1
        }
    }

    /// The same encoding, with no mark to be skipped.
    pub open spec fn unmarked(self) -> DetectedEncoding {
        match self {
            DetectedEncoding::Utf8 { has_bom: _ } => DetectedEncoding::Utf8 { has_bom: false },
            other => other,
        }
    }

    pub(crate) fn without_mark(self) -> (r: DetectedEncoding)
        ensures
            r == self.unmarked(),
    {
        match self {
            DetectedEncoding::Utf8 { has_bom: _ } => DetectedEncoding::Utf8 { has_bom: false },
            other => other,
        }
    }

    pub fn is_utf16(self) -> (r: bool)
        ensures
            r == self.wide(),
    {
        match self {
            DetectedEncoding::Utf8 { has_bom: _ } => false,
            _ => true,
        }
    }

    pub fn bom_bytes_len(self) -> (r: usize)
        ensures
            r == self.mark(),
    {
        match self {
            DetectedEncoding::Utf8 { has_bom } => if has_bom {
                3
            } else {
                0
            },
            _ => 2,
        }
    }
}

#[derive(Clone, Copy, Debug, PartialEq, Eq, Structural)]
pub struct ReaderLimits {
    pub max_checkpoints: usize,
    pub min_checkpoint_bytes: usize,
}

impl Default for ReaderLimits {
    fn default() -> (r: Self)
        ensures
            r == (ReaderLimits { max_checkpoints: 4096, min_checkpoint_bytes: 4096 }),
    {
        ReaderLimits { max_checkpoints: 4096, min_checkpoint_bytes: 4096 }
    }
}

#[derive(Clone, Copy, Debug, PartialEq, Eq, Structural)]
pub enum ReadingTarget {
    Line(LineNumber),
    Byte(u64),
    /// Preserve the exact selection separately from the containing line.
    Range(ByteRange),
}

#[derive(Clone, Copy, Debug, PartialEq, Eq, Structural)]
pub struct ReadingAnchor {
    pub file: FileId,
    pub revision: SourceRevision,
    pub generation: QueryGeneration,
    pub line: u64,
    pub line_start: usize,
    pub offset: usize,
    pub selection: Option<ByteRange>,
}

impl ReadingAnchor {
    /// Why a delivery at this anchor is refused, if it is.
    pub open spec fn refusal(self, source: CaptureModel, generation: QueryGeneration) -> Option<
        ReaderError,
    > {
        if self.file.owner != source.owner || generation.owner != source.owner {
            Some(ReaderError::OwnerMismatch)
        } else if self.file != source.file || self.revision != source.revision {
            Some(ReaderError::StaleSource)
        } else if self.generation != generation {
            Some(ReaderError::StaleQuery)
        } else {
            None
        }
    }

    pub fn file(&self) -> (r: FileId)
        ensures
            r == self.file,
    {
        self.file
    }

    pub fn revision(&self) -> (r: SourceRevision)
        ensures
            r == self.revision,
    {
        self.revision
    }

    pub fn generation(&self) -> (r: QueryGeneration)
        ensures
            r == self.generation,
    {
        self.generation
    }

    pub fn line_number(&self) -> (r: u64)
        ensures
            r == self.line,
    {
        self.line
    }

    pub fn line_start(&self) -> (r: u64)
        ensures
            r == self.line_start,
    {
        self.line_start as u64
    }

    pub fn offset(&self) -> (r: u64)
        ensures
            r == self.offset,
    {
        self.offset as u64
    }

    pub fn selection(&self) -> (r: Option<ByteRange>)
        ensures
            r == self.selection,
    {
        self.selection
    }

    pub fn validate_delivery(&self, source: &SourceCapture, generation: QueryGeneration) -> (r:
        Result<(), ReaderError>)
        ensures
            r == (match self.refusal(source@, generation) {
                Some(e) => Err::<(), ReaderError>(e),
                None => Ok(()),
            }),
    {
        if self.file.owner != source.owner || generation.owner != source.owner {
            return Err(ReaderError::OwnerMismatch);
        }
        if self.file != source.file || self.revision != source.revision {
            return Err(ReaderError::StaleSource);
        }
        if self.generation != generation {
            return Err(ReaderError::StaleQuery);
        }
        Ok(())
    }
}

#[derive(Clone, Copy, Debug, PartialEq, Eq, Structural)]
pub enum ReadingSeekState {
    Pending,
    Ready(ReadingAnchor),
    OutOfRange,
    Canceled,
}

#[derive(Clone, Copy, Debug, PartialEq, Eq, Structural)]
pub struct ReaderIndexProgress {
    pub indexed_through: u64,
    pub known_lines: u64,
    pub total_lines: Option<u64>,
    pub checkpoint_count: usize,
    pub step_bytes: usize,
    pub canceled: bool,
}

/// A position at a token boundary, with its line.
#[derive(Clone, Copy, Debug, PartialEq, Eq, Structural)]
pub struct Cursor {
    pub offset: usize,
    pub line: u64,
    pub start: usize,
}

/// The code unit at a position.
pub open spec fn unit_at(bytes: Seq<u8>, encoding: DetectedEncoding, i: int) -> int {
    match encoding {
        DetectedEncoding::Utf16Le => bytes[i] + 256 * bytes[i + 1],
        DetectedEncoding::Utf16Be => 256 * bytes[i] + bytes[i + 1],
        _ => bytes[i] as int,
    }
}

/// The width of the token at a position, and whether it ends a line. An
/// incomplete last code unit is one ordinary byte.
pub open spec fn token(bytes: Seq<u8>, encoding: DetectedEncoding, i: int) -> (int, bool) {
    let width = encoding.unit();
    if i + width > bytes.len() {
        (1, false)
    } else if unit_at(bytes, encoding, i) == 13 && i + width * 2 <= bytes.len() && unit_at(
        bytes,
        encoding,
        i + width,
    ) == 10 {
        (width * 2, true)
    } else {
        (
            width,
            unit_at(bytes, encoding, i) == 13 || unit_at(bytes, encoding, i) == 10,
        )
    }
}

/// The cursor after the token at a cursor.
pub open spec fn after(bytes: Seq<u8>, encoding: DetectedEncoding, c: Cursor) -> Cursor {
    let (width, newline) = token(bytes, encoding, c.offset as int);
    Cursor {
        offset: (c.offset + width) as usize,
        line: if newline {
            (c.line + 1) as u64
        } else {
            c.line
        },
        start: if newline {
            (c.offset + width) as usize
        } else {
            c.start
        },
    }
}

/// Where reading starts: after the byte order mark.
pub open spec fn origin(bytes: Seq<u8>, encoding: DetectedEncoding) -> Cursor {
    let at = if encoding.mark() < bytes.len() {
        encoding.mark()
    } else {
        bytes.len()
    };
    Cursor { offset: at as usize, line: 1, start: at as usize }
}

/// Whether walking token by token from one cursor comes to another.
pub open spec fn reaches(bytes: Seq<u8>, encoding: DetectedEncoding, from: Cursor, to: Cursor) -> bool
    decreases to.offset - from.offset,
{
    ||| from == to
    ||| from.offset < bytes.len() && from.offset < after(bytes, encoding, from).offset
        <= to.offset && reaches(bytes, encoding, after(bytes, encoding, from), to)
}

/// Whether a cursor is a position of the capture: walking from the start comes
/// to it.
pub open spec fn is_position(bytes: Seq<u8>, encoding: DetectedEncoding, c: Cursor) -> bool {
    reaches(bytes, encoding, origin(bytes, encoding), c)
}

/// A token has bytes, and ends within the capture.
pub proof fn lemma_token(bytes: Seq<u8>, encoding: DetectedEncoding, i: int)
    requires
        0 <= i < bytes.len(),
    ensures
        1 <= token(bytes, encoding, i).0 <= bytes.len() - i,
        token(bytes, encoding, i).0 <= 4,
{
}

/// One more token.
pub proof fn lemma_reach_step(bytes: Seq<u8>, encoding: DetectedEncoding, from: Cursor, to: Cursor)
    requires
        bytes.len() < usize::MAX,
        reaches(bytes, encoding, from, to),
        from.line <= from.offset + 1,
        to.offset < bytes.len(),
    ensures
        reaches(bytes, encoding, from, after(bytes, encoding, to)),
    decreases to.offset - from.offset,
{
    lemma_token(bytes, encoding, to.offset as int);
    if from != to {
        lemma_token(bytes, encoding, from.offset as int);
        lemma_reach_step(bytes, encoding, after(bytes, encoding, from), to);
    } else {
        assert(reaches(bytes, encoding, after(bytes, encoding, to), after(bytes, encoding, to)));
    }
}

/// What every reachable cursor satisfies.
pub proof fn lemma_reach_bounds(
    bytes: Seq<u8>,
    encoding: DetectedEncoding,
    from: Cursor,
    to: Cursor,
)
    requires
        bytes.len() < usize::MAX,
        reaches(bytes, encoding, from, to),
        from.offset <= bytes.len(),
        1 <= from.line <= from.offset + 1,
        from.start <= from.offset,
    ensures
        from.offset <= to.offset <= bytes.len(),
        1 <= to.line <= to.offset + 1,
        from.line <= to.line,
        to.start <= to.offset,
    decreases to.offset - from.offset,
{
    if from != to {
        lemma_token(bytes, encoding, from.offset as int);
        lemma_reach_bounds(bytes, encoding, after(bytes, encoding, from), to);
    }
}

/// What every position of a capture satisfies.
pub proof fn lemma_position(bytes: Seq<u8>, encoding: DetectedEncoding, c: Cursor)
    requires
        bytes.len() < usize::MAX,
        is_position(bytes, encoding, c),
    ensures
        origin(bytes, encoding).offset <= c.offset <= bytes.len(),
        1 <= c.line <= c.offset + 1,
        c.start <= c.offset,
        c.offset < bytes.len() ==> is_position(bytes, encoding, after(bytes, encoding, c)),
        c.offset < bytes.len() ==> c.offset < after(bytes, encoding, c).offset <= bytes.len(),
{
    lemma_reach_bounds(bytes, encoding, origin(bytes, encoding), c);
    if c.offset < bytes.len() {
        lemma_token(bytes, encoding, c.offset as int);
        lemma_reach_step(bytes, encoding, origin(bytes, encoding), c);
    }
}

/// The code unit at a position.
pub fn read_unit(bytes: &Vec<u8>, encoding: DetectedEncoding, offset: usize) -> (r: u16)
    requires
        offset + encoding.unit() <= bytes@.len(),
    ensures
        r == unit_at(bytes@, encoding, offset as int),
{
    assert(offset + encoding.unit() <= bytes.len());
    match encoding {
        DetectedEncoding::Utf16Le => bytes[offset] as u16 + 256 * (bytes[offset + 1] as u16),
        DetectedEncoding::Utf16Be => 256 * (bytes[offset] as u16) + bytes[offset + 1] as u16,
        _ => bytes[offset] as u16,
    }
}

/// The width of the token at a position, and whether it ends a line.
pub fn newline_token(bytes: &Vec<u8>, encoding: DetectedEncoding, offset: usize) -> (r: (
    usize,
    bool,
))
    requires
        offset < bytes@.len(),
    ensures
        (r.0 as int, r.1) == token(bytes@, encoding, offset as int),
{
    let width: usize = if encoding.is_utf16() {
        2
    } else {
        1
    };
    let left: usize = bytes.len() - offset;
    if left < width {
        return (1, false);
    }
    let unit: u16 = read_unit(bytes, encoding, offset);
    if unit == 13 && left >= width * 2 && read_unit(bytes, encoding, offset + width) == 10 {
        (width * 2, true)
    } else {
        (width, unit == 13 || unit == 10)
    }
}

/// The cursor after the token at a cursor, and the token's width.
pub fn step_over(bytes: &Vec<u8>, encoding: DetectedEncoding, c: Cursor) -> (r: (Cursor, usize))
    requires
        bytes@.len() < usize::MAX,
        c.offset < bytes@.len(),
        c.line <= c.offset + 1,
    ensures
        r.0 == after(bytes@, encoding, c),
        r.1 == token(bytes@, encoding, c.offset as int).0,
        1 <= r.1 <= 4,
        r.0.offset == c.offset + r.1,
        r.0.offset <= bytes@.len(),
{
    let (width, newline) = newline_token(bytes, encoding, c.offset);
    proof {
        lemma_token(bytes@, encoding, c.offset as int);
    }
    let offset: usize = c.offset + width;
    if newline {
        (Cursor { offset, line: c.line + 1, start: offset }, width)
    } else {
        (Cursor { offset, line: c.line, start: c.start }, width)
    }
}

/// A request for a position, apart from its source.
#[derive(Clone, Copy, Debug, PartialEq, Eq, Structural)]
pub struct SeekParts {
    pub encoding: DetectedEncoding,
    pub target: ReadingTarget,
    pub target_byte: Option<usize>,
    pub generation: QueryGeneration,
    pub cursor: Cursor,
    pub state: ReadingSeekState,
    pub scanned_bytes: u64,
    pub last_step_bytes: usize,
}

/// Bytes that a step may take.
pub open spec fn allowance(max_bytes: usize) -> usize {
    if max_bytes < MAX_READER_STEP_BYTES {
        max_bytes
    } else {
        MAX_READER_STEP_BYTES
    }
}

impl SeekParts {
    pub open spec fn wf(self, source: CaptureModel) -> bool {
        &&& source.bytes.len() < usize::MAX
        &&& is_position(source.bytes, self.encoding, self.cursor)
        &&& self.scanned_bytes <= self.cursor.offset
        &&& self.state is Pending ==> self.cursor.offset < source.bytes.len()
    }

    /// The anchor at a cursor.
    pub open spec fn anchor_at(self, source: CaptureModel, c: Cursor, offset: usize) -> ReadingAnchor {
        ReadingAnchor {
            file: source.file,
            revision: source.revision,
            generation: self.generation,
            line: c.line,
            line_start: c.start,
            offset,
            selection: match self.target {
                ReadingTarget::Range(range) => Some(range),
                _ => None,
            },
        }
    }

    /// The offset at which the target is found if it is found at a cursor.
    pub open spec fn resolution(self, c: Cursor) -> Option<usize> {
        match self.target {
            ReadingTarget::Line(line) => if c.line == line.value {
                Some(c.start)
            } else {
                None
            },
            _ => match self.target_byte {
                Some(target) if target == c.offset => Some(target),
                _ => None,
            },
        }
    }

    /// The state at a cursor.
    pub open spec fn state_at(self, source: CaptureModel, c: Cursor) -> ReadingSeekState {
        match self.resolution(c) {
            Some(offset) => ReadingSeekState::Ready(self.anchor_at(source, c, offset)),
            None => if c.offset == source.bytes.len() {
                ReadingSeekState::OutOfRange
            } else {
                ReadingSeekState::Pending
            },
        }
    }

    /// The state after the token at a cursor: a target inside the token belongs
    /// to the cursor before it.
    pub open spec fn state_past(self, source: CaptureModel, c: Cursor) -> ReadingSeekState {
        let next = after(source.bytes, self.encoding, c);
        match self.target_byte {
            Some(target) if target < next.offset => ReadingSeekState::Ready(
                self.anchor_at(source, c, target),
            ),
            _ => self.state_at(source, next),
        }
    }

    /// What the request comes to when it is walked to its end from a cursor.
    pub open spec fn found_from(self, source: CaptureModel, c: Cursor) -> ReadingSeekState
        decreases source.bytes.len() - c.offset,
    {
        let here = self.state_at(source, c);
        if !(here is Pending) || c.offset >= source.bytes.len() || after(
            source.bytes,
            self.encoding,
            c,
        ).offset <= c.offset {
            here
        } else {
            let past = self.state_past(source, c);
            if past is Pending {
                self.found_from(source, after(source.bytes, self.encoding, c))
            } else {
                past
            }
        }
    }

    /// What the request will come to if nothing stops it.
    pub open spec fn outcome(self, source: CaptureModel) -> ReadingSeekState {
        if self.state is Pending {
            self.found_from(source, self.cursor)
        } else {
            self.state
        }
    }

    /// The request after one more token.
    pub open spec fn advanced(self, source: CaptureModel) -> SeekParts {
        let width = token(source.bytes, self.encoding, self.cursor.offset as int).0;
        SeekParts {
            cursor: after(source.bytes, self.encoding, self.cursor),
            state: self.state_past(source, self.cursor),
            scanned_bytes: (self.scanned_bytes + width) as u64,
            last_step_bytes: (self.last_step_bytes + width) as usize,
            ..self
        }
    }

    /// The request walked within an allowance, and the error if not even one
    /// token fits.
    pub open spec fn walked(self, source: CaptureModel, allowed: usize) -> (
        SeekParts,
        Option<ReaderError>,
    )
        decreases allowed - self.last_step_bytes,
    {
        let width = token(source.bytes, self.encoding, self.cursor.offset as int).0;
        if !(self.state is Pending) || self.last_step_bytes >= allowed {
            (self, None)
        } else if width > allowed - self.last_step_bytes {
            (
                self,
                if self.last_step_bytes == 0 {
                    Some(ReaderError::StepTooSmall)
                } else {
                    None
                },
            )
        } else if width <= 0 {
            (self, None)
        } else {
            self.advanced(source).walked(source, allowed)
        }
    }

    /// The request with cancellation noted.
    pub open spec fn canceled(self) -> SeekParts {
        if self.state is Pending {
            SeekParts { state: ReadingSeekState::Canceled, ..self }
        } else {
            self
        }
    }

    fn anchor(&self, source: &SourceCapture, c: Cursor, offset: usize) -> (r: ReadingAnchor)
        ensures
            r == self.anchor_at(source@, c, offset),
    {
        ReadingAnchor {
            file: source.file,
            revision: source.revision,
            generation: self.generation,
            line: c.line,
            line_start: c.start,
            offset,
            selection: match self.target {
                ReadingTarget::Range(range) => Some(range),
                _ => None,
            },
        }
    }

    fn resolve(&self, source: &SourceCapture, c: Cursor) -> (r: ReadingSeekState)
        ensures
            r == self.state_at(source@, c),
    {
        let resolved: Option<usize> = match self.target {
            ReadingTarget::Line(line) => if c.line == line.value {
                Some(c.start)
            } else {
                None
            },
            _ => match self.target_byte {
                Some(target) => if target == c.offset {
                    Some(target)
                } else {
                    None
                },
                None => None,
            },
        };
        match resolved {
            Some(offset) => ReadingSeekState::Ready(self.anchor(source, c, offset)),
            None => if c.offset == source.bytes.len() {
                ReadingSeekState::OutOfRange
            } else {
                ReadingSeekState::Pending
            },
        }
    }

    /// Takes one more token.
    fn advance(&mut self, source: &SourceCapture)
        requires
            old(self).wf(source@),
            old(self).state is Pending,
            old(self).last_step_bytes + token(
                source@.bytes,
                old(self).encoding,
                old(self).cursor.offset as int,
            ).0 <= usize::MAX,
        ensures
            *final(self) == old(self).advanced(source@),
            final(self).wf(source@),
    {
        proof {
            lemma_position(source@.bytes, self.encoding, self.cursor);
        }
        let before = self.cursor;
        let (next, width) = step_over(&source.bytes, self.encoding, before);
        let inside: Option<usize> = match self.target_byte {
            Some(target) => if target < next.offset {
                Some(target)
            } else {
                None
            },
            None => None,
        };
        let state = match inside {
            Some(target) => ReadingSeekState::Ready(self.anchor(source, before, target)),
            None => self.resolve(source, next),
        };
        self.cursor = next;
        self.last_step_bytes = self.last_step_bytes + width;
        self.scanned_bytes = self.scanned_bytes + width as u64;
        self.state = state;
    }

    pub fn cancel(&mut self)
        ensures
            *final(self) == old(self).canceled(),
    {
        match self.state {
            ReadingSeekState::Pending => {
                self.state = ReadingSeekState::Canceled;
            },
            _ => {},
        }
    }

    fn walk<C: FnMut() -> bool>(
        &mut self,
        source: &SourceCapture,
        allowed: usize,
        canceled: &mut C,
    ) -> (r: Option<ReaderError>)
        requires
            old(self).wf(source@),
            old(self).last_step_bytes == 0,
            call_requires(*old(canceled), ()),
        ensures
            *final(canceled) == *old(canceled),
            final(self).wf(source@),
            (*final(self), r) == old(self).walked(source@, allowed) || (r == Some(
                ReaderError::Canceled,
            ) && call_ensures(*old(canceled), (), true) && exists|taken: usize|
                taken <= allowed && *final(self) == (#[trigger] old(self).walked(
                    source@,
                    taken,
                )).0.canceled()),
    {
        let ghost start = *self;
        let mut done = false;
        while !done
            invariant
                *canceled == *old(canceled),
                call_requires(*canceled, ()),
                self.wf(source@),
                start == *old(self),
                start.wf(source@),
                self.last_step_bytes <= allowed,
                start.walked(source@, allowed) == self.walked(source@, allowed),
                start.walked(source@, self.last_step_bytes) == (*self, None::<ReaderError>),
                done ==> self.walked(source@, allowed) == (*self, None::<ReaderError>),
            decreases allowed - self.last_step_bytes, if done {
                0int
            } else {
                1int
            },
        {
            let pending = match self.state {
                ReadingSeekState::Pending => true,
                _ => false,
            };
            if !pending || self.last_step_bytes >= allowed {
                done = true;
            } else {
                if canceled() {
                    let ghost taken = self.last_step_bytes;
                    self.cancel();
                    assert(start.walked(source@, taken).0.canceled() == *self);
                    return Some(ReaderError::Canceled);
                }
                proof {
                    lemma_token(source@.bytes, self.encoding, self.cursor.offset as int);
                }
                let (width, _) = newline_token(&source.bytes, self.encoding, self.cursor.offset);
                if width > allowed - self.last_step_bytes {
                    if self.last_step_bytes == 0 {
                        return Some(ReaderError::StepTooSmall);
                    }
                    done = true;
                } else {
                    let ghost before = *self;
                    self.advance(source);
                    proof {
                        lemma_walk_more(start, before, *self, source@);
                    }
                }
            }
        }
        None
    }

    /// Walks on by at most `max_bytes` bytes.
    pub fn step<C: FnMut() -> bool>(
        &mut self,
        source: &SourceCapture,
        max_bytes: usize,
        active_generation: QueryGeneration,
        mut canceled: C,
    ) -> (r: Result<ReadingSeekState, ReaderError>)
        requires
            old(self).wf(source@),
            call_requires(canceled, ()),
        ensures
            final(self).wf(source@),
            is_step(*old(self), *final(self), r, source@, max_bytes, active_generation, canceled),
    {
        let ghost fresh = SeekParts { last_step_bytes: 0, ..*self };
        self.last_step_bytes = 0;
        if active_generation != self.generation {
            self.state = ReadingSeekState::Canceled;
            return Err(ReaderError::StaleQuery);
        }
        let allowed: usize = if max_bytes < MAX_READER_STEP_BYTES {
            max_bytes
        } else {
            MAX_READER_STEP_BYTES
        };
        if canceled() {
            self.cancel();
            assert(fresh.walked(source@, 0) == (fresh, None::<ReaderError>));
            assert(*self == fresh.walked(source@, 0).0.canceled());
            return Err(ReaderError::Canceled);
        }
        match self.walk(source, allowed, &mut canceled) {
            Some(e) => {
                return Err(e);
            },
            None => {},
        }
        if canceled() {
            self.state = ReadingSeekState::Canceled;
            return Err(ReaderError::Canceled);
        }
        Ok(self.state)
    }
}

/// Whether a step may change a request so and answer `r`.
pub open spec fn is_step<C: FnMut() -> bool>(
    before: SeekParts,
    end: SeekParts,
    r: Result<ReadingSeekState, ReaderError>,
    source: CaptureModel,
    max_bytes: usize,
    active_generation: QueryGeneration,
    canceled: C,
) -> bool {
    let fresh = SeekParts { last_step_bytes: 0, ..before };
    let (walked, error) = fresh.walked(source, allowance(max_bytes));
    if active_generation != before.generation {
        &&& r == Err::<ReadingSeekState, ReaderError>(ReaderError::StaleQuery)
        &&& end == SeekParts { state: ReadingSeekState::Canceled, ..fresh }
    } else {
        ||| end == walked && match error {
            Some(e) => r == Err::<ReadingSeekState, ReaderError>(e),
            None => r == Ok::<ReadingSeekState, ReaderError>(walked.state) && call_ensures(
                canceled,
                (),
                false,
            ),
        }
        ||| r == Err::<ReadingSeekState, ReaderError>(ReaderError::Canceled) && call_ensures(
            canceled,
            (),
            true,
        ) && (end == SeekParts { state: ReadingSeekState::Canceled, ..walked } || exists|
            taken: usize,
        |
            taken <= allowance(max_bytes) && end == (#[trigger] fresh.walked(
                source,
                taken,
            )).0.canceled())
    }
}

/// What was walked within the bytes taken so far grows by one token.
proof fn lemma_walk_more(start: SeekParts, before: SeekParts, now: SeekParts, source: CaptureModel)
    requires
        before.wf(source),
        before.state is Pending,
        now == before.advanced(source),
        now.last_step_bytes == before.last_step_bytes + token(
            source.bytes,
            before.encoding,
            before.cursor.offset as int,
        ).0,
        start.wf(source),
        start.walked(source, before.last_step_bytes) == (before, None::<ReaderError>),
    ensures
        start.walked(source, now.last_step_bytes) == (now, None::<ReaderError>),
    decreases before.last_step_bytes - start.last_step_bytes,
{
    lemma_token(source.bytes, before.encoding, before.cursor.offset as int);
    if start.state is Pending {
        lemma_token(source.bytes, start.encoding, start.cursor.offset as int);
        lemma_position(source.bytes, start.encoding, start.cursor);
    }
    if start != before {
        let next = start.advanced(source);
        lemma_advanced_wf(start, source);
        lemma_walk_more(next, before, now, source);
    } else {
        assert(now.walked(source, now.last_step_bytes) == (now, None::<ReaderError>));
    }
}

proof fn lemma_advanced_wf(seek: SeekParts, source: CaptureModel)
    requires
        seek.wf(source),
        seek.state is Pending,
    ensures
        seek.advanced(source).wf(source),
{
    lemma_position(source.bytes, seek.encoding, seek.cursor);
    lemma_token(source.bytes, seek.encoding, seek.cursor.offset as int);
}

/// However a request is walked, in steps of whatever size, what it comes to in
/// the end stays the same.
pub proof fn steps_keep_the_outcome(seek: SeekParts, source: CaptureModel, allowed: usize)
    requires
        seek.wf(source),
        seek.state is Pending ==> seek.state == seek.state_at(source, seek.cursor),
    ensures
        seek.walked(source, allowed).0.outcome(source) == seek.outcome(source),
    decreases allowed - seek.last_step_bytes,
{
    if seek.state is Pending && seek.last_step_bytes < allowed {
        lemma_token(source.bytes, seek.encoding, seek.cursor.offset as int);
        lemma_position(source.bytes, seek.encoding, seek.cursor);
        let width = token(source.bytes, seek.encoding, seek.cursor.offset as int).0;
        if width <= allowed - seek.last_step_bytes {
            let next = seek.advanced(source);
            lemma_advanced_wf(seek, source);
            assert(next.outcome(source) == seek.outcome(source)) by {
                if next.state is Pending {
                    lemma_same_search(seek, next, source, next.cursor);
                }
            }
            if next.state is Pending {
                assert(next.state == next.state_at(source, next.cursor));
            }
            steps_keep_the_outcome(next, source, allowed);
        }
    }
}

/// What is found depends on the request's target alone.
proof fn lemma_same_search(a: SeekParts, b: SeekParts, source: CaptureModel, c: Cursor)
    requires
        a.encoding == b.encoding,
        a.target == b.target,
        a.target_byte == b.target_byte,
        a.generation == b.generation,
    ensures
        a.found_from(source, c) == b.found_from(source, c),
    decreases source.bytes.len() - c.offset,
{
    if c.offset < source.bytes.len() && after(source.bytes, a.encoding, c).offset > c.offset {
        lemma_same_search(a, b, source, after(source.bytes, a.encoding, c));
    }
}

/// A cursor from which a request may start: not beyond the target.
pub open spec fn eligible(c: Cursor, target: ReadingTarget, offset: int) -> bool {
    match target {
        ReadingTarget::Line(line) => c.line <= line.value,
        _ => c.offset <= offset,
    }
}

/// Starting nearer to the target changes nothing: from every eligible position
/// the request finds what a scan from the start would find.
pub proof fn checkpoints_do_not_change_what_is_found(
    seek: SeekParts,
    source: CaptureModel,
    from: Cursor,
    to: Cursor,
)
    requires
        source.bytes.len() < usize::MAX,
        is_position(source.bytes, seek.encoding, from),
        reaches(source.bytes, seek.encoding, from, to),
        seek.target is Line <==> seek.target_byte is None,
        eligible(
            to,
            seek.target,
            match seek.target_byte {
                Some(target) => target as int,
                None => 0,
            },
        ),
    ensures
        seek.found_from(source, from) == seek.found_from(source, to),
    decreases to.offset - from.offset,
{
    if from != to {
        lemma_position(source.bytes, seek.encoding, from);
        let next = after(source.bytes, seek.encoding, from);
        lemma_reach_bounds(source.bytes, seek.encoding, next, to);
        checkpoints_do_not_change_what_is_found(seek, source, next, to);
        if seek.target is Line {
            let line = seek.target->Line_0.value;
            if from.line == line {
                assert(next.line == line);
                assert(next.start == from.start);
            } else {
                assert(seek.state_at(source, from) is Pending);
                let past = seek.state_past(source, from);
                assert(past == seek.state_at(source, next));
                if !(past is Pending) {
                    assert(seek.found_from(source, next) == past);
                }
            }
        } else {
            let target = seek.target_byte->Some_0;
            assert(seek.state_at(source, from) is Pending);
            let past = seek.state_past(source, from);
            assert(past == seek.state_at(source, next));
            if !(past is Pending) {
                assert(seek.found_from(source, next) == past);
            }
        }
    }
}

/// A sparse index of one capture, apart from it.
#[derive(Debug)]
pub struct ReaderIndex<V = Vec<Cursor>> {
    pub encoding: DetectedEncoding,
    pub content_start: usize,
    pub checkpoints: V,
    pub cursor: Cursor,
    pub stride: usize,
    pub next_checkpoint: usize,
    pub capacity: usize,
}

/// The model of an index.
pub type IndexModel = ReaderIndex<Seq<Cursor>>;

impl View for ReaderIndex {
    type V = ReaderIndex<Seq<Cursor>>;

    open spec fn view(&self) -> ReaderIndex<Seq<Cursor>> {
        ReaderIndex {
            encoding: self.encoding,
            content_start: self.content_start,
            checkpoints: self.checkpoints@,
            cursor: self.cursor,
            stride: self.stride,
            next_checkpoint: self.next_checkpoint,
            capacity: self.capacity,
        }
    }
}

/// A quotient, rounded up.
pub open spec fn ceiling(a: int, b: int) -> int {
    if a % b == 0 {
        a / b
    } else {
        a / b + 1
    }
}

/// A sum, at most the largest count.
pub open spec fn at_most_max(n: int) -> usize {
    if n > usize::MAX {
        usize::MAX
    } else {
        n as usize
    }
}

impl ReaderLimits {
    pub open spec fn valid(self) -> bool {
        2 <= self.max_checkpoints <= MAX_READER_CHECKPOINTS && self.min_checkpoint_bytes > 0
    }

    /// Bytes between checkpoints: enough that the whole capture fits.
    pub open spec fn stride(self, length: int) -> int {
        let even = ceiling(length, self.max_checkpoints - 1);
        if even < self.min_checkpoint_bytes {
            self.min_checkpoint_bytes as int
        } else {
            even
        }
    }

    /// Checkpoints reserved.
    pub open spec fn capacity(self, length: int) -> int {
        let needed = length / self.stride(length) + 1;
        if needed < self.max_checkpoints {
            needed
        } else {
            self.max_checkpoints as int
        }
    }
}

/// The number of leading checkpoints that are eligible, from `i` on.
pub open spec fn eligible_from(
    checkpoints: Seq<Cursor>,
    target: ReadingTarget,
    offset: int,
    i: int,
) -> int
    decreases checkpoints.len() - i,
{
    if i < 0 || i >= checkpoints.len() || !eligible(checkpoints[i], target, offset) {
        i
    } else {
        eligible_from(checkpoints, target, offset, i + 1)
    }
}

impl IndexModel {
    /// The index of a capture that nothing was read of yet.
    pub open spec fn fresh(
        source: CaptureModel,
        encoding: DetectedEncoding,
        limits: ReaderLimits,
    ) -> IndexModel {
        let start = origin(source.bytes, encoding);
        let length = source.bytes.len() as int;
        ReaderIndex {
            encoding,
            content_start: start.offset,
            checkpoints: seq![start],
            cursor: start,
            stride: limits.stride(length) as usize,
            next_checkpoint: at_most_max(start.offset + limits.stride(length)),
            capacity: limits.capacity(length) as usize,
        }
    }

    /// Every checkpoint is a position of the capture, in order, and there are
    /// no more of them than were reserved.
    pub open spec fn wf(self, source: CaptureModel) -> bool {
        &&& source.bytes.len() < usize::MAX
        &&& self.content_start == origin(source.bytes, self.encoding).offset
        &&& 1 <= self.checkpoints.len() <= self.capacity
        &&& self.capacity <= MAX_READER_CHECKPOINTS
        &&& self.checkpoints[0] == origin(source.bytes, self.encoding)
        &&& forall|i: int|
            0 <= i < self.checkpoints.len() ==> is_position(
                source.bytes,
                self.encoding,
                #[trigger] self.checkpoints[i],
            ) && self.checkpoints[i].offset <= self.cursor.offset
        &&& forall|i: int, j: int|
            0 <= i < j < self.checkpoints.len() ==> #[trigger] self.checkpoints[i].offset
                < #[trigger] self.checkpoints[j].offset
        &&& is_position(source.bytes, self.encoding, self.cursor)
        &&& self.stride > 0
        &&& self.checkpoints.last().offset < self.next_checkpoint || self.next_checkpoint
            == usize::MAX
    }

    /// The index with its cursor moved on, and a checkpoint there if one is due.
    pub open spec fn moved(self, c: Cursor) -> IndexModel {
        if c.offset >= self.next_checkpoint && self.checkpoints.len() < self.capacity {
            ReaderIndex {
                cursor: c,
                checkpoints: self.checkpoints.push(c),
                next_checkpoint: at_most_max(c.offset + self.stride),
                ..self
            }
        } else {
            ReaderIndex { cursor: c, ..self }
        }
    }

    /// The index walked on within an allowance, the bytes taken, and the error
    /// if not even one token fits.
    pub open spec fn walked(self, source: CaptureModel, allowed: int, used: int) -> (
        IndexModel,
        int,
        Option<ReaderError>,
    )
        decreases allowed - used,
    {
        let width = token(source.bytes, self.encoding, self.cursor.offset as int).0;
        if self.cursor.offset >= source.bytes.len() || used >= allowed {
            (self, used, None)
        } else if width > allowed - used {
            (
                self,
                used,
                if used == 0 {
                    Some(ReaderError::StepTooSmall)
                } else {
                    None
                },
            )
        } else if width <= 0 {
            (self, used, None)
        } else {
            self.moved(after(source.bytes, self.encoding, self.cursor)).walked(
                source,
                allowed,
                used + width,
            )
        }
    }

    pub open spec fn progress(self, source: CaptureModel) -> ReaderIndexProgress {
        ReaderIndexProgress {
            indexed_through: self.cursor.offset as u64,
            known_lines: self.cursor.line,
            total_lines: if self.cursor.offset == source.bytes.len() {
                Some(self.cursor.line)
            } else {
                None
            },
            checkpoint_count: self.checkpoints.len() as usize,
            step_bytes: 0,
            canceled: false,
        }
    }

    /// Where a request starts: at the last eligible checkpoint, or at the
    /// cursor.
    pub open spec fn start_of(self, target: ReadingTarget, offset: int) -> Cursor {
        if eligible(self.cursor, target, offset) {
            self.cursor
        } else {
            let count = eligible_from(self.checkpoints, target, offset, 0);
            self.checkpoints[if count > 0 {
                count - 1
            } else {
                0
            }]
        }
    }

    /// The byte that a target asks for, if it asks for one that exists.
    pub open spec fn byte_of(self, source: CaptureModel, target: ReadingTarget) -> Result<
        Option<usize>,
        ReaderError,
    > {
        let floor = |n: u64|
            if n < self.content_start {
                Some(self.content_start)
            } else {
                Some(n as usize)
            };
        match target {
            ReadingTarget::Line(_) => Ok(None),
            ReadingTarget::Byte(n) => if n > source.bytes.len() {
                Err(ReaderError::InvalidRange)
            } else {
                Ok(floor(n))
            },
            ReadingTarget::Range(range) => if range.end > source.bytes.len() || range.start
                > source.bytes.len() {
                Err(ReaderError::InvalidRange)
            } else {
                Ok(floor(range.start))
            },
        }
    }

    /// A request from this index.
    pub open spec fn request(
        self,
        source: CaptureModel,
        target: ReadingTarget,
        generation: QueryGeneration,
    ) -> Result<SeekParts, ReaderError> {
        if generation.owner != source.owner {
            Err(ReaderError::OwnerMismatch)
        } else {
            match self.byte_of(source, target) {
                Err(e) => Err(e),
                Ok(target_byte) => {
                    let offset = match target_byte {
                        Some(n) => n,
                        None => self.content_start,
                    };
                    let cursor = self.start_of(target, offset as int);
                    let seek = SeekParts {
                        encoding: self.encoding,
                        target,
                        target_byte,
                        generation,
                        cursor,
                        state: ReadingSeekState::Pending,
                        scanned_bytes: 0,
                        last_step_bytes: 0,
                    };
                    Ok(SeekParts { state: seek.state_at(source, cursor), ..seek })
                },
            }
        }
    }
}

/// Moving on keeps the index well formed.
pub proof fn lemma_moved(index: IndexModel, source: CaptureModel, c: Cursor)
    requires
        index.wf(source),
        is_position(source.bytes, index.encoding, c),
        c.offset > index.cursor.offset,
    ensures
        index.moved(c).wf(source),
{
    lemma_position(source.bytes, index.encoding, c);
    let next = index.moved(c);
    assert forall|i: int| 0 <= i < next.checkpoints.len() implies is_position(
        source.bytes,
        next.encoding,
        #[trigger] next.checkpoints[i],
    ) && next.checkpoints[i].offset <= next.cursor.offset by {
        if i < index.checkpoints.len() {
            assert(next.checkpoints[i] == index.checkpoints[i]);
        }
    }
    assert forall|i: int, j: int| 0 <= i < j < next.checkpoints.len() implies
        #[trigger] next.checkpoints[i].offset < #[trigger] next.checkpoints[j].offset by {
        assert(next.checkpoints[i] == index.checkpoints[i]);
        if j < index.checkpoints.len() {
            assert(next.checkpoints[j] == index.checkpoints[j]);
        }
    }
}

/// A new index fits in its reservation, which is no more than the limits admit.
pub proof fn new_indexes_fit(source: CaptureModel, encoding: DetectedEncoding, limits: ReaderLimits)
    requires
        limits.valid(),
        source.bytes.len() < usize::MAX,
    ensures
        ({
            let index = IndexModel::fresh(source, encoding, limits);
            &&& index.checkpoints.len() <= index.capacity <= limits.max_checkpoints
            &&& index.progress(source).checkpoint_count == index.checkpoints.len()
        }),
{
    let length = source.bytes.len() as int;
    vstd::arithmetic::div_mod::lemma_div_pos_is_pos(length, limits.stride(length));
}

/// Moving on, as learning from a request does, never takes more checkpoints than
/// were reserved, and never reserves more.
pub proof fn learning_keeps_the_reservation(index: IndexModel, c: Cursor)
    requires
        index.checkpoints.len() <= index.capacity,
    ensures
        index.moved(c).capacity == index.capacity,
        index.moved(c).checkpoints.len() <= index.moved(c).capacity,
{
}

/// Indexing never takes more checkpoints than were reserved, and never reserves
/// more, whatever allowance it has and wherever it stops.
pub proof fn indexing_keeps_the_reservation(
    index: IndexModel,
    source: CaptureModel,
    allowed: int,
    used: int,
)
    requires
        index.checkpoints.len() <= index.capacity,
    ensures
        index.walked(source, allowed, used).0.capacity == index.capacity,
        index.walked(source, allowed, used).0.checkpoints.len() <= index.capacity,
    decreases allowed - used,
{
    let width = token(source.bytes, index.encoding, index.cursor.offset as int).0;
    if index.cursor.offset < source.bytes.len() && used < allowed && 0 < width <= allowed - used {
        indexing_keeps_the_reservation(
            index.moved(after(source.bytes, index.encoding, index.cursor)),
            source,
            allowed,
            used + width,
        );
    }
}

impl ReaderIndex {
    pub fn progress(&self, source: &SourceCapture) -> (r: ReaderIndexProgress)
        ensures
            r == self@.progress(source@),
    {
        ReaderIndexProgress {
            indexed_through: self.cursor.offset as u64,
            known_lines: self.cursor.line,
            total_lines: if self.cursor.offset == source.bytes.len() {
                Some(self.cursor.line)
            } else {
                None
            },
            checkpoint_count: self.checkpoints.len(),
            step_bytes: 0,
            canceled: false,
        }
    }

    fn new(source: &SourceCapture, encoding: DetectedEncoding, limits: ReaderLimits) -> (r: Self)
        requires
            limits.valid(),
            source@.bytes.len() < usize::MAX,
        ensures
            r@ == IndexModel::fresh(source@, encoding, limits),
            r@.wf(source@),
    {
        let length: usize = source.bytes.len();
        let mark: usize = encoding.bom_bytes_len();
        let content_start: usize = if mark < length {
            mark
        } else {
            length
        };
        let gaps: usize = limits.max_checkpoints - 1;
        proof {
            lemma_quotient(length as int, gaps as int);
        }
        let even: usize = if length % gaps == 0 {
            length / gaps
        } else {
            length / gaps + 1
        };
        let stride: usize = if even < limits.min_checkpoint_bytes {
            limits.min_checkpoint_bytes
        } else {
            even
        };
        proof {
            lemma_quotient(length as int, stride as int);
        }
        let needed: usize = length / stride + 1;
        let capacity: usize = if needed < limits.max_checkpoints {
            needed
        } else {
            limits.max_checkpoints
        };
        let cursor = Cursor { offset: content_start, line: 1, start: content_start };
        let mut checkpoints: Vec<Cursor> = Vec::new();
        checkpoints.push(cursor);
        let next_checkpoint: usize = if stride > usize::MAX - content_start {
            usize::MAX
        } else {
            content_start + stride
        };
        let r = ReaderIndex {
            encoding,
            content_start,
            checkpoints,
            cursor,
            stride,
            next_checkpoint,
            capacity,
        };
        assert(r@.checkpoints =~= seq![origin(source@.bytes, encoding)]);
        assert(r@.checkpoints.last() == cursor);
        r
    }

    pub fn move_to(&mut self, c: Cursor)
        ensures
            final(self)@ == old(self)@.moved(c),
    {
        self.cursor = c;
        if c.offset >= self.next_checkpoint && self.checkpoints.len() < self.capacity {
            self.checkpoints.push(c);
            self.next_checkpoint = if self.stride > usize::MAX - c.offset {
                usize::MAX
            } else {
                c.offset + self.stride
            };
        }
    }

    /// Advances by at most `max_bytes` bytes. Cancellation keeps the
    /// checkpoints already found.
    pub fn index_step<C: FnMut() -> bool>(
        &mut self,
        source: &SourceCapture,
        max_bytes: usize,
        canceled: &mut C,
    ) -> (r: Result<ReaderIndexProgress, ReaderError>)
        requires
            old(self)@.wf(source@),
            call_requires(*old(canceled), ()),
        ensures
            *final(canceled) == *old(canceled),
            final(self)@.wf(source@),
            is_index_step(
                old(self)@,
                final(self)@,
                r,
                source@,
                allowance(max_bytes) as int,
                *old(canceled),
            ),
    {
        let allowed: usize = if max_bytes < MAX_READER_STEP_BYTES {
            max_bytes
        } else {
            MAX_READER_STEP_BYTES
        };
        let ghost start = self@;
        let mut used: usize = 0;
        let mut stopped = false;
        let mut done = false;
        while !done
            invariant
                start == old(self)@,
                *canceled == *old(canceled),
                call_requires(*canceled, ()),
                self@.wf(source@),
                start.wf(source@),
                used <= allowed <= MAX_READER_STEP_BYTES,
                allowed == allowance(max_bytes),
                start.walked(source@, allowed as int, 0) == self@.walked(
                    source@,
                    allowed as int,
                    used as int,
                ),
                start.walked(source@, used as int, 0) == (self@, used as int, None::<ReaderError>),
                stopped ==> done && call_ensures(*old(canceled), (), true),
                done && !stopped ==> self@.walked(source@, allowed as int, used as int) == (
                    self@,
                    used as int,
                    None::<ReaderError>,
                ),
            decreases allowed - used, if done {
                0int
            } else {
                1int
            },
        {
            if self.cursor.offset >= source.bytes.len() {
                done = true;
            } else if canceled() {
                stopped = true;
                done = true;
            } else if used >= allowed {
                done = true;
            } else {
                proof {
                    lemma_position(source@.bytes, self.encoding, self.cursor);
                }
                let (next, width) = step_over(&source.bytes, self.encoding, self.cursor);
                if width > allowed - used {
                    if used == 0 {
                        return Err(ReaderError::StepTooSmall);
                    }
                    done = true;
                } else {
                    let ghost before = self@;
                    proof {
                        lemma_moved(before, source@, next);
                    }
                    self.move_to(next);
                    proof {
                        lemma_index_more(start, before, source@, 0, used as int);
                    }
                    used = used + width;
                }
            }
        }
        let mut progress = self.progress(source);
        progress.step_bytes = used;
        let late = if stopped {
            true
        } else {
            canceled()
        };
        progress.canceled = late;
        assert(start.walked(source@, used as int, 0).0 == self@);
        Ok(progress)
    }

    /// Starts a request at the nearest checkpoint.
    pub fn seek(&self, source: &SourceCapture, target: ReadingTarget, generation: QueryGeneration) -> (r:
        Result<SeekParts, ReaderError>)
        requires
            self@.wf(source@),
        ensures
            r == self@.request(source@, target, generation),
            r matches Ok(seek) ==> seek.wf(source@),
    {
        if generation.owner != source.owner {
            return Err(ReaderError::OwnerMismatch);
        }
        let length: usize = source.bytes.len();
        let byte: Option<u64> = match target {
            ReadingTarget::Line(_) => None,
            ReadingTarget::Byte(n) => Some(n),
            ReadingTarget::Range(range) => {
                if range.end > length as u64 {
                    return Err(ReaderError::InvalidRange);
                }
                Some(range.start)
            },
        };
        let target_byte: Option<usize> = match byte {
            None => None,
            Some(n) => {
                if n > length as u64 {
                    return Err(ReaderError::InvalidRange);
                }
                if n < self.content_start as u64 {
                    Some(self.content_start)
                } else {
                    Some(n as usize)
                }
            },
        };
        assert(self@.byte_of(source@, target) == Ok::<Option<usize>, ReaderError>(target_byte));
        let offset: usize = match target_byte {
            Some(n) => n,
            None => self.content_start,
        };
        let cursor: Cursor = self.nearest(target, offset);
        proof {
            if !eligible(self.cursor, target, offset as int) {
                lemma_eligible_bound(self@.checkpoints, target, offset as int, 0);
            }
        }
        assert(is_position(source@.bytes, self.encoding, cursor));
        proof {
            lemma_position(source@.bytes, self.encoding, cursor);
        }
        let mut seek = SeekParts {
            encoding: self.encoding,
            target,
            target_byte,
            generation,
            cursor,
            state: ReadingSeekState::Pending,
            scanned_bytes: 0,
            last_step_bytes: 0,
        };
        seek.state = seek.resolve(source, cursor);
        Ok(seek)
    }

    fn is_eligible(c: Cursor, target: ReadingTarget, offset: usize) -> (r: bool)
        ensures
            r == eligible(c, target, offset as int),
    {
        match target {
            ReadingTarget::Line(line) => c.line <= line.value,
            _ => c.offset <= offset,
        }
    }

    fn nearest(&self, target: ReadingTarget, offset: usize) -> (r: Cursor)
        requires
            self@.checkpoints.len() > 0,
        ensures
            r == self@.start_of(target, offset as int),
    {
        if ReaderIndex::is_eligible(self.cursor, target, offset) {
            return self.cursor;
        }
        let mut count: usize = 0;
        while count < self.checkpoints.len() && ReaderIndex::is_eligible(
            self.checkpoints[count],
            target,
            offset,
        )
            invariant
                count <= self.checkpoints@.len(),
                eligible_from(self@.checkpoints, target, offset as int, count as int)
                    == eligible_from(self@.checkpoints, target, offset as int, 0),
            decreases self.checkpoints.len() - count,
        {
            count = count + 1;
        }
        if count > 0 {
            self.checkpoints[count - 1]
        } else {
            self.checkpoints[0]
        }
    }
}

/// Whether an index step may change an index so and answer `r`.
pub open spec fn is_index_step<C: FnMut() -> bool>(
    before: IndexModel,
    end: IndexModel,
    r: Result<ReaderIndexProgress, ReaderError>,
    source: CaptureModel,
    allowed: int,
    canceled: C,
) -> bool {
    match r {
        Err(e) => {
            let (walked, used, error) = before.walked(source, allowed, 0);
            end == walked && error == Some(e)
        },
        Ok(progress) => {
            let (walked, used, error) = before.walked(
                source,
                if progress.canceled {
                    progress.step_bytes as int
                } else {
                    allowed
                },
                0,
            );
            &&& end == walked
            &&& error is None
            &&& progress == ReaderIndexProgress {
                step_bytes: used as usize,
                canceled: progress.canceled,
                ..end.progress(source)
            }
            &&& used <= allowed
            &&& call_ensures(canceled, (), progress.canceled)
        },
    }
}

/// What was walked within the bytes taken so far grows by one token.
proof fn lemma_index_more(
    start: IndexModel,
    before: IndexModel,
    source: CaptureModel,
    from: int,
    used: int,
)
    requires
        start.wf(source),
        before.wf(source),
        0 <= from <= used,
        before.cursor.offset < source.bytes.len(),
        start.walked(source, used, from) == (before, used, None::<ReaderError>),
    ensures
        ({
            let width = token(source.bytes, before.encoding, before.cursor.offset as int).0;
            start.walked(source, used + width, from) == (
                before.moved(after(source.bytes, before.encoding, before.cursor)),
                used + width,
                None::<ReaderError>,
            )
        }),
    decreases used - from,
{
    lemma_position(source.bytes, before.encoding, before.cursor);
    lemma_token(source.bytes, before.encoding, before.cursor.offset as int);
    if start.cursor.offset < source.bytes.len() {
        lemma_position(source.bytes, start.encoding, start.cursor);
        lemma_token(source.bytes, start.encoding, start.cursor.offset as int);
        let width = token(source.bytes, start.encoding, start.cursor.offset as int).0;
        if from < used {
            let next = start.moved(after(source.bytes, start.encoding, start.cursor));
            lemma_moved(start, source, after(source.bytes, start.encoding, start.cursor));
            lemma_index_more(next, before, source, from + width, used);
        } else {
            let next = start.moved(after(source.bytes, start.encoding, start.cursor));
            assert(next.walked(source, used + width, used + width) == (
                next,
                used + width,
                None::<ReaderError>,
            ));
        }
    }
}

proof fn lemma_eligible_bound(
    checkpoints: Seq<Cursor>,
    target: ReadingTarget,
    offset: int,
    i: int,
)
    requires
        0 <= i <= checkpoints.len(),
    ensures
        i <= eligible_from(checkpoints, target, offset, i) <= checkpoints.len(),
    decreases checkpoints.len() - i,
{
    if i < checkpoints.len() && eligible(checkpoints[i], target, offset) {
        lemma_eligible_bound(checkpoints, target, offset, i + 1);
    }
}

proof fn lemma_quotient(a: int, b: int)
    requires
        a >= 0,
        b >= 1,
    ensures
        0 <= a / b <= a,
{
    assert(0 <= a / b <= a) by (nonlinear_arith)
        requires
            a >= 0,
            b >= 1,
    ;
}

/// Every request that an index starts finds what a scan of the whole capture
/// from its start would find: what was indexed before never changes an answer.
pub proof fn requests_find_what_a_full_scan_finds(
    index: IndexModel,
    source: CaptureModel,
    target: ReadingTarget,
    generation: QueryGeneration,
)
    requires
        index.wf(source),
        target matches ReadingTarget::Line(line) ==> line.value > 0,
    ensures
        index.request(source, target, generation) matches Ok(seek) ==> seek.outcome(source)
            == seek.found_from(source, origin(source.bytes, index.encoding)),
{
    if let Ok(seek) = index.request(source, target, generation) {
        let first = origin(source.bytes, index.encoding);
        let offset = match seek.target_byte {
            Some(n) => n as int,
            None => index.content_start as int,
        };
        lemma_eligible_last(index.checkpoints, target, offset, 0);
        lemma_eligible_bound(index.checkpoints, target, offset, 0);
        assert(eligible(first, target, offset));
        assert(eligible_from(index.checkpoints, target, offset, 0) >= 1) by {
            lemma_eligible_bound(index.checkpoints, target, offset, 1);
        }
        assert(is_position(source.bytes, index.encoding, seek.cursor));
        assert(eligible(seek.cursor, target, offset));
        checkpoints_do_not_change_what_is_found(seek, source, first, seek.cursor);
        lemma_position(source.bytes, index.encoding, seek.cursor);
        if seek.state is Pending {
        } else {
            assert(seek.found_from(source, seek.cursor) == seek.state);
        }
    }
}

/// All counted checkpoints are eligible.
proof fn lemma_eligible_last(checkpoints: Seq<Cursor>, target: ReadingTarget, offset: int, i: int)
    requires
        0 <= i <= checkpoints.len(),
    ensures
        forall|k: int|
            i <= k < eligible_from(checkpoints, target, offset, i) ==> eligible(
                #[trigger] checkpoints[k],
                target,
                offset,
            ),
    decreases checkpoints.len() - i,
{
    if i < checkpoints.len() && eligible(checkpoints[i], target, offset) {
        lemma_eligible_last(checkpoints, target, offset, i + 1);
    }
}

/// A hit of a content search.
#[derive(Clone, Copy, Debug, PartialEq, Eq, Structural)]
pub struct SearchHit {
    pub file_id: FileId,
    pub revision: SourceRevision,
    pub original_byte_range: ByteRange,
    pub occurrence_id: u64,
}

/// A reader of one capture.
#[derive(Debug)]
pub struct SourceReader<'source> {
    pub source: &'source SourceCapture,
    pub index: ReaderIndex,
}

/// A request for a position of one capture.
#[derive(Debug)]
pub struct ReadingSeek<'source> {
    pub source: &'source SourceCapture,
    pub parts: SeekParts,
}

/// Bytes charged for an index of so many checkpoints.
pub open spec fn index_charge(capacity: int) -> nat {
    size_of::<SourceReader>() + (capacity * size_of::<Cursor>()) as nat
}

impl<'source> SourceReader<'source> {
    pub open spec fn wf(self) -> bool {
        self.index@.wf(self.source@)
    }

    /// Prepares reading of a capture, without decoding or scanning it.
    /// `encoding` is what its first bytes tell.
    pub fn new<A: FnOnce(u64) -> bool>(
        source: &'source SourceCapture,
        encoding: DetectedEncoding,
        limits: ReaderLimits,
        reserve: A,
    ) -> (r: Result<Self, ReaderError>)
        requires
            source@.bytes.len() < usize::MAX,
            forall|charge: u64| call_requires(reserve, (charge,)),
        ensures
            ({
                let charge = index_charge(limits.capacity(source@.bytes.len() as int));
                if !limits.valid() || charge > usize::MAX {
                    r matches Err(e) && e == ReaderError::InvalidLimits
                } else {
                    exists|granted: bool|
                        #[trigger] call_ensures(reserve, (charge as u64,), granted) && match r {
                            Ok(reader) => granted && reader.source@ == source@ && reader.index@
                                == IndexModel::fresh(source@, encoding, limits) && reader.wf(),
                            Err(e) => !granted && e == ReaderError::ResourceDenied,
                        }
                }
            }),
    {
        if limits.max_checkpoints < 2 || limits.max_checkpoints > MAX_READER_CHECKPOINTS
            || limits.min_checkpoint_bytes == 0 {
            return Err(ReaderError::InvalidLimits);
        }
        let index = ReaderIndex::new(source, encoding, limits);
        let row: u128 = wide_size::<Cursor>();
        let capacity: u128 = index.capacity as u128;
        assert(capacity * row <= 65_536 * 0xffff_ffff_ffff_ffff) by (nonlinear_arith)
            requires
                0 <= capacity <= 65_536,
                0 <= row <= 0xffff_ffff_ffff_ffff,
        ;
        let charge: u128 = wide_size::<SourceReader>() + capacity * row;
        if charge > usize::MAX as u128 {
            return Err(ReaderError::InvalidLimits);
        }
        let granted = reserve(charge as u64);
        assert(call_ensures(reserve, (charge as u64,), granted));
        if !granted {
            return Err(ReaderError::ResourceDenied);
        }
        Ok(SourceReader { source, index })
    }

    pub fn source(&self) -> (r: &'source SourceCapture)
        ensures
            r == self.source,
    {
        self.source
    }

    pub fn encoding(&self) -> (r: DetectedEncoding)
        ensures
            r == self.index@.encoding,
    {
        self.index.encoding
    }

    pub fn checkpoint_count(&self) -> (r: usize)
        ensures
            r == self.index@.checkpoints.len(),
    {
        self.index.checkpoints.len()
    }

    pub fn checkpoint_capacity(&self) -> (r: usize)
        ensures
            r == self.index@.capacity,
    {
        self.index.capacity
    }

    pub fn checkpoint_stride_bytes(&self) -> (r: usize)
        ensures
            r == self.index@.stride,
    {
        self.index.stride
    }

    pub fn progress(&self) -> (r: ReaderIndexProgress)
        ensures
            r == self.index@.progress(self.source@),
    {
        self.index.progress(self.source)
    }

    /// Advances by at most `max_bytes` original bytes, and never by more than
    /// the step limit. Cancellation keeps useful checkpoints.
    pub fn index_step<C: FnMut() -> bool>(&mut self, max_bytes: usize, mut canceled: C) -> (r:
        Result<ReaderIndexProgress, ReaderError>)
        requires
            old(self).wf(),
            call_requires(canceled, ()),
        ensures
            final(self).wf(),
            final(self).source == old(self).source,
            is_index_step(
                old(self).index@,
                final(self).index@,
                r,
                old(self).source@,
                allowance(max_bytes) as int,
                canceled,
            ),
    {
        self.index.index_step(self.source, max_bytes, &mut canceled)
    }

    /// Starts an independent request at the nearest retained checkpoint. No
    /// far-line scan occurs in this call.
    pub fn seek(&self, target: ReadingTarget, generation: QueryGeneration) -> (r: Result<
        ReadingSeek<'source>,
        ReaderError,
    >)
        requires
            self.wf(),
        ensures
            match self.index@.request(self.source@, target, generation) {
                Ok(parts) => r matches Ok(seek) && seek.source == self.source && seek.parts
                    == parts && seek.wf(),
                Err(e) => r matches Err(f) && f == e,
            },
    {
        match self.index.seek(self.source, target, generation) {
            Ok(parts) => Ok(ReadingSeek { source: self.source, parts }),
            Err(e) => Err(e),
        }
    }

    /// Locates an exact content hit. `exact` tells whether the captured bytes
    /// still are what was hit.
    pub fn seek_hit(&self, hit: &SearchHit, exact: bool, generation: QueryGeneration) -> (r: Result<
        ReadingSeek<'source>,
        ReaderError,
    >)
        requires
            self.wf(),
        ensures
            if hit.file_id.owner != self.source@.owner || hit.revision.owner
                != self.source@.owner {
                r matches Err(e) && e == ReaderError::OwnerMismatch
            } else if !exact {
                r matches Err(e) && e == ReaderError::StaleSource
            } else {
                match self.index@.request(
                    self.source@,
                    ReadingTarget::Range(hit.original_byte_range),
                    generation,
                ) {
                    Ok(parts) => r matches Ok(seek) && seek.source == self.source && seek.parts
                        == parts && seek.wf(),
                    Err(e) => r matches Err(f) && f == e,
                }
            },
    {
        if hit.file_id.owner != self.source.owner || hit.revision.owner != self.source.owner {
            return Err(ReaderError::OwnerMismatch);
        }
        if !exact {
            return Err(ReaderError::StaleSource);
        }
        self.seek(ReadingTarget::Range(hit.original_byte_range), generation)
    }
}

impl<'source> ReadingSeek<'source> {
    pub open spec fn wf(self) -> bool {
        self.parts.wf(self.source@)
    }

    pub fn state(&self) -> (r: ReadingSeekState)
        ensures
            r == self.parts.state,
    {
        self.parts.state
    }

    pub fn generation(&self) -> (r: QueryGeneration)
        ensures
            r == self.parts.generation,
    {
        self.parts.generation
    }

    pub fn scanned_bytes(&self) -> (r: u64)
        ensures
            r == self.parts.scanned_bytes,
    {
        self.parts.scanned_bytes
    }

    pub fn last_step_bytes(&self) -> (r: usize)
        ensures
            r == self.parts.last_step_bytes,
    {
        self.parts.last_step_bytes
    }

    pub fn scanned_through(&self) -> (r: u64)
        ensures
            r == self.parts.cursor.offset,
    {
        self.parts.cursor.offset as u64
    }

    pub fn cancel(&mut self)
        ensures
            final(self).source == old(self).source,
            final(self).parts == old(self).parts.canceled(),
    {
        self.parts.cancel();
    }

    pub fn step<C: FnMut() -> bool>(
        &mut self,
        max_bytes: usize,
        active_generation: QueryGeneration,
        canceled: C,
    ) -> (r: Result<ReadingSeekState, ReaderError>)
        requires
            old(self).wf(),
            call_requires(canceled, ()),
        ensures
            final(self).wf(),
            final(self).source == old(self).source,
            is_step(
                old(self).parts,
                final(self).parts,
                r,
                old(self).source@,
                max_bytes,
                active_generation,
                canceled,
            ),
    {
        self.parts.step(self.source, max_bytes, active_generation, canceled)
    }
}

} // verus!
