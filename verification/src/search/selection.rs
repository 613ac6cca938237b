//! Source selections, hit testing, copy modes and budgeted clipboard
//! publication.
//!
//! A selection is an anchor and range description, not a copy. Over-budget
//! selections are refused before publication; a streamed export is the
//! alternative that truncates nothing.
pub mod copies;

use vstd::prelude::*;
use vstd::utf8::{decode_utf8, encode_utf8, valid_utf8};

use crate::capture::{byte_len, text_len, CaptureModel, SourceCapture};
use crate::envelope::text_from_utf8;
use crate::identity::{ByteRange, FileId, QueryGeneration, SourceRevision};
use crate::model::maybe;
use crate::search::reader::ReaderError;
use crate::text::{
    bytes_of, char_len, decimal, decimal_text, encode_push, lossy_text, text_chars,
    text_from_utf8_lossy,
};

verus! {

/// Caret visual affinity for boundary or ambiguous positions.
#[derive(Clone, Copy, Debug, PartialEq, Eq, Structural)]
pub enum CaretAffinity {
    /// Attached to the leading edge of the character cluster.
    Leading,
    /// Attached to the trailing edge of the character cluster.
    Trailing,
}

/// An immutable anchor within a captured source file.
#[derive(Clone, Copy, Debug, PartialEq, Eq, Structural)]
pub struct SourceAnchor {
    pub byte_offset: u64,
    pub line: u64,
    pub column: u32,
}

impl SourceAnchor {
    pub fn new(byte_offset: u64, line: u64, column: u32) -> (r: Self)
        ensures
            r == (SourceAnchor { byte_offset, line, column }),
    {
        SourceAnchor { byte_offset, line, column }
    }
}

/// Detailed errors of clipboard preparation or publication.
#[derive(Clone, Copy, Debug, PartialEq, Eq, Structural)]
pub enum ClipboardError {
    BudgetExceeded { requested_bytes: usize, max_budget_bytes: usize },
    StaleSource,
    OwnerMismatch,
    StaleGeneration,
    Canceled,
    PublicationFailed,
    ConcurrentExternalChange,
    InvalidRange,
}

impl ClipboardError {
    /// The message of an error.
    pub open spec fn message(self) -> Seq<char> {
        match self {
            ClipboardError::BudgetExceeded { requested_bytes, max_budget_bytes } =>
                "CLIPBOARD_BUDGET_EXCEEDED: requested "@ + decimal(requested_bytes as nat)
                    + " bytes, limit is "@ + decimal(max_budget_bytes as nat),
            ClipboardError::StaleSource => "CLIPBOARD_STALE_SOURCE"@,
            ClipboardError::OwnerMismatch => "CLIPBOARD_OWNER_MISMATCH"@,
            ClipboardError::StaleGeneration => "CLIPBOARD_STALE_GENERATION"@,
            ClipboardError::Canceled => "CLIPBOARD_CANCELED"@,
            ClipboardError::PublicationFailed => "CLIPBOARD_PUBLICATION_FAILED"@,
            ClipboardError::ConcurrentExternalChange => "CLIPBOARD_CONCURRENT_EXTERNAL_CHANGE"@,
            ClipboardError::InvalidRange => "CLIPBOARD_INVALID_RANGE"@,
        }
    }

    /// The message of an error.
    pub fn text(&self) -> (r: String)
        ensures
            r@ == self.message(),
    {
        match self {
            ClipboardError::BudgetExceeded { requested_bytes, max_budget_bytes } => {
                let mut out = String::from_str("CLIPBOARD_BUDGET_EXCEEDED: requested ");
                let requested = decimal_text(*requested_bytes as u64);
                let limit = decimal_text(*max_budget_bytes as u64);
                out.append(requested.as_str());
                out.append(" bytes, limit is ");
                out.append(limit.as_str());
                out
            },
            ClipboardError::StaleSource => String::from_str("CLIPBOARD_STALE_SOURCE"),
            ClipboardError::OwnerMismatch => String::from_str("CLIPBOARD_OWNER_MISMATCH"),
            ClipboardError::StaleGeneration => String::from_str("CLIPBOARD_STALE_GENERATION"),
            ClipboardError::Canceled => String::from_str("CLIPBOARD_CANCELED"),
            ClipboardError::PublicationFailed => String::from_str("CLIPBOARD_PUBLICATION_FAILED"),
            ClipboardError::ConcurrentExternalChange => String::from_str(
                "CLIPBOARD_CONCURRENT_EXTERNAL_CHANGE",
            ),
            ClipboardError::InvalidRange => String::from_str("CLIPBOARD_INVALID_RANGE"),
        }
    }
}

/// A non-allocating anchor and range description of a source selection.
#[derive(Clone, Copy, Debug, PartialEq, Eq, Structural)]
pub struct SourceSelection {
    pub file: FileId,
    pub revision: SourceRevision,
    pub generation: QueryGeneration,
    pub start: SourceAnchor,
    pub end: SourceAnchor,
    pub byte_range: ByteRange,
}

impl SourceSelection {
    /// Why a delivery of the selection is refused, if it is.
    pub open spec fn refusal(self, capture: CaptureModel, generation: QueryGeneration) -> Option<
        ClipboardError,
    > {
        if self.file.owner != capture.owner || generation.owner != capture.owner {
            Some(ClipboardError::OwnerMismatch)
        } else if self.file != capture.file || self.revision != capture.revision {
            Some(ClipboardError::StaleSource)
        } else if self.generation != generation {
            Some(ClipboardError::StaleGeneration)
        } else {
            None
        }
    }

    pub fn new(
        file: FileId,
        revision: SourceRevision,
        generation: QueryGeneration,
        start: SourceAnchor,
        end: SourceAnchor,
    ) -> (r: Result<Self, ReaderError>)
        ensures
            r == (if start.byte_offset > end.byte_offset {
                Err::<SourceSelection, ReaderError>(ReaderError::InvalidRange)
            } else {
                Ok(
                    SourceSelection {
                        file,
                        revision,
                        generation,
                        start,
                        end,
                        byte_range: ByteRange { start: start.byte_offset, end: end.byte_offset },
                    },
                )
            }),
    {
        if start.byte_offset > end.byte_offset {
            return Err(ReaderError::InvalidRange);
        }
        Ok(
            SourceSelection {
                file,
                revision,
                generation,
                start,
                end,
                byte_range: ByteRange { start: start.byte_offset, end: end.byte_offset },
            },
        )
    }

    pub fn is_empty(&self) -> (r: bool)
        ensures
            r == (self.byte_range.start == self.byte_range.end),
    {
        self.byte_range.start == self.byte_range.end
    }

    pub fn byte_len(&self) -> (r: u64)
        requires
            self.byte_range.start <= self.byte_range.end,
        ensures
            r == self.byte_range.end - self.byte_range.start,
    {
        self.byte_range.end - self.byte_range.start
    }

    /// Validates delivery against a source capture and the active generation.
    pub fn validate(&self, capture: &SourceCapture, generation: QueryGeneration) -> (r: Result<
        (),
        ClipboardError,
    >)
        ensures
            r == (match self.refusal(capture@, generation) {
                Some(e) => Err::<(), ClipboardError>(e),
                None => Ok(()),
            }),
    {
        if self.file.owner != capture.owner || generation.owner != capture.owner {
            return Err(ClipboardError::OwnerMismatch);
        }
        if self.file != capture.file || self.revision != capture.revision {
            return Err(ClipboardError::StaleSource);
        }
        if self.generation != generation {
            return Err(ClipboardError::StaleGeneration);
        }
        Ok(())
    }
}

/// Hit-testing result within a line of source text.
#[derive(Clone, Copy, Debug, PartialEq, Eq, Structural)]
pub struct TextHitResult {
    pub byte_offset: usize,
    pub char_index: usize,
    pub visual_column: u32,
    pub affinity: CaretAffinity,
    pub is_exact_boundary: bool,
}

/// Columns that a character takes.
pub open spec fn cell_width(c: char, column: int, tab_width: u32) -> int {
    let step = if tab_width == 0 {
        4
    } else {
        tab_width as int
    };
    if c == '\t' {
        step - column % step
    } else {
        1
    }
}

/// The column at which the `i`th character starts.
pub open spec fn column_of(text: Seq<char>, i: int, tab_width: u32) -> int
    decreases i,
{
    if i <= 0 {
        0
    } else {
        let before = column_of(text, i - 1, tab_width);
        before + cell_width(text[i - 1], before, tab_width)
    }
}

/// Whether `i` is the character hit: the first whose cell ends beyond the
/// target, or the end of the text.
pub open spec fn is_hit(text: Seq<char>, target: u32, tab_width: u32, i: int) -> bool {
    &&& 0 <= i <= text.len()
    &&& forall|j: int| 0 <= j <= i ==> #[trigger] column_of(text, j, tab_width) <= target
    &&& i < text.len() ==> target < column_of(text, i + 1, tab_width)
}

/// The result of hitting the `i`th character.
pub open spec fn hit(text: Seq<char>, target: u32, tab_width: u32, i: int) -> TextHitResult {
    let column = column_of(text, i, tab_width);
    let width = cell_width(text[i], column, tab_width);
    TextHitResult {
        byte_offset: text_len(text.subrange(0, i)) as usize,
        char_index: i as usize,
        visual_column: column as u32,
        affinity: if i < text.len() && target <= column + width / 2 {
            CaretAffinity::Leading
        } else {
            CaretAffinity::Trailing
        },
        is_exact_boundary: i == text.len() || target == column,
    }
}

/// Hit-test a visual column against line text, snapping to Unicode scalar
/// boundaries and resolving caret affinity.
pub fn hit_test_line(line_text: &str, target_visual_col: u32, tab_width: u32) -> (r: TextHitResult)
    ensures
        exists|i: int|
            #[trigger] is_hit(line_text@, target_visual_col, tab_width, i) && r == hit(
                line_text@,
                target_visual_col,
                tab_width,
                i,
            ),
{
    let ghost text = line_text@;
    let chars = text_chars(line_text);
    let whole: usize = line_text.as_bytes().len();
    let step: u64 = if tab_width == 0 {
        4
    } else {
        tab_width as u64
    };
    let mut column: u64 = 0;
    let mut offset: usize = 0;
    let mut i: usize = 0;
    assert(text.subrange(0, 0) =~= Seq::<char>::empty());
    while i < chars.len()
        invariant
            i <= chars@.len(),
            chars@ == text,
            text == line_text@,
            whole == text_len(text),
            step == (if tab_width == 0 {
                4
            } else {
                tab_width as int
            }),
            column == column_of(text, i as int, tab_width),
            column <= target_visual_col,
            offset == text_len(text.subrange(0, i as int)),
            forall|j: int|
                0 <= j <= i ==> #[trigger] column_of(text, j, tab_width) <= target_visual_col,
        decreases chars.len() - i,
    {
        let c = chars[i];
        let advance: u64 = if c == '\t' {
            step - column % step
        } else {
            1
        };
        let next: u64 = column + advance;
        assert(next == column_of(text, i + 1, tab_width));
        if (target_visual_col as u64) < next {
            let affinity = if target_visual_col as u64 <= column + advance / 2 {
                CaretAffinity::Leading
            } else {
                CaretAffinity::Trailing
            };
            assert(is_hit(text, target_visual_col, tab_width, i as int));
            return TextHitResult {
                byte_offset: offset,
                char_index: i,
                visual_column: column as u32,
                affinity,
                is_exact_boundary: target_visual_col as u64 == column,
            };
        }
        proof {
            assert(text.subrange(0, i + 1) =~= text.subrange(0, i as int).push(c));
            encode_push(text.subrange(0, i as int), c);
            lemma_prefix_len(text, i + 1);
        }
        offset = offset + char_len(c);
        column = next;
        i = i + 1;
    }
    assert(is_hit(text, target_visual_col, tab_width, i as int));
    TextHitResult {
        byte_offset: offset,
        char_index: chars.len(),
        visual_column: column as u32,
        affinity: CaretAffinity::Trailing,
        is_exact_boundary: true,
    }
}

/// A prefix takes no more bytes than the text.
proof fn lemma_prefix_len(text: Seq<char>, i: int)
    requires
        0 <= i <= text.len(),
    ensures
        text_len(text.subrange(0, i)) <= text_len(text),
    decreases text.len() - i,
{
    if i < text.len() {
        assert(text.subrange(0, i + 1) =~= text.subrange(0, i).push(text[i]));
        encode_push(text.subrange(0, i), text[i]);
        lemma_prefix_len(text, i + 1);
    } else {
        assert(text.subrange(0, i) =~= text);
    }
}

/// Cells follow one another without overlap, so a column hits at most one
/// character.
pub proof fn a_column_hits_one_character(
    text: Seq<char>,
    target: u32,
    tab_width: u32,
    i: int,
    j: int,
)
    requires
        is_hit(text, target, tab_width, i),
        is_hit(text, target, tab_width, j),
    ensures
        i == j,
{
    if i < j {
        assert(column_of(text, i + 1, tab_width) <= target);
    }
    if j < i {
        assert(column_of(text, j + 1, tab_width) <= target);
    }
}

/// Declared copy mode defining formatting and semantics.
#[derive(Clone, Copy, Debug, PartialEq, Eq, Structural)]
pub enum CopyMode {
    /// Exact captured bytes.
    OriginalBytes,
    /// Decoded Unicode text; malformed sequences use explicit replacements.
    DecodedUnicode,
    /// Text formatted with a location header.
    WithLocation,
}

/// Native clipboard flavors staged for publication.
#[derive(Clone, Copy, Debug, PartialEq, Eq, Structural)]
pub enum ClipboardFlavor {
    PlainTextUtf8,
    ExactRawBytes,
    LocationProvenance,
}

/// Bounded limits for clipboard operations.
#[derive(Clone, Copy, Debug, PartialEq, Eq, Structural)]
pub struct ClipboardLimits {
    /// Maximum bytes permitted for clipboard publication.
    pub max_clipboard_bytes: usize,
}

impl Default for ClipboardLimits {
    fn default() -> (r: Self)
        ensures
            r.max_clipboard_bytes == 4_194_304,
    {
        ClipboardLimits { max_clipboard_bytes: 4_194_304 }
    }
}

/// Pre-staged multi-flavor clipboard data verified against the budget.
#[derive(Debug, PartialEq, Eq)]
pub struct StagedClipboardData<T = String, B = Vec<u8>> {
    pub plain_text: T,
    pub exact_bytes: B,
    pub provenance: T,
    pub has_replacements: bool,
    pub total_staged_bytes: usize,
}

/// The model of staged data.
pub type StagedModel = StagedClipboardData<Seq<char>, Seq<u8>>;

impl View for StagedClipboardData {
    type V = StagedClipboardData<Seq<char>, Seq<u8>>;

    open spec fn view(&self) -> StagedClipboardData<Seq<char>, Seq<u8>> {
        StagedClipboardData {
            plain_text: self.plain_text@,
            exact_bytes: self.exact_bytes@,
            provenance: self.provenance@,
            has_replacements: self.has_replacements,
            total_staged_bytes: self.total_staged_bytes,
        }
    }
}

/// The location header of a selection.
pub open spec fn provenance_of(
    path: Seq<char>,
    revision: u64,
    first_line: u64,
    last_line: u64,
    start: u64,
    end: u64,
) -> Seq<char> {
    "File: "@ + path + "\nRevision: "@ + decimal(revision as nat) + "\nLines: "@ + decimal(
        first_line as nat,
    ) + "-"@ + decimal(last_line as nat) + "\nRange: "@ + decimal(start as nat) + ".."@ + decimal(
        end as nat,
    ) + "\n"@
}

/// The decoded form of bytes, with replacements for malformed ones.
pub open spec fn decoded(bytes: Seq<u8>) -> Seq<char> {
    if valid_utf8(bytes) {
        decode_utf8(bytes)
    } else {
        lossy_text(bytes)
    }
}

/// A count of bytes, at most the largest one.
pub open spec fn capped(n: int) -> usize {
    if n > usize::MAX {
        usize::MAX
    } else {
        n as usize
    }
}

/// Staged data of selected bytes, given their decoded form, or the size that
/// exceeds the budget.
pub open spec fn staged_from(
    selection: SourceSelection,
    path: Seq<char>,
    bytes: Seq<u8>,
    text: Seq<char>,
    limits: ClipboardLimits,
) -> Result<StagedModel, ClipboardError> {
    let provenance = provenance_of(
        path,
        selection.revision.value,
        selection.start.line,
        selection.end.line,
        selection.byte_range.start,
        selection.byte_range.end,
    );
    let total = capped(bytes.len() as int + text_len(text) + text_len(provenance));
    if total > capped(limits.max_clipboard_bytes * 3) {
        Err(
            ClipboardError::BudgetExceeded {
                requested_bytes: total,
                max_budget_bytes: limits.max_clipboard_bytes,
            },
        )
    } else {
        Ok(
            StagedClipboardData {
                plain_text: text,
                exact_bytes: bytes,
                provenance,
                has_replacements: !valid_utf8(bytes),
                total_staged_bytes: total,
            },
        )
    }
}

/// What staging a selection gives when nothing is canceled.
pub open spec fn staged(
    selection: SourceSelection,
    capture: CaptureModel,
    generation: QueryGeneration,
    limits: ClipboardLimits,
) -> Result<StagedModel, ClipboardError> {
    let range = selection.byte_range;
    match selection.refusal(capture, generation) {
        Some(e) => Err(e),
        None => if range.end > usize::MAX || range.start > range.end {
            Err(ClipboardError::InvalidRange)
        } else if range.end - range.start > limits.max_clipboard_bytes {
            Err(
                ClipboardError::BudgetExceeded {
                    requested_bytes: (range.end - range.start) as usize,
                    max_budget_bytes: limits.max_clipboard_bytes,
                },
            )
        } else if range.end > capture.bytes.len() {
            Err(ClipboardError::InvalidRange)
        } else {
            let bytes = capture.bytes.subrange(range.start as int, range.end as int);
            staged_from(selection, capture.logical_path, bytes, decoded(bytes), limits)
        },
    }
}

fn provenance_text(selection: &SourceSelection, path: &String) -> (r: String)
    ensures
        r@ == provenance_of(
            path@,
            selection.revision.value,
            selection.start.line,
            selection.end.line,
            selection.byte_range.start,
            selection.byte_range.end,
        ),
{
    let mut out = String::from_str("File: ");
    let revision = decimal_text(selection.revision.value);
    let first = decimal_text(selection.start.line);
    let last = decimal_text(selection.end.line);
    let start = decimal_text(selection.byte_range.start);
    let end = decimal_text(selection.byte_range.end);
    out.append(path.as_str());
    out.append("\nRevision: ");
    out.append(revision.as_str());
    out.append("\nLines: ");
    out.append(first.as_str());
    out.append("-");
    out.append(last.as_str());
    out.append("\nRange: ");
    out.append(start.as_str());
    out.append("..");
    out.append(end.as_str());
    out.append("\n");
    out
}

impl StagedClipboardData {
    /// Stages selected bytes, given their decoded form. The sizes are added up
    /// to at most the largest count.
    pub fn assemble(
        selection: &SourceSelection,
        path: &String,
        exact_bytes: Vec<u8>,
        plain_text: String,
        has_replacements: bool,
        limits: ClipboardLimits,
    ) -> (r: Result<Self, ClipboardError>)
        requires
            has_replacements == !valid_utf8(exact_bytes@),
        ensures
            match staged_from(*selection, path@, exact_bytes@, plain_text@, limits) {
                Ok(data) => r matches Ok(out) && out@ == data,
                Err(e) => r matches Err(f) && f == e,
            },
    {
        let provenance = provenance_text(selection, path);
        let sum: u128 = exact_bytes.len() as u128 + byte_len(&plain_text) as u128 + byte_len(
            &provenance,
        ) as u128;
        let total: usize = if sum > usize::MAX as u128 {
            usize::MAX
        } else {
            sum as usize
        };
        let product: u128 = limits.max_clipboard_bytes as u128 * 3;
        let limit: usize = if product > usize::MAX as u128 {
            usize::MAX
        } else {
            product as usize
        };
        if total > limit {
            return Err(
                ClipboardError::BudgetExceeded {
                    requested_bytes: total,
                    max_budget_bytes: limits.max_clipboard_bytes,
                },
            );
        }
        Ok(
            StagedClipboardData {
                plain_text,
                exact_bytes,
                provenance,
                has_replacements,
                total_staged_bytes: total,
            },
        )
    }

    /// Stage a selection into multi-flavor clipboard representations.
    ///
    /// Refuses if the size exceeds the limit. Keeps exact bytes, malformed
    /// ones included.
    pub fn stage<C: Fn() -> bool>(
        selection: &SourceSelection,
        capture: &SourceCapture,
        active_generation: QueryGeneration,
        limits: ClipboardLimits,
        canceled: C,
    ) -> (r: Result<Self, ClipboardError>)
        requires
            call_requires(canceled, ()),
        ensures
            (r matches Err(ClipboardError::Canceled) && call_ensures(canceled, (), true)) || (
            call_ensures(canceled, (), false) && match staged(
                *selection,
                capture@,
                active_generation,
                limits,
            ) {
                Ok(data) => r matches Ok(out) && out@ == data,
                Err(e) => r matches Err(f) && f == e,
            }),
    {
        if canceled() {
            return Err(ClipboardError::Canceled);
        }
        match selection.validate(capture, active_generation) {
            Ok(()) => {},
            Err(e) => {
                return Err(e);
            },
        }
        let range = selection.byte_range;
        if range.end > usize::MAX as u64 || range.start > range.end {
            return Err(ClipboardError::InvalidRange);
        }
        let start: usize = range.start as usize;
        let end: usize = range.end as usize;
        if end - start > limits.max_clipboard_bytes {
            return Err(
                ClipboardError::BudgetExceeded {
                    requested_bytes: end - start,
                    max_budget_bytes: limits.max_clipboard_bytes,
                },
            );
        }
        if end > capture.bytes.len() {
            return Err(ClipboardError::InvalidRange);
        }
        let exact_bytes = bytes_of(&capture.bytes, start, end);
        let (plain_text, has_replacements) = match text_from_utf8(
            bytes_of(&capture.bytes, start, end),
        ) {
            Some(text) => (text, false),
            None => (text_from_utf8_lossy(exact_bytes.as_slice()), true),
        };
        let out = match StagedClipboardData::assemble(
            selection,
            &capture.logical_path,
            exact_bytes,
            plain_text,
            has_replacements,
            limits,
        ) {
            Ok(out) => out,
            Err(e) => {
                return Err(e);
            },
        };
        if canceled() {
            return Err(ClipboardError::Canceled);
        }
        Ok(out)
    }
}

/// Simulated native clipboard with generation tracking and atomic publication.
#[derive(Debug)]
pub struct NativeClipboard<T = String, B = Vec<u8>> {
    pub plain_text: Option<T>,
    pub raw_bytes: Option<B>,
    pub provenance: Option<T>,
    pub generation_seq: u64,
    pub fail_next_publish: bool,
}

/// The model of a clipboard.
pub type ClipboardModel = NativeClipboard<Seq<char>, Seq<u8>>;

impl View for NativeClipboard {
    type V = NativeClipboard<Seq<char>, Seq<u8>>;

    open spec fn view(&self) -> NativeClipboard<Seq<char>, Seq<u8>> {
        NativeClipboard {
            plain_text: maybe(self.plain_text),
            raw_bytes: maybe(self.raw_bytes),
            provenance: maybe(self.provenance),
            generation_seq: self.generation_seq,
            fail_next_publish: self.fail_next_publish,
        }
    }
}

impl ClipboardModel {
    pub open spec fn fresh() -> ClipboardModel {
        NativeClipboard {
            plain_text: None,
            raw_bytes: None,
            provenance: None,
            generation_seq: 1,
            fail_next_publish: false,
        }
    }

    /// The clipboard and the answer after a publication.
    pub open spec fn published(self, data: StagedModel, expected_seq: u64) -> (
        ClipboardModel,
        Result<(), ClipboardError>,
    ) {
        if self.generation_seq != expected_seq {
            (self, Err(ClipboardError::ConcurrentExternalChange))
        } else if self.fail_next_publish {
            (
                NativeClipboard { fail_next_publish: false, ..self },
                Err(ClipboardError::PublicationFailed),
            )
        } else {
            (
                NativeClipboard {
                    plain_text: Some(data.plain_text),
                    raw_bytes: Some(data.exact_bytes),
                    provenance: Some(data.provenance),
                    generation_seq: self.generation_seq.wrapping_add(1),
                    ..self
                },
                Ok(()),
            )
        }
    }
}

impl Default for NativeClipboard {
    fn default() -> (r: Self)
        ensures
            r@ == ClipboardModel::fresh(),
    {
        NativeClipboard::new()
    }
}

impl NativeClipboard {
    pub fn new() -> (r: Self)
        ensures
            r@ == ClipboardModel::fresh(),
    {
        NativeClipboard {
            plain_text: None,
            raw_bytes: None,
            provenance: None,
            generation_seq: 1,
            fail_next_publish: false,
        }
    }

    pub fn generation_seq(&self) -> (r: u64)
        ensures
            r == self@.generation_seq,
    {
        self.generation_seq
    }

    pub fn plain_text(&self) -> (r: Option<&str>)
        ensures
            match self@.plain_text {
                Some(text) => r matches Some(t) && t@ == text,
                None => r is None,
            },
    {
        match &self.plain_text {
            Some(text) => Some(text.as_str()),
            None => None,
        }
    }

    pub fn raw_bytes(&self) -> (r: Option<&[u8]>)
        ensures
            match self@.raw_bytes {
                Some(bytes) => r matches Some(b) && b@ == bytes,
                None => r is None,
            },
    {
        match &self.raw_bytes {
            Some(bytes) => Some(bytes.as_slice()),
            None => None,
        }
    }

    pub fn provenance(&self) -> (r: Option<&str>)
        ensures
            match self@.provenance {
                Some(text) => r matches Some(t) && t@ == text,
                None => r is None,
            },
    {
        match &self.provenance {
            Some(text) => Some(text.as_str()),
            None => None,
        }
    }

    /// Simulate an intentional publication failure.
    pub fn inject_publication_failure(&mut self, fail: bool)
        ensures
            final(self)@ == (NativeClipboard { fail_next_publish: fail, ..old(self)@ }),
    {
        self.fail_next_publish = fail;
    }

    /// Simulate a concurrent external clipboard modification.
    pub fn simulate_external_change(&mut self, text: &str)
        ensures
            final(self)@ == (NativeClipboard {
                plain_text: Some(text@),
                raw_bytes: Some(encode_utf8(text@)),
                provenance: None,
                generation_seq: old(self)@.generation_seq.wrapping_add(1),
                ..old(self)@
            }),
    {
        self.plain_text = Some(text.to_owned());
        let mut bytes: Vec<u8> = Vec::new();
        bytes.extend_from_slice(text.as_bytes());
        assert(bytes@ =~= encode_utf8(text@));
        self.raw_bytes = Some(bytes);
        self.provenance = None;
        self.generation_seq = self.generation_seq.wrapping_add(1);
    }

    /// Publish staged clipboard data atomically: on failure the clipboard's
    /// content stays as it was.
    pub fn publish(&mut self, staged: StagedClipboardData, expected_seq: u64) -> (r: Result<
        (),
        ClipboardError,
    >)
        ensures
            (final(self)@, r) == old(self)@.published(staged@, expected_seq),
    {
        if self.generation_seq != expected_seq {
            return Err(ClipboardError::ConcurrentExternalChange);
        }
        if self.fail_next_publish {
            self.fail_next_publish = false;
            return Err(ClipboardError::PublicationFailed);
        }
        self.plain_text = Some(staged.plain_text);
        self.raw_bytes = Some(staged.exact_bytes);
        self.provenance = Some(staged.provenance);
        self.generation_seq = self.generation_seq.wrapping_add(1);
        Ok(())
    }
}

/// A publication that fails preserves what the clipboard holds, and one that
/// succeeds makes earlier expectations stale.
pub proof fn failed_publication_preserves_contents(
    clipboard: ClipboardModel,
    data: StagedModel,
    expected_seq: u64,
)
    ensures
        ({
            let (after, answer) = clipboard.published(data, expected_seq);
            &&& answer is Err ==> after.plain_text == clipboard.plain_text && after.raw_bytes
                == clipboard.raw_bytes && after.provenance == clipboard.provenance
                && after.generation_seq == clipboard.generation_seq
            &&& answer is Ok ==> after.raw_bytes == Some(data.exact_bytes) && after.published(
                data,
                expected_seq,
            ) == (
                after,
                Err::<(), ClipboardError>(ClipboardError::ConcurrentExternalChange),
            )
        }),
{
}

/// Options governing streamed file export.
#[derive(Clone, Copy, Debug, PartialEq, Eq, Structural)]
pub struct StreamedExportOptions {
    pub chunk_size: usize,
}

impl Default for StreamedExportOptions {
    fn default() -> (r: Self)
        ensures
            r.chunk_size == 65_536,
    {
        StreamedExportOptions { chunk_size: 65_536 }
    }
}

impl StreamedExportOptions {
    /// Bytes of a full chunk.
    pub open spec fn chunk(self) -> int {
        if self.chunk_size < 1024 {
            1024
        } else {
            self.chunk_size as int
        }
    }
}

/// Outcome of a streamed file export operation.
#[derive(Clone, Copy, Debug, PartialEq, Eq, Structural)]
pub enum ExportOutcome {
    Completed { total_bytes: usize },
    Canceled { bytes_written: usize },
}

/// Streamed file export, the alternative for selections that exceed the
/// clipboard budget.
#[derive(Clone, Copy, Debug, PartialEq, Eq, Structural)]
pub struct StreamedFileExport {}

/// Whether bytes were handed to the writer in full chunks and a last one, and
/// each was accepted.
pub open spec fn streamed<W: FnMut(&[u8]) -> bool>(
    write: W,
    bytes: Seq<u8>,
    from: int,
    to: int,
    chunk: int,
) -> bool
    decreases to - from,
{
    if chunk <= 0 || from > to {
        false
    } else if from == to {
        true
    } else if to - from <= chunk {
        accepted(write, bytes.subrange(from, to), true)
    } else {
        accepted(write, bytes.subrange(from, from + chunk), true) && streamed(
            write,
            bytes,
            from + chunk,
            to,
            chunk,
        )
    }
}

/// Whether a writer may answer `answer` to a chunk.
pub open spec fn accepted<W: FnMut(&[u8]) -> bool>(write: W, chunk: Seq<u8>, answer: bool) -> bool {
    exists|slice: &[u8]| slice@ == chunk && #[trigger] call_ensures(write, (slice,), answer)
}

/// Whether an export may stop with `r` before the end, after `done` was reached.
pub open spec fn stops<W: FnMut(&[u8]) -> bool, C: FnMut() -> bool>(
    r: Result<ExportOutcome, ClipboardError>,
    bytes: Seq<u8>,
    start: int,
    end: int,
    chunk: int,
    done: int,
    write: W,
    canceled: C,
) -> bool {
    let next = if end - done <= chunk {
        end
    } else {
        done + chunk
    };
    &&& start <= done < end
    &&& (done - start) % chunk == 0
    &&& streamed(write, bytes, start, done, chunk)
    &&& match r {
        Ok(ExportOutcome::Canceled { bytes_written }) => bytes_written == done - start
            && call_ensures(canceled, (), true),
        Err(ClipboardError::InvalidRange) => next > bytes.len(),
        Err(ClipboardError::PublicationFailed) => next <= bytes.len() && accepted(
            write,
            bytes.subrange(done, next),
            false,
        ),
        _ => false,
    }
}

/// Whether an export may end with `r` after everything was handed over.
pub open spec fn ends<F: FnOnce() -> bool, C: FnMut() -> bool>(
    r: Result<ExportOutcome, ClipboardError>,
    start: int,
    end: int,
    flush: F,
    canceled: C,
) -> bool {
    match r {
        Ok(ExportOutcome::Completed { total_bytes }) => total_bytes == end - start && call_ensures(
            flush,
            (),
            true,
        ) && call_ensures(canceled, (), false),
        Ok(ExportOutcome::Canceled { bytes_written }) => bytes_written == end - start
            && call_ensures(flush, (), true) && call_ensures(canceled, (), true),
        Err(ClipboardError::PublicationFailed) => call_ensures(flush, (), false),
        Err(_) => false,
    }
}

impl StreamedFileExport {
    /// Hands the bytes over in chunks. Gives the answer if it had to stop.
    fn write_chunks<W: FnMut(&[u8]) -> bool, C: FnMut() -> bool>(
        bytes: &Vec<u8>,
        start: usize,
        end: usize,
        chunk: usize,
        write: &mut W,
        canceled: &mut C,
    ) -> (r: Option<Result<ExportOutcome, ClipboardError>>)
        requires
            chunk > 0,
            start <= end,
            forall|slice: &[u8]| call_requires(*old(write), (slice,)),
            call_requires(*old(canceled), ()),
        ensures
            *final(write) == *old(write),
            *final(canceled) == *old(canceled),
            match r {
                Some(answer) => exists|done: int|
                    #[trigger] stops(
                        answer,
                        bytes@,
                        start as int,
                        end as int,
                        chunk as int,
                        done,
                        *old(write),
                        *old(canceled),
                    ),
                None => streamed(*old(write), bytes@, start as int, end as int, chunk as int),
            },
    {
        let mut offset: usize = start;
        assert(0int % (chunk as int) == 0) by (nonlinear_arith)
            requires
                chunk > 0,
        ;
        while offset < end
            invariant
                start <= offset <= end,
                offset <= bytes.len() || offset == start,
                *write == *old(write),
                *canceled == *old(canceled),
                chunk > 0,
                forall|slice: &[u8]| call_requires(*write, (slice,)),
                call_requires(*canceled, ()),
                streamed(*write, bytes@, start as int, offset as int, chunk as int),
                offset < end ==> (offset - start) % (chunk as int) == 0,
            decreases end - offset,
        {
            if canceled() {
                let r = Ok(ExportOutcome::Canceled { bytes_written: offset - start });
                assert(stops(
                    r,
                    bytes@,
                    start as int,
                    end as int,
                    chunk as int,
                    offset as int,
                    *old(write),
                    *old(canceled),
                ));
                return Some(r);
            }
            let next: usize = if end - offset <= chunk {
                end
            } else {
                offset + chunk
            };
            if next > bytes.len() {
                let r = Err(ClipboardError::InvalidRange);
                assert(stops(
                    r,
                    bytes@,
                    start as int,
                    end as int,
                    chunk as int,
                    offset as int,
                    *old(write),
                    *old(canceled),
                ));
                return Some(r);
            }
            let slice = vstd::slice::slice_subrange(bytes.as_slice(), offset, next);
            if !write(slice) {
                let r = Err(ClipboardError::PublicationFailed);
                assert(call_ensures(*old(write), (slice,), false));
                assert(stops(
                    r,
                    bytes@,
                    start as int,
                    end as int,
                    chunk as int,
                    offset as int,
                    *old(write),
                    *old(canceled),
                ));
                return Some(r);
            }
            proof {
                assert(call_ensures(*old(write), (slice,), true));
                lemma_streamed(
                    *old(write),
                    bytes@,
                    start as int,
                    offset as int,
                    next as int,
                    chunk as int,
                );
                assert((offset - start + chunk) % (chunk as int) == (offset - start) % (
                chunk as int)) by (nonlinear_arith)
                    requires
                        chunk > 0,
                        offset >= start,
                ;
            }
            offset = next;
        }
        None
    }

    /// Stream exact captured source bytes to a writer in bounded chunks,
    /// without one large buffer. `write` and `flush` say whether they
    /// succeeded.
    pub fn stream_to_writer<
        W: FnMut(&[u8]) -> bool,
        F: FnOnce() -> bool,
        C: FnMut() -> bool,
    >(
        selection: &SourceSelection,
        capture: &SourceCapture,
        active_generation: QueryGeneration,
        options: StreamedExportOptions,
        mut write: W,
        flush: F,
        mut canceled: C,
    ) -> (r: Result<ExportOutcome, ClipboardError>)
        requires
            forall|slice: &[u8]| call_requires(write, (slice,)),
            call_requires(flush, ()),
            call_requires(canceled, ()),
            selection.byte_range.start <= selection.byte_range.end,
        ensures
            match selection.refusal(capture@, active_generation) {
                Some(e) => r == Err::<ExportOutcome, ClipboardError>(e),
                None => ({
                    let start = selection.byte_range.start as int;
                    let end = selection.byte_range.end as int;
                    if end > usize::MAX {
                        r == Err::<ExportOutcome, ClipboardError>(ClipboardError::InvalidRange)
                    } else {
                        ||| (exists|done: int|
                            #[trigger] stops(
                                r,
                                capture@.bytes,
                                start,
                                end,
                                options.chunk(),
                                done,
                                write,
                                canceled,
                            ))
                        ||| streamed(write, capture@.bytes, start, end, options.chunk()) && ends(
                            r,
                            start,
                            end,
                            flush,
                            canceled,
                        )
                    }
                }),
            },
    {
        match selection.validate(capture, active_generation) {
            Ok(()) => {},
            Err(e) => {
                return Err(e);
            },
        }
        let range = selection.byte_range;
        if range.end > usize::MAX as u64 {
            return Err(ClipboardError::InvalidRange);
        }
        let start: usize = range.start as usize;
        let end: usize = range.end as usize;
        let chunk: usize = if options.chunk_size < 1024 {
            1024
        } else {
            options.chunk_size
        };
        match StreamedFileExport::write_chunks(
            &capture.bytes,
            start,
            end,
            chunk,
            &mut write,
            &mut canceled,
        ) {
            Some(r) => {
                return r;
            },
            None => {},
        }
        if !flush() {
            return Err(ClipboardError::PublicationFailed);
        }
        if canceled() {
            Ok(ExportOutcome::Canceled { bytes_written: end - start })
        } else {
            Ok(ExportOutcome::Completed { total_bytes: end - start })
        }
    }
}

/// One more accepted chunk after full ones.
proof fn lemma_streamed<W: FnMut(&[u8]) -> bool>(
    write: W,
    bytes: Seq<u8>,
    from: int,
    at: int,
    to: int,
    chunk: int,
)
    requires
        chunk > 0,
        0 <= from <= at < to <= bytes.len(),
        to - at <= chunk,
        (at - from) % chunk == 0,
        streamed(write, bytes, from, at, chunk),
        accepted(write, bytes.subrange(at, to), true),
    ensures
        streamed(write, bytes, from, to, chunk),
    decreases at - from,
{
    if from < at {
        if at - from < chunk {
            assert(false) by (nonlinear_arith)
                requires
                    0 < at - from < chunk,
                    (at - from) % chunk == 0,
            ;
        }
        assert((at - from - chunk) % chunk == (at - from) % chunk) by (nonlinear_arith)
            requires
                chunk > 0,
                at - from >= chunk,
        ;
        if at - from == chunk {
            assert(streamed(write, bytes, at, at, chunk));
        }
        lemma_streamed(write, bytes, from + chunk, at, to, chunk);
    }
}

/// The chunks of an export, one after the other.
pub open spec fn chunks(bytes: Seq<u8>, from: int, to: int, chunk: int) -> Seq<u8>
    decreases to - from,
{
    if chunk <= 0 || from >= to {
        Seq::empty()
    } else if to - from <= chunk {
        bytes.subrange(from, to)
    } else {
        bytes.subrange(from, from + chunk) + chunks(bytes, from + chunk, to, chunk)
    }
}

/// The chunks of an export join to exactly the bytes selected, each byte once
/// and in order.
pub proof fn chunks_join_to_the_selection(bytes: Seq<u8>, from: int, to: int, chunk: int)
    requires
        chunk > 0,
        0 <= from <= to <= bytes.len(),
    ensures
        chunks(bytes, from, to, chunk) == bytes.subrange(from, to),
    decreases to - from,
{
    if to - from > chunk {
        chunks_join_to_the_selection(bytes, from + chunk, to, chunk);
    }
    assert(chunks(bytes, from, to, chunk) =~= bytes.subrange(from, to));
}

} // verus!
