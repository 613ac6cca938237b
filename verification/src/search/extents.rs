//! Reading bounded extents of a source as text.
//!
//! Original offsets are absolute; decoded offsets are local to the text. Bytes
//! that were not read give no line numbers and no claim about the whole file.
//! Reading bytes and decoding them belong to the host.
pub mod plans;

use vstd::layout::size_of;
use vstd::prelude::*;
use vstd::utf8::{
    decode_utf8, encode_utf8, encode_utf8_decode_utf8, encode_utf8_valid_utf8, is_char_boundary,
};

use crate::capture::same_bytes;
use crate::identity::{ArenaOwnerId, ByteRange, QueryGeneration};
use crate::memory::wide_size;
use crate::search::reader::{read_unit, unit_at, DetectedEncoding};
use crate::search::reading_window::{
    floor_boundary, floor_of, slice_of, slice_text, DecodedUtf8Range, FramePlan, MapModel,
    MappingSpan, ReadingSelection, WindowMap,
};
use crate::search::source::{CaptureRequest, SourceEncoding};
use crate::search::streaming::{mark_len, mark_length};
use crate::text::text_chars;

verus! {

/// Most bytes of one text.
pub const MAX_EXTENT_TEXT_BYTES: usize = 262_144;

/// How far bytes that were read agree with the file they came from.
#[derive(Clone, Copy, Debug, PartialEq, Eq, Structural)]
pub enum ExtentConsistency {
    HostSupplied,
    UnchangedMetadata,
    ChangedDuringRead,
    ShortRead,
    MetadataUnavailable,
}

/// Why the host could not read an extent.
#[derive(Clone, Copy, Debug, PartialEq, Eq, Structural)]
pub enum ExtentError {
    InvalidRange,
    Unreadable,
}

/// Why a session refused a source.
#[derive(Clone, Copy, Debug, PartialEq, Eq, Structural)]
pub enum FcbError {
    OwnerMismatch,
    SourceNotFound,
    StaleGeneration,
}

#[derive(Clone, Copy, Debug, PartialEq, Eq, Structural)]
pub enum ExtentViewError {
    Extent(ExtentError),
    Source(FcbError),
    InvalidRange,
    InvalidLimits,
    ContextUnavailable,
    UnsupportedEncoding,
    ResourceDenied,
    Canceled,
    StaleGeneration,
    StaleObservation,
}

impl ExtentViewError {
    /// The stable code of an error, where it is one of this library's.
    pub open spec fn code_spec(self) -> Option<Seq<char>> {
        match self {
            ExtentViewError::Extent(_) => None,
            ExtentViewError::Source(_) => None,
            ExtentViewError::InvalidRange => Some("EXTENT_VIEW_INVALID_RANGE"@),
            ExtentViewError::InvalidLimits => Some("EXTENT_VIEW_INVALID_LIMITS"@),
            ExtentViewError::ContextUnavailable => Some("EXTENT_VIEW_CONTEXT_UNAVAILABLE"@),
            ExtentViewError::UnsupportedEncoding => Some("EXTENT_VIEW_UNSUPPORTED_ENCODING"@),
            ExtentViewError::ResourceDenied => Some("EXTENT_VIEW_RESOURCE_DENIED"@),
            ExtentViewError::Canceled => Some("EXTENT_VIEW_CANCELED"@),
            ExtentViewError::StaleGeneration => Some("EXTENT_VIEW_STALE_GENERATION"@),
            ExtentViewError::StaleObservation => Some("EXTENT_VIEW_STALE_OBSERVATION"@),
        }
    }

    pub fn code(&self) -> (r: Option<&'static str>)
        ensures
            match self.code_spec() {
                Some(code) => r matches Some(text) && text@ == code,
                None => r is None,
            },
    {
        match self {
            ExtentViewError::Extent(_) => None,
            ExtentViewError::Source(_) => None,
            ExtentViewError::InvalidRange => Some("EXTENT_VIEW_INVALID_RANGE"),
            ExtentViewError::InvalidLimits => Some("EXTENT_VIEW_INVALID_LIMITS"),
            ExtentViewError::ContextUnavailable => Some("EXTENT_VIEW_CONTEXT_UNAVAILABLE"),
            ExtentViewError::UnsupportedEncoding => Some("EXTENT_VIEW_UNSUPPORTED_ENCODING"),
            ExtentViewError::ResourceDenied => Some("EXTENT_VIEW_RESOURCE_DENIED"),
            ExtentViewError::Canceled => Some("EXTENT_VIEW_CANCELED"),
            ExtentViewError::StaleGeneration => Some("EXTENT_VIEW_STALE_GENERATION"),
            ExtentViewError::StaleObservation => Some("EXTENT_VIEW_STALE_OBSERVATION"),
        }
    }
}

/// Bytes of a source that the host read, and where they stand in it.
#[derive(Debug)]
pub struct ObservedExtent<B = Vec<u8>> {
    pub request: CaptureRequest,
    pub observed_length: u64,
    /// Where the bytes start.
    pub start: u64,
    pub bytes: B,
    /// Whether all bytes came that were asked for.
    pub request_filled: bool,
    pub consistency: ExtentConsistency,
}

/// The model of an extent.
pub type ExtentModel = ObservedExtent<Seq<u8>>;

/// Whether two references point to one extent, as `std::ptr::eq` of the standard
/// library tells: if they do, it is the same extent. Equal extents need not be
/// at one place; when they are not, nothing is said.
#[verifier::external_body]
pub(crate) fn same_place(a: &ObservedExtent, b: &ObservedExtent) -> (r: bool)
    ensures
        r ==> *a == *b,
{
    std::ptr::eq(a, b)
}

impl View for ObservedExtent {
    type V = ObservedExtent<Seq<u8>>;

    open spec fn view(&self) -> ObservedExtent<Seq<u8>> {
        ObservedExtent {
            request: self.request,
            observed_length: self.observed_length,
            start: self.start,
            bytes: self.bytes@,
            request_filled: self.request_filled,
            consistency: self.consistency,
        }
    }
}

impl ExtentModel {
    /// The bytes fit where they stand.
    pub open spec fn wf(self) -> bool {
        self.start + self.bytes.len() <= u64::MAX
    }

    pub open spec fn end(self) -> int {
        self.start + self.bytes.len()
    }

    /// Whether a range of original bytes was read.
    pub open spec fn has(self, range: ByteRange) -> bool {
        self.start <= range.start <= range.end <= self.end()
    }

    /// The bytes of a range.
    pub open spec fn part(self, range: ByteRange) -> Seq<u8> {
        self.bytes.subrange(range.start - self.start, range.end - self.start)
    }

    /// Whether the end of the bytes is known to be the end of the file.
    pub open spec fn eof_known(self) -> bool {
        self.request_filled && self.end() == self.observed_length && (
        self.consistency is HostSupplied || self.consistency is UnchangedMetadata)
    }
}

impl ObservedExtent {
    pub fn range(&self) -> (r: ByteRange)
        requires
            self@.wf(),
        ensures
            r.start == self@.start,
            r.end == self@.end(),
    {
        ByteRange { start: self.start, end: self.start + self.bytes.len() as u64 }
    }

    pub fn range_bytes(&self, range: ByteRange) -> (r: Result<&[u8], ExtentError>)
        requires
            self@.wf(),
        ensures
            match r {
                Ok(bytes) => self@.has(range) && bytes@ == self@.part(range),
                Err(e) => !self@.has(range) && e == ExtentError::InvalidRange,
            },
    {
        let end: u64 = self.start + self.bytes.len() as u64;
        if range.start < self.start || range.start > range.end || range.end > end {
            return Err(ExtentError::InvalidRange);
        }
        Ok(
            vstd::slice::slice_subrange(
                self.bytes.as_slice(),
                (range.start - self.start) as usize,
                (range.end - self.start) as usize,
            ),
        )
    }
}

/// An extent that a session accepted.
#[derive(Debug)]
pub struct ExtentView {
    pub extent: ObservedExtent,
}

/// The nearest place at or before an offset that splits no character, no pair of
/// surrogates and no CRLF, as far as the bytes that were read tell.
pub open spec fn extent_floor(extent: ExtentModel, offset: int, encoding: DetectedEncoding) -> Result<
    int,
    ExtentViewError,
> {
    if offset == extent.end() {
        Ok(offset)
    } else if encoding.wide() {
        let even = offset - offset % 2;
        let at = even - extent.start;
        if at < 0 {
            Err(ExtentViewError::ContextUnavailable)
        } else if at >= 2 && extent.bytes.len() - at >= 2 && {
            let previous = unit_at(extent.bytes, encoding, at - 2);
            let current = unit_at(extent.bytes, encoding, at);
            (0xd800 <= previous <= 0xdbff && 0xdc00 <= current <= 0xdfff) || (previous == 13
                && current == 10)
        } {
            Ok(even - 2)
        } else {
            Ok(even)
        }
    } else {
        Ok(extent.start + floor_of(extent.bytes, encoding, offset - extent.start))
    }
}

fn floor_in(extent: &ObservedExtent, offset: u64, encoding: DetectedEncoding) -> (r: Result<
    u64,
    ExtentViewError,
>)
    requires
        extent@.wf(),
        extent@.start <= offset <= extent@.end(),
    ensures
        match extent_floor(extent@, offset as int, encoding) {
            Ok(n) => r == Ok::<u64, ExtentViewError>(n as u64) && extent@.start <= n
                <= extent@.end(),
            Err(e) => r == Err::<u64, ExtentViewError>(e),
        },
{
    let end: u64 = extent.start + extent.bytes.len() as u64;
    if offset == end {
        return Ok(offset);
    }
    if encoding.is_utf16() {
        let even: u64 = offset - offset % 2;
        if even < extent.start {
            return Err(ExtentViewError::ContextUnavailable);
        }
        let at: usize = (even - extent.start) as usize;
        if at >= 2 && extent.bytes.len() - at >= 2 {
            let previous: u16 = read_unit(&extent.bytes, encoding, at - 2);
            let current: u16 = read_unit(&extent.bytes, encoding, at);
            if (0xd800 <= previous && previous <= 0xdbff && 0xdc00 <= current && current <= 0xdfff)
                || (previous == 13 && current == 10) {
                return Ok(even - 2);
            }
        }
        return Ok(even);
    }
    let at: usize = (offset - extent.start) as usize;
    let floor: usize = floor_boundary(&extent.bytes, encoding, at);
    Ok(extent.start + floor as u64)
}

/// What is to be decoded: the visible bytes, and a little context before them.
#[derive(Clone, Copy, Debug, PartialEq, Eq, Structural)]
pub struct DecodePlan {
    pub start: u64,
    pub end: u64,
    pub map_start: u64,
    pub encoding: DetectedEncoding,
}

/// The bytes of the mark at the start of the file, if it was read.
pub open spec fn header_of(extent: ExtentModel, encoding: DetectedEncoding) -> u64 {
    if extent.start == 0 {
        mark_len(extent.bytes, SourceEncoding::Known(encoding))
    } else {
        0
    }
}

/// Where the context before a position starts.
pub open spec fn context_start(extent: ExtentModel, start: int, encoding: DetectedEncoding) -> int {
    let back = if start < 4 {
        0
    } else {
        start - 4
    };
    let from = if back < extent.start {
        extent.start as int
    } else {
        back
    };
    if encoding.wide() {
        from - from % 2
    } else {
        from
    }
}

/// What is to be decoded for a range, or why it cannot be. Four bytes of context
/// are needed on each side, except at known ends.
pub open spec fn decode_plan(
    extent: ExtentModel,
    requested: ByteRange,
    encoding: SourceEncoding,
    generation: QueryGeneration,
) -> Result<DecodePlan, ExtentViewError> {
    if generation.owner != extent.request.file.owner {
        Err(ExtentViewError::Source(FcbError::OwnerMismatch))
    } else if requested.end - requested.start > MAX_EXTENT_TEXT_BYTES {
        Err(ExtentViewError::InvalidLimits)
    } else if requested.start == requested.end && requested.end != extent.observed_length {
        Err(ExtentViewError::InvalidRange)
    } else {
        match encoding {
            SourceEncoding::Unsupported => Err(ExtentViewError::UnsupportedEncoding),
            SourceEncoding::Known(encoding) => if !extent.has(requested) {
                Err(ExtentViewError::Extent(ExtentError::InvalidRange))
            } else if (extent.start > 0 && extent.start > requested.start - 4) || (
            !extent.eof_known() && extent.end() < requested.end + 4 && extent.end() < u64::MAX) {
                Err(ExtentViewError::ContextUnavailable)
            } else {
                match (
                    extent_floor(extent, requested.start as int, encoding),
                    extent_floor(extent, requested.end as int, encoding),
                ) {
                    (Ok(first), Ok(last)) => placed(extent, first, last, encoding),
                    (Err(e), _) => Err(e),
                    (_, Err(e)) => Err(e),
                }
            },
        }
    }
}

/// What is to be decoded between two places that split nothing.
pub open spec fn placed(extent: ExtentModel, first: int, last: int, encoding: DetectedEncoding) -> Result<
    DecodePlan,
    ExtentViewError,
> {
    let header = header_of(extent, encoding);
    let start = if first < header {
        header as int
    } else {
        first
    };
    let end = if last < start {
        start
    } else {
        last
    };
    let from = context_start(extent, start, encoding);
    if from < extent.start {
        Err(ExtentViewError::ContextUnavailable)
    } else {
        Ok(
            DecodePlan {
                start: start as u64,
                end: end as u64,
                map_start: from as u64,
                encoding: match encoding {
                    DetectedEncoding::Utf8 { has_bom } => DetectedEncoding::Utf8 {
                        has_bom: has_bom && from == 0 && header == 3,
                    },
                    other => other,
                },
            },
        )
    }
}

/// Bytes charged for a text.
pub open spec fn text_charge(raw: int) -> int {
    (raw + 8) * (4 * size_of::<MappingSpan>() + 16) + size_of::<ExtentText>()
}

/// How many lines begin in a text, from a character on.
pub open spec fn line_breaks(text: Seq<char>, i: int, after_cr: bool) -> nat
    decreases text.len() - i,
{
    if i < 0 || i >= text.len() {
        0
    } else {
        (if text[i] == '\r' || (text[i] == '\n' && !after_cr) {
            1nat
        } else {
            0nat
        }) + line_breaks(text, i + 1, text[i] == '\r')
    }
}

/// The number of the line that follows a text, if the text starts a file.
pub fn count_lines(prefix: &str) -> (r: u64)
    ensures
        line_breaks(prefix@, 0, false) < u64::MAX ==> r == line_breaks(prefix@, 0, false) + 1,
{
    let chars = text_chars(prefix);
    let mut count: u64 = 0;
    let mut after_cr = false;
    let mut i: usize = 0;
    while i < chars.len()
        invariant
            i <= chars.len(),
            chars@ == prefix@,
            count <= i,
            count + line_breaks(prefix@, i as int, after_cr) == line_breaks(prefix@, 0, false),
        decreases chars.len() - i,
    {
        let c = chars[i];
        if c == '\r' || (c == '\n' && !after_cr) {
            count = count + 1;
        }
        after_cr = c == '\r';
        i = i + 1;
    }
    count.wrapping_add(1)
}

/// Text of an extent.
#[derive(Debug)]
pub struct ExtentText<'view> {
    pub extent: &'view ObservedExtent,
    pub range: ByteRange,
    pub generation: QueryGeneration,
    pub map: WindowMap,
    pub decoded_base: usize,
    pub first_line: Option<u64>,
}

impl<'view> ExtentText<'view> {
    /// The text starts at a character.
    pub open spec fn wf(self) -> bool {
        &&& self.extent@.wf()
        &&& self.decoded_base <= self.map@.text.len()
        &&& is_char_boundary(self.map@.text, self.decoded_base as int)
    }

    /// The bytes of the visible text.
    pub open spec fn shown(self) -> Seq<u8> {
        self.map@.text.subrange(self.decoded_base as int, self.map@.text.len() as int)
    }

    /// Whether this is the text of a plan, decoded by the host in this way.
    pub open spec fn decodes(
        self,
        extent: &ObservedExtent,
        plan: DecodePlan,
        generation: QueryGeneration,
        map: WindowMap,
    ) -> bool {
        &&& self.extent == extent
        &&& self.range == (ByteRange { start: plan.start, end: plan.end })
        &&& self.generation == generation
        &&& self.map == map
        &&& map@.decoded(plan.start) == Some(self.decoded_base as u64)
        &&& is_char_boundary(map@.text, self.decoded_base as int)
        &&& self.first_line is Some == (plan.map_start == 0)
        &&& self.first_line matches Some(line) ==> {
            let before = line_breaks(
                decode_utf8(map@.text.subrange(0, self.decoded_base as int)),
                0,
                false,
            );
            before < u64::MAX ==> line == before + 1
        }
    }
}

/// Whether the text before a map's position can be shown.
pub open spec fn decoded_place(map: MapModel, start: u64) -> bool {
    map.decoded(start) matches Some(base) && base <= usize::MAX && is_char_boundary(
        map.text,
        base as int,
    )
}

/// Whether decoding a range may answer so.
pub open spec fn is_decoded<
    A: FnOnce(u64) -> bool,
    F: FnOnce(u64, u64, DetectedEncoding) -> Option<WindowMap>,
>(
    r: Result<ExtentText, ExtentViewError>,
    extent: &ObservedExtent,
    requested: ByteRange,
    encoding: SourceEncoding,
    generation: QueryGeneration,
    reserve: A,
    decode: F,
) -> bool {
    match decode_plan(extent@, requested, encoding, generation) {
        Err(e) => r matches Err(f) && f == e,
        Ok(plan) => {
            let charge = text_charge(plan.end - plan.map_start);
            if charge > usize::MAX {
                r matches Err(f) && f == ExtentViewError::InvalidLimits
            } else {
                ||| call_ensures(reserve, (charge as u64,), false) && (r matches Err(f) && f
                    == ExtentViewError::ResourceDenied)
                ||| call_ensures(reserve, (charge as u64,), true) && exists|
                    answer: Option<WindowMap>,
                |
                    #[trigger] call_ensures(
                        decode,
                        (plan.map_start, plan.end, plan.encoding),
                        answer,
                    ) && match answer {
                        None => r matches Err(f) && f == ExtentViewError::UnsupportedEncoding,
                        Some(map) => if decoded_place(map@, plan.start) {
                            r matches Ok(text) && text.decodes(extent, plan, generation, map)
                        } else {
                            r matches Err(f) && f == ExtentViewError::InvalidRange
                        },
                    }
            }
        },
    }
}

/// Whether work gave up because it was told to.
pub open spec fn view_stopped<T, C: FnMut() -> bool>(
    r: Result<T, ExtentViewError>,
    canceled: C,
) -> bool {
    r matches Err(ExtentViewError::Canceled) && call_ensures(canceled, (), true)
}

fn plan_decode(
    extent: &ObservedExtent,
    first: u64,
    last: u64,
    encoding: DetectedEncoding,
) -> (r: Result<DecodePlan, ExtentViewError>)
    requires
        extent@.wf(),
        extent@.start <= first <= extent@.end(),
        extent@.start <= last <= extent@.end(),
    ensures
        r == placed(extent@, first as int, last as int, encoding),
        r matches Ok(plan) ==> extent@.start <= plan.map_start <= plan.start <= plan.end
            <= extent@.end(),
{
    let header: u64 = if extent.start == 0 {
        mark_length(&extent.bytes, SourceEncoding::Known(encoding))
    } else {
        0
    };
    let start: u64 = if first < header {
        header
    } else {
        first
    };
    let end: u64 = if last < start {
        start
    } else {
        last
    };
    let back: u64 = if start < 4 {
        0
    } else {
        start - 4
    };
    let mut from: u64 = if back < extent.start {
        extent.start
    } else {
        back
    };
    if encoding.is_utf16() {
        from = from - from % 2;
    }
    if from < extent.start {
        return Err(ExtentViewError::ContextUnavailable);
    }
    let map_encoding = match encoding {
        DetectedEncoding::Utf8 { has_bom } => DetectedEncoding::Utf8 {
            has_bom: has_bom && from == 0 && header == 3,
        },
        other => other,
    };
    Ok(DecodePlan { start, end, map_start: from, encoding: map_encoding })
}

/// Accepts an extent for a session of an owner.
pub fn open_extent(owner: ArenaOwnerId, extent: ObservedExtent) -> (r: Result<
    ExtentView,
    ExtentViewError,
>)
    ensures
        if extent@.request.file.owner != owner {
            r matches Err(e) && e == ExtentViewError::Source(FcbError::OwnerMismatch)
        } else {
            r matches Ok(view) && view.extent == extent
        },
{
    if extent.request.file.owner != owner {
        return Err(ExtentViewError::Source(FcbError::OwnerMismatch));
    }
    Ok(ExtentView { extent })
}

impl ExtentView {
    pub fn extent(&self) -> (r: &ObservedExtent)
        ensures
            *r == self.extent,
    {
        &self.extent
    }

    pub fn raw_selection(&self, range: ByteRange) -> (r: Result<&[u8], ExtentViewError>)
        requires
            self.extent@.wf(),
        ensures
            if self.extent@.has(range) {
                r matches Ok(bytes) && bytes@ == self.extent@.part(range)
            } else {
                r matches Err(e) && e == ExtentViewError::Extent(ExtentError::InvalidRange)
            },
    {
        match self.extent.range_bytes(range) {
            Ok(bytes) => Ok(bytes),
            Err(e) => Err(ExtentViewError::Extent(e)),
        }
    }

    pub fn frame_plan(&self) -> (r: FramePlan)
        requires
            self.extent@.wf(),
        ensures
            r == (FramePlan {
                owner: self.extent@.request.file.owner,
                file: self.extent@.request.file,
                revision: self.extent@.request.revision,
                range: ByteRange { start: self.extent@.start, end: self.extent@.end() as u64 },
            }),
    {
        FramePlan {
            owner: self.extent.request.file.owner,
            file: self.extent.request.file,
            revision: self.extent.request.revision,
            range: self.extent.range(),
        }
    }

    /// Decodes a range of the extent. The encoding is declared for this
    /// observation.
    pub fn decode<
        A: FnOnce(u64) -> bool,
        F: FnOnce(u64, u64, DetectedEncoding) -> Option<WindowMap>,
        C: FnMut() -> bool,
    >(
        &self,
        requested: ByteRange,
        encoding: SourceEncoding,
        generation: QueryGeneration,
        reserve: A,
        decode: F,
        mut canceled: C,
    ) -> (r: Result<ExtentText<'_>, ExtentViewError>)
        requires
            self.extent@.wf(),
            requested.ordered(),
            forall|charge: u64| call_requires(reserve, (charge,)),
            forall|from: u64, to: u64, e: DetectedEncoding| call_requires(decode, (from, to, e)),
            call_requires(canceled, ()),
        ensures
            r matches Ok(text) ==> text.wf(),
            view_stopped(r, canceled) || is_decoded(
                r,
                &self.extent,
                requested,
                encoding,
                generation,
                reserve,
                decode,
            ),
    {
        let extent = &self.extent;
        if generation.owner != extent.request.file.owner {
            return Err(ExtentViewError::Source(FcbError::OwnerMismatch));
        }
        if requested.end - requested.start > MAX_EXTENT_TEXT_BYTES as u64 {
            return Err(ExtentViewError::InvalidLimits);
        }
        if requested.start == requested.end && requested.end != extent.observed_length {
            return Err(ExtentViewError::InvalidRange);
        }
        let encoding = match encoding {
            SourceEncoding::Unsupported => {
                return Err(ExtentViewError::UnsupportedEncoding);
            },
            SourceEncoding::Known(encoding) => encoding,
        };
        if let Err(e) = extent.range_bytes(requested) {
            return Err(ExtentViewError::Extent(e));
        }
        if canceled() {
            return Err(ExtentViewError::Canceled);
        }
        let end: u64 = extent.start + extent.bytes.len() as u64;
        let supplied = match extent.consistency {
            ExtentConsistency::HostSupplied => true,
            ExtentConsistency::UnchangedMetadata => true,
            _ => false,
        };
        let eof_known = extent.request_filled && end == extent.observed_length && supplied;
        let before: u64 = if requested.start < 4 {
            0
        } else {
            requested.start - 4
        };
        let behind: u64 = if requested.end > u64::MAX - 4 {
            u64::MAX
        } else {
            requested.end + 4
        };
        if extent.start > before || (!eof_known && end < behind) {
            return Err(ExtentViewError::ContextUnavailable);
        }
        let first: u64 = match floor_in(extent, requested.start, encoding) {
            Ok(n) => n,
            Err(e) => {
                return Err(e);
            },
        };
        let last: u64 = match floor_in(extent, requested.end, encoding) {
            Ok(n) => n,
            Err(e) => {
                return Err(e);
            },
        };
        let plan = match plan_decode(extent, first, last, encoding) {
            Ok(plan) => plan,
            Err(e) => {
                return Err(e);
            },
        };
        assert(decode_plan(extent@, requested, SourceEncoding::Known(encoding), generation) == Ok::<
            DecodePlan,
            ExtentViewError,
        >(plan));
        let raw: u128 = (plan.end - plan.map_start) as u128 + 8;
        let unit: u128 = 4 * wide_size::<MappingSpan>() + 16;
        if raw > u64::MAX as u128 || unit > u64::MAX as u128 {
            assert(raw * unit > u64::MAX) by (nonlinear_arith)
                requires
                    raw > u64::MAX || unit > u64::MAX,
                    raw >= 8,
                    unit >= 16,
            ;
            return Err(ExtentViewError::InvalidLimits);
        }
        assert(0 <= raw * unit <= u64::MAX * u64::MAX) by (nonlinear_arith)
            requires
                0 <= raw <= u64::MAX,
                0 <= unit <= u64::MAX,
        ;
        let charge: u128 = raw * unit + wide_size::<ExtentText>();
        assert(charge == text_charge(plan.end - plan.map_start));
        if charge > usize::MAX as u128 {
            return Err(ExtentViewError::InvalidLimits);
        }
        if !reserve(charge as u64) {
            return Err(ExtentViewError::ResourceDenied);
        }
        assert(call_ensures(reserve, (charge as u64,), true));
        if canceled() {
            return Err(ExtentViewError::Canceled);
        }
        let answer = decode(plan.map_start, plan.end, plan.encoding);
        assert(call_ensures(decode, (plan.map_start, plan.end, plan.encoding), answer));
        let map = match answer {
            Some(map) => map,
            None => {
                return Err(ExtentViewError::UnsupportedEncoding);
            },
        };
        let base: u64 = match map.byte_to_decoded_utf8_offset(plan.start) {
            Some(base) => base,
            None => {
                return Err(ExtentViewError::InvalidRange);
            },
        };
        if base > usize::MAX as u64 {
            return Err(ExtentViewError::InvalidRange);
        }
        let decoded_base: usize = base as usize;
        if !map.text.as_str().is_char_boundary(decoded_base) {
            return Err(ExtentViewError::InvalidRange);
        }
        let first_line: Option<u64> = if plan.map_start == 0 {
            let (head, _) = map.text.as_str().split_at(decoded_base);
            let line: u64 = count_lines(head);
            proof {
                encode_utf8_decode_utf8(head@);
                assert(encode_utf8(head@) =~= map@.text.subrange(0, decoded_base as int));
            }
            Some(line)
        } else {
            None
        };
        if canceled() {
            return Err(ExtentViewError::Canceled);
        }
        let ghost made = map;
        proof {
            encode_utf8_valid_utf8(map.text@);
        }
        let text = ExtentText {
            extent,
            range: ByteRange { start: plan.start, end: plan.end },
            generation,
            map,
            decoded_base,
            first_line,
        };
        assert(text.decodes(extent, plan, generation, made));
        Ok(text)
    }
}

impl<'view> ExtentText<'view> {
    pub fn extent(&self) -> (r: &'view ObservedExtent)
        ensures
            r == self.extent,
    {
        self.extent
    }

    pub fn range(&self) -> (r: ByteRange)
        ensures
            r == self.range,
    {
        self.range
    }

    pub fn generation(&self) -> (r: QueryGeneration)
        ensures
            r == self.generation,
    {
        self.generation
    }

    pub fn text(&self) -> (r: &str)
        requires
            self.wf(),
        ensures
            encode_utf8(r@) == self.shown(),
    {
        proof {
            encode_utf8_valid_utf8(self.map.text@);
        }
        let (_, tail) = self.map.text.as_str().split_at(self.decoded_base);
        tail
    }

    pub fn first_line_number(&self) -> (r: Option<u64>)
        ensures
            r == self.first_line,
    {
        self.first_line
    }

    pub fn has_replacements(&self) -> (r: bool)
        ensures
            r == self.map@.replaces(self.range),
    {
        self.map.replacements_in(self.range)
    }

    /// Where the source goes on behind the text.
    pub fn next_offset(&self) -> (r: Option<u64>)
        ensures
            r == (if self.range.end < self.extent@.observed_length {
                Some(self.range.end)
            } else {
                None
            }),
    {
        if self.range.end < self.extent.observed_length {
            Some(self.range.end)
        } else {
            None
        }
    }

    pub fn frame_plan(&self) -> (r: FramePlan)
        ensures
            r == (FramePlan {
                owner: self.extent@.request.file.owner,
                file: self.extent@.request.file,
                revision: self.extent@.request.revision,
                range: self.range,
            }),
    {
        FramePlan {
            owner: self.extent.request.file.owner,
            file: self.extent.request.file,
            revision: self.extent.request.revision,
            range: self.range,
        }
    }

    pub fn validate_delivery(&self, view: &ExtentView, generation: QueryGeneration) -> (r: Result<
        (),
        ExtentViewError,
    >)
        ensures
            r == (if self.generation != generation {
                Err::<(), ExtentViewError>(ExtentViewError::StaleGeneration)
            } else if !same_observation(self.extent@, view.extent@) {
                Err(ExtentViewError::StaleObservation)
            } else {
                Ok(())
            }),
    {
        if self.generation != generation {
            return Err(ExtentViewError::StaleGeneration);
        }
        let mine = self.extent;
        let other = &view.extent;
        if mine.request.file != other.request.file || mine.request.revision
            != other.request.revision || mine.start != other.start || !same_bytes(
            &mine.bytes,
            &other.bytes,
        ) {
            return Err(ExtentViewError::StaleObservation);
        }
        Ok(())
    }

    /// The decoded range of original bytes, local to the text.
    pub open spec fn text_of(self, range: ByteRange) -> Result<DecodedUtf8Range, ExtentViewError> {
        if range.start < self.range.start || range.end > self.range.end {
            Err(ExtentViewError::InvalidRange)
        } else {
            match (self.map@.decoded(range.start), self.map@.decoded(range.end)) {
                (Some(first), Some(last)) => if self.decoded_base <= first && first <= last {
                    Ok(
                        DecodedUtf8Range {
                            start: (first - self.decoded_base) as u64,
                            end: (last - self.decoded_base) as u64,
                        },
                    )
                } else {
                    Err(ExtentViewError::InvalidRange)
                },
                _ => Err(ExtentViewError::InvalidRange),
            }
        }
    }

    pub fn source_to_text(&self, range: ByteRange) -> (r: Result<DecodedUtf8Range, ExtentViewError>)
        ensures
            r == self.text_of(range),
    {
        if range.start < self.range.start || range.end > self.range.end {
            return Err(ExtentViewError::InvalidRange);
        }
        let base: u64 = self.decoded_base as u64;
        let first: u64 = match self.map.byte_to_decoded_utf8_offset(range.start) {
            Some(n) => n,
            None => {
                return Err(ExtentViewError::InvalidRange);
            },
        };
        let last: u64 = match self.map.byte_to_decoded_utf8_offset(range.end) {
            Some(n) => n,
            None => {
                return Err(ExtentViewError::InvalidRange);
            },
        };
        if first < base || first > last {
            return Err(ExtentViewError::InvalidRange);
        }
        Ok(DecodedUtf8Range { start: first - base, end: last - base })
    }

    /// The original bytes that a decoded range stands for.
    pub open spec fn raw_of(self, range: DecodedUtf8Range) -> Result<ByteRange, ExtentViewError> {
        if range.end > usize::MAX || slice_of(
            self.shown(),
            range.start as int,
            range.end as int,
        ) is None || self.decoded_base + range.end > u64::MAX {
            Err(ExtentViewError::InvalidRange)
        } else {
            match (
                self.map@.raw((self.decoded_base + range.start) as u64),
                self.map@.raw((self.decoded_base + range.end) as u64),
            ) {
                (Some(start), Some(end)) => if start > end {
                    Err(ExtentViewError::InvalidRange)
                } else if !self.extent@.has(ByteRange { start, end }) {
                    Err(ExtentViewError::Extent(ExtentError::InvalidRange))
                } else {
                    Ok(ByteRange { start, end })
                },
                _ => Err(ExtentViewError::InvalidRange),
            }
        }
    }

    /// A decoded selection must end on character boundaries.
    pub fn text_selection(&self, range: DecodedUtf8Range) -> (r: Result<
        ReadingSelection<'_>,
        ExtentViewError,
    >)
        requires
            self.wf(),
        ensures
            match self.raw_of(range) {
                Err(e) => r matches Err(f) && f == e,
                Ok(raw) => r matches Ok(selection) && selection.original_range == raw
                    && encode_utf8(selection.text@) == self.shown().subrange(
                    range.start as int,
                    range.end as int,
                ) && selection.original_bytes@ == self.extent@.part(raw)
                    && selection.contains_replacements == self.map@.replaces(raw),
            },
    {
        if range.end > usize::MAX as u64 || range.start > range.end {
            return Err(ExtentViewError::InvalidRange);
        }
        let start: usize = range.start as usize;
        let end: usize = range.end as usize;
        let base: u64 = self.decoded_base as u64;
        if range.end > u64::MAX - base {
            return Err(ExtentViewError::InvalidRange);
        }
        let text = match slice_text(self.text(), start, end) {
            Some(text) => text,
            None => {
                return Err(ExtentViewError::InvalidRange);
            },
        };
        let first: u64 = match self.map.decoded_to_byte_offset(base + range.start) {
            Some(first) => first,
            None => {
                return Err(ExtentViewError::InvalidRange);
            },
        };
        let last: u64 = match self.map.decoded_to_byte_offset(base + range.end) {
            Some(last) => last,
            None => {
                return Err(ExtentViewError::InvalidRange);
            },
        };
        if first > last {
            return Err(ExtentViewError::InvalidRange);
        }
        let raw = ByteRange { start: first, end: last };
        match self.extent.range_bytes(raw) {
            Err(e) => Err(ExtentViewError::Extent(e)),
            Ok(original_bytes) => Ok(
                ReadingSelection {
                    text,
                    original_bytes,
                    original_range: raw,
                    contains_replacements: self.map.replacements_in(raw),
                },
            ),
        }
    }
}

/// Whether two extents are the same observation of the same source.
pub open spec fn same_observation(a: ExtentModel, b: ExtentModel) -> bool {
    a.request.file == b.request.file && a.request.revision == b.request.revision && a.start
        == b.start && a.bytes == b.bytes
}

/// Text is decoded only from bytes that were read: a plan lies within the extent,
/// its context before the visible bytes, and the visible bytes in order.
pub proof fn decoding_stays_within_the_extent(
    extent: ExtentModel,
    requested: ByteRange,
    encoding: SourceEncoding,
    generation: QueryGeneration,
)
    requires
        extent.wf(),
    ensures
        decode_plan(extent, requested, encoding, generation) matches Ok(plan) ==> extent.start
            <= plan.map_start <= plan.start <= plan.end <= extent.end(),
{
    if let SourceEncoding::Known(known) = encoding {
        if extent.has(requested) {
            lemma_floor_within(extent, requested.start as int, known);
            lemma_floor_within(extent, requested.end as int, known);
        }
    }
}

proof fn lemma_floor_within(extent: ExtentModel, offset: int, encoding: DetectedEncoding)
    requires
        extent.wf(),
        extent.start <= offset <= extent.end(),
    ensures
        extent_floor(extent, offset, encoding) matches Ok(n) ==> extent.start <= n <= extent.end(),
{
    crate::search::reading_window::lemma_floor(extent.bytes, encoding, offset - extent.start);
}

} // verus!
