//! Literal search of a whole observation without retaining it.
//!
//! The host supplies one reader positioned at byte zero and the observed
//! length. Reads are one continuous observation, not an atomic snapshot. Only
//! ranges of hits are retained. Matching, the detection of an encoding and the
//! validation of text belong to the host; framing, limits, alignment and the
//! byte order mark are decided here.
pub mod literals;
pub mod pursuits;
pub mod report;
pub mod stepping;

use vstd::layout::size_of;
use vstd::prelude::*;
use vstd::utf8::{decode_utf8, encode_utf8, valid_utf8};

use crate::capture::text_len;
use crate::envelope::text_from_utf8;
use crate::identity::{ArenaOwnerId, ByteRange, QueryGeneration};
use crate::memory::wide_size;
use crate::search::reader::DetectedEncoding;
use crate::search::source::{CaptureRequest, SourceEncoding, SourceError, StreamError};
use crate::text::text_chars;

verus! {

/// Most bytes held at once.
pub const STREAM_BUFFER_BYTES: usize = 16_384;

/// Most hits of one search.
pub const MAX_STREAM_RESULTS: usize = 4096;

/// Most hits of one step.
pub const MAX_STREAM_STEP_HITS: usize = 64;

/// Most reads of one step.
pub const MAX_STREAM_STEP_CALLS: usize = 32;

#[derive(Clone, Copy, Debug, PartialEq, Eq, Structural)]
pub enum StreamReadError {
    InvalidLimits,
    InvalidRange,
    OwnerMismatch,
    ResourceDenied,
    AllocationFailed,
    Io,
    InvalidReadCount,
    Pending,
    StaleGeneration,
    Decoder(SourceError),
    Matcher(StreamError),
}

impl StreamReadError {
    /// The stable code of an error, where it is one of this library's.
    pub open spec fn code_spec(self) -> Option<Seq<char>> {
        match self {
            StreamReadError::InvalidLimits => Some("STREAM_READ_INVALID_LIMITS"@),
            StreamReadError::InvalidRange => Some("STREAM_READ_INVALID_RANGE"@),
            StreamReadError::OwnerMismatch => Some("STREAM_READ_OWNER_MISMATCH"@),
            StreamReadError::ResourceDenied => Some("STREAM_READ_RESOURCE_DENIED"@),
            StreamReadError::AllocationFailed => Some("STREAM_READ_ALLOCATION_FAILED"@),
            StreamReadError::Io => Some("STREAM_READ_IO"@),
            StreamReadError::InvalidReadCount => Some("STREAM_READ_INVALID_IO_COUNT"@),
            StreamReadError::Pending => Some("STREAM_READ_PENDING"@),
            StreamReadError::StaleGeneration => Some("STREAM_READ_STALE_GENERATION"@),
            StreamReadError::Decoder(_) => None,
            StreamReadError::Matcher(_) => None,
        }
    }

    pub fn code(&self) -> (r: Option<&'static str>)
        ensures
            match self.code_spec() {
                Some(code) => r matches Some(text) && text@ == code,
                None => r is None,
            },
    {
        match self {
            StreamReadError::InvalidLimits => Some("STREAM_READ_INVALID_LIMITS"),
            StreamReadError::InvalidRange => Some("STREAM_READ_INVALID_RANGE"),
            StreamReadError::OwnerMismatch => Some("STREAM_READ_OWNER_MISMATCH"),
            StreamReadError::ResourceDenied => Some("STREAM_READ_RESOURCE_DENIED"),
            StreamReadError::AllocationFailed => Some("STREAM_READ_ALLOCATION_FAILED"),
            StreamReadError::Io => Some("STREAM_READ_IO"),
            StreamReadError::InvalidReadCount => Some("STREAM_READ_INVALID_IO_COUNT"),
            StreamReadError::Pending => Some("STREAM_READ_PENDING"),
            StreamReadError::StaleGeneration => Some("STREAM_READ_STALE_GENERATION"),
            StreamReadError::Decoder(_) => None,
            StreamReadError::Matcher(_) => None,
        }
    }
}

#[derive(Clone, Copy, Debug, PartialEq, Eq, Structural)]
pub enum StreamingMode {
    OriginalBytes,
    ExactText,
}

/// A literal, encoded in every way that it may be looked for.
#[derive(Debug)]
pub struct StreamingNeedle<B = Vec<u8>> {
    pub owner: ArenaOwnerId,
    pub mode: StreamingMode,
    pub utf8: B,
    pub little: B,
    pub big: B,
}

/// The model of a literal.
pub type NeedleModel = StreamingNeedle<Seq<u8>>;

impl View for StreamingNeedle {
    type V = StreamingNeedle<Seq<u8>>;

    open spec fn view(&self) -> StreamingNeedle<Seq<u8>> {
        StreamingNeedle {
            owner: self.owner,
            mode: self.mode,
            utf8: self.utf8@,
            little: self.little@,
            big: self.big@,
        }
    }
}

/// The units of a character in a text of units of two bytes.
pub open spec fn units_of(c: char) -> Seq<u16> {
    let n = c as u32;
    if n < 0x1_0000 {
        seq![n as u16]
    } else {
        seq![
            (0xd800 + (n - 0x1_0000) / 0x400) as u16,
            (0xdc00 + (n - 0x1_0000) % 0x400) as u16,
        ]
    }
}

/// The units of a text from a character on.
pub open spec fn units_from(text: Seq<char>, i: int) -> Seq<u16>
    decreases text.len() - i,
{
    if i < 0 || i >= text.len() {
        Seq::empty()
    } else {
        units_of(text[i]) + units_from(text, i + 1)
    }
}

/// Units as bytes, the low byte first or the high byte first.
pub open spec fn unit_bytes(units: Seq<u16>, i: int, low_first: bool) -> Seq<u8>
    decreases units.len() - i,
{
    if i < 0 || i >= units.len() {
        Seq::empty()
    } else {
        let low = (units[i] % 256) as u8;
        let high = (units[i] / 256) as u8;
        (if low_first {
            seq![low, high]
        } else {
            seq![high, low]
        }) + unit_bytes(units, i + 1, low_first)
    }
}

fn put_units(out: &mut Vec<u16>, c: char)
    ensures
        final(out)@ == old(out)@ + units_of(c),
{
    let n: u32 = c as u32;
    let ghost before = out@;
    if n < 0x1_0000 {
        out.push(n as u16);
    } else {
        out.push((0xd800 + (n - 0x1_0000) / 0x400) as u16);
        out.push((0xdc00 + (n - 0x1_0000) % 0x400) as u16);
    }
    assert(out@ =~= before + units_of(c));
}

/// The units of a text.
pub fn text_units(text: &str) -> (r: Vec<u16>)
    ensures
        r@ == units_from(text@, 0),
{
    let chars = text_chars(text);
    let mut out: Vec<u16> = Vec::new();
    let mut i: usize = 0;
    assert(out@ + units_from(chars@, 0) =~= units_from(chars@, 0));
    while i < chars.len()
        invariant
            i <= chars@.len(),
            out@ + units_from(chars@, i as int) == units_from(chars@, 0),
        decreases chars.len() - i,
    {
        put_units(&mut out, chars[i]);
        i = i + 1;
        assert(out@ + units_from(chars@, i as int) =~= units_from(chars@, 0));
    }
    assert(out@ =~= units_from(chars@, 0));
    out
}

/// Units as bytes.
pub fn bytes_of_units(units: &Vec<u16>, low_first: bool) -> (r: Vec<u8>)
    ensures
        r@ == unit_bytes(units@, 0, low_first),
{
    let mut out: Vec<u8> = Vec::new();
    let mut i: usize = 0;
    assert(out@ + unit_bytes(units@, 0, low_first) =~= unit_bytes(units@, 0, low_first));
    while i < units.len()
        invariant
            i <= units@.len(),
            out@ + unit_bytes(units@, i as int, low_first) == unit_bytes(units@, 0, low_first),
        decreases units.len() - i,
    {
        let low: u8 = (units[i] % 256) as u8;
        let high: u8 = (units[i] / 256) as u8;
        if low_first {
            out.push(low);
            out.push(high);
        } else {
            out.push(high);
            out.push(low);
        }
        i = i + 1;
        assert(out@ + unit_bytes(units@, i as int, low_first) =~= unit_bytes(
            units@,
            0,
            low_first,
        ));
    }
    assert(out@ =~= unit_bytes(units@, 0, low_first));
    out
}

proof fn lemma_unit_bytes(units: Seq<u16>, i: int, low_first: bool)
    requires
        0 <= i <= units.len(),
    ensures
        unit_bytes(units, i, low_first).len() == 2 * (units.len() - i),
    decreases units.len() - i,
{
    if i < units.len() {
        lemma_unit_bytes(units, i + 1, low_first);
    }
}

/// Bytes charged for a literal.
pub open spec fn needle_charge(bytes: int, units: int) -> int {
    size_of::<StreamingNeedle>() + bytes + 4 * units
}

/// A literal of the text `units`, or of raw bytes.
pub open spec fn needle_of(
    owner: ArenaOwnerId,
    bytes: Seq<u8>,
    units: Option<Seq<u16>>,
    limit: int,
    granted: bool,
) -> Result<NeedleModel, StreamReadError> {
    if bytes.len() == 0 {
        Err(StreamReadError::Matcher(StreamError::EmptyNeedle))
    } else if bytes.len() > limit || (units matches Some(units) && units.len() * 2 > limit) {
        Err(StreamReadError::Matcher(StreamError::NeedleTooLong))
    } else if !granted || needle_charge(
        bytes.len() as int,
        match units {
            Some(units) => units.len() as int,
            None => 0,
        },
    ) > u64::MAX {
        Err(StreamReadError::ResourceDenied)
    } else {
        Ok(
            StreamingNeedle {
                owner,
                mode: if units is Some {
                    StreamingMode::ExactText
                } else {
                    StreamingMode::OriginalBytes
                },
                utf8: bytes,
                little: match units {
                    Some(units) => unit_bytes(units, 0, true),
                    None => Seq::empty(),
                },
                big: match units {
                    Some(units) => unit_bytes(units, 0, false),
                    None => Seq::empty(),
                },
            },
        )
    }
}

/// Whether memory was granted or refused for a literal, if any was asked for.
pub open spec fn needle_grant<A: FnOnce(u64) -> bool>(
    bytes: int,
    units: int,
    limit: int,
    reserve: A,
    granted: bool,
) -> bool {
    0 < bytes <= limit && units * 2 <= limit && needle_charge(bytes, units) <= u64::MAX
        ==> call_ensures(
        reserve,
        (needle_charge(bytes, units) as u64,),
        granted,
    )
}

impl NeedleModel {
    /// The literal in an encoding.
    pub open spec fn in_encoding(self, encoding: Option<SourceEncoding>) -> Seq<u8> {
        if self.mode is OriginalBytes {
            self.utf8
        } else {
            match encoding {
                Some(SourceEncoding::Known(DetectedEncoding::Utf16Le)) => self.little,
                Some(SourceEncoding::Known(DetectedEncoding::Utf16Be)) => self.big,
                _ => self.utf8,
            }
        }
    }
}

impl StreamingNeedle {
    /// A literal of raw bytes. `limit` is what the host's matcher takes.
    pub fn raw<A: FnOnce(u64) -> bool>(
        owner: ArenaOwnerId,
        bytes: &[u8],
        limit: usize,
        reserve: A,
    ) -> (r: Result<Self, StreamReadError>)
        requires
            forall|charge: u64| call_requires(reserve, (charge,)),
        ensures
            exists|granted: bool|
                #[trigger] needle_grant(bytes@.len() as int, 0, limit as int, reserve, granted)
                    && match needle_of(owner, bytes@, None, limit as int, granted) {
                    Ok(needle) => r matches Ok(found) && found@ == needle,
                    Err(e) => r matches Err(f) && f == e,
                },
    {
        let units: Vec<u16> = Vec::new();
        let r = StreamingNeedle::build(owner, bytes, &units, false, limit, reserve);
        r
    }

    /// A literal of text.
    pub fn text<A: FnOnce(u64) -> bool>(
        owner: ArenaOwnerId,
        text: &str,
        limit: usize,
        reserve: A,
    ) -> (r: Result<Self, StreamReadError>)
        requires
            forall|charge: u64| call_requires(reserve, (charge,)),
        ensures
            exists|granted: bool|
                #[trigger] needle_grant(
                    text_len(text@) as int,
                    units_from(text@, 0).len() as int,
                    limit as int,
                    reserve,
                    granted,
                ) && match needle_of(
                    owner,
                    encode_utf8(text@),
                    Some(units_from(text@, 0)),
                    limit as int,
                    granted,
                ) {
                    Ok(needle) => r matches Ok(found) && found@ == needle,
                    Err(e) => r matches Err(f) && f == e,
                },
    {
        let units = text_units(text);
        let bytes = text.as_bytes();
        assert(bytes@ == encode_utf8(text@));
        assert(bytes@.len() as int == text_len(text@) as int);
        StreamingNeedle::build(owner, bytes, &units, true, limit, reserve)
    }

    fn build<A: FnOnce(u64) -> bool>(
        owner: ArenaOwnerId,
        bytes: &[u8],
        units: &Vec<u16>,
        text: bool,
        limit: usize,
        reserve: A,
    ) -> (r: Result<Self, StreamReadError>)
        requires
            !text ==> units@.len() == 0,
            forall|charge: u64| call_requires(reserve, (charge,)),
        ensures
            exists|granted: bool|
                #[trigger] needle_grant(
                    bytes@.len() as int,
                    units@.len() as int,
                    limit as int,
                    reserve,
                    granted,
                ) && match needle_of(
                    owner,
                    bytes@,
                    if text {
                        Some(units@)
                    } else {
                        None
                    },
                    limit as int,
                    granted,
                ) {
                    Ok(needle) => r matches Ok(found) && found@ == needle,
                    Err(e) => r matches Err(f) && f == e,
                },
    {
        let ghost ask = |granted: bool|
            needle_grant(
                bytes@.len() as int,
                units@.len() as int,
                limit as int,
                reserve,
                granted,
            );
        if bytes.len() == 0 {
            assert(ask(false));
            return Err(StreamReadError::Matcher(StreamError::EmptyNeedle));
        }
        if bytes.len() > limit || units.len() > limit / 2 {
            assert(ask(false));
            return Err(StreamReadError::Matcher(StreamError::NeedleTooLong));
        }
        let charge: u128 = wide_size::<StreamingNeedle>() + bytes.len() as u128 + 4
            * units.len() as u128;
        if charge > u64::MAX as u128 {
            assert(ask(false));
            return Err(StreamReadError::ResourceDenied);
        }
        let granted = reserve(charge as u64);
        assert(ask(granted));
        if !granted {
            return Err(StreamReadError::ResourceDenied);
        }
        let mut utf8: Vec<u8> = Vec::new();
        crate::envelope::put_raw(&mut utf8, bytes);
        assert(utf8@ =~= bytes@);
        let little = bytes_of_units(units, true);
        let big = bytes_of_units(units, false);
        if !text {
            assert(little@ =~= Seq::<u8>::empty());
            assert(big@ =~= Seq::<u8>::empty());
        }
        Ok(
            StreamingNeedle {
                owner,
                mode: if text {
                    StreamingMode::ExactText
                } else {
                    StreamingMode::OriginalBytes
                },
                utf8,
                little,
                big,
            },
        )
    }

    pub fn mode(&self) -> (r: StreamingMode)
        ensures
            r == self@.mode,
    {
        self.mode
    }

    /// The text that is looked for.
    pub fn text_value(&self) -> (r: Option<String>)
        ensures
            r is Some == (self@.mode is ExactText && valid_utf8(self@.utf8)),
            r matches Some(text) ==> text@ == decode_utf8(self@.utf8),
    {
        match self.mode {
            StreamingMode::OriginalBytes => None,
            StreamingMode::ExactText => {
                let mut bytes: Vec<u8> = Vec::new();
                crate::envelope::put_raw(&mut bytes, self.utf8.as_slice());
                assert(bytes@ =~= self.utf8@);
                text_from_utf8(bytes)
            },
        }
    }

    pub fn encoded(&self, encoding: Option<SourceEncoding>) -> (r: &Vec<u8>)
        ensures
            r@ == self@.in_encoding(encoding),
    {
        match self.mode {
            StreamingMode::OriginalBytes => &self.utf8,
            StreamingMode::ExactText => match encoding {
                Some(SourceEncoding::Known(DetectedEncoding::Utf16Le)) => &self.little,
                Some(SourceEncoding::Known(DetectedEncoding::Utf16Be)) => &self.big,
                _ => &self.utf8,
            },
        }
    }
}

#[derive(Clone, Copy, Debug, PartialEq, Eq, Structural)]
pub struct StreamReadOptions {
    pub generation: QueryGeneration,
    pub encoding: Option<SourceEncoding>,
    pub max_matches: usize,
    pub max_bytes: u64,
    pub max_read_calls: u64,
}

impl StreamReadOptions {
    pub fn new(generation: QueryGeneration) -> (r: Self)
        ensures
            r == (StreamReadOptions {
                generation,
                encoding: None,
                max_matches: 1000,
                max_bytes: 268_435_456,
                max_read_calls: 131_072,
            }),
    {
        StreamReadOptions {
            generation,
            encoding: None,
            max_matches: 1000,
            max_bytes: 268_435_456,
            max_read_calls: 131_072,
        }
    }
}

#[derive(Clone, Copy, Debug, PartialEq, Eq, Structural)]
pub struct StreamReadStep {
    pub max_bytes: usize,
    pub max_calls: usize,
    pub max_hits: usize,
}

impl Default for StreamReadStep {
    fn default() -> (r: Self)
        ensures
            r == (StreamReadStep {
                max_bytes: STREAM_BUFFER_BYTES,
                max_calls: MAX_STREAM_STEP_CALLS,
                max_hits: MAX_STREAM_STEP_HITS,
            }),
    {
        StreamReadStep {
            max_bytes: STREAM_BUFFER_BYTES,
            max_calls: MAX_STREAM_STEP_CALLS,
            max_hits: MAX_STREAM_STEP_HITS,
        }
    }
}

#[derive(Clone, Copy, Debug, PartialEq, Eq, Structural)]
pub enum StreamReadState {
    Pending,
    Complete,
    Truncated,
    ByteLimit,
    CallLimit,
    ShortRead,
    UnsupportedText,
    Canceled,
    Failed(StreamReadError),
}

impl StreamReadState {
    pub open spec fn code_spec(self) -> Seq<char> {
        match self {
            StreamReadState::Pending => "pending"@,
            StreamReadState::Complete => "complete-observed-input"@,
            StreamReadState::Truncated => "match-limit"@,
            StreamReadState::ByteLimit => "byte-limit"@,
            StreamReadState::CallLimit => "read-call-limit"@,
            StreamReadState::ShortRead => "short-read"@,
            StreamReadState::UnsupportedText => "unsupported-text"@,
            StreamReadState::Canceled => "canceled"@,
            StreamReadState::Failed(_) => "failed"@,
        }
    }

    pub fn code(self) -> (r: &'static str)
        ensures
            r@ == self.code_spec(),
    {
        match self {
            StreamReadState::Pending => "pending",
            StreamReadState::Complete => "complete-observed-input",
            StreamReadState::Truncated => "match-limit",
            StreamReadState::ByteLimit => "byte-limit",
            StreamReadState::CallLimit => "read-call-limit",
            StreamReadState::ShortRead => "short-read",
            StreamReadState::UnsupportedText => "unsupported-text",
            StreamReadState::Canceled => "canceled",
            StreamReadState::Failed(_) => "failed",
        }
    }
}

#[derive(Clone, Copy, Debug, PartialEq, Eq, Structural)]
pub struct StreamReadStats {
    pub bytes_read: u64,
    pub scanned_bytes: u64,
    pub read_calls: u64,
    pub interrupted_calls: u64,
    pub last_step_read: usize,
    pub last_step_scanned: usize,
    pub last_step_calls: usize,
    pub peak_buffer_bytes: usize,
}

#[derive(Clone, Copy, Debug, PartialEq, Eq, Structural)]
pub struct StreamingHit {
    pub occurrence: u64,
    pub range: ByteRange,
}

impl StreamingHit {
    pub fn occurrence_id(self) -> (r: u64)
        ensures
            r == self.occurrence,
    {
        self.occurrence
    }

    pub fn original_range(self) -> (r: ByteRange)
        ensures
            r == self.range,
    {
        self.range
    }
}

/// What the host says to a request for the next bytes.
#[derive(Debug)]
pub enum StreamReply {
    /// No bytes at all: the input ended.
    Bytes(Vec<u8>),
    Interrupted,
    Failed,
}

/// An occurrence that the host's matcher found, by positions in the input.
#[derive(Clone, Copy, Debug, PartialEq, Eq, Structural)]
pub struct ByteMatch {
    pub start: u64,
    pub end: u64,
}

/// What the host's matcher did with the bytes at hand.
#[derive(Debug)]
pub struct ByteBatch {
    /// How many of them it took.
    pub consumed: usize,
    /// How many bytes it has taken in all.
    pub scanned: u64,
    pub hits: Vec<ByteMatch>,
}

/// Where a search stands, apart from the bytes and hits that it holds.
#[derive(Clone, Copy, Debug)]
pub struct StreamCore {
    pub request: CaptureRequest,
    pub length: u64,
    pub options: StreamReadOptions,
    pub text: bool,
    pub encoding: Option<SourceEncoding>,
    pub header: u64,
    /// Whether the matcher has its literal.
    pub started: bool,
    pub base: u64,
    pub ready: usize,
    pub consumed: usize,
    pub eof: bool,
    pub matches_seen: u64,
    pub unsupported_at: Option<u64>,
    pub state: StreamReadState,
    pub stats: StreamReadStats,
}

/// A search of one observation that goes on step by step.
#[derive(Debug)]
pub struct ReaderSearch<'needle> {
    pub needle: &'needle StreamingNeedle,
    pub core: StreamCore,
    pub buffer: Vec<u8>,
    pub hits: Vec<StreamingHit>,
}

/// The model of a search.
pub ghost struct SearchModel {
    pub core: StreamCore,
    pub buffer: Seq<u8>,
    pub hits: Seq<StreamingHit>,
}

impl<'needle> View for ReaderSearch<'needle> {
    type V = SearchModel;

    open spec fn view(&self) -> SearchModel {
        SearchModel { core: self.core, buffer: self.buffer@, hits: self.hits@ }
    }
}

/// What may follow a prefix of text: what `std::str::from_utf8` says of it, as
/// the length of the valid part and the length of what is wrong behind it.
pub uninterp spec fn utf8_fault(bytes: Seq<u8>) -> Option<(int, Option<u8>)>;

/// Where bytes stop being UTF-8: the standard library's `std::str::from_utf8`,
/// whose error tells how long the valid part is and how long the invalid
/// sequence behind it. There is a fault exactly if the bytes are not valid, and the
/// valid part is the longest valid prefix. Without the latter length, the input
/// ended one to three bytes behind the valid part.
#[verifier::external_body]
fn check_utf8(bytes: &[u8]) -> (r: Option<(usize, Option<u8>)>)
    ensures
        match r {
            Some((valid, bad)) => utf8_fault(bytes@) == Some((valid as int, bad)) && valid
                < bytes@.len() && !valid_utf8(bytes@) && valid_utf8(
                bytes@.subrange(0, valid as int),
            ) && (forall|n: int|
                valid < n <= bytes@.len() ==> !valid_utf8(#[trigger] bytes@.subrange(0, n))) && (
            bad is None ==> bytes@.len() - valid <= 3),
            None => utf8_fault(bytes@) is None && valid_utf8(bytes@),
        },
{
    match std::str::from_utf8(bytes) {
        Ok(_) => None,
        Err(error) => Some((error.valid_up_to(), error.error_len().map(|n| n as u8))),
    }
}

/// The unit at the end of bytes.
pub open spec fn last_unit(bytes: Seq<u8>, end: int, low_first: bool) -> int {
    if low_first {
        bytes[end - 2] + bytes[end - 1] * 256
    } else {
        bytes[end - 2] * 256 + bytes[end - 1]
    }
}

/// The bytes that hold complete characters: what is begun at the end waits for
/// the next bytes.
pub open spec fn complete_len(bytes: Seq<u8>, encoding: SourceEncoding) -> int {
    if encoding.wide() {
        let end = bytes.len() - bytes.len() % 2;
        let low_first = encoding == SourceEncoding::Known(DetectedEncoding::Utf16Le);
        if end >= 2 && 0xd800 <= last_unit(bytes, end, low_first) <= 0xdbff {
            end - 2
        } else {
            end
        }
    } else {
        match utf8_fault(bytes) {
            Some((valid, None)) => valid,
            _ => bytes.len() as int,
        }
    }
}

/// The bytes that hold complete characters.
pub fn complete_prefix(bytes: &Vec<u8>, encoding: SourceEncoding) -> (r: usize)
    ensures
        r == complete_len(bytes@, encoding),
        r <= bytes@.len(),
{
    if encoding.is_wide() {
        let mut end: usize = bytes.len() - bytes.len() % 2;
        if end >= 2 {
            let low_first = match encoding {
                SourceEncoding::Known(DetectedEncoding::Utf16Le) => true,
                _ => false,
            };
            let unit: u32 = if low_first {
                bytes[end - 2] as u32 + bytes[end - 1] as u32 * 256
            } else {
                bytes[end - 2] as u32 * 256 + bytes[end - 1] as u32
            };
            if 0xd800 <= unit && unit <= 0xdbff {
                end = end - 2;
            }
        }
        end
    } else {
        match check_utf8(bytes.as_slice()) {
            Some((valid, None)) => valid,
            _ => bytes.len(),
        }
    }
}

/// Bytes of the byte order mark at the start of the input.
pub open spec fn mark_len(bytes: Seq<u8>, encoding: SourceEncoding) -> u64 {
    match encoding {
        SourceEncoding::Known(DetectedEncoding::Utf8 { has_bom }) => if has_bom && bytes.len() >= 3
            && bytes[0] == 0xef && bytes[1] == 0xbb && bytes[2] == 0xbf {
            3
        } else {
            0
        },
        SourceEncoding::Known(DetectedEncoding::Utf16Le) => if bytes.len() >= 2 && bytes[0] == 0xff
            && bytes[1] == 0xfe {
            2
        } else {
            0
        },
        SourceEncoding::Known(DetectedEncoding::Utf16Be) => if bytes.len() >= 2 && bytes[0] == 0xfe
            && bytes[1] == 0xff {
            2
        } else {
            0
        },
        SourceEncoding::Unsupported => 0,
    }
}

pub fn mark_length(bytes: &Vec<u8>, encoding: SourceEncoding) -> (r: u64)
    ensures
        r == mark_len(bytes@, encoding),
{
    match encoding {
        SourceEncoding::Known(DetectedEncoding::Utf8 { has_bom }) => {
            if has_bom && bytes.len() >= 3 && bytes[0] == 0xef && bytes[1] == 0xbb && bytes[2]
                == 0xbf {
                3
            } else {
                0
            }
        },
        SourceEncoding::Known(DetectedEncoding::Utf16Le) => {
            if bytes.len() >= 2 && bytes[0] == 0xff && bytes[1] == 0xfe {
                2
            } else {
                0
            }
        },
        SourceEncoding::Known(DetectedEncoding::Utf16Be) => {
            if bytes.len() >= 2 && bytes[0] == 0xfe && bytes[1] == 0xff {
                2
            } else {
                0
            }
        },
        SourceEncoding::Unsupported => 0,
    }
}

} // verus!
