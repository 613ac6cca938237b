//! Exact search within one extent that was read.
//!
//! A search is complete only within its scope, never within the rest of a file.
//! Decoded offsets are local to the text that is searched. Text with
//! replacements is not searched as text. Matching belongs to the host.
pub mod accounts;

use vstd::layout::size_of;
use vstd::prelude::*;
use vstd::utf8::encode_utf8;

use crate::identity::{ByteRange, FileId, QueryGeneration, SourceRevision};
use crate::memory::wide_size;
use crate::search::extents::{
    same_observation, same_place, ExtentText, ExtentView, ExtentViewError, ObservedExtent,
};
use crate::search::reading_window::DecodedUtf8Range;
use crate::search::source::StreamError;
use crate::search::streaming::{ByteBatch, ByteMatch};

verus! {

/// Most hits of one search.
pub const MAX_EXTENT_MATCHES: usize = 4096;

/// Most hits of one step.
pub const BATCH_MATCHES: usize = 64;

#[derive(Clone, Copy, Debug, PartialEq, Eq, Structural)]
pub enum ExtentQueryError {
    View(ExtentViewError),
    Stream(StreamError),
    InvalidLimits,
    InvalidRange,
    ResourceDenied,
    AllocationFailed,
    OwnerMismatch,
    UnsupportedText,
    Canceled,
    StaleGeneration,
    StaleObservation,
}

impl ExtentQueryError {
    /// The stable code of an error, where it is one of this library's.
    pub open spec fn code_spec(self) -> Option<Seq<char>> {
        match self {
            ExtentQueryError::View(error) => error.code_spec(),
            ExtentQueryError::Stream(_) => None,
            ExtentQueryError::InvalidLimits => Some("EXTENT_QUERY_INVALID_LIMITS"@),
            ExtentQueryError::InvalidRange => Some("EXTENT_QUERY_INVALID_RANGE"@),
            ExtentQueryError::ResourceDenied => Some("EXTENT_QUERY_RESOURCE_DENIED"@),
            ExtentQueryError::AllocationFailed => Some("EXTENT_QUERY_ALLOCATION_FAILED"@),
            ExtentQueryError::OwnerMismatch => Some("EXTENT_QUERY_OWNER_MISMATCH"@),
            ExtentQueryError::UnsupportedText => Some("EXTENT_QUERY_UNSUPPORTED_TEXT"@),
            ExtentQueryError::Canceled => Some("EXTENT_QUERY_CANCELED"@),
            ExtentQueryError::StaleGeneration => Some("EXTENT_QUERY_STALE_GENERATION"@),
            ExtentQueryError::StaleObservation => Some("EXTENT_QUERY_STALE_OBSERVATION"@),
        }
    }

    pub fn code(&self) -> (r: Option<&'static str>)
        ensures
            match self.code_spec() {
                Some(code) => r matches Some(text) && text@ == code,
                None => r is None,
            },
    {
        match self {
            ExtentQueryError::View(error) => error.code(),
            ExtentQueryError::Stream(_) => None,
            ExtentQueryError::InvalidLimits => Some("EXTENT_QUERY_INVALID_LIMITS"),
            ExtentQueryError::InvalidRange => Some("EXTENT_QUERY_INVALID_RANGE"),
            ExtentQueryError::ResourceDenied => Some("EXTENT_QUERY_RESOURCE_DENIED"),
            ExtentQueryError::AllocationFailed => Some("EXTENT_QUERY_ALLOCATION_FAILED"),
            ExtentQueryError::OwnerMismatch => Some("EXTENT_QUERY_OWNER_MISMATCH"),
            ExtentQueryError::UnsupportedText => Some("EXTENT_QUERY_UNSUPPORTED_TEXT"),
            ExtentQueryError::Canceled => Some("EXTENT_QUERY_CANCELED"),
            ExtentQueryError::StaleGeneration => Some("EXTENT_QUERY_STALE_GENERATION"),
            ExtentQueryError::StaleObservation => Some("EXTENT_QUERY_STALE_OBSERVATION"),
        }
    }
}

#[derive(Clone, Copy, Debug, PartialEq, Eq, Structural)]
pub enum ExtentQueryState {
    Pending,
    Finished,
    Truncated,
    Canceled,
    Failed(ExtentQueryError),
}

#[derive(Clone, Copy, Debug, PartialEq, Eq, Structural)]
pub enum ExtentQueryInput {
    OriginalBytes,
    WindowUtf8,
}

#[derive(Clone, Copy, Debug, PartialEq, Eq, Structural)]
pub struct ExtentQueryOptions {
    pub generation: QueryGeneration,
    pub max_matches: usize,
}

impl ExtentQueryOptions {
    pub fn new(generation: QueryGeneration) -> (r: Self)
        ensures
            r == (ExtentQueryOptions { generation, max_matches: 1000 }),
    {
        ExtentQueryOptions { generation, max_matches: 1000 }
    }
}

/// An occurrence. It borrows the observation that it was found in.
#[derive(Clone, Copy, Debug)]
pub struct ExtentMatch<'source> {
    pub extent: &'source ObservedExtent,
    pub generation: QueryGeneration,
    pub occurrence: u64,
    pub original: ByteRange,
    pub window_text: Option<DecodedUtf8Range>,
}

impl<'source> ExtentMatch<'source> {
    pub fn file_id(self) -> (r: FileId)
        ensures
            r == self.extent@.request.file,
    {
        self.extent.request.file
    }

    pub fn revision(self) -> (r: SourceRevision)
        ensures
            r == self.extent@.request.revision,
    {
        self.extent.request.revision
    }

    pub fn generation(self) -> (r: QueryGeneration)
        ensures
            r == self.generation,
    {
        self.generation
    }

    pub fn occurrence_id(self) -> (r: u64)
        ensures
            r == self.occurrence,
    {
        self.occurrence
    }

    pub fn original_range(self) -> (r: ByteRange)
        ensures
            r == self.original,
    {
        self.original
    }

    pub fn window_text_range(self) -> (r: Option<DecodedUtf8Range>)
        ensures
            r == self.window_text,
    {
        self.window_text
    }

    pub fn original_bytes(&self) -> (r: Result<&'source [u8], ExtentQueryError>)
        requires
            self.extent@.wf(),
        ensures
            if self.extent@.has(self.original) {
                r matches Ok(bytes) && bytes@ == self.extent@.part(self.original)
            } else {
                r matches Err(e) && e == ExtentQueryError::InvalidRange
            },
    {
        match self.extent.range_bytes(self.original) {
            Ok(bytes) => Ok(bytes),
            Err(_) => Err(ExtentQueryError::InvalidRange),
        }
    }

    /// Accepts the match only for the observation that it was found in: the same
    /// bytes in the same place. Which place bytes are in is not part of their
    /// value, so that equal bytes elsewhere may be refused.
    pub fn validate_delivery(self, view: &ExtentView, generation: QueryGeneration) -> (r: Result<
        (),
        ExtentQueryError,
    >)
        ensures
            generation != self.generation ==> r == Err::<(), ExtentQueryError>(
                ExtentQueryError::StaleGeneration,
            ),
            generation == self.generation ==> (r is Ok ==> same_observation(
                self.extent@,
                view.extent@,
            )) && (r matches Err(e) ==> e == ExtentQueryError::StaleObservation),
    {
        if generation != self.generation {
            return Err(ExtentQueryError::StaleGeneration);
        }
        if !same_place(self.extent, &view.extent) {
            return Err(ExtentQueryError::StaleObservation);
        }
        Ok(())
    }
}

/// What is searched.
#[derive(Clone, Copy, Debug)]
pub enum Input<'source> {
    Raw { extent: &'source ObservedExtent, scope: ByteRange },
    Text { text: &'source ExtentText<'source> },
}

impl<'source> Input<'source> {
    pub open spec fn wf(self) -> bool {
        match self {
            Input::Raw { extent, scope } => extent@.wf() && extent@.has(scope),
            Input::Text { text } => text.wf(),
        }
    }

    pub open spec fn source(self) -> ObservedExtent {
        match self {
            Input::Raw { extent, scope } => *extent,
            Input::Text { text } => *text.extent,
        }
    }

    /// The bytes that are searched.
    pub open spec fn content(self) -> Seq<u8> {
        match self {
            Input::Raw { extent, scope } => extent@.part(scope),
            Input::Text { text } => text.shown(),
        }
    }

    pub open spec fn reach(self) -> ByteRange {
        match self {
            Input::Raw { extent, scope } => scope,
            Input::Text { text } => text.range,
        }
    }

    /// The original range of an occurrence, and its range in the text.
    pub open spec fn place(self, hit: ByteMatch) -> Result<
        (ByteRange, Option<DecodedUtf8Range>),
        ExtentQueryError,
    > {
        match self {
            Input::Raw { extent, scope } => if scope.start + hit.start > u64::MAX || scope.start
                + hit.end > u64::MAX || hit.start > hit.end {
                Err(ExtentQueryError::InvalidRange)
            } else {
                Ok(
                    (
                        ByteRange {
                            start: (scope.start + hit.start) as u64,
                            end: (scope.start + hit.end) as u64,
                        },
                        None,
                    ),
                )
            },
            Input::Text { text } => if hit.start > hit.end {
                Err(ExtentQueryError::InvalidRange)
            } else {
                let range = DecodedUtf8Range { start: hit.start, end: hit.end };
                match text.raw_of(range) {
                    Ok(raw) => Ok((raw, Some(range))),
                    Err(e) => Err(ExtentQueryError::View(e)),
                }
            },
        }
    }

    fn extent(&self) -> (r: &'source ObservedExtent)
        ensures
            *r == self.source(),
    {
        match self {
            Input::Raw { extent, scope: _ } => extent,
            Input::Text { text } => text.extent,
        }
    }

    fn bytes(&self) -> (r: &'source [u8])
        requires
            self.wf(),
        ensures
            r@ == self.content(),
    {
        match self {
            Input::Raw { extent, scope } => match extent.range_bytes(*scope) {
                Ok(bytes) => bytes,
                Err(_) => extent.bytes.as_slice(),
            },
            Input::Text { text } => text.text().as_bytes(),
        }
    }

    fn locate(&self, hit: ByteMatch) -> (r: Result<
        (ByteRange, Option<DecodedUtf8Range>),
        ExtentQueryError,
    >)
        requires
            self.wf(),
        ensures
            r == self.place(hit),
    {
        match self {
            Input::Raw { extent: _, scope } => {
                if hit.start > u64::MAX - scope.start || hit.end > u64::MAX - scope.start
                    || hit.start > hit.end {
                    return Err(ExtentQueryError::InvalidRange);
                }
                Ok(
                    (
                        ByteRange { start: scope.start + hit.start, end: scope.start + hit.end },
                        None,
                    ),
                )
            },
            Input::Text { text } => {
                if hit.start > hit.end {
                    return Err(ExtentQueryError::InvalidRange);
                }
                let range = DecodedUtf8Range { start: hit.start, end: hit.end };
                match text.text_selection(range) {
                    Ok(selection) => Ok((selection.original_range, Some(range))),
                    Err(e) => Err(ExtentQueryError::View(e)),
                }
            },
        }
    }
}

/// Where a search stands.
#[derive(Clone, Copy, Debug)]
pub struct ExtentCore {
    pub options: ExtentQueryOptions,
    pub scanned: usize,
    pub seen: u64,
    pub state: ExtentQueryState,
    pub last_step_bytes: usize,
}

/// A search that goes on step by step.
#[derive(Debug)]
pub struct ExtentQuery<'source, 'needle> {
    pub input: Input<'source>,
    pub needle: &'needle [u8],
    pub core: ExtentCore,
    pub hits: Vec<ExtentMatch<'source>>,
}

/// The model of what a search found.
pub ghost struct ExtentHits {
    pub core: ExtentCore,
    pub hits: Seq<(u64, ByteRange, Option<DecodedUtf8Range>)>,
}

/// What is kept of a match.
pub open spec fn kept(hit: ExtentMatch) -> (u64, ByteRange, Option<DecodedUtf8Range>) {
    (hit.occurrence, hit.original, hit.window_text)
}

/// Bytes charged for a search.
pub open spec fn extent_query_charge(max_matches: int, needle: int) -> int {
    max_matches * size_of::<ExtentMatch>() + 2 * needle * size_of::<usize>() + 2 * BATCH_MATCHES
        * size_of::<ByteMatch>() + size_of::<ExtentQuery>()
}

/// Why a search is not admitted.
pub open spec fn extent_query_error(
    input: Input,
    needle: int,
    options: ExtentQueryOptions,
    limit: int,
) -> Option<ExtentQueryError> {
    if options.generation.owner != input.source()@.request.file.owner {
        Some(ExtentQueryError::OwnerMismatch)
    } else if options.max_matches > MAX_EXTENT_MATCHES || needle > limit {
        Some(ExtentQueryError::InvalidLimits)
    } else if needle == 0 {
        Some(ExtentQueryError::Stream(StreamError::EmptyNeedle))
    } else if extent_query_charge(options.max_matches as int, needle) > usize::MAX {
        Some(ExtentQueryError::InvalidLimits)
    } else {
        None
    }
}

/// Whether a search may start so.
pub open spec fn is_extent_query<A: FnOnce(u64) -> bool>(
    r: Result<ExtentQuery, ExtentQueryError>,
    input: Input,
    needle: Seq<u8>,
    options: ExtentQueryOptions,
    limit: int,
    reserve: A,
) -> bool {
    match extent_query_error(input, needle.len() as int, options, limit) {
        Some(e) => r matches Err(f) && f == e,
        None => {
            let charge = extent_query_charge(options.max_matches as int, needle.len() as int);
            ||| call_ensures(reserve, (charge as u64,), false) && (r matches Err(f) && f
                == ExtentQueryError::ResourceDenied)
            ||| call_ensures(reserve, (charge as u64,), true) && (r matches Ok(query) && query.input
                == input && query.needle@ == needle && query.hits@.len() == 0 && query.core == (
            ExtentCore {
                options,
                scanned: 0,
                seen: 0,
                state: if input.content().len() == 0 {
                    ExtentQueryState::Finished
                } else {
                    ExtentQueryState::Pending
                },
                last_step_bytes: 0,
            }))
        },
    }
}

impl ExtentHits {
    pub open spec fn with_state(self, state: ExtentQueryState) -> ExtentHits {
        ExtentHits { core: ExtentCore { state, ..self.core }, ..self }
    }

    /// After the occurrences of a batch from the `i`th on were taken.
    pub open spec fn taken(self, input: Input, found: Seq<ByteMatch>, i: int) -> (
        ExtentHits,
        Option<ExtentQueryError>,
    )
        decreases found.len() - i,
    {
        if i < 0 || i >= found.len() {
            (self, None)
        } else if self.hits.len() >= self.core.options.max_matches {
            (self.with_state(ExtentQueryState::Truncated), None)
        } else {
            match input.place(found[i]) {
                Err(e) => (self.with_state(ExtentQueryState::Failed(e)), Some(e)),
                Ok((original, window_text)) => {
                    let seen = self.core.seen.wrapping_add(1);
                    ExtentHits {
                        core: ExtentCore { seen, ..self.core },
                        hits: self.hits.push((seen, original, window_text)),
                    }.taken(input, found, i + 1)
                },
            }
        }
    }

    /// How many occurrences a step may give.
    pub open spec fn batch_limit(self) -> usize {
        let left = self.core.options.max_matches - self.hits.len() + 1;
        if left < BATCH_MATCHES {
            left as usize
        } else {
            BATCH_MATCHES
        }
    }

    /// After a batch of the matcher.
    pub open spec fn absorbed(self, input: Input, consumed: usize, found: Seq<ByteMatch>) -> (
        ExtentHits,
        Option<ExtentQueryError>,
    ) {
        let passed = ExtentHits {
            core: ExtentCore {
                scanned: (self.core.scanned + consumed) as usize,
                last_step_bytes: consumed,
                ..self.core
            },
            ..self
        };
        passed.taken(input, found, 0)
    }

    /// The end of the input finishes a search.
    pub open spec fn settled(self, length: nat) -> ExtentHits {
        if self.core.state is Pending && self.core.scanned == length {
            self.with_state(ExtentQueryState::Finished)
        } else {
            self
        }
    }
}

/// What is asked of the host's matcher: it may be given any position, and takes
/// no more than is there.
pub open spec fn scanner_ok<
    M: FnMut(&[u8], &[u8], usize, usize, usize) -> Result<ByteBatch, StreamError>,
>(search: M) -> bool {
    &&& forall|wanted: &[u8], held: &[u8], from: usize, bytes: usize, hits: usize|
        from <= held@.len() ==> call_requires(search, (wanted, held, from, bytes, hits))
    &&& forall|
        wanted: &[u8],
        held: &[u8],
        from: usize,
        bytes: usize,
        hits: usize,
        answer: Result<ByteBatch, StreamError>,
    | #[trigger]
        call_ensures(search, (wanted, held, from, bytes, hits), answer) ==> (answer matches Ok(batch)
            ==> batch.consumed <= held@.len() - from)
}

/// Whether the host's matcher may say this of the bytes from a position on.
pub open spec fn scanned_so<
    M: FnMut(&[u8], &[u8], usize, usize, usize) -> Result<ByteBatch, StreamError>,
>(
    search: M,
    literal: Seq<u8>,
    content: Seq<u8>,
    from: usize,
    max_bytes: usize,
    max_hits: usize,
    answer: Result<ByteBatch, StreamError>,
) -> bool {
    exists|wanted: &[u8], held: &[u8]|
        wanted@ == literal && held@ == content && #[trigger] call_ensures(
            search,
            (wanted, held, from, max_bytes, max_hits),
            answer,
        )
}

/// Whether the work of a step may end so.
pub open spec fn extent_works<
    M: FnMut(&[u8], &[u8], usize, usize, usize) -> Result<ByteBatch, StreamError>,
>(
    m: ExtentHits,
    input: Input,
    needle: Seq<u8>,
    max_bytes: usize,
    search: M,
    end: ExtentHits,
    r: Result<ExtentQueryState, ExtentQueryError>,
) -> bool {
    exists|answer: Result<ByteBatch, StreamError>|
        #[trigger] scanned_so(
            search,
            needle,
            input.content(),
            m.core.scanned,
            max_bytes,
            m.batch_limit(),
            answer,
        ) && match answer {
            Err(e) => {
                let error = ExtentQueryError::Stream(e);
                end == m.with_state(ExtentQueryState::Failed(error)) && (r matches Err(f) && f
                    == error)
            },
            Ok(batch) => {
                let (after, failure) = m.absorbed(input, batch.consumed, batch.hits@);
                match failure {
                    Some(e) => end == after && (r matches Err(f) && f == e),
                    None => end == after.settled(input.content().len()) && (r matches Ok(state)
                        && state == end.core.state),
                }
            },
        }
}

impl<'source, 'needle> ExtentQuery<'source, 'needle> {
    pub open spec fn wf(self) -> bool {
        &&& self.input.wf()
        &&& self.core.scanned <= self.input.content().len()
        &&& self.hits@.len() <= self.core.options.max_matches <= MAX_EXTENT_MATCHES
        &&& forall|i: int|
            0 <= i < self.hits@.len() ==> *(#[trigger] self.hits@[i]).extent == self.input.source()
                && self.hits@[i].generation == self.core.options.generation
    }

    pub open spec fn found(self) -> ExtentHits {
        ExtentHits {
            core: self.core,
            hits: Seq::new(self.hits@.len(), |i: int| kept(self.hits@[i])),
        }
    }

    /// A search of original bytes within an extent.
    pub fn raw<A: FnOnce(u64) -> bool>(
        view: &'source ExtentView,
        scope: ByteRange,
        needle: &'needle [u8],
        options: ExtentQueryOptions,
        limit: usize,
        reserve: A,
    ) -> (r: Result<Self, ExtentQueryError>)
        requires
            view.extent@.wf(),
            forall|charge: u64| call_requires(reserve, (charge,)),
        ensures
            r matches Ok(query) ==> query.wf(),
            if !view.extent@.has(scope) {
                r matches Err(e) && e == ExtentQueryError::View(
                    ExtentViewError::Extent(crate::search::extents::ExtentError::InvalidRange),
                )
            } else {
                is_extent_query(
                    r,
                    Input::Raw { extent: &view.extent, scope },
                    needle@,
                    options,
                    limit as int,
                    reserve,
                )
            },
    {
        match view.raw_selection(scope) {
            Err(e) => Err(ExtentQueryError::View(e)),
            Ok(_) => ExtentQuery::new(
                Input::Raw { extent: &view.extent, scope },
                needle,
                options,
                limit,
                reserve,
            ),
        }
    }

    /// A search of exact text.
    pub fn text<A: FnOnce(u64) -> bool>(
        text: &'source ExtentText<'source>,
        needle: &'needle str,
        options: ExtentQueryOptions,
        limit: usize,
        reserve: A,
    ) -> (r: Result<Self, ExtentQueryError>)
        requires
            text.wf(),
            forall|charge: u64| call_requires(reserve, (charge,)),
        ensures
            r matches Ok(query) ==> query.wf(),
            if text.map@.replaces(text.range) {
                r matches Err(e) && e == ExtentQueryError::UnsupportedText
            } else {
                is_extent_query(
                    r,
                    Input::Text { text },
                    encode_utf8(needle@),
                    options,
                    limit as int,
                    reserve,
                )
            },
    {
        if text.has_replacements() {
            return Err(ExtentQueryError::UnsupportedText);
        }
        ExtentQuery::new(Input::Text { text }, needle.as_bytes(), options, limit, reserve)
    }

    fn new<A: FnOnce(u64) -> bool>(
        input: Input<'source>,
        needle: &'needle [u8],
        options: ExtentQueryOptions,
        limit: usize,
        reserve: A,
    ) -> (r: Result<Self, ExtentQueryError>)
        requires
            input.wf(),
            forall|charge: u64| call_requires(reserve, (charge,)),
        ensures
            r matches Ok(query) ==> query.wf(),
            is_extent_query(r, input, needle@, options, limit as int, reserve),
    {
        if options.generation.owner != input.extent().request.file.owner {
            return Err(ExtentQueryError::OwnerMismatch);
        }
        if options.max_matches > MAX_EXTENT_MATCHES || needle.len() > limit {
            return Err(ExtentQueryError::InvalidLimits);
        }
        if needle.len() == 0 {
            return Err(ExtentQueryError::Stream(StreamError::EmptyNeedle));
        }
        let hit: u128 = wide_size::<ExtentMatch>();
        let word: u128 = wide_size::<usize>();
        let length: u128 = needle.len() as u128;
        proof {
            assert(0 <= options.max_matches * hit <= 4096 * hit) by (nonlinear_arith)
                requires
                    0 <= options.max_matches <= 4096,
                    hit >= 0,
            ;
            assert(0 <= length * word <= u64::MAX * u64::MAX) by (nonlinear_arith)
                requires
                    0 <= length <= u64::MAX,
                    0 <= word <= u64::MAX,
            ;
            assert(2 * (length * word) == (2 * length) * word) by (nonlinear_arith);
        }
        let results: u128 = options.max_matches as u128 * hit;
        let words: u128 = length * word;
        if words > usize::MAX as u128 {
            return Err(ExtentQueryError::InvalidLimits);
        }
        let charge: u128 = results + 2 * words + 2 * BATCH_MATCHES as u128 * wide_size::<
            ByteMatch,
        >() + wide_size::<ExtentQuery>();
        assert(charge == extent_query_charge(options.max_matches as int, needle@.len() as int));
        if charge > usize::MAX as u128 {
            return Err(ExtentQueryError::InvalidLimits);
        }
        if !reserve(charge as u64) {
            return Err(ExtentQueryError::ResourceDenied);
        }
        let state = if input.bytes().len() == 0 {
            ExtentQueryState::Finished
        } else {
            ExtentQueryState::Pending
        };
        let core = ExtentCore { options, scanned: 0, seen: 0, state, last_step_bytes: 0 };
        Ok(ExtentQuery { input, needle, core, hits: Vec::new() })
    }

    /// Takes the occurrences of a batch, as many as the limit allows.
    fn take_hits(&mut self, found: &Vec<ByteMatch>) -> (r: Option<ExtentQueryError>)
        requires
            old(self).wf(),
        ensures
            final(self).wf(),
            final(self).input == old(self).input,
            final(self).needle == old(self).needle,
            (final(self).found(), r) == old(self).found().taken(old(self).input, found@, 0),
    {
        let mut i: usize = 0;
        while i < found.len()
            invariant
                i <= found@.len(),
                self.wf(),
                self.input == old(self).input,
                self.needle == old(self).needle,
                self.found().taken(self.input, found@, i as int) == old(self).found().taken(
                    old(self).input,
                    found@,
                    0,
                ),
            decreases found.len() - i,
        {
            if self.hits.len() >= self.core.options.max_matches {
                let ghost before = self.found();
                self.core.state = ExtentQueryState::Truncated;
                assert(self.found().hits =~= before.hits);
                return None;
            }
            match self.input.locate(found[i]) {
                Err(e) => {
                    let ghost before = self.found();
                    self.core.state = ExtentQueryState::Failed(e);
                    assert(self.found().hits =~= before.hits);
                    return Some(e);
                },
                Ok((original, window_text)) => {
                    let ghost before = self.found();
                    self.core.seen = self.core.seen.wrapping_add(1);
                    self.hits.push(
                        ExtentMatch {
                            extent: self.input.extent(),
                            generation: self.core.options.generation,
                            occurrence: self.core.seen,
                            original,
                            window_text,
                        },
                    );
                    assert(self.found().hits =~= before.hits.push(
                        (self.core.seen, original, window_text),
                    ));
                },
            }
            i = i + 1;
        }
        None
    }

    /// Lets the matcher go on once.
    pub fn step<
        M: FnMut(&[u8], &[u8], usize, usize, usize) -> Result<ByteBatch, StreamError>,
        C: FnMut() -> bool,
    >(
        &mut self,
        max_input_bytes: usize,
        generation: QueryGeneration,
        search: &mut M,
        canceled: &mut C,
    ) -> (r: Result<ExtentQueryState, ExtentQueryError>)
        requires
            old(self).wf(),
            scanner_ok(*old(search)),
            call_requires(*old(canceled), ()),
        ensures
            *final(search) == *old(search),
            *final(canceled) == *old(canceled),
            final(self).wf(),
            final(self).input == old(self).input,
            final(self).needle == old(self).needle,
            extent_steps(
                old(self).found(),
                old(self).input,
                old(self).needle@,
                max_input_bytes,
                generation,
                *old(search),
                *old(canceled),
                final(self).found(),
                r,
            ),
    {
        let ghost begun = self.found();
        self.core.last_step_bytes = 0;
        let ghost fresh = self.found();
        assert(fresh.hits =~= begun.hits);
        if generation != self.core.options.generation {
            self.cancel();
            return Err(ExtentQueryError::StaleGeneration);
        }
        if canceled() {
            self.cancel();
            return Err(ExtentQueryError::Canceled);
        }
        match self.core.state {
            ExtentQueryState::Failed(error) => {
                return Err(error);
            },
            ExtentQueryState::Pending => {},
            _ => {
                return Ok(self.core.state);
            },
        }
        if max_input_bytes == 0 {
            return Ok(self.core.state);
        }
        let left: usize = self.core.options.max_matches - self.hits.len() + 1;
        let limit: usize = if left < BATCH_MATCHES {
            left
        } else {
            BATCH_MATCHES
        };
        let content = self.input.bytes();
        let answer = search(self.needle, content, self.core.scanned, max_input_bytes, limit);
        assert(call_ensures(
            *old(search),
            (self.needle, content, self.core.scanned, max_input_bytes, limit),
            answer,
        ));
        assert(scanned_so(
            *old(search),
            self.needle@,
            self.input.content(),
            fresh.core.scanned,
            max_input_bytes,
            fresh.batch_limit(),
            answer,
        ));
        let batch = match answer {
            Ok(batch) => batch,
            Err(e) => {
                self.core.state = ExtentQueryState::Failed(ExtentQueryError::Stream(e));
                assert(self.found().hits =~= fresh.hits);
                return Err(ExtentQueryError::Stream(e));
            },
        };
        let length: usize = content.len();
        assert(self.core.scanned + batch.consumed <= length);
        self.core.scanned = self.core.scanned + batch.consumed;
        self.core.last_step_bytes = batch.consumed;
        assert(self.found().hits =~= fresh.hits);
        if let Some(e) = self.take_hits(&batch.hits) {
            return Err(e);
        }
        let ghost after = self.found();
        if canceled() {
            self.cancel();
            assert(extent_works(
                fresh,
                self.input,
                self.needle@,
                max_input_bytes,
                *old(search),
                after.settled(length as nat),
                Ok(after.settled(length as nat).core.state),
            ));
            return Err(ExtentQueryError::Canceled);
        }
        let pending = match self.core.state {
            ExtentQueryState::Pending => true,
            _ => false,
        };
        if pending && self.core.scanned == length {
            self.core.state = ExtentQueryState::Finished;
        }
        assert(self.found().hits =~= after.hits);
        Ok(self.core.state)
    }

    pub fn cancel(&mut self)
        requires
            old(self).wf(),
        ensures
            final(self).wf(),
            final(self).input == old(self).input,
            final(self).needle == old(self).needle,
            final(self).found() == old(self).found().with_state(ExtentQueryState::Canceled),
    {
        let ghost before = self.found();
        self.core.state = ExtentQueryState::Canceled;
        assert(self.found().hits =~= before.hits);
    }

    pub fn scope(&self) -> (r: ByteRange)
        ensures
            r == self.input.reach(),
    {
        match self.input {
            Input::Raw { extent: _, scope } => scope,
            Input::Text { text } => text.range,
        }
    }

    pub fn input_kind(&self) -> (r: ExtentQueryInput)
        ensures
            r == (match self.input {
                Input::Raw { extent, scope } => ExtentQueryInput::OriginalBytes,
                Input::Text { text } => ExtentQueryInput::WindowUtf8,
            }),
    {
        match self.input {
            Input::Raw { extent: _, scope: _ } => ExtentQueryInput::OriginalBytes,
            Input::Text { text: _ } => ExtentQueryInput::WindowUtf8,
        }
    }

    pub fn state(&self) -> (r: ExtentQueryState)
        ensures
            r == self.core.state,
    {
        self.core.state
    }

    pub fn hits(&self) -> (r: &Vec<ExtentMatch<'source>>)
        ensures
            *r == self.hits,
    {
        &self.hits
    }

    pub fn matches_seen(&self) -> (r: u64)
        ensures
            r == self.core.seen,
    {
        self.core.seen
    }

    /// In bytes of the input: original bytes, or bytes of the text.
    pub fn scanned_input_bytes(&self) -> (r: u64)
        ensures
            r == self.core.scanned,
    {
        self.core.scanned as u64
    }

    pub fn last_step_bytes(&self) -> (r: usize)
        ensures
            r == self.core.last_step_bytes,
    {
        self.core.last_step_bytes
    }

    /// Complete within the scope only.
    pub fn scope_complete(&self) -> (r: bool)
        ensures
            r == self.core.state is Finished,
    {
        match self.core.state {
            ExtentQueryState::Finished => true,
            _ => false,
        }
    }

    pub fn has_unsearched_source(&self) -> (r: bool)
        ensures
            r == (self.input.reach().start != 0 || self.input.reach().end
                != self.input.source()@.observed_length),
    {
        let scope = self.scope();
        scope.start != 0 || scope.end != self.input.extent().observed_length
    }
}

/// Whether work that was done may be stopped so: what it found stays.
pub open spec fn extent_stops<
    M: FnMut(&[u8], &[u8], usize, usize, usize) -> Result<ByteBatch, StreamError>,
>(
    m: ExtentHits,
    input: Input,
    needle: Seq<u8>,
    max_bytes: usize,
    search: M,
    end: ExtentHits,
) -> bool {
    exists|worked: ExtentHits|
        #[trigger] extent_works(
            m,
            input,
            needle,
            max_bytes,
            search,
            worked,
            Ok(worked.core.state),
        ) && end == worked.with_state(ExtentQueryState::Canceled)
}

/// Whether a step may end so.
pub open spec fn extent_steps<
    M: FnMut(&[u8], &[u8], usize, usize, usize) -> Result<ByteBatch, StreamError>,
    C: FnMut() -> bool,
>(
    m: ExtentHits,
    input: Input,
    needle: Seq<u8>,
    max_bytes: usize,
    active: QueryGeneration,
    search: M,
    canceled: C,
    end: ExtentHits,
    r: Result<ExtentQueryState, ExtentQueryError>,
) -> bool {
    let fresh = ExtentHits { core: ExtentCore { last_step_bytes: 0, ..m.core }, ..m };
    if active != m.core.options.generation {
        end == fresh.with_state(ExtentQueryState::Canceled) && (r matches Err(e) && e
            == ExtentQueryError::StaleGeneration)
    } else {
        ||| (end == fresh.with_state(ExtentQueryState::Canceled) || m.core.state is Pending
            && max_bytes > 0 && extent_stops(fresh, input, needle, max_bytes, search, end)) && (
        r matches Err(e) && e == ExtentQueryError::Canceled) && call_ensures(canceled, (), true)
        ||| match m.core.state {
            ExtentQueryState::Failed(error) => end == fresh && (r matches Err(e) && e == error),
            ExtentQueryState::Pending => if max_bytes == 0 {
                end == fresh && (r matches Ok(state) && state is Pending)
            } else {
                extent_works(fresh, input, needle, max_bytes, search, end, r)
            },
            _ => end == fresh && (r matches Ok(state) && state == m.core.state),
        }
    }
}

} // verus!
