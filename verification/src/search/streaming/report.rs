//! Starting a streaming search, and what it reports.
use vstd::layout::size_of;
use vstd::prelude::*;

use crate::identity::{FileId, QueryGeneration, SourceRevision};
use crate::memory::wide_size;
use crate::search::reading_window::MappingSpan;
use crate::search::source::{CaptureRequest, SourceEncoding, SourceError};
use crate::search::streaming::stepping::prepares;
use crate::search::streaming::{
    ByteMatch, NeedleModel, ReaderSearch, SearchModel, StreamCore, StreamReadError,
    StreamReadOptions, StreamReadState, StreamReadStats, StreamingHit, StreamingMode,
    StreamingNeedle, MAX_STREAM_RESULTS, MAX_STREAM_STEP_HITS, STREAM_BUFFER_BYTES,
};

verus! {

/// Why a search is not admitted.
pub open spec fn admission_error(
    request: CaptureRequest,
    needle: NeedleModel,
    options: StreamReadOptions,
) -> Option<StreamReadError> {
    if request.file.owner != needle.owner || options.generation.owner != needle.owner {
        Some(StreamReadError::OwnerMismatch)
    } else if request.range is Some {
        Some(StreamReadError::InvalidRange)
    } else if options.max_matches > MAX_STREAM_RESULTS || options.encoding == Some(
        SourceEncoding::Unsupported,
    ) || (needle.mode is OriginalBytes && options.encoding is Some) {
        Some(StreamReadError::InvalidLimits)
    } else {
        None
    }
}

/// Bytes charged for a search: the length of the source does not count.
/// `limit` is the longest literal that the host's matcher takes.
pub open spec fn search_charge(max_matches: int, limit: int) -> int {
    size_of::<ReaderSearch>() + size_of::<StreamReadReport>() + STREAM_BUFFER_BYTES * (8
        * size_of::<MappingSpan>() + 64) + limit * size_of::<usize>() + max_matches * size_of::<
        StreamingHit,
    >() + MAX_STREAM_STEP_HITS * size_of::<ByteMatch>()
}

/// A search that has read nothing.
pub open spec fn fresh_search(
    request: CaptureRequest,
    length: u64,
    needle: NeedleModel,
    options: StreamReadOptions,
) -> SearchModel {
    SearchModel {
        core: StreamCore {
            request,
            length,
            options,
            text: needle.mode is ExactText,
            encoding: options.encoding,
            header: 0,
            started: needle.mode is OriginalBytes,
            base: 0,
            ready: 0,
            consumed: 0,
            eof: false,
            matches_seen: 0,
            unsupported_at: None,
            state: StreamReadState::Pending,
            stats: StreamReadStats {
                bytes_read: 0,
                scanned_bytes: 0,
                read_calls: 0,
                interrupted_calls: 0,
                last_step_read: 0,
                last_step_scanned: 0,
                last_step_calls: 0,
                peak_buffer_bytes: 0,
            },
        },
        buffer: Seq::empty(),
        hits: Seq::empty(),
    }
}

/// Whether an admitted search may start so. An empty source is done with at
/// once.
pub open spec fn starts<
    D: FnMut(&Vec<u8>) -> SourceEncoding,
    V: FnMut(&Vec<u8>, usize, SourceEncoding, u64) -> Result<Option<u64>, SourceError>,
>(
    r: Result<SearchModel, StreamReadError>,
    fresh: SearchModel,
    detect: D,
    check: V,
) -> bool {
    if fresh.core.length > 0 {
        r matches Ok(search) && search == fresh
    } else {
        exists|framed: SearchModel, ok: Result<(), StreamReadError>|
            #[trigger] prepares(fresh, detect, check, framed, ok) && match ok {
                Ok(_) => r matches Ok(search) && search == framed.terminal(),
                Err(e) => r matches Err(f) && f == e,
            }
    }
}

/// The model of a search that started, or the error.
pub open spec fn started(r: Result<ReaderSearch, StreamReadError>) -> Result<
    SearchModel,
    StreamReadError,
> {
    match r {
        Ok(search) => Ok(search@),
        Err(e) => Err(e),
    }
}

/// Whether starting a search may answer so.
pub open spec fn is_started<
    A: FnOnce(u64) -> bool,
    D: FnMut(&Vec<u8>) -> SourceEncoding,
    V: FnMut(&Vec<u8>, usize, SourceEncoding, u64) -> Result<Option<u64>, SourceError>,
>(
    r: Result<SearchModel, StreamReadError>,
    request: CaptureRequest,
    length: u64,
    needle: NeedleModel,
    options: StreamReadOptions,
    limit: int,
    reserve: A,
    detect: D,
    check: V,
) -> bool {
    match admission_error(request, needle, options) {
        Some(e) => r matches Err(f) && f == e,
        None => {
            let charge = search_charge(options.max_matches as int, limit);
            ||| (charge > u64::MAX || call_ensures(reserve, (charge as u64,), false)) && (
            r matches Err(f) && f == StreamReadError::ResourceDenied)
            ||| charge <= u64::MAX && call_ensures(reserve, (charge as u64,), true) && starts(
                r,
                fresh_search(request, length, needle, options),
                detect,
                check,
            )
        },
    }
}

impl<'needle> ReaderSearch<'needle> {
    /// Starts a search of an observation of this length.
    pub fn new<
        A: FnOnce(u64) -> bool,
        D: FnMut(&Vec<u8>) -> SourceEncoding,
        V: FnMut(&Vec<u8>, usize, SourceEncoding, u64) -> Result<Option<u64>, SourceError>,
    >(
        request: CaptureRequest,
        length: u64,
        needle: &'needle StreamingNeedle,
        options: StreamReadOptions,
        limit: usize,
        reserve: A,
        detect: &mut D,
        check: &mut V,
    ) -> (r: Result<Self, StreamReadError>)
        requires
            forall|charge: u64| call_requires(reserve, (charge,)),
            forall|bytes: &Vec<u8>| call_requires(*old(detect), (bytes,)),
            forall|bytes: &Vec<u8>, n: usize, e: SourceEncoding, base: u64|
                call_requires(*old(check), (bytes, n, e, base)),
        ensures
            *final(detect) == *old(detect),
            *final(check) == *old(check),
            r matches Ok(search) ==> search@.wf() && search.needle == needle,
            is_started(
                started(r),
                request,
                length,
                needle@,
                options,
                limit as int,
                reserve,
                *old(detect),
                *old(check),
            ),
    {
        if request.file.owner != needle.owner || options.generation.owner != needle.owner {
            return Err(StreamReadError::OwnerMismatch);
        }
        if request.range.is_some() {
            return Err(StreamReadError::InvalidRange);
        }
        let text = match needle.mode {
            StreamingMode::ExactText => true,
            StreamingMode::OriginalBytes => false,
        };
        let unsupported = match options.encoding {
            Some(SourceEncoding::Unsupported) => true,
            _ => false,
        };
        if options.max_matches > MAX_STREAM_RESULTS || unsupported || (!text
            && options.encoding.is_some()) {
            return Err(StreamReadError::InvalidLimits);
        }
        let per_byte: u128 = 8 * wide_size::<MappingSpan>() + 64;
        assert(per_byte <= 0xf_ffff_ffff_ffff_ffff);
        let spans: u128 = 16_384 * per_byte;
        let word: u128 = wide_size::<usize>();
        let hit: u128 = wide_size::<StreamingHit>();
        let fixed: u128 = wide_size::<ReaderSearch>() + wide_size::<StreamReadReport>()
            + spans + MAX_STREAM_STEP_HITS as u128 * wide_size::<
            ByteMatch,
        >();
        proof {
            assert(0 <= limit * word <= 0xffff_ffff_ffff_ffffint * 0xffff_ffff_ffff_ffffint)
                by (nonlinear_arith)
                requires
                    0 <= limit <= 0xffff_ffff_ffff_ffff,
                    0 <= word <= 0xffff_ffff_ffff_ffff,
            ;
            assert(0 <= options.max_matches * hit <= 4096 * hit) by (nonlinear_arith)
                requires
                    0 <= options.max_matches <= 4096,
                    hit >= 0,
            ;
        }
        let table: u128 = limit as u128 * word;
        let results: u128 = options.max_matches as u128 * hit;
        if table > u64::MAX as u128 {
            return Err(StreamReadError::ResourceDenied);
        }
        let charge: u128 = fixed + table + results;
        assert(charge == search_charge(options.max_matches as int, limit as int));
        if charge > u64::MAX as u128 {
            return Err(StreamReadError::ResourceDenied);
        }
        if !reserve(charge as u64) {
            return Err(StreamReadError::ResourceDenied);
        }
        let stats = StreamReadStats {
            bytes_read: 0,
            scanned_bytes: 0,
            read_calls: 0,
            interrupted_calls: 0,
            last_step_read: 0,
            last_step_scanned: 0,
            last_step_calls: 0,
            peak_buffer_bytes: 0,
        };
        let core = StreamCore {
            request,
            length,
            options,
            text,
            encoding: options.encoding,
            header: 0,
            started: !text,
            base: 0,
            ready: 0,
            consumed: 0,
            eof: false,
            matches_seen: 0,
            unsupported_at: None,
            state: StreamReadState::Pending,
            stats,
        };
        let mut search = ReaderSearch { needle, core, buffer: Vec::new(), hits: Vec::new() };
        let ghost fresh = search@;
        assert(fresh.buffer =~= Seq::empty());
        assert(fresh.hits =~= Seq::empty());
        assert(fresh == fresh_search(request, length, needle@, options));
        assert(call_ensures(reserve, (charge as u64,), true));
        if length == 0 {
            let prepared = search.prepare(detect, check);
            assert(prepares(fresh, *old(detect), *old(check), search@, prepared));
            if let Err(e) = prepared {
                return Err(e);
            }
            let ghost framed = search@;
            search.set_terminal();
            assert(search@ == framed.terminal());
        }
        Ok(search)
    }

    /// What the search found, once it is over.
    pub fn finish(self) -> (r: Result<StreamReadReport<'needle>, StreamReadError>)
        requires
            self@.wf(),
        ensures
            match r {
                Ok(report) => !(self@.core.state is Pending) && report.needle == self.needle
                    && report.core == self@.core && report.hits@ == self@.hits && report.wf(),
                Err(e) => self@.core.state is Pending && e == StreamReadError::Pending,
            },
    {
        match self.core.state {
            StreamReadState::Pending => Err(StreamReadError::Pending),
            _ => Ok(StreamReadReport { needle: self.needle, core: self.core, hits: self.hits }),
        }
    }
}

/// What a search found. It names ranges only; the bytes of a hit are those of
/// the literal.
#[derive(Debug)]
pub struct StreamReadReport<'needle> {
    pub needle: &'needle StreamingNeedle,
    pub core: StreamCore,
    pub hits: Vec<StreamingHit>,
}

impl<'needle> StreamReadReport<'needle> {
    pub open spec fn wf(self) -> bool {
        forall|i: int| 0 <= i < self.hits@.len() ==> (#[trigger] self.hits@[i]).range.ordered()
    }

    pub fn request(&self) -> (r: CaptureRequest)
        ensures
            r == self.core.request,
    {
        self.core.request
    }

    pub fn observed_length(&self) -> (r: u64)
        ensures
            r == self.core.length,
    {
        self.core.length
    }

    pub fn generation(&self) -> (r: QueryGeneration)
        ensures
            r == self.core.options.generation,
    {
        self.core.options.generation
    }

    pub fn encoding(&self) -> (r: Option<SourceEncoding>)
        ensures
            r == self.core.encoding,
    {
        self.core.encoding
    }

    pub fn header_bytes(&self) -> (r: u64)
        ensures
            r == self.core.header,
    {
        self.core.header
    }

    pub fn mode(&self) -> (r: StreamingMode)
        ensures
            r == self.needle@.mode,
    {
        self.needle.mode
    }

    pub fn text_literal(&self) -> (r: Option<String>)
        ensures
            r is Some == (self.needle@.mode is ExactText && vstd::utf8::valid_utf8(
                self.needle@.utf8,
            )),
            r matches Some(text) ==> text@ == vstd::utf8::decode_utf8(self.needle@.utf8),
    {
        self.needle.text_value()
    }

    pub fn state(&self) -> (r: StreamReadState)
        ensures
            r == self.core.state,
    {
        self.core.state
    }

    pub fn stats(&self) -> (r: StreamReadStats)
        ensures
            r == self.core.stats,
    {
        self.core.stats
    }

    pub fn matches_seen(&self) -> (r: u64)
        ensures
            r == self.core.matches_seen,
    {
        self.core.matches_seen
    }

    pub fn unsupported_at(&self) -> (r: Option<u64>)
        ensures
            r == self.core.unsupported_at,
    {
        self.core.unsupported_at
    }

    pub fn hits(&self) -> (r: &Vec<StreamingHit>)
        ensures
            *r == self.hits,
    {
        &self.hits
    }

    /// Complete over the supplied sequence and length.
    pub fn input_complete(&self) -> (r: bool)
        ensures
            r == self.core.state is Complete,
    {
        match self.core.state {
            StreamReadState::Complete => true,
            _ => false,
        }
    }

    /// The literal that a hit's bytes equal, if the hit is as long.
    pub open spec fn witness(self, ordinal: int) -> Result<Seq<u8>, StreamReadError> {
        let literal = self.needle@.in_encoding(self.core.encoding);
        if ordinal < 0 || ordinal >= self.hits@.len() {
            Err(StreamReadError::InvalidRange)
        } else if self.hits@[ordinal].range.end - self.hits@[ordinal].range.start
            != literal.len() {
            Err(StreamReadError::InvalidRange)
        } else {
            Ok(literal)
        }
    }

    pub fn witness_bytes(&self, ordinal: usize) -> (r: Result<&'needle Vec<u8>, StreamReadError>)
        requires
            self.wf(),
        ensures
            match self.witness(ordinal as int) {
                Ok(bytes) => r matches Ok(found) && found@ == bytes,
                Err(e) => r matches Err(f) && f == e,
            },
    {
        if ordinal >= self.hits.len() {
            return Err(StreamReadError::InvalidRange);
        }
        let range = self.hits[ordinal].range;
        let literal = self.needle.encoded(self.core.encoding);
        if range.end - range.start != literal.len() as u64 {
            return Err(StreamReadError::InvalidRange);
        }
        Ok(literal)
    }

    pub fn validate_delivery(
        &self,
        file: FileId,
        revision: SourceRevision,
        generation: QueryGeneration,
    ) -> (r: Result<(), StreamReadError>)
        ensures
            r == (if file != self.core.request.file || revision != self.core.request.revision {
                Err::<(), StreamReadError>(StreamReadError::InvalidRange)
            } else if generation != self.core.options.generation {
                Err(StreamReadError::StaleGeneration)
            } else {
                Ok(())
            }),
    {
        if file != self.core.request.file || revision != self.core.request.revision {
            return Err(StreamReadError::InvalidRange);
        }
        if generation != self.core.options.generation {
            return Err(StreamReadError::StaleGeneration);
        }
        Ok(())
    }
}

} // verus!
