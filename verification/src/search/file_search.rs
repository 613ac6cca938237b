//! Searching a whole open file.
//!
//! The host reads at positions and looks at the file's metadata before and
//! after. The reads are one continuous observation, not an atomic snapshot.
use vstd::prelude::*;

use crate::identity::QueryGeneration;
use crate::search::extents::{ExtentConsistency, ExtentError, ObservedExtent};
use crate::search::source::{CaptureRequest, SourceEncoding, SourceError, StreamError};
use crate::search::streaming::report::{is_started, started, StreamReadReport};
use crate::search::streaming::stepping::{matcher_ok, replies_of, steps};
use crate::search::streaming::{
    ByteBatch, ReaderSearch, StreamReadError, StreamReadOptions, StreamReadState, StreamReadStats,
    StreamReadStep, StreamReply, StreamingNeedle,
};
use crate::text::bytes_of;

verus! {

#[derive(Clone, Copy, Debug, PartialEq, Eq, Structural)]
pub enum FileSearchError {
    Stream(StreamReadError),
    Source(SourceError),
    Extent(ExtentError),
    UnsupportedPlatform,
}

/// What metadata tells of a file's state.
#[derive(Clone, Copy, Debug, PartialEq, Eq, Structural)]
pub struct Stamp {
    pub length: u64,
    /// When it was last changed, in a count of the host's.
    pub modified: Option<u128>,
}

/// Whether the file's metadata shows a change.
pub open spec fn changed(before: Stamp, after: Stamp) -> bool {
    after.length != before.length || (before.modified is Some && after.modified is Some
        && before.modified != after.modified)
}

/// How far the bytes that were read agree with the file.
pub open spec fn consistency_of(
    state: StreamReadState,
    before: Stamp,
    after: Option<Stamp>,
) -> ExtentConsistency {
    if state is ShortRead {
        ExtentConsistency::ShortRead
    } else {
        match after {
            None => ExtentConsistency::MetadataUnavailable,
            Some(after) => if changed(before, after) {
                ExtentConsistency::ChangedDuringRead
            } else if before.modified is Some && after.modified is Some {
                ExtentConsistency::UnchangedMetadata
            } else {
                ExtentConsistency::MetadataUnavailable
            },
        }
    }
}

pub fn judge_consistency(state: StreamReadState, before: Stamp, after: Option<Stamp>) -> (r:
    ExtentConsistency)
    ensures
        r == consistency_of(state, before, after),
{
    match state {
        StreamReadState::ShortRead => {
            return ExtentConsistency::ShortRead;
        },
        _ => {},
    }
    match after {
        None => ExtentConsistency::MetadataUnavailable,
        Some(after) => {
            let moved = match (before.modified, after.modified) {
                (Some(a), Some(b)) => a != b,
                _ => false,
            };
            if after.length != before.length || moved {
                ExtentConsistency::ChangedDuringRead
            } else if before.modified.is_some() && after.modified.is_some() {
                ExtentConsistency::UnchangedMetadata
            } else {
                ExtentConsistency::MetadataUnavailable
            }
        },
    }
}

/// A search of a file.
#[derive(Debug)]
pub struct FileSearch<'needle> {
    pub search: ReaderSearch<'needle>,
    pub before: Stamp,
}

impl<'needle> FileSearch<'needle> {
    /// Starts a search of a file that the host has open. Without metadata, and
    /// for what is no regular file, none starts.
    pub fn new<
        A: FnOnce(u64) -> bool,
        D: FnMut(&Vec<u8>) -> SourceEncoding,
        V: FnMut(&Vec<u8>, usize, SourceEncoding, u64) -> Result<Option<u64>, SourceError>,
    >(
        supported: bool,
        stamp: Option<Stamp>,
        is_file: bool,
        request: CaptureRequest,
        needle: &'needle StreamingNeedle,
        options: StreamReadOptions,
        limit: usize,
        reserve: A,
        detect: &mut D,
        check: &mut V,
    ) -> (r: Result<Self, FileSearchError>)
        requires
            forall|charge: u64| call_requires(reserve, (charge,)),
            forall|bytes: &Vec<u8>| call_requires(*old(detect), (bytes,)),
            forall|bytes: &Vec<u8>, n: usize, e: SourceEncoding, base: u64|
                call_requires(*old(check), (bytes, n, e, base)),
        ensures
            *final(detect) == *old(detect),
            *final(check) == *old(check),
            r matches Ok(job) ==> job.search@.wf() && job.search.needle == needle,
            if !supported {
                r matches Err(e) && e == FileSearchError::UnsupportedPlatform
            } else {
                match stamp {
                    None => r matches Err(e) && e == FileSearchError::Source(
                        SourceError::CaptureUnavailable,
                    ),
                    Some(stamp) => if !is_file {
                        r matches Err(e) && e == FileSearchError::Source(SourceError::SpecialObject)
                    } else {
                        exists|begun: Result<ReaderSearch, StreamReadError>|
                            #[trigger] is_started(
                                started(begun),
                                request,
                                stamp.length,
                                needle@,
                                options,
                                limit as int,
                                reserve,
                                *old(detect),
                                *old(check),
                            ) && match begun {
                                Ok(search) => r matches Ok(job) && job.search == search
                                    && job.before == stamp,
                                Err(e) => r matches Err(f) && f == FileSearchError::Stream(e),
                            }
                    },
                }
            },
    {
        if !supported {
            return Err(FileSearchError::UnsupportedPlatform);
        }
        let before = match stamp {
            Some(stamp) => stamp,
            None => {
                return Err(FileSearchError::Source(SourceError::CaptureUnavailable));
            },
        };
        if !is_file {
            return Err(FileSearchError::Source(SourceError::SpecialObject));
        }
        let begun = ReaderSearch::new(
            request,
            before.length,
            needle,
            options,
            limit,
            reserve,
            detect,
            check,
        );
        let ghost answer = begun;
        match begun {
            Ok(search) => Ok(FileSearch { search, before }),
            Err(e) => Err(FileSearchError::Stream(e)),
        }
    }

    /// Goes on with the search.
    pub fn step<
        R: FnMut(usize) -> StreamReply,
        D: FnMut(&Vec<u8>) -> SourceEncoding,
        V: FnMut(&Vec<u8>, usize, SourceEncoding, u64) -> Result<Option<u64>, SourceError>,
        M: FnMut(&Vec<u8>, &Vec<u8>, usize, usize, usize, usize) -> Result<ByteBatch, StreamError>,
        C: FnMut() -> bool,
    >(
        &mut self,
        step: StreamReadStep,
        generation: QueryGeneration,
        read: &mut R,
        detect: &mut D,
        check: &mut V,
        search: &mut M,
        canceled: &mut C,
    ) -> (r: Result<StreamReadState, FileSearchError>)
        requires
            old(self).search@.wf(),
            forall|n: usize| call_requires(*old(read), (n,)),
            forall|bytes: &Vec<u8>| call_requires(*old(detect), (bytes,)),
            forall|bytes: &Vec<u8>, n: usize, e: SourceEncoding, base: u64|
                call_requires(*old(check), (bytes, n, e, base)),
            matcher_ok(*old(search)),
            call_requires(*old(canceled), ()),
        ensures
            final(self).search@.wf(),
            final(self).before == old(self).before,
            final(self).search.needle == old(self).search.needle,
            exists|said: Result<StreamReadState, StreamReadError>|
                #[trigger] steps(
                    old(self).search@,
                    old(self).search.needle@,
                    step,
                    generation,
                    replies_of(*old(read)),
                    *old(detect),
                    *old(check),
                    *old(search),
                    *old(canceled),
                    final(self).search@,
                    said,
                ) && match said {
                    Ok(state) => r matches Ok(found) && found == state,
                    Err(e) => r matches Err(f) && f == FileSearchError::Stream(e),
                },
    {
        let said = self.search.step(step, generation, read, detect, check, search, canceled);
        match said {
            Ok(state) => Ok(state),
            Err(e) => Err(FileSearchError::Stream(e)),
        }
    }

    pub fn state(&self) -> (r: StreamReadState)
        ensures
            r == self.search@.core.state,
    {
        self.search.state()
    }

    pub fn stats(&self) -> (r: StreamReadStats)
        ensures
            r == self.search@.core.stats,
    {
        self.search.stats()
    }

    pub fn generation(&self) -> (r: QueryGeneration)
        ensures
            r == self.search@.core.options.generation,
    {
        self.search.generation()
    }

    pub fn cancel(&mut self)
        ensures
            final(self).search@ == old(self).search@.with_state(StreamReadState::Canceled),
            final(self).before == old(self).before,
            final(self).search.needle == old(self).search.needle,
    {
        self.search.cancel();
    }

    /// What the search found, and whether the file changed meanwhile.
    pub fn finish(self, after: Option<Stamp>) -> (r: Result<
        FileSearchReport<'needle>,
        FileSearchError,
    >)
        requires
            self.search@.wf(),
        ensures
            match r {
                Ok(found) => !(self.search@.core.state is Pending) && found.report.needle
                    == self.search.needle && found.report.core == self.search@.core
                    && found.report.hits@ == self.search@.hits && found.report.wf()
                    && found.consistency == consistency_of(
                    self.search@.core.state,
                    self.before,
                    after,
                ) && found.final_length == (match after {
                    Some(stamp) => Some(stamp.length),
                    None => None,
                }),
                Err(e) => self.search@.core.state is Pending && e == FileSearchError::Stream(
                    StreamReadError::Pending,
                ),
            },
    {
        let state = self.search.core.state;
        let consistency = judge_consistency(state, self.before, after);
        let final_length: Option<u64> = match after {
            Some(stamp) => Some(stamp.length),
            None => None,
        };
        match self.search.finish() {
            Ok(report) => Ok(FileSearchReport { report, consistency, final_length }),
            Err(e) => Err(FileSearchError::Stream(e)),
        }
    }
}

/// What the search of a file found.
#[derive(Debug)]
pub struct FileSearchReport<'needle> {
    pub report: StreamReadReport<'needle>,
    pub consistency: ExtentConsistency,
    pub final_length: Option<u64>,
}

impl<'needle> FileSearchReport<'needle> {
    pub fn search(&self) -> (r: &StreamReadReport<'needle>)
        ensures
            *r == self.report,
    {
        &self.report
    }

    pub fn consistency(&self) -> (r: ExtentConsistency)
        ensures
            r == self.consistency,
    {
        self.consistency
    }

    pub fn final_length(&self) -> (r: Option<u64>)
        ensures
            r == self.final_length,
    {
        self.final_length
    }

    /// All bytes were searched, and metadata shows no change.
    pub fn is_complete(&self) -> (r: bool)
        ensures
            r == (self.report.core.state is Complete && self.consistency is UnchangedMetadata),
    {
        let unchanged = match self.consistency {
            ExtentConsistency::UnchangedMetadata => true,
            _ => false,
        };
        self.report.input_complete() && unchanged
    }

    /// Keeps the literal of a hit as an extent of its own, without reading the
    /// file again. Nothing outside the hit is claimed.
    pub fn retain_hit<A: FnOnce(u64) -> bool>(&self, ordinal: usize, reserve: A) -> (r: Result<
        ObservedExtent,
        FileSearchError,
    >)
        requires
            self.report.wf(),
            forall|charge: u64| call_requires(reserve, (charge,)),
        ensures
            match self.report.witness(ordinal as int) {
                Err(e) => r matches Err(f) && f == FileSearchError::Stream(e),
                Ok(bytes) => {
                    ||| call_ensures(reserve, (bytes.len() as u64,), false) && (r matches Err(f)
                        && f == FileSearchError::Source(SourceError::ResourceDenied))
                    ||| call_ensures(reserve, (bytes.len() as u64,), true) && (r matches Ok(extent)
                        && extent@ == (ObservedExtent {
                        request: CaptureRequest {
                            range: Some(self.report.hits@[ordinal as int].range),
                            ..self.report.core.request
                        },
                        observed_length: self.report.core.length,
                        start: self.report.hits@[ordinal as int].range.start,
                        bytes,
                        request_filled: true,
                        consistency: ExtentConsistency::HostSupplied,
                    }))
                },
            },
    {
        let bytes = match self.report.witness_bytes(ordinal) {
            Ok(bytes) => bytes,
            Err(e) => {
                return Err(FileSearchError::Stream(e));
            },
        };
        if !reserve(bytes.len() as u64) {
            return Err(FileSearchError::Source(SourceError::ResourceDenied));
        }
        let range = self.report.hits[ordinal].range;
        let n: usize = bytes.len();
        let copy = bytes_of(bytes, 0, n);
        assert(copy@ =~= bytes@);
        Ok(
            ObservedExtent {
                request: self.report.core.request.with_range(range),
                observed_length: self.report.core.length,
                start: range.start,
                bytes: copy,
                request_filled: true,
                consistency: ExtentConsistency::HostSupplied,
            },
        )
    }
}

/// A file whose metadata shows a change is never reported as unchanged.
pub proof fn changes_are_reported(state: StreamReadState, before: Stamp, after: Stamp)
    requires
        changed(before, after),
    ensures
        !(consistency_of(state, before, Some(after)) is UnchangedMetadata),
{
}

} // verus!
