//! Owned continuation of the source reader.
//!
//! A request keeps its own handle to the source, so it can be stepped while the
//! reader indexes, or after the reader is gone.
use std::sync::Arc;

use vstd::layout::size_of;
use vstd::prelude::*;

use crate::capture::{byte_len, text_len, CaptureModel, SourceCapture};
use crate::identity::QueryGeneration;
use crate::memory::{share, shares_with, wide_size};
use crate::model::maybe;
use crate::search::reader::{
    allowance, index_charge, indexing_keeps_the_reservation, is_index_step, is_step, lemma_moved,
    DetectedEncoding, IndexModel, ReaderError, ReaderIndex, ReaderIndexProgress, ReaderLimits,
    ReadingAnchor, ReadingSeekState, ReadingTarget, SeekParts, SourceReader,
};
use crate::search::reading_window::{
    gave_up, is_window, window_answers, windowed, ReadingWindow, ReadingWindowOptions, WindowMap,
};

verus! {

/// A reader that owns a handle to its source.
#[derive(Debug)]
pub struct RetainedSourceReader {
    pub source: Arc<SourceCapture>,
    pub index: ReaderIndex,
}

/// A request that owns a handle to its source.
#[derive(Debug)]
pub struct RetainedReadingSeek {
    pub source: Arc<SourceCapture>,
    pub parts: SeekParts,
}

/// Bytes charged for keeping a source.
pub open spec fn source_charge(source: CaptureModel) -> nat {
    source.bytes.len() + text_len(source.logical_path) + size_of::<RetainedSourceReader>() + 256
}

/// Bytes charged for a request.
pub open spec fn request_charge(source: CaptureModel) -> nat {
    size_of::<RetainedReadingSeek>() + text_len(source.logical_path) + 128
}

/// Whether two captures are of one revision of one file and hold the same
/// bytes.
pub open spec fn same_source(a: CaptureModel, b: CaptureModel) -> bool {
    a.owner == b.owner && a.file == b.file && a.revision == b.revision && a.bytes == b.bytes
}

fn check_source(left: &Arc<SourceCapture>, right: &Arc<SourceCapture>) -> (r: Result<
    (),
    ReaderError,
>)
    ensures
        left@.owner != right@.owner ==> r == Err::<(), ReaderError>(ReaderError::OwnerMismatch),
        left@.owner == right@.owner ==> r != Err::<(), ReaderError>(ReaderError::OwnerMismatch),
        r is Ok ==> same_source(left@, right@),
        r matches Err(e) ==> e == ReaderError::OwnerMismatch || e == ReaderError::StaleSource,
{
    if left.owner != right.owner {
        return Err(ReaderError::OwnerMismatch);
    }
    if left.file != right.file || left.revision != right.revision || !shares_with(left, right) {
        return Err(ReaderError::StaleSource);
    }
    Ok(())
}

impl RetainedSourceReader {
    pub open spec fn wf(self) -> bool {
        self.index@.wf(self.source@)
    }

    /// Keeps the source's bytes without copying them. The first reservation
    /// pays for the source, the second for the sparse index.
    pub fn new<A: FnOnce(u64) -> bool, B: FnOnce(u64) -> bool>(
        source: &Arc<SourceCapture>,
        encoding: DetectedEncoding,
        limits: ReaderLimits,
        allocations: [u64; 2],
        reserve_source: A,
        reserve_index: B,
    ) -> (r: Result<Self, ReaderError>)
        requires
            source@.bytes.len() < usize::MAX,
            forall|charge: u64| call_requires(reserve_source, (charge,)),
            forall|charge: u64| call_requires(reserve_index, (charge,)),
        ensures
            r matches Ok(reader) ==> reader.wf() && reader.source == *source && reader.index@
                == IndexModel::fresh(source@, encoding, limits),
            is_made(r, source@, limits, allocations, reserve_source, reserve_index),
    {
        if allocations[0] == allocations[1] {
            return Err(ReaderError::InvalidLimits);
        }
        let charge: u128 = source.bytes.len() as u128 + byte_len(&source.logical_path) as u128
            + wide_size::<RetainedSourceReader>() + 256;
        if charge > usize::MAX as u128 {
            return Err(ReaderError::ResourceDenied);
        }
        let granted = reserve_source(charge as u64);
        assert(call_ensures(reserve_source, (source_charge(source@) as u64,), granted));
        if !granted {
            return Err(ReaderError::ResourceDenied);
        }
        match SourceReader::new(source, encoding, limits, reserve_index) {
            Ok(reader) => Ok(RetainedSourceReader { source: share(source), index: reader.index }),
            Err(e) => Err(e),
        }
    }

    pub fn source(&self) -> (r: &Arc<SourceCapture>)
        ensures
            *r == self.source,
    {
        &self.source
    }

    /// Accepts only the very capture that the reader keeps. Whether another
    /// capture of the same bytes shares them is up to the host, so of one that
    /// does not, only the refusal as stale is certain when anything differs.
    pub fn validate_source(&self, source: &Arc<SourceCapture>) -> (r: Result<(), ReaderError>)
        ensures
            self.source@.owner != source@.owner ==> r == Err::<(), ReaderError>(
                ReaderError::OwnerMismatch,
            ),
            self.source@.owner == source@.owner && !same_source(self.source@, source@) ==> r
                == Err::<(), ReaderError>(ReaderError::StaleSource),
            same_source(self.source@, source@) ==> r is Ok || r == Err::<(), ReaderError>(
                ReaderError::StaleSource,
            ),
    {
        check_source(&self.source, source)
    }

    pub fn progress(&self) -> (r: ReaderIndexProgress)
        ensures
            r == self.index@.progress(self.source@),
    {
        self.index.progress(&self.source)
    }

    pub fn checkpoint_capacity(&self) -> (r: usize)
        ensures
            r == self.index@.capacity,
    {
        self.index.capacity
    }

    pub fn checkpoint_stride_bytes(&self) -> (r: usize)
        ensures
            r == self.index@.stride,
    {
        self.index.stride
    }

    pub fn index_step<C: FnMut() -> bool>(&mut self, max_bytes: usize, mut canceled: C) -> (r:
        Result<ReaderIndexProgress, ReaderError>)
        requires
            old(self).wf(),
            call_requires(canceled, ()),
        ensures
            final(self).wf(),
            final(self).source == old(self).source,
            final(self).index@.capacity == old(self).index@.capacity,
            is_index_step(
                old(self).index@,
                final(self).index@,
                r,
                old(self).source@,
                allowance(max_bytes) as int,
                canceled,
            ),
    {
        let r = self.index.index_step(&self.source, max_bytes, &mut canceled);
        proof {
            let allowed = match r {
                Ok(progress) if progress.canceled => progress.step_bytes as int,
                _ => allowance(max_bytes) as int,
            };
            indexing_keeps_the_reservation(old(self).index@, old(self).source@, allowed, 0);
        }
        r
    }

    /// A request that can be stepped while this reader indexes, or after it is
    /// gone.
    pub fn seek<A: FnOnce(u64) -> bool>(
        &self,
        target: ReadingTarget,
        generation: QueryGeneration,
        reserve: A,
    ) -> (r: Result<RetainedReadingSeek, ReaderError>)
        requires
            self.wf(),
            forall|charge: u64| call_requires(reserve, (charge,)),
        ensures
            r matches Ok(seek) ==> seek.wf() && seek.source == self.source,
            if generation.owner != self.source@.owner {
                r matches Err(e) && e == ReaderError::OwnerMismatch
            } else if request_charge(self.source@) > u64::MAX {
                r matches Err(e) && e == ReaderError::ResourceDenied
            } else {
                exists|granted: bool|
                    #[trigger] call_ensures(
                        reserve,
                        (request_charge(self.source@) as u64,),
                        granted,
                    ) && if granted {
                        match self.index@.request(self.source@, target, generation) {
                            Ok(parts) => r matches Ok(seek) && seek.parts == parts,
                            Err(e) => r matches Err(f) && f == e,
                        }
                    } else {
                        r matches Err(e) && e == ReaderError::ResourceDenied
                    }
            },
    {
        if generation.owner != self.source.owner {
            return Err(ReaderError::OwnerMismatch);
        }
        let charge: u128 = wide_size::<RetainedReadingSeek>() + byte_len(
            &self.source.logical_path,
        ) as u128 + 128;
        if charge > u64::MAX as u128 {
            return Err(ReaderError::ResourceDenied);
        }
        let granted = reserve(charge as u64);
        assert(call_ensures(reserve, (request_charge(self.source@) as u64,), granted));
        if !granted {
            return Err(ReaderError::ResourceDenied);
        }
        match self.index.seek(&self.source, target, generation) {
            Ok(parts) => Ok(RetainedReadingSeek { source: share(&self.source), parts }),
            Err(e) => Err(e),
        }
    }

    /// The answer to a request that wants to be learned from, given whether it
    /// shares the reader's capture.
    pub open spec fn learned(self, seek: RetainedReadingSeek, shared: bool) -> Result<
        (),
        ReaderError,
    > {
        if self.source@.owner != seek.source@.owner {
            Err(ReaderError::OwnerMismatch)
        } else if self.source@.file != seek.source@.file || self.source@.revision
            != seek.source@.revision || !shared {
            Err(ReaderError::StaleSource)
        } else {
            Ok(())
        }
    }

    /// The index behind a request that was learned from: no earlier than before.
    pub open spec fn index_behind(self, seek: RetainedReadingSeek) -> IndexModel {
        if seek.parts.cursor.offset > self.index@.cursor.offset {
            self.index@.moved(seek.parts.cursor)
        } else {
            self.index@
        }
    }

    /// Takes over the prefix that a request walked, given whether the request
    /// shares the reader's capture.
    pub fn learn_shared(&mut self, seek: &RetainedReadingSeek, shared: bool) -> (r: Result<
        (),
        ReaderError,
    >)
        requires
            old(self).wf(),
            seek.wf(),
            shared ==> old(self).source@ == seek.source@ && seek.parts.encoding
                == old(self).index@.encoding,
        ensures
            final(self).wf(),
            final(self).source == old(self).source,
            final(self).index@.capacity == old(self).index@.capacity,
            r == old(self).learned(*seek, shared),
            final(self).index@ == (if r is Ok {
                old(self).index_behind(*seek)
            } else {
                old(self).index@
            }),
    {
        if self.source.owner != seek.source.owner {
            return Err(ReaderError::OwnerMismatch);
        }
        if self.source.file != seek.source.file || self.source.revision != seek.source.revision
            || !shared {
            return Err(ReaderError::StaleSource);
        }
        if seek.parts.cursor.offset > self.index.cursor.offset {
            proof {
                lemma_moved(self.index@, self.source@, seek.parts.cursor);
            }
            self.index.move_to(seek.parts.cursor);
        }
        Ok(())
    }

    /// Takes over the exact prefix that a request walked. Canceled work may
    /// have a valid prefix too; it is never an accepted navigation. Whether two
    /// handles to equal captures share one is not said.
    pub fn learn(&mut self, seek: &RetainedReadingSeek) -> (r: Result<(), ReaderError>)
        requires
            old(self).wf(),
            seek.wf(),
            old(self).source == seek.source ==> seek.parts.encoding == old(self).index@.encoding,
        ensures
            final(self).wf(),
            final(self).source == old(self).source,
            final(self).index@.capacity == old(self).index@.capacity,
            exists|shared: bool|
                (shared ==> old(self).source == seek.source) && r == #[trigger] old(self).learned(
                    *seek,
                    shared,
                ),
            final(self).index@ == (if r is Ok {
                old(self).index_behind(*seek)
            } else {
                old(self).index@
            }),
    {
        let shared = shares_with(&self.source, &seek.source);
        let r = self.learn_shared(seek, shared);
        assert(r == old(self).learned(*seek, shared));
        r
    }

    /// A continuation anchor renders directly, without another seek.
    pub fn window<
        A: FnOnce(u64) -> bool,
        D: FnOnce(usize, usize, DetectedEncoding) -> Option<WindowMap>,
        C: FnMut() -> bool,
    >(
        &self,
        anchor: ReadingAnchor,
        generation: QueryGeneration,
        options: ReadingWindowOptions,
        reserve: A,
        decode: D,
        canceled: C,
    ) -> (r: Result<ReadingWindow<'_>, ReaderError>)
        requires
            forall|charge: u64| call_requires(reserve, (charge,)),
            forall|from: usize, to: usize, e: DetectedEncoding|
                from <= to <= self.source@.bytes.len() ==> call_requires(decode, (from, to, e)),
            call_requires(canceled, ()),
        ensures
            r matches Ok(window) ==> window@.wf() && window.source@ == self.source@,
            gave_up(r, canceled) || exists|granted: bool, decoded: Option<WindowMap>|
                #[trigger] window_answers(
                    self.index@,
                    self.source@,
                    anchor,
                    generation,
                    options,
                    granted,
                    decoded,
                    reserve,
                    decode,
                ) && is_window(
                    r,
                    windowed(
                        self.index@,
                        self.source@,
                        anchor,
                        generation,
                        options,
                        granted,
                        maybe(decoded),
                    ),
                ),
    {
        self.index.window(&self.source, anchor, generation, options, reserve, decode, canceled)
    }
}

/// Whether making a reader may answer so.
pub open spec fn is_made<A: FnOnce(u64) -> bool, B: FnOnce(u64) -> bool>(
    r: Result<RetainedSourceReader, ReaderError>,
    source: CaptureModel,
    limits: ReaderLimits,
    allocations: [u64; 2],
    reserve_source: A,
    reserve_index: B,
) -> bool {
    let index = index_charge(limits.capacity(source.bytes.len() as int));
    if allocations[0] == allocations[1] {
        r matches Err(e) && e == ReaderError::InvalidLimits
    } else if source_charge(source) > usize::MAX {
        r matches Err(e) && e == ReaderError::ResourceDenied
    } else {
        ||| call_ensures(reserve_source, (source_charge(source) as u64,), false) && (
        r matches Err(e) && e == ReaderError::ResourceDenied)
        ||| call_ensures(reserve_source, (source_charge(source) as u64,), true) && if
            !limits.valid() || index > usize::MAX {
            r matches Err(e) && e == ReaderError::InvalidLimits
        } else {
            ||| call_ensures(reserve_index, (index as u64,), true) && r is Ok
            ||| call_ensures(reserve_index, (index as u64,), false) && (r matches Err(e) && e
                == ReaderError::ResourceDenied)
        }
    }
}

impl RetainedReadingSeek {
    pub open spec fn wf(self) -> bool {
        self.parts.wf(self.source@)
    }

    pub fn source(&self) -> (r: &Arc<SourceCapture>)
        ensures
            *r == self.source,
    {
        &self.source
    }

    pub fn state(&self) -> (r: ReadingSeekState)
        ensures
            r == self.parts.state,
    {
        self.parts.state
    }

    pub fn generation(&self) -> (r: QueryGeneration)
        ensures
            r == self.parts.generation,
    {
        self.parts.generation
    }

    pub fn target(&self) -> (r: ReadingTarget)
        ensures
            r == self.parts.target,
    {
        self.parts.target
    }

    pub fn scanned_bytes(&self) -> (r: u64)
        ensures
            r == self.parts.scanned_bytes,
    {
        self.parts.scanned_bytes
    }

    pub fn last_step_bytes(&self) -> (r: usize)
        ensures
            r == self.parts.last_step_bytes,
    {
        self.parts.last_step_bytes
    }

    pub fn scanned_through(&self) -> (r: u64)
        ensures
            r == self.parts.cursor.offset,
    {
        self.parts.cursor.offset as u64
    }

    pub fn cancel(&mut self)
        ensures
            final(self).source == old(self).source,
            final(self).parts == old(self).parts.canceled(),
    {
        self.parts.cancel();
    }

    /// A delayed request of another generation neither cancels nor advances.
    pub fn step<C: FnMut() -> bool>(
        &mut self,
        max_bytes: usize,
        generation: QueryGeneration,
        canceled: C,
    ) -> (r: Result<ReadingSeekState, ReaderError>)
        requires
            old(self).wf(),
            call_requires(canceled, ()),
        ensures
            final(self).wf(),
            final(self).source == old(self).source,
            if generation != old(self).parts.generation {
                r == Err::<ReadingSeekState, ReaderError>(ReaderError::StaleQuery) && *final(self)
                    == *old(self)
            } else {
                is_step(
                    old(self).parts,
                    final(self).parts,
                    r,
                    old(self).source@,
                    max_bytes,
                    generation,
                    canceled,
                )
            },
    {
        if generation != self.parts.generation {
            return Err(ReaderError::StaleQuery);
        }
        self.parts.step(&self.source, max_bytes, generation, canceled)
    }
}

/// What a request learned never changes what later requests find: an index
/// that took over a walked prefix still is a valid index of the same capture.
pub proof fn learned_prefixes_are_valid(index: IndexModel, source: CaptureModel, seek: SeekParts)
    requires
        index.wf(source),
        seek.wf(source),
        seek.encoding == index.encoding,
        seek.cursor.offset > index.cursor.offset,
    ensures
        index.moved(seek.cursor).wf(source),
        index.moved(seek.cursor).checkpoints.len() <= index.capacity,
{
    crate::search::reader::lemma_moved(index, source, seek.cursor);
}

} // verus!
