//! Searching and reading a saved snapshot, one member at a time.
//!
//! At most one member is loaded by a query. Results keep the digests of the
//! archive and of the source; opening a hit verifies its member again and never
//! consults a live source.
pub mod outcomes;
pub mod parts;
pub mod query;

use vstd::layout::size_of;
use vstd::prelude::*;

use crate::capture::SourceCapture;
use crate::envelope::Sha256Digest;
use crate::identity::{ByteRange, FileId, QueryGeneration, SourceRevision};
use crate::memory::wide_size;
use crate::model::maybe;
use crate::search::archive::{DirectoryModel, PagedSnapshotError, SnapshotDirectory};
use crate::search::member_scan::{LoadedModel, VerifiedMember};
use crate::search::reader::{
    allowance, index_charge, is_index_step, DetectedEncoding, IndexModel, ReaderError,
    ReaderIndexProgress, ReaderLimits, ReadingAnchor, ReadingSeek, ReadingTarget, SourceReader,
};
use crate::search::reading_window::{
    gave_up, is_window, window_answers, windowed, FramePlan, ReadingWindow, ReadingWindowOptions,
    WindowMap,
};
use crate::search::streaming::StreamReadError;

verus! {

broadcast use crate::model::group_views;

#[derive(Clone, Copy, Debug, PartialEq, Eq, Structural)]
pub enum PagedSearchError {
    Archive(PagedSnapshotError),
    Search(StreamReadError),
    OwnerMismatch,
    IdentityExhausted,
    InvalidLimits,
    ResourceDenied,
    Pending,
    Canceled,
    StaleQuery,
    InvalidHit,
    IncompleteInput,
}

impl PagedSearchError {
    /// The stable code of an error, where it is one of this library's.
    pub open spec fn code_spec(self) -> Option<Seq<char>> {
        match self {
            PagedSearchError::Archive(_) => None,
            PagedSearchError::Search(error) => error.code_spec(),
            PagedSearchError::OwnerMismatch => Some("SNAPSHOT_OWNER_MISMATCH"@),
            PagedSearchError::IdentityExhausted => Some("SNAPSHOT_IDENTITY_EXHAUSTED"@),
            PagedSearchError::InvalidLimits => Some("SNAPSHOT_QUERY_INVALID_LIMITS"@),
            PagedSearchError::ResourceDenied => Some("SNAPSHOT_RESOURCE_DENIED"@),
            PagedSearchError::Pending => Some("SNAPSHOT_QUERY_PENDING"@),
            PagedSearchError::Canceled => Some("SNAPSHOT_CANCELED"@),
            PagedSearchError::StaleQuery => Some("SNAPSHOT_STALE_QUERY"@),
            PagedSearchError::InvalidHit => Some("SNAPSHOT_INVALID_HIT"@),
            PagedSearchError::IncompleteInput => Some("SNAPSHOT_SEARCH_INCOMPLETE_INPUT"@),
        }
    }

    pub fn code(&self) -> (r: Option<&'static str>)
        ensures
            match self.code_spec() {
                Some(code) => r matches Some(text) && text@ == code,
                None => r is None,
            },
    {
        match self {
            PagedSearchError::Archive(_) => None,
            PagedSearchError::Search(error) => error.code(),
            PagedSearchError::OwnerMismatch => Some("SNAPSHOT_OWNER_MISMATCH"),
            PagedSearchError::IdentityExhausted => Some("SNAPSHOT_IDENTITY_EXHAUSTED"),
            PagedSearchError::InvalidLimits => Some("SNAPSHOT_QUERY_INVALID_LIMITS"),
            PagedSearchError::ResourceDenied => Some("SNAPSHOT_RESOURCE_DENIED"),
            PagedSearchError::Pending => Some("SNAPSHOT_QUERY_PENDING"),
            PagedSearchError::Canceled => Some("SNAPSHOT_CANCELED"),
            PagedSearchError::StaleQuery => Some("SNAPSHOT_STALE_QUERY"),
            PagedSearchError::InvalidHit => Some("SNAPSHOT_INVALID_HIT"),
            PagedSearchError::IncompleteInput => Some("SNAPSHOT_SEARCH_INCOMPLETE_INPUT"),
        }
    }
}

/// An exact occurrence in a saved source.
#[derive(Clone, Copy, Debug)]
pub struct PagedHit {
    pub ordinal: usize,
    pub file: FileId,
    pub revision: SourceRevision,
    pub generation: QueryGeneration,
    pub range: ByteRange,
    pub archive: Sha256Digest,
    pub source: Sha256Digest,
}

impl PagedHit {
    pub fn ordinal(self) -> (r: usize)
        ensures
            r == self.ordinal,
    {
        self.ordinal
    }

    pub fn file(self) -> (r: FileId)
        ensures
            r == self.file,
    {
        self.file
    }

    pub fn revision(self) -> (r: SourceRevision)
        ensures
            r == self.revision,
    {
        self.revision
    }

    pub fn generation(self) -> (r: QueryGeneration)
        ensures
            r == self.generation,
    {
        self.generation
    }

    pub fn original_range(self) -> (r: ByteRange)
        ensures
            r == self.range,
    {
        self.range
    }

    pub fn archive_digest(self) -> (r: Sha256Digest)
        ensures
            r == self.archive,
    {
        self.archive
    }

    pub fn source_digest(self) -> (r: Sha256Digest)
        ensures
            r == self.source,
    {
        self.source
    }
}

/// The bytes of one member, opened for reading.
#[derive(Debug)]
pub struct PagedCapture {
    pub source: SourceCapture,
    pub ordinal: usize,
    pub archive: Sha256Digest,
    pub digest: Sha256Digest,
}

/// Bytes charged for opening a member.
pub open spec fn capture_charge(bytes: int, path: int) -> int {
    bytes + path * 16 + size_of::<PagedCapture>() + 256
}

/// Whether a member may be opened so.
pub open spec fn is_loaded<
    L: FnOnce(usize) -> Result<VerifiedMember, PagedSnapshotError>,
    A: FnOnce(u64) -> bool,
    S: FnOnce(&Vec<u8>) -> String,
    C: FnMut() -> bool,
>(
    r: Result<PagedCapture, PagedSearchError>,
    directory: DirectoryModel,
    ordinal: usize,
    file: FileId,
    revision: SourceRevision,
    allocations: (u64, u64),
    load: L,
    reserve: A,
    label: S,
    canceled: C,
) -> bool {
    if file.owner != directory.owner || revision.owner != file.owner {
        r matches Err(e) && e == PagedSearchError::OwnerMismatch
    } else if allocations.0 == allocations.1 {
        r matches Err(e) && e == PagedSearchError::InvalidLimits
    } else {
        exists|answer: Result<VerifiedMember, PagedSnapshotError>|
            #[trigger] call_ensures(load, (ordinal,), answer) && match answer {
                Err(e) => r matches Err(f) && f == PagedSearchError::Archive(e),
                Ok(member) => if ordinal >= directory.members.len() {
                    r matches Err(e) && e == PagedSearchError::InvalidHit
                } else {
                    let path = directory.members[ordinal as int].path;
                    let charge = capture_charge(member@.bytes.len() as int, path.len() as int);
                    if charge > usize::MAX {
                        r matches Err(e) && e == PagedSearchError::ResourceDenied
                    } else {
                        ||| call_ensures(reserve, (charge as u64,), false) && (r matches Err(e)
                            && e == PagedSearchError::ResourceDenied)
                        ||| call_ensures(reserve, (charge as u64,), true) && (r matches Err(e) && e
                            == PagedSearchError::Canceled) && call_ensures(canceled, (), true)
                        ||| call_ensures(reserve, (charge as u64,), true) && (r matches Ok(capture)
                            && opened_from(capture, member@, ordinal, file, revision, path, label))
                    }
                },
            }
    }
}

/// Whether a capture holds exactly the bytes of a loaded member, under the label
/// that the host gives its path.
pub open spec fn opened_from<S: FnOnce(&Vec<u8>) -> String>(
    capture: PagedCapture,
    member: LoadedModel,
    ordinal: usize,
    file: FileId,
    revision: SourceRevision,
    path: Seq<u8>,
    label: S,
) -> bool {
    &&& capture.source@.owner == file.owner
    &&& capture.source@.file == file
    &&& capture.source@.revision == revision
    &&& capture.source@.bytes == member.bytes
    &&& capture.ordinal == ordinal
    &&& capture.archive == member.archive
    &&& capture.digest == member.source
    &&& exists|native: &Vec<u8>|
        native@ == path && #[trigger] call_ensures(label, (native,), capture.source.logical_path)
}

/// The bytes that a hit names in an opened member.
pub open spec fn hit_part(capture: PagedCapture, hit: PagedHit) -> Result<
    Seq<u8>,
    PagedSearchError,
> {
    if hit.ordinal != capture.ordinal || hit.file != capture.source@.file || hit.revision
        != capture.source@.revision || hit.archive.data() != capture.archive.data()
        || hit.source.data() != capture.digest.data() {
        Err(PagedSearchError::InvalidHit)
    } else if hit.range.start > hit.range.end || hit.range.end > capture.source@.bytes.len() {
        Err(PagedSearchError::InvalidHit)
    } else {
        Ok(capture.source@.bytes.subrange(hit.range.start as int, hit.range.end as int))
    }
}

impl PagedCapture {
    /// Opens a member. The host loads and verifies it, and makes a label of its
    /// path.
    pub fn load<
        L: FnOnce(usize) -> Result<VerifiedMember, PagedSnapshotError>,
        A: FnOnce(u64) -> bool,
        S: FnOnce(&Vec<u8>) -> String,
        C: FnMut() -> bool,
    >(
        directory: &SnapshotDirectory,
        ordinal: usize,
        file: FileId,
        revision: SourceRevision,
        allocations: (u64, u64),
        load: L,
        reserve: A,
        label: S,
        mut canceled: C,
    ) -> (r: Result<Self, PagedSearchError>)
        requires
            forall|n: usize| call_requires(load, (n,)),
            forall|charge: u64| call_requires(reserve, (charge,)),
            forall|path: &Vec<u8>| call_requires(label, (path,)),
            call_requires(canceled, ()),
        ensures
            is_loaded(
                r,
                directory@,
                ordinal,
                file,
                revision,
                allocations,
                load,
                reserve,
                label,
                canceled,
            ),
    {
        if file.owner != directory.owner || revision.owner != file.owner {
            return Err(PagedSearchError::OwnerMismatch);
        }
        if allocations.0 == allocations.1 {
            return Err(PagedSearchError::InvalidLimits);
        }
        let answer = load(ordinal);
        assert(call_ensures(load, (ordinal,), answer));
        let member = match answer {
            Ok(member) => member,
            Err(e) => {
                return Err(PagedSearchError::Archive(e));
            },
        };
        if ordinal >= directory.members.len() {
            return Err(PagedSearchError::InvalidHit);
        }
        assert(directory@.members[ordinal as int] == directory.members@[ordinal as int]@);
        let path = &directory.members[ordinal].path;
        let charge: u128 = member.bytes.len() as u128 + path.len() as u128 * 16 + wide_size::<
            PagedCapture,
        >() + 256;
        if charge > usize::MAX as u128 {
            return Err(PagedSearchError::ResourceDenied);
        }
        if !reserve(charge as u64) {
            return Err(PagedSearchError::ResourceDenied);
        }
        let logical_path = label(path);
        let capture = PagedCapture {
            source: SourceCapture {
                owner: file.owner,
                file,
                revision,
                logical_path,
                bytes: member.bytes,
            },
            ordinal,
            archive: member.archive,
            digest: member.source,
        };
        assert(opened_from(
            capture,
            answer->Ok_0@,
            ordinal,
            file,
            revision,
            path@,
            label,
        ));
        assert(call_ensures(reserve, (charge as u64,), true));
        if canceled() {
            return Err(PagedSearchError::Canceled);
        }
        Ok(capture)
    }

    /// Opens the member of a hit, and checks that it holds the hit.
    pub fn open_hit<
        L: FnOnce(usize) -> Result<VerifiedMember, PagedSnapshotError>,
        A: FnOnce(u64) -> bool,
        S: FnOnce(&Vec<u8>) -> String,
        C: FnMut() -> bool,
    >(
        directory: &SnapshotDirectory,
        hit: PagedHit,
        generation: QueryGeneration,
        allocations: (u64, u64),
        load: L,
        reserve: A,
        label: S,
        canceled: C,
    ) -> (r: Result<Self, PagedSearchError>)
        requires
            forall|n: usize| call_requires(load, (n,)),
            forall|charge: u64| call_requires(reserve, (charge,)),
            forall|path: &Vec<u8>| call_requires(label, (path,)),
            call_requires(canceled, ()),
        ensures
            if hit.generation != generation || hit.archive.data() != directory@.digest {
                r matches Err(e) && e == PagedSearchError::StaleQuery
            } else {
                exists|opened: Result<PagedCapture, PagedSearchError>|
                    #[trigger] is_loaded(
                        opened,
                        directory@,
                        hit.ordinal,
                        hit.file,
                        hit.revision,
                        allocations,
                        load,
                        reserve,
                        label,
                        canceled,
                    ) && match opened {
                        Err(e) => r matches Err(f) && f == e,
                        Ok(capture) => match hit_part(capture, hit) {
                            Err(e) => r matches Err(f) && f == e,
                            Ok(_) => r matches Ok(found) && found == capture,
                        },
                    }
            },
    {
        if hit.generation != generation || !hit.archive.same(&directory.digest) {
            return Err(PagedSearchError::StaleQuery);
        }
        let opened = PagedCapture::load(
            directory,
            hit.ordinal,
            hit.file,
            hit.revision,
            allocations,
            load,
            reserve,
            label,
            canceled,
        );
        let ghost answer = opened;
        let capture = match opened {
            Ok(capture) => capture,
            Err(e) => {
                return Err(e);
            },
        };
        if let Err(e) = capture.check_hit(hit) {
            return Err(e);
        }
        Ok(capture)
    }

    fn check_hit(&self, hit: PagedHit) -> (r: Result<(usize, usize), PagedSearchError>)
        ensures
            match hit_part(*self, hit) {
                Ok(_) => r == Ok::<(usize, usize), PagedSearchError>(
                    (hit.range.start as usize, hit.range.end as usize),
                ),
                Err(e) => r == Err::<(usize, usize), PagedSearchError>(e),
            },
            r matches Ok((start, end)) ==> start <= end <= self.source@.bytes.len() && start
                == hit.range.start && end == hit.range.end,
    {
        if hit.ordinal != self.ordinal || hit.file != self.source.file || hit.revision
            != self.source.revision || !hit.archive.same(&self.archive) || !hit.source.same(
            &self.digest,
        ) {
            return Err(PagedSearchError::InvalidHit);
        }
        if hit.range.start > hit.range.end || hit.range.end > self.source.bytes.len() as u64 {
            return Err(PagedSearchError::InvalidHit);
        }
        Ok((hit.range.start as usize, hit.range.end as usize))
    }

    pub fn bytes(&self) -> (r: &Vec<u8>)
        ensures
            r@ == self.source@.bytes,
    {
        &self.source.bytes
    }

    pub fn file(&self) -> (r: FileId)
        ensures
            r == self.source@.file,
    {
        self.source.file
    }

    pub fn revision(&self) -> (r: SourceRevision)
        ensures
            r == self.source@.revision,
    {
        self.source.revision
    }

    pub fn source_digest(&self) -> (r: Sha256Digest)
        ensures
            r == self.digest,
    {
        self.digest
    }

    pub fn hit_bytes(&self, hit: PagedHit) -> (r: Result<&[u8], PagedSearchError>)
        ensures
            match hit_part(*self, hit) {
                Ok(bytes) => r matches Ok(found) && found@ == bytes,
                Err(e) => r matches Err(f) && f == e,
            },
    {
        match self.check_hit(hit) {
            Err(e) => Err(e),
            Ok((start, end)) => Ok(
                vstd::slice::slice_subrange(self.source.bytes.as_slice(), start, end),
            ),
        }
    }

    pub fn frame_plan(&self) -> (r: FramePlan)
        ensures
            r == (FramePlan {
                owner: self.source@.owner,
                file: self.source@.file,
                revision: self.source@.revision,
                range: ByteRange { start: 0, end: self.source@.bytes.len() as u64 },
            }),
    {
        let end: u64 = self.source.bytes.len() as u64;
        FramePlan {
            owner: self.source.owner,
            file: self.source.file,
            revision: self.source.revision,
            range: ByteRange { start: 0, end },
        }
    }

    /// Prepares reading. `encoding` is what the first bytes tell.
    pub fn reader<A: FnOnce(u64) -> bool>(
        &self,
        encoding: DetectedEncoding,
        limits: ReaderLimits,
        reserve: A,
    ) -> (r: Result<PagedReader<'_>, ReaderError>)
        requires
            self.source@.bytes.len() < usize::MAX,
            forall|charge: u64| call_requires(reserve, (charge,)),
        ensures
            ({
                let charge = index_charge(limits.capacity(self.source@.bytes.len() as int));
                if !limits.valid() || charge > usize::MAX {
                    r matches Err(e) && e == ReaderError::InvalidLimits
                } else {
                    exists|granted: bool|
                        #[trigger] call_ensures(reserve, (charge as u64,), granted) && match r {
                            Ok(reader) => granted && reader.inner.source@ == self.source@
                                && reader.inner.index@ == IndexModel::fresh(
                                self.source@,
                                encoding,
                                limits,
                            ) && reader.inner.wf(),
                            Err(e) => !granted && e == ReaderError::ResourceDenied,
                        }
                }
            }),
    {
        match SourceReader::new(&self.source, encoding, limits, reserve) {
            Ok(inner) => Ok(PagedReader { inner }),
            Err(e) => Err(e),
        }
    }
}

/// Reads an opened member. Only borrowed results leave it.
#[derive(Debug)]
pub struct PagedReader<'a> {
    pub inner: SourceReader<'a>,
}

impl<'a> PagedReader<'a> {
    pub fn progress(&self) -> (r: ReaderIndexProgress)
        ensures
            r == self.inner.index@.progress(self.inner.source@),
    {
        self.inner.progress()
    }

    pub fn index_step<C: FnMut() -> bool>(&mut self, max_bytes: usize, canceled: C) -> (r: Result<
        ReaderIndexProgress,
        ReaderError,
    >)
        requires
            old(self).inner.wf(),
            call_requires(canceled, ()),
        ensures
            final(self).inner.wf(),
            final(self).inner.source == old(self).inner.source,
            is_index_step(
                old(self).inner.index@,
                final(self).inner.index@,
                r,
                old(self).inner.source@,
                allowance(max_bytes) as int,
                canceled,
            ),
    {
        self.inner.index_step(max_bytes, canceled)
    }

    pub fn seek(&self, target: ReadingTarget, generation: QueryGeneration) -> (r: Result<
        ReadingSeek<'a>,
        ReaderError,
    >)
        requires
            self.inner.wf(),
        ensures
            match self.inner.index@.request(self.inner.source@, target, generation) {
                Ok(parts) => r matches Ok(seek) && seek.source == self.inner.source && seek.parts
                    == parts && seek.wf(),
                Err(e) => r matches Err(f) && f == e,
            },
    {
        self.inner.seek(target, generation)
    }

    pub fn window<
        A: FnOnce(u64) -> bool,
        D: FnOnce(usize, usize, DetectedEncoding) -> Option<WindowMap>,
        C: FnMut() -> bool,
    >(
        &self,
        anchor: ReadingAnchor,
        generation: QueryGeneration,
        options: ReadingWindowOptions,
        reserve: A,
        decode: D,
        canceled: C,
    ) -> (r: Result<ReadingWindow<'a>, ReaderError>)
        requires
            forall|charge: u64| call_requires(reserve, (charge,)),
            forall|from: usize, to: usize, e: DetectedEncoding|
                from <= to <= self.inner.source@.bytes.len() ==> call_requires(decode, (from, to, e)),
            call_requires(canceled, ()),
        ensures
            r matches Ok(window) ==> window@.wf() && window.source == self.inner.source,
            gave_up(r, canceled) || exists|granted: bool, decoded: Option<WindowMap>|
                #[trigger] window_answers(
                    self.inner.index@,
                    self.inner.source@,
                    anchor,
                    generation,
                    options,
                    granted,
                    decoded,
                    reserve,
                    decode,
                ) && is_window(
                    r,
                    windowed(
                        self.inner.index@,
                        self.inner.source@,
                        anchor,
                        generation,
                        options,
                        granted,
                        maybe(decoded),
                    ),
                ),
    {
        self.inner.window(anchor, generation, options, reserve, decode, canceled)
    }
}

} // verus!
