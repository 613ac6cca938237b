//! Queries of several terms over saved sources.
//!
//! Terms are looked for in whole documents, not in lines. Each step looks at one
//! record of the directory, or loads one member, or lets the matcher go on once.
//! The bytes of a member are loaded once and searched for one term after the
//! other. Syntax, path filters and matching belong to the host.
pub mod outcomes;
pub mod plan;
pub mod query;

use vstd::prelude::*;

use crate::envelope::Sha256Digest;
use crate::identity::{ByteRange, FileId, QueryGeneration, SourceRevision};
use crate::search::archive::{PagedSnapshotError, SnapshotDirectory};
use crate::search::member_scan::VerifiedMember;
use crate::search::paged_snapshot::{is_loaded, PagedCapture, PagedSearchError};
use crate::search::snapshot_index::SnapshotIndexError;
use crate::search::streaming::StreamReadError;

verus! {

/// Why the host could not parse a query.
#[derive(Clone, Copy, Debug, PartialEq, Eq, Structural)]
pub enum QueryError {
    NeedleTooLong,
    Malformed,
}

#[derive(Clone, Copy, Debug, PartialEq, Eq, Structural)]
pub enum ExpressionError {
    Syntax(QueryError),
    Pattern(StreamReadError),
    Search(PagedSearchError),
    Index(SnapshotIndexError),
    ResourceDenied,
    IdentityExhausted,
    InvalidLimits,
    Pending,
    Canceled,
    StaleQuery,
}

impl ExpressionError {
    /// The stable code of an error, where it is one of this library's.
    pub open spec fn code_spec(self) -> Option<Seq<char>> {
        match self {
            ExpressionError::Syntax(_) => None,
            ExpressionError::Pattern(error) => error.code_spec(),
            ExpressionError::Search(error) => error.code_spec(),
            ExpressionError::Index(error) => error.code_spec(),
            ExpressionError::ResourceDenied => Some("EXPRESSION_RESOURCE_DENIED"@),
            ExpressionError::IdentityExhausted => Some("EXPRESSION_IDENTITY_EXHAUSTED"@),
            ExpressionError::InvalidLimits => Some("EXPRESSION_INVALID_LIMITS"@),
            ExpressionError::Pending => Some("EXPRESSION_PENDING"@),
            ExpressionError::Canceled => Some("EXPRESSION_CANCELED"@),
            ExpressionError::StaleQuery => Some("EXPRESSION_STALE_QUERY"@),
        }
    }

    pub fn code(&self) -> (r: Option<&'static str>)
        ensures
            match self.code_spec() {
                Some(code) => r matches Some(text) && text@ == code,
                None => r is None,
            },
    {
        match self {
            ExpressionError::Syntax(_) => None,
            ExpressionError::Pattern(error) => error.code(),
            ExpressionError::Search(error) => error.code(),
            ExpressionError::Index(error) => error.code(),
            ExpressionError::ResourceDenied => Some("EXPRESSION_RESOURCE_DENIED"),
            ExpressionError::IdentityExhausted => Some("EXPRESSION_IDENTITY_EXHAUSTED"),
            ExpressionError::InvalidLimits => Some("EXPRESSION_INVALID_LIMITS"),
            ExpressionError::Pending => Some("EXPRESSION_PENDING"),
            ExpressionError::Canceled => Some("EXPRESSION_CANCELED"),
            ExpressionError::StaleQuery => Some("EXPRESSION_STALE_QUERY"),
        }
    }
}

/// An exact occurrence. Neither labels nor later bytes of a live source can take
/// its place.
#[derive(Clone, Copy, Debug)]
pub struct ExpressionHit {
    pub ordinal: usize,
    pub file: FileId,
    pub revision: SourceRevision,
    pub generation: QueryGeneration,
    pub occurrence: u64,
    pub range: ByteRange,
    pub archive: Sha256Digest,
    pub source: Sha256Digest,
}

/// Why an opened member is not the one of a hit, if so.
pub open spec fn hit_mismatch(capture: PagedCapture, hit: ExpressionHit) -> bool {
    capture.digest.data() != hit.source.data() || hit.range.start >= hit.range.end || hit.range.end
        > capture.source@.bytes.len()
}

impl ExpressionHit {
    pub fn ordinal(self) -> (r: usize)
        ensures
            r == self.ordinal,
    {
        self.ordinal
    }

    pub fn file(self) -> (r: FileId)
        ensures
            r == self.file,
    {
        self.file
    }

    pub fn revision(self) -> (r: SourceRevision)
        ensures
            r == self.revision,
    {
        self.revision
    }

    pub fn occurrence_id(self) -> (r: u64)
        ensures
            r == self.occurrence,
    {
        self.occurrence
    }

    pub fn original_range(self) -> (r: ByteRange)
        ensures
            r == self.range,
    {
        self.range
    }

    pub fn source_digest(self) -> (r: Sha256Digest)
        ensures
            r == self.source,
    {
        self.source
    }

    pub fn archive_digest(self) -> (r: Sha256Digest)
        ensures
            r == self.archive,
    {
        self.archive
    }

    /// Opens the member of the hit, and checks that it is the same source.
    pub fn open<
        L: FnOnce(usize) -> Result<VerifiedMember, PagedSnapshotError>,
        A: FnOnce(u64) -> bool,
        S: FnOnce(&Vec<u8>) -> String,
        C: FnMut() -> bool,
    >(
        self,
        directory: &SnapshotDirectory,
        generation: QueryGeneration,
        allocations: (u64, u64),
        load: L,
        reserve: A,
        label: S,
        canceled: C,
    ) -> (r: Result<PagedCapture, ExpressionError>)
        requires
            forall|n: usize| call_requires(load, (n,)),
            forall|charge: u64| call_requires(reserve, (charge,)),
            forall|path: &Vec<u8>| call_requires(label, (path,)),
            call_requires(canceled, ()),
        ensures
            if generation != self.generation || directory@.digest != self.archive.data() {
                r matches Err(e) && e == ExpressionError::StaleQuery
            } else {
                exists|opened: Result<PagedCapture, PagedSearchError>|
                    #[trigger] is_loaded(
                        opened,
                        directory@,
                        self.ordinal,
                        self.file,
                        self.revision,
                        allocations,
                        load,
                        reserve,
                        label,
                        canceled,
                    ) && match opened {
                        Err(e) => r matches Err(f) && f == ExpressionError::Search(e),
                        Ok(capture) => if hit_mismatch(capture, self) {
                            r matches Err(f) && f == ExpressionError::Search(
                                PagedSearchError::InvalidHit,
                            )
                        } else {
                            r matches Ok(found) && found == capture
                        },
                    }
            },
    {
        if generation != self.generation || !directory.digest.same(&self.archive) {
            return Err(ExpressionError::StaleQuery);
        }
        let opened = PagedCapture::load(
            directory,
            self.ordinal,
            self.file,
            self.revision,
            allocations,
            load,
            reserve,
            label,
            canceled,
        );
        let ghost answer = opened;
        match opened {
            Err(e) => Err(ExpressionError::Search(e)),
            Ok(capture) => {
                if !capture.digest.same(&self.source) || self.range.start >= self.range.end
                    || self.range.end > capture.source.bytes.len() as u64 {
                    return Err(ExpressionError::Search(PagedSearchError::InvalidHit));
                }
                Ok(capture)
            },
        }
    }
}

} // verus!
