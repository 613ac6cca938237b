//! Going through the members of a snapshot with a query of several terms.
use vstd::layout::size_of;
use vstd::prelude::*;
use vstd::utf8::encode_utf8;

use crate::envelope::Sha256Digest;
use crate::identity::{FileId, QueryGeneration, SourceRevision};
use crate::memory::wide_size;
use crate::model::{group_views, views};
use crate::search::archive::{
    DirectoryModel, MemberModel, PagedMemberData, PagedSnapshotError, SnapshotDirectory,
};
use crate::search::expression::plan::{admission, passes, ExpressionPlan};
use crate::search::expression::{ExpressionError, ExpressionHit};
use crate::search::member_scan::{member_replies, LoadedModel, MemberScan, VerifiedMember};
use crate::search::paged_snapshot::query::{lemma_started_job, scan_of, EngineLimits};
use crate::search::paged_snapshot::PagedSearchError;
use crate::search::snapshot_index::{IndexDecision, SegmentsModel, SnapshotIndex};
use crate::search::source::{CaptureRequest, SourceEncoding, SourceError, StreamError};
use crate::search::streaming::report::{is_started, started};
use crate::search::streaming::stepping::{matcher_ok, steps};
use crate::search::streaming::{
    ByteBatch, NeedleModel, ReaderSearch, SearchModel, StreamReadError, StreamReadOptions,
    StreamReadState, StreamReadStep, MAX_STREAM_RESULTS,
};

verus! {

broadcast use group_views;

#[derive(Clone, Copy, Debug, PartialEq, Eq, Structural)]
pub struct ExpressionOptions {
    pub generation: QueryGeneration,
    pub first_file: FileId,
    pub first_revision: SourceRevision,
    pub max_matches: usize,
    /// Bytes that all searches together may go through. Going through the same
    /// bytes again counts again.
    pub max_scan_bytes: u64,
}

#[derive(Clone, Copy, Debug, PartialEq, Eq, Structural)]
pub enum ExpressionState {
    Pending,
    Complete,
    Truncated,
    WorkLimit,
    Canceled,
    Failed(ExpressionError),
}

/// Counts of a query. They wrap around.
#[derive(Clone, Copy, Debug, PartialEq, Eq, Structural)]
pub struct ExpressionStats {
    pub metadata_examined: usize,
    pub scope_files: usize,
    pub metadata_excluded: usize,
    pub unavailable_files: usize,
    pub members_loaded: usize,
    pub loaded_bytes: u64,
    pub peak_member_bytes: usize,
    pub predicate_scans: usize,
    pub predicate_rejections: usize,
    pub primary_scans: usize,
    pub unsupported_files: usize,
    pub scanned_bytes: u64,
    pub last_step_scanned_bytes: u64,
    pub index_eliminated: usize,
    pub index_candidates: usize,
    pub index_fallbacks: usize,
}

/// Where a query stands, apart from the member at hand and the hits.
#[derive(Clone, Copy, Debug)]
pub struct ExpressionCore {
    pub options: ExpressionOptions,
    pub limits: EngineLimits,
    pub scope_at: usize,
    pub next: usize,
    pub term: usize,
    pub seen: u64,
    pub state: ExpressionState,
    pub stats: ExpressionStats,
}

/// A query that goes on step by step.
#[derive(Debug)]
pub struct ExpressionQuery<'archive, 'plan, P = (), G = ()> {
    pub directory: &'archive SnapshotDirectory,
    pub plan: &'plan ExpressionPlan<P, G>,
    pub index: Option<&'plan SnapshotIndex>,
    pub core: ExpressionCore,
    pub active: Option<MemberScan<'plan>>,
    pub hits: Vec<ExpressionHit>,
}

/// The model of a query.
pub ghost struct ExpressionModel {
    pub core: ExpressionCore,
    pub active: Option<(SearchModel, LoadedModel)>,
    pub hits: Seq<ExpressionHit>,
}

impl<'archive, 'plan, P, G> View for ExpressionQuery<'archive, 'plan, P, G> {
    type V = ExpressionModel;

    open spec fn view(&self) -> ExpressionModel {
        ExpressionModel { core: self.core, active: scan_of(self.active), hits: self.hits@ }
    }
}

/// What a query is about.
pub ghost struct ExpressionJob {
    pub directory: DirectoryModel,
    pub patterns: Seq<NeedleModel>,
    pub exclusions: int,
    pub primary: Seq<u8>,
    pub index: Option<SegmentsModel>,
}

impl<'archive, 'plan, P, G> ExpressionQuery<'archive, 'plan, P, G> {
    pub open spec fn job(self) -> ExpressionJob {
        ExpressionJob {
            directory: self.directory@,
            patterns: views(self.plan.patterns@),
            exclusions: self.plan.syntax.exclusion_terms@.len() as int,
            primary: encode_utf8(self.plan.syntax.primary_needle@),
            index: match self.index {
                Some(index) => Some(index@),
                None => None,
            },
        }
    }

    pub open spec fn same_job(self, other: ExpressionQuery<P, G>) -> bool {
        &&& self.directory == other.directory
        &&& self.plan == other.plan
        &&& self.index == other.index
        &&& self.core.options == other.core.options
        &&& self.core.limits == other.core.limits
    }

    pub open spec fn wf(self) -> bool {
        &&& self.plan.wf()
        &&& self.index matches Some(index) ==> index@.wf()
        &&& self@.wf(self.job())
        &&& self.active matches Some(scan) ==> *scan.search.needle == self.plan.patterns@[
            self.core.term as int
        ]
    }
}

impl ExpressionModel {
    pub open spec fn wf(self, job: ExpressionJob) -> bool {
        &&& job.directory.members.len() <= usize::MAX
        &&& self.core.scope_at <= job.directory.members.len()
        &&& self.core.next <= job.directory.members.len()
        &&& self.core.options.first_file.value + job.directory.members.len() <= u64::MAX + 1
        &&& self.core.options.first_revision.value + job.directory.members.len() <= u64::MAX + 1
        &&& self.hits.len() <= self.core.options.max_matches <= MAX_STREAM_RESULTS
        &&& self.active matches Some((search, member)) ==> {
            &&& self.core.term < job.patterns.len()
            &&& search.wf()
            &&& search.core.length == member.bytes.len()
            &&& self.core.term == job.patterns.len() - 1 ==> search.core.options.max_matches
                == self.core.options.max_matches - self.hits.len()
            &&& member.ordinal < job.directory.members.len()
        }
    }

    pub open spec fn with_state(self, state: ExpressionState) -> ExpressionModel {
        ExpressionModel { core: ExpressionCore { state, ..self.core }, ..self }
    }

    pub open spec fn with_stats(self, stats: ExpressionStats) -> ExpressionModel {
        ExpressionModel { core: ExpressionCore { stats, ..self.core }, ..self }
    }

    /// Nothing more is done.
    pub open spec fn stopped(self, state: ExpressionState) -> ExpressionModel {
        ExpressionModel { core: ExpressionCore { state, ..self.core }, active: None, ..self }
    }

    /// After one record was looked at: whether it passes the filters, and
    /// whether its bytes were saved.
    pub open spec fn examined(self, admitted: bool, member: MemberModel) -> ExpressionModel {
        let stats = self.core.stats;
        ExpressionModel {
            core: ExpressionCore {
                scope_at: (self.core.scope_at + 1) as usize,
                stats: ExpressionStats {
                    metadata_examined: stats.metadata_examined.wrapping_add(1),
                    scope_files: if admitted {
                        stats.scope_files.wrapping_add(1)
                    } else {
                        stats.scope_files
                    },
                    unavailable_files: if admitted && member.data is Unavailable {
                        stats.unavailable_files.wrapping_add(1)
                    } else {
                        stats.unavailable_files
                    },
                    metadata_excluded: if admitted {
                        stats.metadata_excluded
                    } else {
                        stats.metadata_excluded.wrapping_add(1)
                    },
                    ..stats
                },
                ..self.core
            },
            ..self
        }
    }

    pub open spec fn advanced(self) -> ExpressionModel {
        ExpressionModel {
            core: ExpressionCore { next: (self.core.next + 1) as usize, ..self.core },
            ..self
        }
    }

    /// After the index was asked about a member.
    pub open spec fn decided(self, decision: Option<IndexDecision>) -> ExpressionModel {
        let stats = self.core.stats;
        match decision {
            None => self,
            Some(IndexDecision::Excluded) => self.with_stats(
                ExpressionStats {
                    index_eliminated: stats.index_eliminated.wrapping_add(1),
                    ..stats
                },
            ),
            Some(IndexDecision::Verify) => self.with_stats(
                ExpressionStats {
                    index_candidates: stats.index_candidates.wrapping_add(1),
                    ..stats
                },
            ),
            Some(IndexDecision::Fallback) => self.with_stats(
                ExpressionStats {
                    index_fallbacks: stats.index_fallbacks.wrapping_add(1),
                    ..stats
                },
            ),
        }
    }

    pub open spec fn loaded(self, length: usize) -> ExpressionModel {
        let stats = self.core.stats;
        ExpressionModel {
            core: ExpressionCore {
                term: 0,
                stats: ExpressionStats {
                    members_loaded: stats.members_loaded.wrapping_add(1),
                    loaded_bytes: stats.loaded_bytes.wrapping_add(length as u64),
                    peak_member_bytes: if length > stats.peak_member_bytes {
                        length
                    } else {
                        stats.peak_member_bytes
                    },
                    ..stats
                },
                ..self.core
            },
            ..self
        }
    }

    /// The request for the search of a member.
    pub open spec fn request(self, ordinal: int) -> CaptureRequest {
        CaptureRequest {
            file: FileId {
                owner: self.core.options.generation.owner,
                value: (self.core.options.first_file.value + ordinal) as u64,
            },
            revision: SourceRevision {
                owner: self.core.options.generation.owner,
                value: (self.core.options.first_revision.value + ordinal) as u64,
            },
            range: None,
        }
    }

    /// The limits for the search for a term: one occurrence settles a term that
    /// is only to be there or to be missing.
    pub open spec fn search_options(self, length: u64, primary: bool) -> StreamReadOptions {
        let left = if self.core.options.max_scan_bytes > self.core.stats.scanned_bytes {
            (self.core.options.max_scan_bytes - self.core.stats.scanned_bytes) as u64
        } else {
            0
        };
        StreamReadOptions {
            generation: self.core.options.generation,
            encoding: None,
            max_matches: if primary {
                (self.core.options.max_matches - self.hits.len()) as usize
            } else {
                1
            },
            max_bytes: if length < left {
                length
            } else {
                left
            },
            max_read_calls: self.core.limits.read_calls,
        }
    }

    pub open spec fn scan_counted(self, primary: bool) -> ExpressionModel {
        let stats = self.core.stats;
        self.with_stats(
            if primary {
                ExpressionStats { primary_scans: stats.primary_scans.wrapping_add(1), ..stats }
            } else {
                ExpressionStats { predicate_scans: stats.predicate_scans.wrapping_add(1), ..stats }
            },
        )
    }

    pub open spec fn scanned(self, bytes: u64) -> ExpressionModel {
        self.with_stats(
            ExpressionStats {
                scanned_bytes: self.core.stats.scanned_bytes.wrapping_add(bytes),
                last_step_scanned_bytes: bytes,
                ..self.core.stats
            },
        )
    }

    /// The hit that an occurrence in a member makes.
    pub open spec fn hit_of(
        self,
        search: SearchModel,
        member: LoadedModel,
        i: int,
    ) -> ExpressionHit {
        ExpressionHit {
            ordinal: member.ordinal,
            file: search.core.request.file,
            revision: search.core.request.revision,
            generation: self.core.options.generation,
            occurrence: search.hits[i].occurrence,
            range: search.hits[i].range,
            archive: member.archive,
            source: member.source,
        }
    }

    /// After the hits of a member were taken.
    pub open spec fn found(self, search: SearchModel, member: LoadedModel) -> ExpressionModel {
        let state = match search.core.state {
            StreamReadState::Truncated => ExpressionState::Truncated,
            StreamReadState::ByteLimit => ExpressionState::WorkLimit,
            _ => self.core.state,
        };
        ExpressionModel {
            core: ExpressionCore {
                seen: self.core.seen.wrapping_add(search.core.matches_seen),
                state,
                ..self.core
            },
            hits: self.hits + Seq::new(
                search.hits.len(),
                |i: int| self.hit_of(search, member, i),
            ),
            ..self
        }
    }
}

/// What the search for a term says of a member.
#[derive(Clone, Copy, Debug, PartialEq, Eq, Structural)]
pub enum TermVerdict {
    /// The member does not match.
    Reject,
    /// The limit was reached before it was known.
    Undecided,
    /// The next term is to be looked for.
    Accept,
}

/// What the search for a term says: a term that must be missing was found, or
/// one that must be there is not in the whole member.
pub open spec fn verdict(found: bool, complete: bool, required: bool) -> TermVerdict {
    if (found && !required) || (!found && required && complete) {
        TermVerdict::Reject
    } else if !found && !complete {
        TermVerdict::Undecided
    } else {
        TermVerdict::Accept
    }
}

pub fn judge(found: bool, complete: bool, required: bool) -> (r: TermVerdict)
    ensures
        r == verdict(found, complete, required),
{
    if (found && !required) || (!found && required && complete) {
        TermVerdict::Reject
    } else if !found && !complete {
        TermVerdict::Undecided
    } else {
        TermVerdict::Accept
    }
}

/// Whether the search for a term may start so.
pub open spec fn term_starts<
    A: FnOnce(u64) -> bool,
    D: FnMut(&Vec<u8>) -> SourceEncoding,
    V: FnMut(&Vec<u8>, usize, SourceEncoding, u64) -> Result<Option<u64>, SourceError>,
>(
    m: ExpressionModel,
    job: ExpressionJob,
    member: LoadedModel,
    reserve: A,
    detect: D,
    check: V,
    end: ExpressionModel,
    r: Result<(), ExpressionError>,
) -> bool {
    let length = member.bytes.len() as u64;
    let primary = m.core.term == job.patterns.len() - 1;
    exists|begun: Result<SearchModel, StreamReadError>|
        #[trigger] is_started(
            begun,
            m.request(member.ordinal as int),
            length,
            job.patterns[m.core.term as int],
            m.search_options(length, primary),
            m.core.limits.needle_bytes as int,
            reserve,
            detect,
            check,
        ) && match begun {
            Err(e) => end == m && r == Err::<(), ExpressionError>(ExpressionError::Pattern(e)),
            Ok(search) => end == (ExpressionModel {
                active: Some((search, member)),
                ..m.scan_counted(primary)
            }) && r is Ok,
        }
}

/// What the index says of a member, if there is one.
pub open spec fn index_says(job: ExpressionJob, ordinal: int) -> Option<IndexDecision> {
    match job.index {
        Some(index) => Some(index.text_answer(ordinal, Some(job.primary))),
        None => None,
    }
}

/// Whether a query's filters may say this of a path.
pub open spec fn filtered(
    admits: spec_fn(Seq<u8>, bool) -> bool,
    path: Seq<u8>,
    admitted: bool,
) -> bool {
    admits(path, admitted)
}

/// Whether a member that the filters passed may be taken up so.
pub open spec fn member_taken<
    L: FnMut(usize) -> Result<VerifiedMember, PagedSnapshotError>,
    A: FnOnce(u64) -> bool,
    D: FnMut(&Vec<u8>) -> SourceEncoding,
    V: FnMut(&Vec<u8>, usize, SourceEncoding, u64) -> Result<Option<u64>, SourceError>,
>(
    m: ExpressionModel,
    job: ExpressionJob,
    ordinal: usize,
    load: L,
    reserve: A,
    detect: D,
    check: V,
    end: ExpressionModel,
    r: Result<(), ExpressionError>,
) -> bool {
    let decision = index_says(job, ordinal as int);
    let told = m.decided(decision);
    if decision == Some(IndexDecision::Excluded) {
        end == told && r is Ok
    } else if job.directory.members[ordinal as int].observed_bytes > 0
        && m.core.stats.scanned_bytes == m.core.options.max_scan_bytes {
        end == told.with_state(ExpressionState::WorkLimit) && r is Ok
    } else {
        exists|answer: Result<VerifiedMember, PagedSnapshotError>|
            #[trigger] call_ensures(load, (ordinal,), answer) && match answer {
                Err(e) => end == told && r == Err::<(), ExpressionError>(
                    ExpressionError::Search(PagedSearchError::Archive(e)),
                ),
                Ok(member) => if member.ordinal != ordinal {
                    end == told && r == Err::<(), ExpressionError>(
                        ExpressionError::Search(PagedSearchError::InvalidHit),
                    )
                } else {
                    term_starts(
                        told.loaded(member@.bytes.len() as usize),
                        job,
                        member@,
                        reserve,
                        detect,
                        check,
                        end,
                        r,
                    )
                },
            }
    }
}

/// Whether the next member may be taken up so.
pub open spec fn next_taken<
    L: FnMut(usize) -> Result<VerifiedMember, PagedSnapshotError>,
    A: FnOnce(u64) -> bool,
    D: FnMut(&Vec<u8>) -> SourceEncoding,
    V: FnMut(&Vec<u8>, usize, SourceEncoding, u64) -> Result<Option<u64>, SourceError>,
>(
    m: ExpressionModel,
    job: ExpressionJob,
    admits: spec_fn(Seq<u8>, bool) -> bool,
    load: L,
    reserve: A,
    detect: D,
    check: V,
    end: ExpressionModel,
    r: Result<(), ExpressionError>,
) -> bool {
    if m.core.next >= job.directory.members.len() {
        end == m.with_state(ExpressionState::Complete) && r is Ok
    } else {
        let member = job.directory.members[m.core.next as int];
        exists|admitted: bool|
            #[trigger] filtered(admits, member.path, admitted) && if !admitted || member.data
                is Unavailable {
                end == m.advanced() && r is Ok
            } else {
                member_taken(
                    m.advanced(),
                    job,
                    m.core.next,
                    load,
                    reserve,
                    detect,
                    check,
                    end,
                    r,
                )
            }
    }
}

/// Whether a search for a term that is over may be concluded so.
pub open spec fn term_ends<
    A: FnOnce(u64) -> bool,
    D: FnMut(&Vec<u8>) -> SourceEncoding,
    V: FnMut(&Vec<u8>, usize, SourceEncoding, u64) -> Result<Option<u64>, SourceError>,
>(
    m: ExpressionModel,
    job: ExpressionJob,
    search: SearchModel,
    member: LoadedModel,
    reserve: A,
    detect: D,
    check: V,
    end: ExpressionModel,
    r: Result<(), ExpressionError>,
) -> bool {
    let stats = m.core.stats;
    match search.core.state {
        StreamReadState::UnsupportedText => end == m.with_stats(
            ExpressionStats {
                unsupported_files: stats.unsupported_files.wrapping_add(1),
                ..stats
            },
        ) && r is Ok,
        StreamReadState::Canceled => end == m && r == Err::<(), ExpressionError>(
            ExpressionError::Canceled,
        ),
        StreamReadState::Failed(e) => end == m && r == Err::<(), ExpressionError>(
            ExpressionError::Pattern(e),
        ),
        StreamReadState::Complete | StreamReadState::Truncated | StreamReadState::ByteLimit => {
            if m.core.term == job.patterns.len() - 1 {
                end == m.found(search, member) && r is Ok
            } else {
                match verdict(
                    search.core.matches_seen > 0,
                    search.core.state is Complete,
                    m.core.term >= job.exclusions,
                ) {
                    TermVerdict::Reject => end == m.with_stats(
                        ExpressionStats {
                            predicate_rejections: stats.predicate_rejections.wrapping_add(1),
                            ..stats
                        },
                    ) && r is Ok,
                    TermVerdict::Undecided => end == m.with_state(ExpressionState::WorkLimit) && r
                        is Ok,
                    TermVerdict::Accept => term_starts(
                        ExpressionModel {
                            core: ExpressionCore {
                                term: (m.core.term + 1) as usize,
                                ..m.core
                            },
                            ..m
                        },
                        job,
                        member,
                        reserve,
                        detect,
                        check,
                        end,
                        r,
                    ),
                }
            }
        },
        _ => end == m && r == Err::<(), ExpressionError>(
            ExpressionError::Search(PagedSearchError::IncompleteInput),
        ),
    }
}

/// Whether the search at hand may go on so.
pub open spec fn term_goes_on<
    A: FnOnce(u64) -> bool,
    D: FnMut(&Vec<u8>) -> SourceEncoding,
    V: FnMut(&Vec<u8>, usize, SourceEncoding, u64) -> Result<Option<u64>, SourceError>,
    M: FnMut(&Vec<u8>, &Vec<u8>, usize, usize, usize, usize) -> Result<ByteBatch, StreamError>,
    C: FnMut() -> bool,
>(
    m: ExpressionModel,
    job: ExpressionJob,
    step: StreamReadStep,
    reserve: A,
    detect: D,
    check: V,
    search: M,
    canceled: C,
    end: ExpressionModel,
    r: Result<(), ExpressionError>,
) -> bool {
    m.active matches Some((before, member)) && exists|
        after: SearchModel,
        said: Result<StreamReadState, StreamReadError>,
    |
        #[trigger] steps(
            before,
            job.patterns[m.core.term as int],
            step,
            m.core.options.generation,
            member_replies(member.bytes, before.core.stats.bytes_read as int),
            detect,
            check,
            search,
            canceled,
            after,
            said,
        ) && match said {
            Err(e) => end == (ExpressionModel { active: None, ..m }) && r == Err::<
                (),
                ExpressionError,
            >(ExpressionError::Pattern(e)),
            Ok(state) => {
                let counted = m.scanned(
                    after.core.stats.scanned_bytes.wrapping_sub(before.core.stats.scanned_bytes),
                );
                if state is Pending {
                    end == (ExpressionModel { active: Some((after, member)), ..counted }) && r is Ok
                } else {
                    term_ends(
                        ExpressionModel { active: None, ..counted },
                        job,
                        after,
                        member,
                        reserve,
                        detect,
                        check,
                        end,
                        r,
                    )
                }
            },
        }
}

/// Whether the work of a step may end so.
pub open spec fn expression_advances<
    L: FnMut(usize) -> Result<VerifiedMember, PagedSnapshotError>,
    A: FnOnce(u64) -> bool,
    D: FnMut(&Vec<u8>) -> SourceEncoding,
    V: FnMut(&Vec<u8>, usize, SourceEncoding, u64) -> Result<Option<u64>, SourceError>,
    M: FnMut(&Vec<u8>, &Vec<u8>, usize, usize, usize, usize) -> Result<ByteBatch, StreamError>,
    C: FnMut() -> bool,
>(
    m: ExpressionModel,
    job: ExpressionJob,
    step: StreamReadStep,
    admits: spec_fn(Seq<u8>, bool) -> bool,
    load: L,
    reserve: A,
    detect: D,
    check: V,
    search: M,
    canceled: C,
    end: ExpressionModel,
    r: Result<(), ExpressionError>,
) -> bool {
    if m.core.scope_at < job.directory.members.len() {
        let member = job.directory.members[m.core.scope_at as int];
        exists|admitted: bool|
            #[trigger] filtered(admits, member.path, admitted) && end == m.examined(
                admitted,
                member,
            ) && r is Ok
    } else if m.active is None {
        next_taken(m, job, admits, load, reserve, detect, check, end, r)
    } else {
        term_goes_on(m, job, step, reserve, detect, check, search, canceled, end, r)
    }
}

impl<'archive, 'plan, P, G> ExpressionQuery<'archive, 'plan, P, G> {
    /// Starts the search for the term at hand in a loaded member.
    fn start<
        A: FnOnce(u64) -> bool,
        D: FnMut(&Vec<u8>) -> SourceEncoding,
        V: FnMut(&Vec<u8>, usize, SourceEncoding, u64) -> Result<Option<u64>, SourceError>,
    >(&mut self, member: VerifiedMember, reserve: A, detect: &mut D, check: &mut V) -> (r: Result<
        (),
        ExpressionError,
    >)
        requires
            old(self).wf(),
            old(self)@.active is None,
            old(self).core.term < old(self).plan.patterns@.len(),
            member.ordinal < old(self).directory@.members.len(),
            forall|charge: u64| call_requires(reserve, (charge,)),
            forall|bytes: &Vec<u8>| call_requires(*old(detect), (bytes,)),
            forall|bytes: &Vec<u8>, n: usize, e: SourceEncoding, base: u64|
                call_requires(*old(check), (bytes, n, e, base)),
        ensures
            *final(detect) == *old(detect),
            *final(check) == *old(check),
            final(self).wf(),
            final(self).same_job(*old(self)),
            term_starts(
                old(self)@,
                old(self).job(),
                member@,
                reserve,
                *old(detect),
                *old(check),
                final(self)@,
                r,
            ),
    {
        let ghost before = self@;
        let primary = self.core.term == self.plan.patterns.len() - 1;
        let length: u64 = member.bytes.len() as u64;
        let owner = self.core.options.generation.owner;
        let file = FileId {
            owner,
            value: self.core.options.first_file.value + member.ordinal as u64,
        };
        let revision = SourceRevision {
            owner,
            value: self.core.options.first_revision.value + member.ordinal as u64,
        };
        let request = CaptureRequest { file, revision, range: None };
        let left: u64 = if self.core.options.max_scan_bytes > self.core.stats.scanned_bytes {
            self.core.options.max_scan_bytes - self.core.stats.scanned_bytes
        } else {
            0
        };
        let options = StreamReadOptions {
            generation: self.core.options.generation,
            encoding: None,
            max_matches: if primary {
                self.core.options.max_matches - self.hits.len()
            } else {
                1
            },
            max_bytes: if length < left {
                length
            } else {
                left
            },
            max_read_calls: self.core.limits.read_calls,
        };
        assert(request == before.request(member.ordinal as int));
        assert(options == before.search_options(length, primary));
        let pattern = &self.plan.patterns[self.core.term];
        assert(self.job().patterns[self.core.term as int] == pattern@);
        let begun = ReaderSearch::new(
            request,
            length,
            pattern,
            options,
            self.core.limits.needle_bytes,
            reserve,
            detect,
            check,
        );
        let ghost model = started(begun);
        proof {
            lemma_started_job(
                model,
                request,
                length,
                pattern@,
                options,
                self.core.limits.needle_bytes as int,
                reserve,
                *old(detect),
                *old(check),
            );
        }
        match begun {
            Err(e) => Err(ExpressionError::Pattern(e)),
            Ok(search) => {
                if primary {
                    self.core.stats.primary_scans = self.core.stats.primary_scans.wrapping_add(1);
                } else {
                    self.core.stats.predicate_scans =
                    self.core.stats.predicate_scans.wrapping_add(1);
                }
                self.active = Some(MemberScan { search, member });
                Ok(())
            },
        }
    }
}

impl<'archive, 'plan, P, G> ExpressionQuery<'archive, 'plan, P, G> {
    /// Asks the index about a member.
    fn ask_index(&mut self, ordinal: usize) -> (r: Option<IndexDecision>)
        requires
            old(self).wf(),
        ensures
            final(self).wf(),
            final(self).same_job(*old(self)),
            r == index_says(old(self).job(), ordinal as int),
            final(self)@ == old(self)@.decided(r),
    {
        match self.index {
            None => None,
            Some(index) => {
                let decision = index.text_decision(
                    ordinal,
                    Some(self.plan.syntax.primary_needle.as_str()),
                );
                match decision {
                    IndexDecision::Excluded => {
                        self.core.stats.index_eliminated =
                        self.core.stats.index_eliminated.wrapping_add(1);
                    },
                    IndexDecision::Verify => {
                        self.core.stats.index_candidates =
                        self.core.stats.index_candidates.wrapping_add(1);
                    },
                    IndexDecision::Fallback => {
                        self.core.stats.index_fallbacks =
                        self.core.stats.index_fallbacks.wrapping_add(1);
                    },
                }
                Some(decision)
            },
        }
    }

    /// Takes up a member that the filters passed.
    fn take_member<
        L: FnMut(usize) -> Result<VerifiedMember, PagedSnapshotError>,
        A: FnOnce(u64) -> bool,
        D: FnMut(&Vec<u8>) -> SourceEncoding,
        V: FnMut(&Vec<u8>, usize, SourceEncoding, u64) -> Result<Option<u64>, SourceError>,
    >(
        &mut self,
        ordinal: usize,
        load: &mut L,
        reserve: A,
        detect: &mut D,
        check: &mut V,
    ) -> (r: Result<(), ExpressionError>)
        requires
            old(self).wf(),
            old(self)@.active is None,
            ordinal < old(self).directory@.members.len(),
            forall|n: usize| call_requires(*old(load), (n,)),
            forall|charge: u64| call_requires(reserve, (charge,)),
            forall|bytes: &Vec<u8>| call_requires(*old(detect), (bytes,)),
            forall|bytes: &Vec<u8>, n: usize, e: SourceEncoding, base: u64|
                call_requires(*old(check), (bytes, n, e, base)),
        ensures
            *final(load) == *old(load),
            *final(detect) == *old(detect),
            *final(check) == *old(check),
            final(self).wf(),
            final(self).same_job(*old(self)),
            member_taken(
                old(self)@,
                old(self).job(),
                ordinal,
                *old(load),
                reserve,
                *old(detect),
                *old(check),
                final(self)@,
                r,
            ),
    {
        let decision = self.ask_index(ordinal);
        let ghost told = self@;
        if let Some(IndexDecision::Excluded) = decision {
            return Ok(());
        }
        assert(self.directory@.members[ordinal as int] == self.directory.members@[ordinal as int]@);
        if self.directory.members[ordinal].observed_bytes > 0 && self.core.stats.scanned_bytes
            == self.core.options.max_scan_bytes {
            self.core.state = ExpressionState::WorkLimit;
            return Ok(());
        }
        let answer = load(ordinal);
        assert(call_ensures(*old(load), (ordinal,), answer));
        match answer {
            Err(e) => Err(ExpressionError::Search(PagedSearchError::Archive(e))),
            Ok(member) => {
                if member.ordinal != ordinal {
                    return Err(ExpressionError::Search(PagedSearchError::InvalidHit));
                }
                let length: usize = member.bytes.len();
                self.core.stats.members_loaded = self.core.stats.members_loaded.wrapping_add(1);
                self.core.stats.loaded_bytes =
                self.core.stats.loaded_bytes.wrapping_add(length as u64);
                if length > self.core.stats.peak_member_bytes {
                    self.core.stats.peak_member_bytes = length;
                }
                self.core.term = 0;
                assert(self@ == told.loaded(length));
                self.start(member, reserve, detect, check)
            },
        }
    }

    /// Takes up the next member.
    fn take_next<
        E: FnMut(&Vec<u8>) -> String,
        F: FnMut(&str, &P) -> bool,
        H: FnMut(&str, &G) -> bool,
        L: FnMut(usize) -> Result<VerifiedMember, PagedSnapshotError>,
        A: FnOnce(u64) -> bool,
        D: FnMut(&Vec<u8>) -> SourceEncoding,
        V: FnMut(&Vec<u8>, usize, SourceEncoding, u64) -> Result<Option<u64>, SourceError>,
    >(
        &mut self,
        escape: &mut E,
        paths: &mut F,
        langs: &mut H,
        load: &mut L,
        reserve: A,
        detect: &mut D,
        check: &mut V,
    ) -> (r: Result<(), ExpressionError>)
        requires
            old(self).wf(),
            old(self)@.active is None,
            forall|path: &Vec<u8>| call_requires(*old(escape), (path,)),
            forall|key: &str, filters: &P| call_requires(*old(paths), (key, filters)),
            forall|key: &str, filters: &G| call_requires(*old(langs), (key, filters)),
            forall|n: usize| call_requires(*old(load), (n,)),
            forall|charge: u64| call_requires(reserve, (charge,)),
            forall|bytes: &Vec<u8>| call_requires(*old(detect), (bytes,)),
            forall|bytes: &Vec<u8>, n: usize, e: SourceEncoding, base: u64|
                call_requires(*old(check), (bytes, n, e, base)),
        ensures
            *final(escape) == *old(escape),
            *final(paths) == *old(paths),
            *final(langs) == *old(langs),
            *final(load) == *old(load),
            *final(detect) == *old(detect),
            *final(check) == *old(check),
            final(self).wf(),
            final(self).same_job(*old(self)),
            next_taken(
                old(self)@,
                old(self).job(),
                admission(old(self).plan.syntax, *old(escape), *old(paths), *old(langs)),
                *old(load),
                reserve,
                *old(detect),
                *old(check),
                final(self)@,
                r,
            ),
    {
        if self.core.next >= self.directory.members.len() {
            self.core.state = ExpressionState::Complete;
            return Ok(());
        }
        let ordinal: usize = self.core.next;
        self.core.next = ordinal + 1;
        assert(self@ == old(self)@.advanced());
        let member = &self.directory.members[ordinal];
        assert(self.directory@.members[ordinal as int] == member@);
        let admitted = self.plan.admits(&member.path, escape, paths, langs);
        assert(passes(
            self.plan.syntax,
            *old(escape),
            *old(paths),
            *old(langs),
            &member.path,
            admitted,
        ));
        assert(filtered(
            admission(old(self).plan.syntax, *old(escape), *old(paths), *old(langs)),
            member@.path,
            admitted,
        ));
        if !admitted {
            return Ok(());
        }
        match member.data {
            PagedMemberData::Unavailable => {
                return Ok(());
            },
            PagedMemberData::Captured { byte_length: _, digest: _ } => {},
        }
        self.take_member(ordinal, load, reserve, detect, check)
    }

    /// Appends the hits of a member.
    fn push_hits(&mut self, search: &ReaderSearch<'plan>, member: &VerifiedMember)
        requires
            search@.hits.len() + old(self)@.hits.len() <= MAX_STREAM_RESULTS,
        ensures
            *final(self) == (ExpressionQuery { hits: final(self).hits, ..*old(self) }),
            final(self)@.hits == old(self)@.hits + Seq::new(
                search@.hits.len(),
                |i: int| old(self)@.hit_of(search@, member@, i),
            ),
    {
        let ghost before = self@;
        let ghost part = Seq::new(search@.hits.len(), |i: int| before.hit_of(search@, member@, i));
        let mut i: usize = 0;
        assert(self@.hits =~= before.hits + part.subrange(0, 0));
        while i < search.hits.len()
            invariant
                i <= search@.hits.len(),
                before == old(self)@,
                part == Seq::new(
                    search@.hits.len(),
                    |i: int| before.hit_of(search@, member@, i),
                ),
                *self == (ExpressionQuery { hits: self.hits, ..*old(self) }),
                self@.hits == before.hits + part.subrange(0, i as int),
            decreases search.hits.len() - i,
        {
            let hit = ExpressionHit {
                ordinal: member.ordinal,
                file: search.core.request.file,
                revision: search.core.request.revision,
                generation: self.core.options.generation,
                occurrence: search.hits[i].occurrence,
                range: search.hits[i].range,
                archive: member.archive,
                source: member.source,
            };
            assert(hit == part[i as int]);
            self.hits.push(hit);
            i = i + 1;
            assert(self@.hits =~= before.hits + part.subrange(0, i as int));
        }
        assert(part.subrange(0, i as int) =~= part);
    }

    /// Concludes the search for a term.
    fn end_term<
        A: FnOnce(u64) -> bool,
        D: FnMut(&Vec<u8>) -> SourceEncoding,
        V: FnMut(&Vec<u8>, usize, SourceEncoding, u64) -> Result<Option<u64>, SourceError>,
    >(
        &mut self,
        scan: MemberScan<'plan>,
        reserve: A,
        detect: &mut D,
        check: &mut V,
    ) -> (r: Result<(), ExpressionError>)
        requires
            old(self).wf(),
            old(self)@.active is None,
            old(self).core.term < old(self).plan.patterns@.len(),
            scan.search@.wf(),
            scan.member.ordinal < old(self).directory@.members.len(),
            old(self).core.term == old(self).plan.patterns@.len() - 1
                ==> scan.search@.core.options.max_matches == old(self)@.core.options.max_matches
                - old(self)@.hits.len(),
            forall|charge: u64| call_requires(reserve, (charge,)),
            forall|bytes: &Vec<u8>| call_requires(*old(detect), (bytes,)),
            forall|bytes: &Vec<u8>, n: usize, e: SourceEncoding, base: u64|
                call_requires(*old(check), (bytes, n, e, base)),
        ensures
            *final(detect) == *old(detect),
            *final(check) == *old(check),
            final(self).wf(),
            final(self).same_job(*old(self)),
            term_ends(
                old(self)@,
                old(self).job(),
                scan.search@,
                scan.member@,
                reserve,
                *old(detect),
                *old(check),
                final(self)@,
                r,
            ),
    {
        let state = scan.search.core.state;
        match state {
            StreamReadState::UnsupportedText => {
                self.core.stats.unsupported_files =
                self.core.stats.unsupported_files.wrapping_add(1);
                return Ok(());
            },
            StreamReadState::Canceled => {
                return Err(ExpressionError::Canceled);
            },
            StreamReadState::Failed(e) => {
                return Err(ExpressionError::Pattern(e));
            },
            StreamReadState::Complete => {},
            StreamReadState::Truncated => {},
            StreamReadState::ByteLimit => {},
            _ => {
                return Err(ExpressionError::Search(PagedSearchError::IncompleteInput));
            },
        }
        if self.core.term == self.plan.patterns.len() - 1 {
            self.core.seen = self.core.seen.wrapping_add(scan.search.core.matches_seen);
            match state {
                StreamReadState::Truncated => {
                    self.core.state = ExpressionState::Truncated;
                },
                StreamReadState::ByteLimit => {
                    self.core.state = ExpressionState::WorkLimit;
                },
                _ => {},
            }
            self.push_hits(&scan.search, &scan.member);
            assert(self@.hits =~= old(self)@.found(scan.search@, scan.member@).hits);
            assert(self@ == old(self)@.found(scan.search@, scan.member@));
            return Ok(());
        }
        let complete = match state {
            StreamReadState::Complete => true,
            _ => false,
        };
        let required = self.plan.required(self.core.term);
        match judge(scan.search.core.matches_seen > 0, complete, required) {
            TermVerdict::Reject => {
                self.core.stats.predicate_rejections =
                self.core.stats.predicate_rejections.wrapping_add(1);
                Ok(())
            },
            TermVerdict::Undecided => {
                self.core.state = ExpressionState::WorkLimit;
                Ok(())
            },
            TermVerdict::Accept => {
                self.core.term = self.core.term + 1;
                self.start(scan.member, reserve, detect, check)
            },
        }
    }

    /// Goes on with the search at hand.
    fn go_on<
        A: FnOnce(u64) -> bool,
        D: FnMut(&Vec<u8>) -> SourceEncoding,
        V: FnMut(&Vec<u8>, usize, SourceEncoding, u64) -> Result<Option<u64>, SourceError>,
        M: FnMut(&Vec<u8>, &Vec<u8>, usize, usize, usize, usize) -> Result<ByteBatch, StreamError>,
        C: FnMut() -> bool,
    >(
        &mut self,
        step: StreamReadStep,
        reserve: A,
        detect: &mut D,
        check: &mut V,
        search: &mut M,
        canceled: &mut C,
    ) -> (r: Result<(), ExpressionError>)
        requires
            old(self).wf(),
            old(self)@.active is Some,
            forall|charge: u64| call_requires(reserve, (charge,)),
            forall|bytes: &Vec<u8>| call_requires(*old(detect), (bytes,)),
            forall|bytes: &Vec<u8>, n: usize, e: SourceEncoding, base: u64|
                call_requires(*old(check), (bytes, n, e, base)),
            matcher_ok(*old(search)),
            call_requires(*old(canceled), ()),
        ensures
            *final(detect) == *old(detect),
            *final(check) == *old(check),
            *final(search) == *old(search),
            *final(canceled) == *old(canceled),
            final(self).wf(),
            final(self).same_job(*old(self)),
            term_goes_on(
                old(self)@,
                old(self).job(),
                step,
                reserve,
                *old(detect),
                *old(check),
                *old(search),
                *old(canceled),
                final(self)@,
                r,
            ),
    {
        let mut scan = match self.active.take() {
            Some(scan) => scan,
            None => {
                return Ok(());
            },
        };
        let ghost before = scan.search@;
        let ghost member = scan.member@;
        let scanned: u64 = scan.search.core.stats.scanned_bytes;
        assert(self.job().patterns[self.core.term as int] == scan.search.needle@);
        let said = scan.step(
            step,
            self.core.options.generation,
            detect,
            check,
            search,
            canceled,
        );
        let ghost after = scan.search@;
        assert(steps(
            before,
            self.job().patterns[self.core.term as int],
            step,
            self@.core.options.generation,
            member_replies(member.bytes, before.core.stats.bytes_read as int),
            *old(detect),
            *old(check),
            *old(search),
            *old(canceled),
            after,
            said,
        ));
        let state = match said {
            Ok(state) => state,
            Err(e) => {
                return Err(ExpressionError::Pattern(e));
            },
        };
        let used: u64 = scan.search.core.stats.scanned_bytes.wrapping_sub(scanned);
        self.core.stats.scanned_bytes = self.core.stats.scanned_bytes.wrapping_add(used);
        self.core.stats.last_step_scanned_bytes = used;
        match state {
            StreamReadState::Pending => {
                self.active = Some(scan);
                Ok(())
            },
            _ => {
                assert(self@ == (ExpressionModel { active: None, ..old(self)@.scanned(used) }));
                self.end_term(scan, reserve, detect, check)
            },
        }
    }
}

/// Why a query is not admitted.
pub open spec fn expression_error<P, G>(
    directory: DirectoryModel,
    plan: ExpressionPlan<P, G>,
    options: ExpressionOptions,
    allocations: (u64, u64, u64),
) -> Option<ExpressionError> {
    let last = if directory.members.len() > 0 {
        directory.members.len() - 1
    } else {
        0
    };
    if plan.owner != directory.owner || options.generation.owner != directory.owner
        || options.first_file.owner != directory.owner || options.first_revision.owner
        != directory.owner {
        Some(ExpressionError::Search(PagedSearchError::OwnerMismatch))
    } else if options.max_matches > MAX_STREAM_RESULTS || allocations.0 == allocations.1
        || allocations.0 == allocations.2 || allocations.1 == allocations.2 {
        Some(ExpressionError::InvalidLimits)
    } else if options.first_file.value + last > u64::MAX || options.first_revision.value + last
        > u64::MAX {
        Some(ExpressionError::IdentityExhausted)
    } else {
        None
    }
}

/// Bytes charged for the results of a query and for looking at records.
pub open spec fn expression_charge<P, G>(max_matches: int) -> int {
    max_matches * size_of::<ExpressionHit>() + size_of::<ExpressionQuery<P, G>>() + 524_288
}

/// A query that has looked at nothing.
pub open spec fn fresh_expression(
    options: ExpressionOptions,
    limits: EngineLimits,
) -> ExpressionModel {
    ExpressionModel {
        core: ExpressionCore {
            options,
            limits,
            scope_at: 0,
            next: 0,
            term: 0,
            seen: 0,
            state: ExpressionState::Pending,
            stats: ExpressionStats {
                metadata_examined: 0,
                scope_files: 0,
                metadata_excluded: 0,
                unavailable_files: 0,
                members_loaded: 0,
                loaded_bytes: 0,
                peak_member_bytes: 0,
                predicate_scans: 0,
                predicate_rejections: 0,
                primary_scans: 0,
                unsupported_files: 0,
                scanned_bytes: 0,
                last_step_scanned_bytes: 0,
                index_eliminated: 0,
                index_candidates: 0,
                index_fallbacks: 0,
            },
        },
        active: None,
        hits: Seq::empty(),
    }
}

/// Whether a query may be admitted so.
pub open spec fn is_admitted<P, G, A: FnOnce(u64) -> bool>(
    r: Result<ExpressionQuery<P, G>, ExpressionError>,
    directory: DirectoryModel,
    plan: ExpressionPlan<P, G>,
    options: ExpressionOptions,
    limits: EngineLimits,
    allocations: (u64, u64, u64),
    reserve: A,
) -> bool {
    match expression_error(directory, plan, options, allocations) {
        Some(e) => r matches Err(f) && f == e,
        None => {
            let charge = expression_charge::<P, G>(options.max_matches as int);
            ||| (charge > usize::MAX || call_ensures(reserve, (charge as u64,), false)) && (
            r matches Err(f) && f == ExpressionError::ResourceDenied)
            ||| charge <= usize::MAX && call_ensures(reserve, (charge as u64,), true) && (
            r matches Ok(query) && query@ == fresh_expression(options, limits))
        },
    }
}

/// Whether a step may end so.
pub open spec fn expression_steps<
    L: FnMut(usize) -> Result<VerifiedMember, PagedSnapshotError>,
    A: FnOnce(u64) -> bool,
    D: FnMut(&Vec<u8>) -> SourceEncoding,
    V: FnMut(&Vec<u8>, usize, SourceEncoding, u64) -> Result<Option<u64>, SourceError>,
    M: FnMut(&Vec<u8>, &Vec<u8>, usize, usize, usize, usize) -> Result<ByteBatch, StreamError>,
    C: FnMut() -> bool,
>(
    m: ExpressionModel,
    job: ExpressionJob,
    step: StreamReadStep,
    active: QueryGeneration,
    admits: spec_fn(Seq<u8>, bool) -> bool,
    load: L,
    reserve: A,
    detect: D,
    check: V,
    search: M,
    canceled: C,
    end: ExpressionModel,
    r: Result<ExpressionState, ExpressionError>,
) -> bool {
    let fresh = m.with_stats(ExpressionStats { last_step_scanned_bytes: 0, ..m.core.stats });
    if active != m.core.options.generation {
        end == fresh.stopped(ExpressionState::Canceled) && (r matches Err(e) && e
            == ExpressionError::StaleQuery)
    } else {
        ||| end == fresh.stopped(ExpressionState::Canceled) && (r matches Err(e) && e
            == ExpressionError::Canceled) && call_ensures(canceled, (), true)
        ||| (!(m.core.state is Pending) || step.max_bytes == 0 || step.max_calls == 0
            || step.max_hits == 0) && end == fresh && (r matches Ok(state) && state == m.core.state)
        ||| m.core.state is Pending && step.max_bytes > 0 && step.max_calls > 0 && step.max_hits
            > 0 && exists|after: ExpressionModel, ok: Result<(), ExpressionError>|
            #[trigger] expression_advances(
                fresh,
                job,
                step,
                admits,
                load,
                reserve,
                detect,
                check,
                search,
                canceled,
                after,
                ok,
            ) && {
                ||| end == after.stopped(ExpressionState::Canceled) && (r matches Err(e) && e
                    == ExpressionError::Canceled) && call_ensures(canceled, (), true)
                ||| match ok {
                    Ok(_) => end == after && (r matches Ok(state) && state == after.core.state),
                    Err(e) => end == after.stopped(ExpressionState::Failed(e)) && (r matches Err(f)
                        && f == e),
                }
            }
    }
}

impl<'archive, 'plan, P, G> ExpressionQuery<'archive, 'plan, P, G> {
    /// A query over a directory.
    pub fn new<A: FnOnce(u64) -> bool>(
        directory: &'archive SnapshotDirectory,
        plan: &'plan ExpressionPlan<P, G>,
        options: ExpressionOptions,
        limits: EngineLimits,
        allocations: (u64, u64, u64),
        reserve: A,
    ) -> (r: Result<Self, ExpressionError>)
        requires
            plan.wf(),
            forall|charge: u64| call_requires(reserve, (charge,)),
        ensures
            r matches Ok(query) ==> query.wf() && query.directory == directory && query.plan == plan
                && query.index is None,
            is_admitted(r, directory@, *plan, options, limits, allocations, reserve),
    {
        let owner = directory.owner;
        if plan.owner != owner || options.generation.owner != owner || options.first_file.owner
            != owner || options.first_revision.owner != owner {
            return Err(ExpressionError::Search(PagedSearchError::OwnerMismatch));
        }
        if options.max_matches > MAX_STREAM_RESULTS || allocations.0 == allocations.1
            || allocations.0 == allocations.2 || allocations.1 == allocations.2 {
            return Err(ExpressionError::InvalidLimits);
        }
        let count: usize = directory.members.len();
        let last: u64 = if count > 0 {
            (count - 1) as u64
        } else {
            0
        };
        if options.first_file.value > u64::MAX - last || options.first_revision.value > u64::MAX
            - last {
            return Err(ExpressionError::IdentityExhausted);
        }
        let hit: u128 = wide_size::<ExpressionHit>();
        assert(0 <= options.max_matches * hit <= 4096 * hit) by (nonlinear_arith)
            requires
                0 <= options.max_matches <= 4096,
                hit >= 0,
        ;
        let charge: u128 = options.max_matches as u128 * hit + wide_size::<
            ExpressionQuery<P, G>,
        >()
            + 524_288;
        assert(charge == expression_charge::<P, G>(options.max_matches as int));
        if charge > usize::MAX as u128 {
            return Err(ExpressionError::ResourceDenied);
        }
        if !reserve(charge as u64) {
            return Err(ExpressionError::ResourceDenied);
        }
        let stats = ExpressionStats {
            metadata_examined: 0,
            scope_files: 0,
            metadata_excluded: 0,
            unavailable_files: 0,
            members_loaded: 0,
            loaded_bytes: 0,
            peak_member_bytes: 0,
            predicate_scans: 0,
            predicate_rejections: 0,
            primary_scans: 0,
            unsupported_files: 0,
            scanned_bytes: 0,
            last_step_scanned_bytes: 0,
            index_eliminated: 0,
            index_candidates: 0,
            index_fallbacks: 0,
        };
        let core = ExpressionCore {
            options,
            limits,
            scope_at: 0,
            next: 0,
            term: 0,
            seen: 0,
            state: ExpressionState::Pending,
            stats,
        };
        let query = ExpressionQuery {
            directory,
            plan,
            index: None,
            core,
            active: None,
            hits: Vec::new(),
        };
        assert(query@.hits =~= Seq::empty());
        Ok(query)
    }

    /// A query that spares members of which an index proves that the term whose
    /// occurrences count is missing. Nothing else is spared.
    pub fn new_indexed<A: FnOnce(u64) -> bool>(
        directory: &'archive SnapshotDirectory,
        plan: &'plan ExpressionPlan<P, G>,
        index: &'plan SnapshotIndex,
        options: ExpressionOptions,
        limits: EngineLimits,
        allocations: (u64, u64, u64),
        reserve: A,
    ) -> (r: Result<Self, ExpressionError>)
        requires
            plan.wf(),
            index@.wf(),
            forall|charge: u64| call_requires(reserve, (charge,)),
        ensures
            r matches Ok(query) ==> query.wf() && query.directory == directory && query.plan == plan
                && query.index == Some(index),
            match index@.directory_error(directory@) {
                Some(e) => r matches Err(f) && f == ExpressionError::Index(e),
                None => is_admitted(r, directory@, *plan, options, limits, allocations, reserve),
            },
    {
        match index.validate_directory(directory) {
            Ok(()) => {},
            Err(e) => {
                return Err(ExpressionError::Index(e));
            },
        }
        match ExpressionQuery::new(directory, plan, options, limits, allocations, reserve) {
            Ok(query) => {
                let mut query = query;
                query.index = Some(index);
                Ok(query)
            },
            Err(e) => Err(e),
        }
    }

    fn advance<
        E: FnMut(&Vec<u8>) -> String,
        F: FnMut(&str, &P) -> bool,
        H: FnMut(&str, &G) -> bool,
        L: FnMut(usize) -> Result<VerifiedMember, PagedSnapshotError>,
        A: FnOnce(u64) -> bool,
        D: FnMut(&Vec<u8>) -> SourceEncoding,
        V: FnMut(&Vec<u8>, usize, SourceEncoding, u64) -> Result<Option<u64>, SourceError>,
        M: FnMut(&Vec<u8>, &Vec<u8>, usize, usize, usize, usize) -> Result<ByteBatch, StreamError>,
        C: FnMut() -> bool,
    >(
        &mut self,
        step: StreamReadStep,
        escape: &mut E,
        paths: &mut F,
        langs: &mut H,
        load: &mut L,
        reserve: A,
        detect: &mut D,
        check: &mut V,
        search: &mut M,
        canceled: &mut C,
    ) -> (r: Result<(), ExpressionError>)
        requires
            old(self).wf(),
            forall|path: &Vec<u8>| call_requires(*old(escape), (path,)),
            forall|key: &str, filters: &P| call_requires(*old(paths), (key, filters)),
            forall|key: &str, filters: &G| call_requires(*old(langs), (key, filters)),
            forall|n: usize| call_requires(*old(load), (n,)),
            forall|charge: u64| call_requires(reserve, (charge,)),
            forall|bytes: &Vec<u8>| call_requires(*old(detect), (bytes,)),
            forall|bytes: &Vec<u8>, n: usize, e: SourceEncoding, base: u64|
                call_requires(*old(check), (bytes, n, e, base)),
            matcher_ok(*old(search)),
            call_requires(*old(canceled), ()),
        ensures
            *final(escape) == *old(escape),
            *final(paths) == *old(paths),
            *final(langs) == *old(langs),
            *final(load) == *old(load),
            *final(detect) == *old(detect),
            *final(check) == *old(check),
            *final(search) == *old(search),
            *final(canceled) == *old(canceled),
            final(self).wf(),
            final(self).same_job(*old(self)),
            expression_advances(
                old(self)@,
                old(self).job(),
                step,
                admission(old(self).plan.syntax, *old(escape), *old(paths), *old(langs)),
                *old(load),
                reserve,
                *old(detect),
                *old(check),
                *old(search),
                *old(canceled),
                final(self)@,
                r,
            ),
    {
        if self.core.scope_at < self.directory.members.len() {
            let at: usize = self.core.scope_at;
            let member = &self.directory.members[at];
            assert(self.directory@.members[at as int] == member@);
            let admitted = self.plan.admits(&member.path, escape, paths, langs);
            assert(passes(
                self.plan.syntax,
                *old(escape),
                *old(paths),
                *old(langs),
                &member.path,
                admitted,
            ));
            assert(filtered(
                admission(old(self).plan.syntax, *old(escape), *old(paths), *old(langs)),
                member@.path,
                admitted,
            ));
            self.core.scope_at = at + 1;
            self.core.stats.metadata_examined = self.core.stats.metadata_examined.wrapping_add(1);
            if admitted {
                self.core.stats.scope_files = self.core.stats.scope_files.wrapping_add(1);
                match member.data {
                    PagedMemberData::Unavailable => {
                        self.core.stats.unavailable_files =
                        self.core.stats.unavailable_files.wrapping_add(1);
                    },
                    PagedMemberData::Captured { byte_length: _, digest: _ } => {},
                }
            } else {
                self.core.stats.metadata_excluded =
                self.core.stats.metadata_excluded.wrapping_add(1);
            }
            assert(self@ == old(self)@.examined(admitted, member@));
            return Ok(());
        }
        if self.active.is_none() {
            return self.take_next(escape, paths, langs, load, reserve, detect, check);
        }
        self.go_on(step, reserve, detect, check, search, canceled)
    }

    /// Looks at one record, or loads one member, or lets the matcher go on once.
    pub fn step<
        E: FnMut(&Vec<u8>) -> String,
        F: FnMut(&str, &P) -> bool,
        H: FnMut(&str, &G) -> bool,
        L: FnMut(usize) -> Result<VerifiedMember, PagedSnapshotError>,
        A: FnOnce(u64) -> bool,
        D: FnMut(&Vec<u8>) -> SourceEncoding,
        V: FnMut(&Vec<u8>, usize, SourceEncoding, u64) -> Result<Option<u64>, SourceError>,
        M: FnMut(&Vec<u8>, &Vec<u8>, usize, usize, usize, usize) -> Result<ByteBatch, StreamError>,
        C: FnMut() -> bool,
    >(
        &mut self,
        step: StreamReadStep,
        generation: QueryGeneration,
        escape: &mut E,
        paths: &mut F,
        langs: &mut H,
        load: &mut L,
        reserve: A,
        detect: &mut D,
        check: &mut V,
        search: &mut M,
        canceled: &mut C,
    ) -> (r: Result<ExpressionState, ExpressionError>)
        requires
            old(self).wf(),
            forall|path: &Vec<u8>| call_requires(*old(escape), (path,)),
            forall|key: &str, filters: &P| call_requires(*old(paths), (key, filters)),
            forall|key: &str, filters: &G| call_requires(*old(langs), (key, filters)),
            forall|n: usize| call_requires(*old(load), (n,)),
            forall|charge: u64| call_requires(reserve, (charge,)),
            forall|bytes: &Vec<u8>| call_requires(*old(detect), (bytes,)),
            forall|bytes: &Vec<u8>, n: usize, e: SourceEncoding, base: u64|
                call_requires(*old(check), (bytes, n, e, base)),
            matcher_ok(*old(search)),
            call_requires(*old(canceled), ()),
        ensures
            *final(escape) == *old(escape),
            *final(paths) == *old(paths),
            *final(langs) == *old(langs),
            *final(load) == *old(load),
            *final(detect) == *old(detect),
            *final(check) == *old(check),
            *final(search) == *old(search),
            *final(canceled) == *old(canceled),
            final(self).wf(),
            final(self).same_job(*old(self)),
            expression_steps(
                old(self)@,
                old(self).job(),
                step,
                generation,
                admission(old(self).plan.syntax, *old(escape), *old(paths), *old(langs)),
                *old(load),
                reserve,
                *old(detect),
                *old(check),
                *old(search),
                *old(canceled),
                final(self)@,
                r,
            ),
    {
        self.core.stats.last_step_scanned_bytes = 0;
        let ghost fresh = self@;
        if generation != self.core.options.generation {
            self.cancel();
            return Err(ExpressionError::StaleQuery);
        }
        if canceled() {
            self.cancel();
            return Err(ExpressionError::Canceled);
        }
        match self.core.state {
            ExpressionState::Pending => {},
            _ => {
                return Ok(self.core.state);
            },
        }
        if step.max_bytes == 0 || step.max_calls == 0 || step.max_hits == 0 {
            return Ok(self.core.state);
        }
        let worked = self.advance(
            step,
            escape,
            paths,
            langs,
            load,
            reserve,
            detect,
            check,
            search,
            canceled,
        );
        let ghost after = self@;
        assert(expression_advances(
            fresh,
            old(self).job(),
            step,
            admission(old(self).plan.syntax, *old(escape), *old(paths), *old(langs)),
            *old(load),
            reserve,
            *old(detect),
            *old(check),
            *old(search),
            *old(canceled),
            after,
            worked,
        ));
        if canceled() {
            self.cancel();
            return Err(ExpressionError::Canceled);
        }
        if let Err(error) = worked {
            self.active = None;
            self.core.state = ExpressionState::Failed(error);
            assert(self@ == after.stopped(ExpressionState::Failed(error)));
            return Err(error);
        }
        Ok(self.core.state)
    }

    pub fn state(&self) -> (r: ExpressionState)
        ensures
            r == self@.core.state,
    {
        self.core.state
    }

    pub fn stats(&self) -> (r: ExpressionStats)
        ensures
            r == self@.core.stats,
    {
        self.core.stats
    }

    pub fn cancel(&mut self)
        requires
            old(self).wf(),
        ensures
            final(self).wf(),
            final(self).same_job(*old(self)),
            final(self)@ == old(self)@.stopped(ExpressionState::Canceled),
    {
        self.active = None;
        self.core.state = ExpressionState::Canceled;
    }

    /// What the query found, once it is over.
    pub fn finish(self) -> (r: Result<ExpressionReport, ExpressionError>)
        ensures
            match self@.core.state {
                ExpressionState::Pending => r matches Err(e) && e == ExpressionError::Pending,
                ExpressionState::Canceled => r matches Err(e) && e == ExpressionError::Canceled,
                ExpressionState::Failed(error) => r matches Err(e) && e == error,
                _ => r matches Ok(report) && report.reports(self@, self.directory@),
            },
    {
        match self.core.state {
            ExpressionState::Pending => {
                return Err(ExpressionError::Pending);
            },
            ExpressionState::Canceled => {
                return Err(ExpressionError::Canceled);
            },
            ExpressionState::Failed(error) => {
                return Err(error);
            },
            _ => {},
        }
        Ok(
            ExpressionReport {
                archive: self.directory.digest,
                generation: self.core.options.generation,
                discovery_complete: self.directory.discovery_complete,
                state: self.core.state,
                hits: self.hits,
                seen: self.core.seen,
                stats: self.core.stats,
            },
        )
    }
}

/// What a query found.
#[derive(Debug)]
pub struct ExpressionReport {
    pub archive: Sha256Digest,
    pub generation: QueryGeneration,
    pub discovery_complete: bool,
    pub state: ExpressionState,
    pub hits: Vec<ExpressionHit>,
    pub seen: u64,
    pub stats: ExpressionStats,
}

impl ExpressionReport {
    /// Whether a report is that of a query.
    pub open spec fn reports(self, m: ExpressionModel, directory: DirectoryModel) -> bool {
        &&& self.archive.data() == directory.digest
        &&& self.generation == m.core.options.generation
        &&& self.discovery_complete == directory.discovery_complete
        &&& self.state == m.core.state
        &&& self.hits@ == m.hits
        &&& self.seen == m.core.seen
        &&& self.stats == m.core.stats
    }

    pub fn hits(&self) -> (r: &Vec<ExpressionHit>)
        ensures
            *r == self.hits,
    {
        &self.hits
    }

    pub fn matches_seen(&self) -> (r: u64)
        ensures
            r == self.seen,
    {
        self.seen
    }

    pub fn stats(&self) -> (r: ExpressionStats)
        ensures
            r == self.stats,
    {
        self.stats
    }

    pub fn state(&self) -> (r: ExpressionState)
        ensures
            r == self.state,
    {
        self.state
    }

    /// Whether every member within the filters was found, saved and searched.
    pub fn is_complete(&self) -> (r: bool)
        ensures
            r == (self.state is Complete && self.discovery_complete && self.stats.unavailable_files
                == 0 && self.stats.unsupported_files == 0),
    {
        let over = match self.state {
            ExpressionState::Complete => true,
            _ => false,
        };
        over && self.discovery_complete && self.stats.unavailable_files == 0
            && self.stats.unsupported_files == 0
    }

    pub fn archive_digest(&self) -> (r: Sha256Digest)
        ensures
            r == self.archive,
    {
        self.archive
    }

    pub fn validate_delivery(&self, archive: &Sha256Digest, generation: QueryGeneration) -> (r:
        Result<(), ExpressionError>)
        ensures
            r == (if self.archive.data() != archive.data() || self.generation != generation {
                Err::<(), ExpressionError>(ExpressionError::StaleQuery)
            } else {
                Ok(())
            }),
    {
        if !self.archive.same(archive) || self.generation != generation {
            return Err(ExpressionError::StaleQuery);
        }
        Ok(())
    }
}

/// A member matches a term, as far as its whole bytes tell, exactly if the term
/// is there where it must be and missing where it must be: a complete search is
/// never left undecided.
pub proof fn complete_searches_decide(found: bool, required: bool)
    ensures
        verdict(found, true, required) == (if found == required {
            TermVerdict::Accept
        } else {
            TermVerdict::Reject
        }),
{
}

/// A search that stopped early says no more than it saw: it rejects only for a
/// term that it found though it must be missing, and accepts only a term that
/// it found.
pub proof fn partial_searches_claim_nothing_unseen(found: bool, required: bool)
    ensures
        verdict(found, false, required) is Reject ==> found && !required,
        verdict(found, false, required) is Accept ==> found && required,
{
}

/// An indexed query drops a member without loading it only where the index says
/// that the member cannot hold the term whose occurrences count.
pub proof fn index_drops_only_proved_absences<
    L: FnMut(usize) -> Result<VerifiedMember, PagedSnapshotError>,
    A: FnOnce(u64) -> bool,
    D: FnMut(&Vec<u8>) -> SourceEncoding,
    V: FnMut(&Vec<u8>, usize, SourceEncoding, u64) -> Result<Option<u64>, SourceError>,
>(
    m: ExpressionModel,
    job: ExpressionJob,
    ordinal: usize,
    load: L,
    reserve: A,
    detect: D,
    check: V,
    end: ExpressionModel,
    r: Result<(), ExpressionError>,
)
    requires
        m.active is None,
        m.core.state is Pending,
        member_taken(m, job, ordinal, load, reserve, detect, check, end, r),
        r is Ok,
        end.active is None,
    ensures
        end.core.state is WorkLimit || (job.index matches Some(index) && index.text_answer(
            ordinal as int,
            Some(job.primary),
        ) is Excluded),
{
}

} // verus!
