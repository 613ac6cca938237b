//! A query over all members of a saved snapshot.
use vstd::layout::size_of;
use vstd::prelude::*;

use crate::envelope::Sha256Digest;
use crate::identity::{FileId, QueryGeneration, SourceRevision};
use crate::memory::wide_size;
use crate::search::archive::{
    captured_bound, captured_from, DirectoryModel, PagedMemberData, PagedSnapshotError,
    SnapshotDirectory,
};
use crate::search::member_scan::{member_replies, LoadedModel, MemberScan, VerifiedMember};
use crate::search::paged_snapshot::{PagedHit, PagedSearchError};
use crate::search::source::{CaptureRequest, SourceEncoding, SourceError, StreamError};
use crate::search::streaming::report::{is_started, started};
use crate::search::streaming::stepping::{matcher_ok, steps};
use crate::search::streaming::{
    ByteBatch, NeedleModel, ReaderSearch, SearchModel, StreamReadError, StreamReadOptions,
    StreamReadState, StreamReadStep, StreamingNeedle, MAX_STREAM_RESULTS,
};

verus! {

broadcast use crate::model::group_views;

#[derive(Clone, Copy, Debug, PartialEq, Eq, Structural)]
pub struct PagedQueryOptions {
    pub generation: QueryGeneration,
    pub first_file: FileId,
    pub first_revision: SourceRevision,
    pub max_matches: usize,
}

#[derive(Clone, Copy, Debug, PartialEq, Eq, Structural)]
pub enum PagedQueryState {
    Pending,
    Complete,
    Truncated,
    Canceled,
    Failed(PagedSearchError),
}

#[derive(Clone, Copy, Debug, PartialEq, Eq, Structural)]
pub struct PagedQueryStats {
    pub members_visited: usize,
    pub files_searched: usize,
    pub unsupported_files: usize,
    pub scanned_bytes: u64,
    pub peak_source_bytes: usize,
    pub last_step_loaded_bytes: usize,
    pub last_step_scanned_bytes: u64,
}

/// What the host's engines allow.
#[derive(Clone, Copy, Debug)]
pub struct EngineLimits {
    /// The longest literal that the matcher takes.
    pub needle_bytes: usize,
    /// The most reads of one member.
    pub read_calls: u64,
}

/// Where a query stands, apart from the member at hand and the hits.
#[derive(Clone, Copy, Debug)]
pub struct PagedCore {
    pub options: PagedQueryOptions,
    pub limits: EngineLimits,
    pub next: usize,
    pub matches_seen: u64,
    pub state: PagedQueryState,
    pub stats: PagedQueryStats,
}

/// A query that goes on step by step.
#[derive(Debug)]
pub struct PagedQuery<'archive, 'needle> {
    pub directory: &'archive SnapshotDirectory,
    pub needle: &'needle StreamingNeedle,
    pub core: PagedCore,
    pub active: Option<MemberScan<'needle>>,
    pub hits: Vec<PagedHit>,
}

/// The model of a query.
pub ghost struct PagedModel {
    pub core: PagedCore,
    pub active: Option<(SearchModel, LoadedModel)>,
    pub hits: Seq<PagedHit>,
}

/// The model of the member at hand.
pub open spec fn scan_of(active: Option<MemberScan>) -> Option<(SearchModel, LoadedModel)> {
    match active {
        Some(scan) => Some((scan.search@, scan.member@)),
        None => None,
    }
}

impl<'archive, 'needle> View for PagedQuery<'archive, 'needle> {
    type V = PagedModel;

    open spec fn view(&self) -> PagedModel {
        PagedModel { core: self.core, active: scan_of(self.active), hits: self.hits@ }
    }
}

/// Why a query is not admitted.
pub open spec fn query_error(
    directory: DirectoryModel,
    options: PagedQueryOptions,
    allocations: (u64, u64, u64),
) -> Option<PagedSearchError> {
    let last = if directory.members.len() > 0 {
        directory.members.len() - 1
    } else {
        0
    };
    if options.generation.owner != directory.owner || options.first_file.owner != directory.owner
        || options.first_revision.owner != directory.owner {
        Some(PagedSearchError::OwnerMismatch)
    } else if options.max_matches > MAX_STREAM_RESULTS || allocations.0 == allocations.1
        || allocations.0 == allocations.2 || allocations.1 == allocations.2 {
        Some(PagedSearchError::InvalidLimits)
    } else if options.first_file.value + last > u64::MAX || options.first_revision.value + last
        > u64::MAX {
        Some(PagedSearchError::IdentityExhausted)
    } else {
        None
    }
}

/// Bytes charged for the results of a query.
pub open spec fn query_charge(max_matches: int) -> int {
    max_matches * size_of::<PagedHit>() + size_of::<PagedQuery>()
}

/// A query that has visited nothing.
pub open spec fn fresh_query(options: PagedQueryOptions, limits: EngineLimits) -> PagedModel {
    PagedModel {
        core: PagedCore {
            options,
            limits,
            next: 0,
            matches_seen: 0,
            state: PagedQueryState::Pending,
            stats: PagedQueryStats {
                members_visited: 0,
                files_searched: 0,
                unsupported_files: 0,
                scanned_bytes: 0,
                peak_source_bytes: 0,
                last_step_loaded_bytes: 0,
                last_step_scanned_bytes: 0,
            },
        },
        active: None,
        hits: Seq::empty(),
    }
}

impl PagedModel {
    pub open spec fn wf(self, directory: DirectoryModel) -> bool {
        &&& directory.members.len() <= usize::MAX
        &&& self.core.next <= directory.members.len()
        &&& self.core.stats.members_visited == self.core.next
        &&& self.core.stats.files_searched + self.core.stats.unsupported_files + if self.active
            is Some {
            1int
        } else {
            0int
        } <= self.core.next
        &&& self.core.options.first_file.value + directory.members.len() <= u64::MAX + 1
        &&& self.core.options.first_revision.value + directory.members.len() <= u64::MAX + 1
        &&& self.hits.len() <= self.core.options.max_matches <= MAX_STREAM_RESULTS
        &&& self.active matches Some((search, member)) ==> {
            &&& search.wf()
            &&& search.core.length == member.bytes.len()
            &&& search.core.options.max_matches == self.core.options.max_matches
                - self.hits.len()
        }
    }

    pub open spec fn with_state(self, state: PagedQueryState) -> PagedModel {
        PagedModel { core: PagedCore { state, ..self.core }, ..self }
    }

    /// Nothing more is done.
    pub open spec fn stopped(self, state: PagedQueryState) -> PagedModel {
        PagedModel { core: PagedCore { state, ..self.core }, active: None, ..self }
    }

    pub open spec fn visited(self) -> PagedModel {
        PagedModel {
            core: PagedCore {
                next: (self.core.next + 1) as usize,
                stats: PagedQueryStats {
                    members_visited: (self.core.stats.members_visited + 1) as usize,
                    ..self.core.stats
                },
                ..self.core
            },
            ..self
        }
    }

    pub open spec fn loaded(self, length: usize) -> PagedModel {
        PagedModel {
            core: PagedCore {
                stats: PagedQueryStats {
                    peak_source_bytes: if length > self.core.stats.peak_source_bytes {
                        length
                    } else {
                        self.core.stats.peak_source_bytes
                    },
                    last_step_loaded_bytes: length,
                    ..self.core.stats
                },
                ..self.core
            },
            ..self
        }
    }

    /// The request and the limits for the search of a member.
    pub open spec fn request(self, ordinal: int) -> CaptureRequest {
        CaptureRequest {
            file: FileId {
                owner: self.core.options.first_file.owner,
                value: (self.core.options.first_file.value + ordinal) as u64,
            },
            revision: SourceRevision {
                owner: self.core.options.first_file.owner,
                value: (self.core.options.first_revision.value + ordinal) as u64,
            },
            range: None,
        }
    }

    pub open spec fn search_options(self, length: usize) -> StreamReadOptions {
        StreamReadOptions {
            generation: self.core.options.generation,
            encoding: None,
            max_matches: (self.core.options.max_matches - self.hits.len()) as usize,
            max_bytes: length as u64,
            max_read_calls: self.core.limits.read_calls,
        }
    }

    pub open spec fn scanned(self, bytes: u64) -> PagedModel {
        PagedModel {
            core: PagedCore {
                stats: PagedQueryStats {
                    scanned_bytes: self.core.stats.scanned_bytes.wrapping_add(bytes),
                    last_step_scanned_bytes: bytes,
                    ..self.core.stats
                },
                ..self.core
            },
            ..self
        }
    }

    /// The hit that an occurrence in a member makes.
    pub open spec fn hit_of(self, search: SearchModel, member: LoadedModel, i: int) -> PagedHit {
        PagedHit {
            ordinal: member.ordinal,
            file: search.core.request.file,
            revision: search.core.request.revision,
            generation: self.core.options.generation,
            range: search.hits[i].range,
            archive: member.archive,
            source: member.source,
        }
    }

    /// After the search of a member is over.
    pub open spec fn ended(self, search: SearchModel, member: LoadedModel) -> (
        PagedModel,
        Result<(), PagedSearchError>,
    ) {
        let done = PagedModel { active: None, ..self };
        match search.core.state {
            StreamReadState::Complete => (done.found(search, member), Ok(())),
            StreamReadState::Truncated => (
                done.found(search, member).with_state(PagedQueryState::Truncated),
                Ok(()),
            ),
            StreamReadState::UnsupportedText => (
                PagedModel {
                    core: PagedCore {
                        stats: PagedQueryStats {
                            unsupported_files: (self.core.stats.unsupported_files + 1) as usize,
                            ..self.core.stats
                        },
                        ..self.core
                    },
                    ..done
                },
                Ok(()),
            ),
            StreamReadState::Canceled => (done, Err(PagedSearchError::Canceled)),
            StreamReadState::Failed(e) => (done, Err(PagedSearchError::Search(e))),
            _ => (done, Err(PagedSearchError::IncompleteInput)),
        }
    }

    /// After the hits of a member were taken.
    pub open spec fn found(self, search: SearchModel, member: LoadedModel) -> PagedModel {
        PagedModel {
            core: PagedCore {
                matches_seen: self.core.matches_seen.wrapping_add(search.core.matches_seen),
                stats: PagedQueryStats {
                    files_searched: (self.core.stats.files_searched + 1) as usize,
                    ..self.core.stats
                },
                ..self.core
            },
            hits: self.hits + Seq::new(
                search.hits.len(),
                |i: int| self.hit_of(search, member, i),
            ),
            ..self
        }
    }
}

/// Whether a member that was loaded may be put to the search so.
pub open spec fn puts<
    A: FnOnce(u64) -> bool,
    D: FnMut(&Vec<u8>) -> SourceEncoding,
    V: FnMut(&Vec<u8>, usize, SourceEncoding, u64) -> Result<Option<u64>, SourceError>,
>(
    m: PagedModel,
    member: LoadedModel,
    ordinal: int,
    needle: NeedleModel,
    reserve: A,
    detect: D,
    check: V,
    end: PagedModel,
    r: Result<(), PagedSearchError>,
) -> bool {
    let length = member.bytes.len() as usize;
    let ready = m.loaded(length);
    exists|begun: Result<SearchModel, StreamReadError>|
        #[trigger] is_started(
            begun,
            ready.request(ordinal),
            length as u64,
            needle,
            ready.search_options(length),
            m.core.limits.needle_bytes as int,
            reserve,
            detect,
            check,
        ) && match begun {
            Err(e) => end == ready && r == Err::<(), PagedSearchError>(PagedSearchError::Search(e)),
            Ok(search) => end == (PagedModel { active: Some((search, member)), ..ready }) && r is Ok,
        }
}

/// Whether the next member may be taken up so.
pub open spec fn takes_up<
    L: FnMut(usize) -> Result<VerifiedMember, PagedSnapshotError>,
    A: FnOnce(u64) -> bool,
    D: FnMut(&Vec<u8>) -> SourceEncoding,
    V: FnMut(&Vec<u8>, usize, SourceEncoding, u64) -> Result<Option<u64>, SourceError>,
>(
    m: PagedModel,
    directory: DirectoryModel,
    needle: NeedleModel,
    load: L,
    reserve: A,
    detect: D,
    check: V,
    end: PagedModel,
    r: Result<(), PagedSearchError>,
) -> bool {
    if m.core.next >= directory.members.len() {
        end == m.with_state(PagedQueryState::Complete) && r is Ok
    } else {
        let ordinal = m.core.next;
        let next = m.visited();
        if directory.members[ordinal as int].data is Unavailable {
            end == next && r is Ok
        } else {
            exists|answer: Result<VerifiedMember, PagedSnapshotError>|
                #[trigger] call_ensures(load, (ordinal,), answer) && match answer {
                    Err(e) => end == next && r == Err::<(), PagedSearchError>(
                        PagedSearchError::Archive(e),
                    ),
                    Ok(member) => puts(
                        next,
                        member@,
                        ordinal as int,
                        needle,
                        reserve,
                        detect,
                        check,
                        end,
                        r,
                    ),
                }
        }
    }
}

/// Whether the search of the member at hand may go on so.
pub open spec fn searches_on<
    D: FnMut(&Vec<u8>) -> SourceEncoding,
    V: FnMut(&Vec<u8>, usize, SourceEncoding, u64) -> Result<Option<u64>, SourceError>,
    M: FnMut(&Vec<u8>, &Vec<u8>, usize, usize, usize, usize) -> Result<ByteBatch, StreamError>,
    C: FnMut() -> bool,
>(
    m: PagedModel,
    needle: NeedleModel,
    step: StreamReadStep,
    detect: D,
    check: V,
    search: M,
    canceled: C,
    end: PagedModel,
    r: Result<(), PagedSearchError>,
) -> bool {
    m.active matches Some((before, member)) && exists|
        after: SearchModel,
        said: Result<StreamReadState, StreamReadError>,
    |
        #[trigger] steps(
            before,
            needle,
            step,
            m.core.options.generation,
            member_replies(member.bytes, before.core.stats.bytes_read as int),
            detect,
            check,
            search,
            canceled,
            after,
            said,
        ) && match said {
            Err(e) => end == (PagedModel { active: None, ..m }) && r == Err::<
                (),
                PagedSearchError,
            >(PagedSearchError::Search(e)),
            Ok(state) => {
                let counted = m.scanned(
                    after.core.stats.scanned_bytes.wrapping_sub(before.core.stats.scanned_bytes),
                );
                if state is Pending {
                    end == (PagedModel { active: Some((after, member)), ..counted }) && r is Ok
                } else {
                    (end, r) == counted.ended(after, member)
                }
            },
        }
}

/// Whether the work of a step may end so.
pub open spec fn query_advances<
    L: FnMut(usize) -> Result<VerifiedMember, PagedSnapshotError>,
    A: FnOnce(u64) -> bool,
    D: FnMut(&Vec<u8>) -> SourceEncoding,
    V: FnMut(&Vec<u8>, usize, SourceEncoding, u64) -> Result<Option<u64>, SourceError>,
    M: FnMut(&Vec<u8>, &Vec<u8>, usize, usize, usize, usize) -> Result<ByteBatch, StreamError>,
    C: FnMut() -> bool,
>(
    m: PagedModel,
    directory: DirectoryModel,
    needle: NeedleModel,
    step: StreamReadStep,
    load: L,
    reserve: A,
    detect: D,
    check: V,
    search: M,
    canceled: C,
    end: PagedModel,
    r: Result<(), PagedSearchError>,
) -> bool {
    if m.active is Some {
        searches_on(m, needle, step, detect, check, search, canceled, end, r)
    } else {
        ||| (r is Err || end.active is None) && takes_up(
            m,
            directory,
            needle,
            load,
            reserve,
            detect,
            check,
            end,
            r,
        )
        ||| exists|taken: PagedModel, ok: Result<(), PagedSearchError>|
            ok is Ok && taken.active is Some && #[trigger] takes_up(
                m,
                directory,
                needle,
                load,
                reserve,
                detect,
                check,
                taken,
                ok,
            ) && searches_on(taken, needle, step, detect, check, search, canceled, end, r)
    }
}

impl<'archive, 'needle> PagedQuery<'archive, 'needle> {
    pub open spec fn wf(self) -> bool {
        self@.wf(self.directory@) && (self.active matches Some(scan) ==> scan.search.needle
            == self.needle)
    }

    /// A query over a directory. The identities of files and revisions come from
    /// intervals that the host sets aside.
    pub fn new<A: FnOnce(u64) -> bool>(
        directory: &'archive SnapshotDirectory,
        needle: &'needle StreamingNeedle,
        options: PagedQueryOptions,
        limits: EngineLimits,
        allocations: (u64, u64, u64),
        reserve: A,
    ) -> (r: Result<Self, PagedSearchError>)
        requires
            forall|charge: u64| call_requires(reserve, (charge,)),
        ensures
            r matches Ok(query) ==> query.wf() && query.directory == directory && query.needle
                == needle,
            match query_error(directory@, options, allocations) {
                Some(e) => r matches Err(f) && f == e,
                None => {
                    let charge = query_charge(options.max_matches as int);
                    ||| (charge > usize::MAX || call_ensures(reserve, (charge as u64,), false)) && (
                    r matches Err(f) && f == PagedSearchError::ResourceDenied)
                    ||| charge <= usize::MAX && call_ensures(reserve, (charge as u64,), true) && (
                    r matches Ok(query) && query@ == fresh_query(options, limits))
                },
            },
    {
        let owner = directory.owner;
        if options.generation.owner != owner || options.first_file.owner != owner
            || options.first_revision.owner != owner {
            return Err(PagedSearchError::OwnerMismatch);
        }
        if options.max_matches > MAX_STREAM_RESULTS || allocations.0 == allocations.1
            || allocations.0 == allocations.2 || allocations.1 == allocations.2 {
            return Err(PagedSearchError::InvalidLimits);
        }
        let count: usize = directory.members.len();
        let last: u64 = if count > 0 {
            (count - 1) as u64
        } else {
            0
        };
        if options.first_file.value > u64::MAX - last || options.first_revision.value > u64::MAX
            - last {
            return Err(PagedSearchError::IdentityExhausted);
        }
        let hit: u128 = wide_size::<PagedHit>();
        assert(0 <= options.max_matches * hit <= 4096 * hit) by (nonlinear_arith)
            requires
                0 <= options.max_matches <= 4096,
                hit >= 0,
        ;
        let charge: u128 = options.max_matches as u128 * hit + wide_size::<PagedQuery>();
        assert(charge == query_charge(options.max_matches as int));
        if charge > usize::MAX as u128 {
            return Err(PagedSearchError::ResourceDenied);
        }
        if !reserve(charge as u64) {
            return Err(PagedSearchError::ResourceDenied);
        }
        let stats = PagedQueryStats {
            members_visited: 0,
            files_searched: 0,
            unsupported_files: 0,
            scanned_bytes: 0,
            peak_source_bytes: 0,
            last_step_loaded_bytes: 0,
            last_step_scanned_bytes: 0,
        };
        let core = PagedCore {
            options,
            limits,
            next: 0,
            matches_seen: 0,
            state: PagedQueryState::Pending,
            stats,
        };
        let query = PagedQuery { directory, needle, core, active: None, hits: Vec::new() };
        assert(query@.hits =~= Seq::empty());
        Ok(query)
    }

    /// Puts a loaded member to the search.
    fn put<
        A: FnOnce(u64) -> bool,
        D: FnMut(&Vec<u8>) -> SourceEncoding,
        V: FnMut(&Vec<u8>, usize, SourceEncoding, u64) -> Result<Option<u64>, SourceError>,
    >(
        &mut self,
        member: VerifiedMember,
        ordinal: usize,
        reserve: A,
        detect: &mut D,
        check: &mut V,
    ) -> (r: Result<(), PagedSearchError>)
        requires
            old(self).wf(),
            old(self)@.active is None,
            ordinal < old(self).directory@.members.len(),
            old(self)@.core.stats.files_searched + old(self)@.core.stats.unsupported_files
                < old(self)@.core.next,
            forall|charge: u64| call_requires(reserve, (charge,)),
            forall|bytes: &Vec<u8>| call_requires(*old(detect), (bytes,)),
            forall|bytes: &Vec<u8>, n: usize, e: SourceEncoding, base: u64|
                call_requires(*old(check), (bytes, n, e, base)),
        ensures
            *final(detect) == *old(detect),
            *final(check) == *old(check),
            final(self).wf(),
            final(self).directory == old(self).directory,
            final(self).needle == old(self).needle,
            final(self)@.core.options == old(self)@.core.options,
            final(self)@.core.limits == old(self)@.core.limits,
            r is Ok ==> final(self)@.active is Some,
            puts(
                old(self)@,
                member@,
                ordinal as int,
                old(self).needle@,
                reserve,
                *old(detect),
                *old(check),
                final(self)@,
                r,
            ),
    {
        let length: usize = member.bytes.len();
        if length > self.core.stats.peak_source_bytes {
            self.core.stats.peak_source_bytes = length;
        }
        self.core.stats.last_step_loaded_bytes = length;
        let ghost ready = self@;
        assert(ready == old(self)@.loaded(length));
        let file = FileId {
            owner: self.core.options.first_file.owner,
            value: self.core.options.first_file.value + ordinal as u64,
        };
        let revision = SourceRevision {
            owner: self.core.options.first_file.owner,
            value: self.core.options.first_revision.value + ordinal as u64,
        };
        let request = CaptureRequest { file, revision, range: None };
        let options = StreamReadOptions {
            generation: self.core.options.generation,
            encoding: None,
            max_matches: self.core.options.max_matches - self.hits.len(),
            max_bytes: length as u64,
            max_read_calls: self.core.limits.read_calls,
        };
        assert(request == ready.request(ordinal as int));
        assert(options == ready.search_options(length));
        let begun = ReaderSearch::new(
            request,
            length as u64,
            self.needle,
            options,
            self.core.limits.needle_bytes,
            reserve,
            detect,
            check,
        );
        let ghost model = started(begun);
        proof {
            lemma_started_job(
                model,
                request,
                length as u64,
                self.needle@,
                options,
                self.core.limits.needle_bytes as int,
                reserve,
                *old(detect),
                *old(check),
            );
        }
        match begun {
            Err(e) => Err(PagedSearchError::Search(e)),
            Ok(search) => {
                self.active = Some(MemberScan { search, member });
                Ok(())
            },
        }
    }
}

/// A search that started is the search that was asked for.
pub proof fn lemma_started_job<
    A: FnOnce(u64) -> bool,
    D: FnMut(&Vec<u8>) -> SourceEncoding,
    V: FnMut(&Vec<u8>, usize, SourceEncoding, u64) -> Result<Option<u64>, SourceError>,
>(
    r: Result<SearchModel, StreamReadError>,
    request: CaptureRequest,
    length: u64,
    needle: NeedleModel,
    options: StreamReadOptions,
    limit: int,
    reserve: A,
    detect: D,
    check: V,
)
    requires
        is_started(r, request, length, needle, options, limit, reserve, detect, check),
    ensures
        r matches Ok(search) ==> search.core.request == request && search.core.length == length
            && search.core.options == options,
{
}

impl<'archive, 'needle> PagedQuery<'archive, 'needle> {
    /// Takes up the next member.
    fn take_up<
        L: FnMut(usize) -> Result<VerifiedMember, PagedSnapshotError>,
        A: FnOnce(u64) -> bool,
        D: FnMut(&Vec<u8>) -> SourceEncoding,
        V: FnMut(&Vec<u8>, usize, SourceEncoding, u64) -> Result<Option<u64>, SourceError>,
    >(&mut self, load: &mut L, reserve: A, detect: &mut D, check: &mut V) -> (r: Result<
        (),
        PagedSearchError,
    >)
        requires
            old(self).wf(),
            old(self)@.active is None,
            forall|n: usize| call_requires(*old(load), (n,)),
            forall|charge: u64| call_requires(reserve, (charge,)),
            forall|bytes: &Vec<u8>| call_requires(*old(detect), (bytes,)),
            forall|bytes: &Vec<u8>, n: usize, e: SourceEncoding, base: u64|
                call_requires(*old(check), (bytes, n, e, base)),
        ensures
            *final(load) == *old(load),
            *final(detect) == *old(detect),
            *final(check) == *old(check),
            final(self).wf(),
            final(self).directory == old(self).directory,
            final(self).needle == old(self).needle,
            final(self)@.core.options == old(self)@.core.options,
            final(self)@.core.limits == old(self)@.core.limits,
            takes_up(
                old(self)@,
                old(self).directory@,
                old(self).needle@,
                *old(load),
                reserve,
                *old(detect),
                *old(check),
                final(self)@,
                r,
            ),
    {
        if self.core.next >= self.directory.members.len() {
            self.core.state = PagedQueryState::Complete;
            return Ok(());
        }
        let ordinal: usize = self.core.next;
        self.core.next = ordinal + 1;
        self.core.stats.members_visited = self.core.stats.members_visited + 1;
        assert(self@ == old(self)@.visited());
        assert(self.directory@.members[ordinal as int] == self.directory.members@[ordinal as int]@);
        match self.directory.members[ordinal].data {
            PagedMemberData::Unavailable => {
                return Ok(());
            },
            PagedMemberData::Captured { byte_length: _, digest: _ } => {},
        }
        let answer = load(ordinal);
        assert(call_ensures(*old(load), (ordinal,), answer));
        match answer {
            Err(e) => Err(PagedSearchError::Archive(e)),
            Ok(member) => self.put(member, ordinal, reserve, detect, check),
        }
    }

    /// Appends the hits of a member.
    fn push_hits(&mut self, search: &ReaderSearch<'needle>, member: &VerifiedMember)
        requires
            search@.hits.len() + old(self)@.hits.len() <= MAX_STREAM_RESULTS,
        ensures
            *final(self) == (PagedQuery { hits: final(self).hits, ..*old(self) }),
            final(self)@.hits == old(self)@.hits + Seq::new(
                search@.hits.len(),
                |i: int| old(self)@.hit_of(search@, member@, i),
            ),
    {
        let ghost before = self@;
        let ghost part = Seq::new(search@.hits.len(), |i: int| before.hit_of(search@, member@, i));
        let mut i: usize = 0;
        assert(self@.hits =~= before.hits + part.subrange(0, 0));
        while i < search.hits.len()
            invariant
                i <= search@.hits.len(),
                before == old(self)@,
                part == Seq::new(
                    search@.hits.len(),
                    |i: int| before.hit_of(search@, member@, i),
                ),
                *self == (PagedQuery { hits: self.hits, ..*old(self) }),
                self@.hits == before.hits + part.subrange(0, i as int),
            decreases search.hits.len() - i,
        {
            let hit = PagedHit {
                ordinal: member.ordinal,
                file: search.core.request.file,
                revision: search.core.request.revision,
                generation: self.core.options.generation,
                range: search.hits[i].range,
                archive: member.archive,
                source: member.source,
            };
            assert(hit == part[i as int]);
            self.hits.push(hit);
            i = i + 1;
            assert(self@.hits =~= before.hits + part.subrange(0, i as int));
        }
        assert(part.subrange(0, i as int) =~= part);
    }

    /// Takes what the search of a member found.
    fn end(&mut self, search: &ReaderSearch<'needle>, member: &VerifiedMember) -> (r: Result<
        (),
        PagedSearchError,
    >)
        requires
            old(self).wf(),
            old(self)@.active is None,
            search@.wf(),
            old(self)@.core.stats.files_searched + old(self)@.core.stats.unsupported_files + 1
                <= old(self)@.core.next,
            search@.core.options.max_matches == old(self)@.core.options.max_matches - old(self)@.hits.len(),
        ensures
            final(self).wf(),
            final(self).directory == old(self).directory,
            final(self).needle == old(self).needle,
            final(self)@.core.options == old(self)@.core.options,
            final(self)@.core.limits == old(self)@.core.limits,
            (final(self)@, r) == old(self)@.ended(search@, member@),
    {
        match search.core.state {
            StreamReadState::Complete => {
                self.core.matches_seen =
                self.core.matches_seen.wrapping_add(search.core.matches_seen);
                self.core.stats.files_searched = self.core.stats.files_searched + 1;
                self.push_hits(search, member);
                assert(self@.hits =~= old(self)@.found(search@, member@).hits);
                assert(self@ == old(self)@.found(search@, member@));
                Ok(())
            },
            StreamReadState::Truncated => {
                self.core.matches_seen =
                self.core.matches_seen.wrapping_add(search.core.matches_seen);
                self.core.stats.files_searched = self.core.stats.files_searched + 1;
                self.push_hits(search, member);
                assert(self@.hits =~= old(self)@.found(search@, member@).hits);
                assert(self@ == old(self)@.found(search@, member@));
                self.core.state = PagedQueryState::Truncated;
                Ok(())
            },
            StreamReadState::UnsupportedText => {
                self.core.stats.unsupported_files = self.core.stats.unsupported_files + 1;
                Ok(())
            },
            StreamReadState::Canceled => Err(PagedSearchError::Canceled),
            StreamReadState::Failed(e) => Err(PagedSearchError::Search(e)),
            _ => Err(PagedSearchError::IncompleteInput),
        }
    }

    /// Goes on with the member at hand.
    fn search_on<
        D: FnMut(&Vec<u8>) -> SourceEncoding,
        V: FnMut(&Vec<u8>, usize, SourceEncoding, u64) -> Result<Option<u64>, SourceError>,
        M: FnMut(&Vec<u8>, &Vec<u8>, usize, usize, usize, usize) -> Result<ByteBatch, StreamError>,
        C: FnMut() -> bool,
    >(
        &mut self,
        step: StreamReadStep,
        detect: &mut D,
        check: &mut V,
        search: &mut M,
        canceled: &mut C,
    ) -> (r: Result<(), PagedSearchError>)
        requires
            old(self).wf(),
            old(self)@.active is Some,
            forall|bytes: &Vec<u8>| call_requires(*old(detect), (bytes,)),
            forall|bytes: &Vec<u8>, n: usize, e: SourceEncoding, base: u64|
                call_requires(*old(check), (bytes, n, e, base)),
            matcher_ok(*old(search)),
            call_requires(*old(canceled), ()),
        ensures
            *final(detect) == *old(detect),
            *final(check) == *old(check),
            *final(search) == *old(search),
            *final(canceled) == *old(canceled),
            final(self).wf(),
            final(self).directory == old(self).directory,
            final(self).needle == old(self).needle,
            final(self)@.core.options == old(self)@.core.options,
            final(self)@.core.limits == old(self)@.core.limits,
            searches_on(
                old(self)@,
                old(self).needle@,
                step,
                *old(detect),
                *old(check),
                *old(search),
                *old(canceled),
                final(self)@,
                r,
            ),
    {
        let mut scan = match self.active.take() {
            Some(scan) => scan,
            None => {
                return Ok(());
            },
        };
        let ghost before = scan.search@;
        let scanned: u64 = scan.search.core.stats.scanned_bytes;
        let said = scan.step(
            step,
            self.core.options.generation,
            detect,
            check,
            search,
            canceled,
        );
        let ghost after = scan.search@;
        assert(steps(
            before,
            self.needle@,
            step,
            self@.core.options.generation,
            member_replies(scan.member@.bytes, before.core.stats.bytes_read as int),
            *old(detect),
            *old(check),
            *old(search),
            *old(canceled),
            after,
            said,
        ));
        let state = match said {
            Ok(state) => state,
            Err(e) => {
                return Err(PagedSearchError::Search(e));
            },
        };
        let used: u64 = scan.search.core.stats.scanned_bytes.wrapping_sub(scanned);
        self.core.stats.scanned_bytes = self.core.stats.scanned_bytes.wrapping_add(used);
        self.core.stats.last_step_scanned_bytes = used;
        match state {
            StreamReadState::Pending => {
                self.active = Some(scan);
                Ok(())
            },
            _ => {
                let ghost counted = self@;
                let ended = self.end(&scan.search, &scan.member);
                assert(old(self)@.scanned(used).ended(after, scan.member@) == counted.ended(
                    after,
                    scan.member@,
                ));
                ended
            },
        }
    }
}

impl<'archive, 'needle> PagedQuery<'archive, 'needle> {
    fn advance<
        L: FnMut(usize) -> Result<VerifiedMember, PagedSnapshotError>,
        A: FnOnce(u64) -> bool,
        D: FnMut(&Vec<u8>) -> SourceEncoding,
        V: FnMut(&Vec<u8>, usize, SourceEncoding, u64) -> Result<Option<u64>, SourceError>,
        M: FnMut(&Vec<u8>, &Vec<u8>, usize, usize, usize, usize) -> Result<ByteBatch, StreamError>,
        C: FnMut() -> bool,
    >(
        &mut self,
        step: StreamReadStep,
        load: &mut L,
        reserve: A,
        detect: &mut D,
        check: &mut V,
        search: &mut M,
        canceled: &mut C,
    ) -> (r: Result<(), PagedSearchError>)
        requires
            old(self).wf(),
            forall|n: usize| call_requires(*old(load), (n,)),
            forall|charge: u64| call_requires(reserve, (charge,)),
            forall|bytes: &Vec<u8>| call_requires(*old(detect), (bytes,)),
            forall|bytes: &Vec<u8>, n: usize, e: SourceEncoding, base: u64|
                call_requires(*old(check), (bytes, n, e, base)),
            matcher_ok(*old(search)),
            call_requires(*old(canceled), ()),
        ensures
            *final(load) == *old(load),
            *final(detect) == *old(detect),
            *final(check) == *old(check),
            *final(search) == *old(search),
            *final(canceled) == *old(canceled),
            final(self).wf(),
            final(self).directory == old(self).directory,
            final(self).needle == old(self).needle,
            final(self)@.core.options == old(self)@.core.options,
            final(self)@.core.limits == old(self)@.core.limits,
            query_advances(
                old(self)@,
                old(self).directory@,
                old(self).needle@,
                step,
                *old(load),
                reserve,
                *old(detect),
                *old(check),
                *old(search),
                *old(canceled),
                final(self)@,
                r,
            ),
    {
        if self.active.is_none() {
            let taken = self.take_up(load, reserve, detect, check);
            if taken.is_err() || self.active.is_none() {
                return taken;
            }
            assert(takes_up(
                old(self)@,
                self.directory@,
                self.needle@,
                *old(load),
                reserve,
                *old(detect),
                *old(check),
                self@,
                taken,
            ));
        }
        self.search_on(step, detect, check, search, canceled)
    }

    /// Loads at most one member and lets the matcher go on once.
    pub fn step<
        L: FnMut(usize) -> Result<VerifiedMember, PagedSnapshotError>,
        A: FnOnce(u64) -> bool,
        D: FnMut(&Vec<u8>) -> SourceEncoding,
        V: FnMut(&Vec<u8>, usize, SourceEncoding, u64) -> Result<Option<u64>, SourceError>,
        M: FnMut(&Vec<u8>, &Vec<u8>, usize, usize, usize, usize) -> Result<ByteBatch, StreamError>,
        C: FnMut() -> bool,
    >(
        &mut self,
        step: StreamReadStep,
        active_generation: QueryGeneration,
        load: &mut L,
        reserve: A,
        detect: &mut D,
        check: &mut V,
        search: &mut M,
        canceled: &mut C,
    ) -> (r: Result<PagedQueryState, PagedSearchError>)
        requires
            old(self).wf(),
            forall|n: usize| call_requires(*old(load), (n,)),
            forall|charge: u64| call_requires(reserve, (charge,)),
            forall|bytes: &Vec<u8>| call_requires(*old(detect), (bytes,)),
            forall|bytes: &Vec<u8>, n: usize, e: SourceEncoding, base: u64|
                call_requires(*old(check), (bytes, n, e, base)),
            matcher_ok(*old(search)),
            call_requires(*old(canceled), ()),
        ensures
            *final(load) == *old(load),
            *final(detect) == *old(detect),
            *final(check) == *old(check),
            *final(search) == *old(search),
            *final(canceled) == *old(canceled),
            final(self).wf(),
            final(self).directory == old(self).directory,
            final(self).needle == old(self).needle,
            final(self)@.core.options == old(self)@.core.options,
            final(self)@.core.limits == old(self)@.core.limits,
            query_steps(
                old(self)@,
                old(self).directory@,
                old(self).needle@,
                step,
                active_generation,
                *old(load),
                reserve,
                *old(detect),
                *old(check),
                *old(search),
                *old(canceled),
                final(self)@,
                r,
            ),
    {
        self.core.stats.last_step_loaded_bytes = 0;
        self.core.stats.last_step_scanned_bytes = 0;
        let ghost fresh = self@;
        assert(fresh == old(self)@.cleared());
        if active_generation != self.core.options.generation {
            self.cancel();
            return Err(PagedSearchError::StaleQuery);
        }
        if canceled() {
            self.cancel();
            return Err(PagedSearchError::Canceled);
        }
        match self.core.state {
            PagedQueryState::Pending => {},
            _ => {
                return Ok(self.core.state);
            },
        }
        if step.max_bytes == 0 || step.max_calls == 0 || step.max_hits == 0 {
            return Ok(self.core.state);
        }
        let worked = self.advance(step, load, reserve, detect, check, search, canceled);
        let ghost after = self@;
        assert(query_advances(
            fresh,
            self.directory@,
            self.needle@,
            step,
            *old(load),
            reserve,
            *old(detect),
            *old(check),
            *old(search),
            *old(canceled),
            after,
            worked,
        ));
        if let Err(error) = worked {
            self.active = None;
            self.core.state = match error {
                PagedSearchError::Canceled => PagedQueryState::Canceled,
                PagedSearchError::Archive(PagedSnapshotError::Canceled) => PagedQueryState::Canceled,
                _ => PagedQueryState::Failed(error),
            };
            assert(self@ == after.stopped(failed_state(error)));
            return Err(error);
        }
        if canceled() {
            self.cancel();
            return Err(PagedSearchError::Canceled);
        }
        Ok(self.core.state)
    }

    pub fn state(&self) -> (r: PagedQueryState)
        ensures
            r == self@.core.state,
    {
        self.core.state
    }

    pub fn generation(&self) -> (r: QueryGeneration)
        ensures
            r == self@.core.options.generation,
    {
        self.core.options.generation
    }

    pub fn stats(&self) -> (r: PagedQueryStats)
        ensures
            r == self@.core.stats,
    {
        self.core.stats
    }

    pub fn cancel(&mut self)
        requires
            old(self).wf(),
        ensures
            final(self).wf(),
            final(self).directory == old(self).directory,
            final(self).needle == old(self).needle,
            final(self)@.core.options == old(self)@.core.options,
            final(self)@.core.limits == old(self)@.core.limits,
            final(self)@ == old(self)@.stopped(PagedQueryState::Canceled),
    {
        self.core.state = PagedQueryState::Canceled;
        self.active = None;
    }

    /// What the query found, once it is over. Nothing else may be published.
    pub fn finish(self) -> (r: Result<PagedReport, PagedSearchError>)
        ensures
            match self@.core.state {
                PagedQueryState::Pending => r matches Err(e) && e == PagedSearchError::Pending,
                PagedQueryState::Canceled => r matches Err(e) && e == PagedSearchError::Canceled,
                PagedQueryState::Failed(error) => r matches Err(e) && e == error,
                _ => r matches Ok(report) && report.reports(self@, self.directory@),
            },
    {
        match self.core.state {
            PagedQueryState::Pending => {
                return Err(PagedSearchError::Pending);
            },
            PagedQueryState::Canceled => {
                return Err(PagedSearchError::Canceled);
            },
            PagedQueryState::Failed(error) => {
                return Err(error);
            },
            _ => {},
        }
        let truncated = match self.core.state {
            PagedQueryState::Truncated => true,
            _ => false,
        };
        let captured: usize = self.directory.captured_files();
        proof {
            captured_bound(self.directory@.members, 0);
        }
        Ok(
            PagedReport {
                archive: self.directory.digest,
                generation: self.core.options.generation,
                discovery_complete: self.directory.discovery_complete,
                unavailable: self.directory.members.len() - captured,
                truncated,
                hits: self.hits,
                matches_seen: self.core.matches_seen,
                stats: self.core.stats,
            },
        )
    }
}

impl PagedModel {
    /// At the start of a step.
    pub open spec fn cleared(self) -> PagedModel {
        PagedModel {
            core: PagedCore {
                stats: PagedQueryStats {
                    last_step_loaded_bytes: 0,
                    last_step_scanned_bytes: 0,
                    ..self.core.stats
                },
                ..self.core
            },
            ..self
        }
    }
}

/// The state that an error leaves: being told to stop is no failure.
pub open spec fn failed_state(error: PagedSearchError) -> PagedQueryState {
    match error {
        PagedSearchError::Canceled => PagedQueryState::Canceled,
        PagedSearchError::Archive(PagedSnapshotError::Canceled) => PagedQueryState::Canceled,
        _ => PagedQueryState::Failed(error),
    }
}

/// Whether a step may end so.
pub open spec fn query_steps<
    L: FnMut(usize) -> Result<VerifiedMember, PagedSnapshotError>,
    A: FnOnce(u64) -> bool,
    D: FnMut(&Vec<u8>) -> SourceEncoding,
    V: FnMut(&Vec<u8>, usize, SourceEncoding, u64) -> Result<Option<u64>, SourceError>,
    M: FnMut(&Vec<u8>, &Vec<u8>, usize, usize, usize, usize) -> Result<ByteBatch, StreamError>,
    C: FnMut() -> bool,
>(
    m: PagedModel,
    directory: DirectoryModel,
    needle: NeedleModel,
    step: StreamReadStep,
    active: QueryGeneration,
    load: L,
    reserve: A,
    detect: D,
    check: V,
    search: M,
    canceled: C,
    end: PagedModel,
    r: Result<PagedQueryState, PagedSearchError>,
) -> bool {
    let fresh = m.cleared();
    if active != m.core.options.generation {
        end == fresh.stopped(PagedQueryState::Canceled) && (r matches Err(e) && e
            == PagedSearchError::StaleQuery)
    } else {
        ||| end == fresh.stopped(PagedQueryState::Canceled) && (r matches Err(e) && e
            == PagedSearchError::Canceled) && call_ensures(canceled, (), true)
        ||| (!(m.core.state is Pending) || step.max_bytes == 0 || step.max_calls == 0
            || step.max_hits == 0) && end == fresh && (r matches Ok(state) && state == m.core.state)
        ||| m.core.state is Pending && step.max_bytes > 0 && step.max_calls > 0 && step.max_hits
            > 0 && exists|after: PagedModel, ok: Result<(), PagedSearchError>|
            #[trigger] query_advances(
                fresh,
                directory,
                needle,
                step,
                load,
                reserve,
                detect,
                check,
                search,
                canceled,
                after,
                ok,
            ) && match ok {
                Ok(_) => {
                    ||| end == after.stopped(PagedQueryState::Canceled) && (r matches Err(e) && e
                        == PagedSearchError::Canceled) && call_ensures(canceled, (), true)
                    ||| end == after && (r matches Ok(state) && state == after.core.state)
                },
                Err(e) => end == after.stopped(failed_state(e)) && (r matches Err(f) && f == e),
            }
    }
}

/// What a query found.
#[derive(Debug)]
pub struct PagedReport {
    pub archive: Sha256Digest,
    pub generation: QueryGeneration,
    pub discovery_complete: bool,
    pub unavailable: usize,
    pub truncated: bool,
    pub hits: Vec<PagedHit>,
    pub matches_seen: u64,
    pub stats: PagedQueryStats,
}

impl PagedReport {
    /// Whether a report is that of a query.
    pub open spec fn reports(self, m: PagedModel, directory: DirectoryModel) -> bool {
        &&& self.archive.data() == directory.digest
        &&& self.generation == m.core.options.generation
        &&& self.discovery_complete == directory.discovery_complete
        &&& self.unavailable == directory.members.len() - captured_from(directory.members, 0)
        &&& self.truncated == m.core.state is Truncated
        &&& self.hits@ == m.hits
        &&& self.matches_seen == m.core.matches_seen
        &&& self.stats == m.core.stats
    }

    /// Whether every member was found, saved and searched as text, and every hit
    /// kept.
    pub open spec fn complete(self) -> bool {
        self.discovery_complete && self.unavailable == 0 && !self.truncated
            && self.stats.unsupported_files == 0
    }

    pub fn hits(&self) -> (r: &Vec<PagedHit>)
        ensures
            *r == self.hits,
    {
        &self.hits
    }

    pub fn matches_seen(&self) -> (r: u64)
        ensures
            r == self.matches_seen,
    {
        self.matches_seen
    }

    pub fn unavailable_files(&self) -> (r: usize)
        ensures
            r == self.unavailable,
    {
        self.unavailable
    }

    pub fn truncated(&self) -> (r: bool)
        ensures
            r == self.truncated,
    {
        self.truncated
    }

    pub fn stats(&self) -> (r: PagedQueryStats)
        ensures
            r == self.stats,
    {
        self.stats
    }

    pub fn archive_digest(&self) -> (r: Sha256Digest)
        ensures
            r == self.archive,
    {
        self.archive
    }

    pub fn is_complete(&self) -> (r: bool)
        ensures
            r == self.complete(),
    {
        self.discovery_complete && self.unavailable == 0 && !self.truncated
            && self.stats.unsupported_files == 0
    }

    pub fn validate_delivery(&self, archive: &Sha256Digest, generation: QueryGeneration) -> (r:
        Result<(), PagedSearchError>)
        ensures
            r == (if self.archive.data() != archive.data() || self.generation != generation {
                Err::<(), PagedSearchError>(PagedSearchError::StaleQuery)
            } else {
                Ok(())
            }),
    {
        if !self.archive.same(archive) || self.generation != generation {
            return Err(PagedSearchError::StaleQuery);
        }
        Ok(())
    }
}

} // verus!
