//! Building an index, and replacing one over a new snapshot.
//!
//! Segments are reused by source digest and length, never by position or path.
//! The old index stays untouched. Loading a member's bytes and computing its
//! trigrams belong to the host.
pub mod provenance;

use vstd::layout::size_of;
use vstd::prelude::*;

use crate::envelope::Sha256Digest;
use crate::memory::wide_size;
use crate::model::{group_views, views};
use crate::search::archive::{
    DirectoryModel, MemberModel, PagedMember, PagedMemberData, PagedSnapshotError,
    SnapshotDirectory,
};
use crate::search::member_scan::VerifiedMember;
use crate::search::snapshot_index::codec::{
    count_rows, in_order, segments_charge, segments_cost, stats_of, stopped, zero_digest, zeros,
};
use crate::search::snapshot_index::{
    increasing, segments_ok, segments_push, segments_row, Coverage, Row, RowModel,
    SavedIndexStats, SegmentsModel, SnapshotIndex, SnapshotIndexError, MAX_GRAM, MAX_INDEX_GRAMS,
    MAX_INDEX_MEMBERS,
};
use crate::search::source::CompleteCapture;

verus! {

broadcast use group_views;

/// Bounds of the index engine.
#[derive(Clone, Copy, Debug, PartialEq, Eq, Structural)]
pub struct IndexLimits {
    pub max_total_grams: usize,
    pub max_grams_per_file: usize,
    pub max_source_bytes_per_file: usize,
    pub max_source_bytes_total: u64,
    pub max_scratch_bytes: usize,
}

impl IndexLimits {
    pub open spec fn admissible(self) -> bool {
        self.max_total_grams <= MAX_INDEX_GRAMS && self.max_source_bytes_per_file <= 1_048_576
            && self.max_scratch_bytes <= 4_194_304
    }
}

#[derive(Clone, Copy, Debug, PartialEq, Eq, Structural)]
pub struct RefreshStats {
    /// Target members that copied a complete old segment, duplicates included.
    pub reused_files: usize,
    pub reused_source_bytes: u64,
    pub reused_grams: usize,
    /// Target members whose source was loaded to attempt fresh indexing.
    pub attempted_files: usize,
    pub loaded_source_bytes: u64,
    pub rebuilt_files: usize,
    /// Reusable segments refused by the new quotas.
    pub reuse_quota_refusals: usize,
}

impl RefreshStats {
    pub open spec fn zero() -> RefreshStats {
        RefreshStats {
            reused_files: 0,
            reused_source_bytes: 0,
            reused_grams: 0,
            attempted_files: 0,
            loaded_source_bytes: 0,
            rebuilt_files: 0,
            reuse_quota_refusals: 0,
        }
    }
}

/// What the host's engine found in one member.
#[derive(Debug)]
pub struct SegmentImage<G = Vec<u32>> {
    pub indexed: bool,
    pub utf8: bool,
    pub grams: G,
    pub examined: u64,
}

impl View for SegmentImage {
    type V = SegmentImage<Seq<u32>>;

    open spec fn view(&self) -> SegmentImage<Seq<u32>> {
        SegmentImage {
            indexed: self.indexed,
            utf8: self.utf8,
            grams: self.grams@,
            examined: self.examined,
        }
    }
}

/// An index under construction.
#[derive(Debug)]
pub struct Building<R = Vec<Row>, G = Vec<u32>> {
    pub rows: R,
    pub grams: G,
    pub refreshed: RefreshStats,
    pub examined: u64,
}

/// The model of an index under construction.
pub type BuildingModel = Building<Seq<RowModel>, Seq<u32>>;

impl View for Building {
    type V = Building<Seq<RowModel>, Seq<u32>>;

    open spec fn view(&self) -> Building<Seq<RowModel>, Seq<u32>> {
        Building {
            rows: views(self.rows@),
            grams: self.grams@,
            refreshed: self.refreshed,
            examined: self.examined,
        }
    }
}

/// The first old row with a segment of this content, from the `i`th on.
pub open spec fn reusable_from(rows: Seq<RowModel>, digest: Seq<u8>, length: u64, i: int) -> Option<
    int,
>
    decreases rows.len() - i,
{
    if i < 0 || i >= rows.len() {
        None
    } else if rows[i].coverage.has_segment() && rows[i].digest == digest && rows[i].length
        == length {
        Some(i)
    } else {
        reusable_from(rows, digest, length, i + 1)
    }
}

/// The first old row with a segment of this content.
pub open spec fn reusable(prior: Option<SegmentsModel>, digest: Seq<u8>, length: u64) -> Option<int> {
    match prior {
        Some(old) => reusable_from(old.rows, digest, length, 0),
        None => None,
    }
}

/// What happens to one member.
pub ghost enum Treatment {
    Unavailable,
    Reuse(RowModel, Seq<u32>),
    Refuse,
    Attempt,
    Skip,
}

impl BuildingModel {
    pub open spec fn wf(self, k: int, capacity: int) -> bool {
        &&& self.rows.len() == k
        &&& segments_ok(self.rows, self.grams)
        &&& self.grams.len() <= capacity
        &&& self.refreshed.reused_files <= k
        &&& self.refreshed.attempted_files <= k
        &&& self.refreshed.rebuilt_files <= k
        &&& self.refreshed.reuse_quota_refusals <= k
        &&& self.refreshed.reused_grams <= self.grams.len()
        &&& self.refreshed.reused_source_bytes <= k * 1_048_576
        &&& self.refreshed.loaded_source_bytes <= k * 1_048_576
    }

    /// What happens to the next member.
    pub open spec fn treatment(
        self,
        member: MemberModel,
        prior: Option<SegmentsModel>,
        limits: IndexLimits,
        capacity: int,
    ) -> Treatment {
        match member.data {
            PagedMemberData::Unavailable => Treatment::Unavailable,
            PagedMemberData::Captured { byte_length, digest } => match reusable(
                prior,
                digest,
                byte_length as u64,
            ) {
                Some(i) => {
                    let old = prior->Some_0;
                    let row = old.rows[i];
                    if byte_length <= limits.max_source_bytes_per_file && row.count
                        <= limits.max_grams_per_file && row.count <= capacity - self.grams.len() {
                        Treatment::Reuse(row, old.grams.subrange(row.start as int, old.end_of(i)))
                    } else {
                        Treatment::Refuse
                    }
                },
                None => if byte_length <= limits.max_source_bytes_per_file && (if byte_length < 2 {
                    0
                } else {
                    byte_length - 2
                }) <= limits.max_scratch_bytes / 4 && byte_length
                    <= limits.max_source_bytes_total - self.refreshed.loaded_source_bytes && (
                byte_length < 3 || self.grams.len() < capacity) {
                    Treatment::Attempt
                } else {
                    Treatment::Skip
                },
            },
        }
    }

    /// With one more row, and its trigrams.
    pub open spec fn with_row(
        self,
        coverage: Coverage,
        length: u64,
        digest: Seq<u8>,
        more: Seq<u32>,
    ) -> BuildingModel {
        Building {
            rows: self.rows.push(
                Row {
                    coverage,
                    length,
                    digest,
                    start: self.grams.len() as usize,
                    count: more.len() as usize,
                },
            ),
            grams: self.grams + more,
            ..self
        }
    }

    /// Behind a member that needs no loading.
    pub open spec fn without_loading(self, member: MemberModel, treatment: Treatment) -> BuildingModel {
        match member.data {
            PagedMemberData::Unavailable => self.with_row(
                Coverage::Unavailable,
                member.observed_bytes,
                zeros(),
                Seq::empty(),
            ),
            PagedMemberData::Captured { byte_length, digest } => match treatment {
                Treatment::Reuse(row, grams) => Building {
                    refreshed: RefreshStats {
                        reused_files: (self.refreshed.reused_files + 1) as usize,
                        reused_source_bytes: (self.refreshed.reused_source_bytes
                            + byte_length) as u64,
                        reused_grams: (self.refreshed.reused_grams + row.count) as usize,
                        ..self.refreshed
                    },
                    ..self.with_row(row.coverage, byte_length as u64, digest, grams)
                },
                Treatment::Refuse => Building {
                    refreshed: RefreshStats {
                        reuse_quota_refusals: (self.refreshed.reuse_quota_refusals + 1) as usize,
                        ..self.refreshed
                    },
                    ..self.with_row(
                        Coverage::Uncovered,
                        byte_length as u64,
                        digest,
                        Seq::empty(),
                    )
                },
                _ => self.with_row(Coverage::Uncovered, byte_length as u64, digest, Seq::empty()),
            },
        }
    }

    /// Behind a member that was loaded.
    pub open spec fn with_image(
        self,
        byte_length: usize,
        digest: Seq<u8>,
        image: SegmentImage<Seq<u32>>,
    ) -> BuildingModel {
        let coverage = if !image.indexed {
            Coverage::Uncovered
        } else if image.utf8 {
            Coverage::Utf8
        } else {
            Coverage::Bytes
        };
        let grams = if image.indexed {
            image.grams
        } else {
            Seq::empty()
        };
        Building {
            refreshed: RefreshStats {
                attempted_files: (self.refreshed.attempted_files + 1) as usize,
                loaded_source_bytes: (self.refreshed.loaded_source_bytes + byte_length) as u64,
                rebuilt_files: (self.refreshed.rebuilt_files + if image.indexed {
                    1int
                } else {
                    0int
                }) as usize,
                ..self.refreshed
            },
            examined: self.examined.wrapping_add(image.examined),
            ..self.with_row(coverage, byte_length as u64, digest, grams)
        }
    }
}

/// Whether an image is complete and in order within the room left.
pub open spec fn image_fits(image: SegmentImage<Seq<u32>>, room: int) -> bool {
    image.indexed ==> image.grams.len() <= room && in_order(image.grams)
}

impl IndexLimits {
    /// The bounds of the engine for one member, given the room left for trigrams.
    pub open spec fn for_member(self, room: usize, length: usize) -> IndexLimits {
        IndexLimits { max_total_grams: room, max_source_bytes_total: length as u64, ..self }
    }
}

/// Bytes charged for a copy of a loaded member.
pub open spec fn copy_charge(length: int) -> int {
    length + size_of::<CompleteCapture>() + 64
}

/// Whether making the segment of a loaded member may answer so.
pub open spec fn segments_to<
    K: FnMut(u64) -> bool,
    B: FnMut(&VerifiedMember, IndexLimits) -> Result<SegmentImage, SnapshotIndexError>,
>(
    reserve_copy: K,
    engine: B,
    member: &VerifiedMember,
    limits: IndexLimits,
    answer: Result<SegmentImage, SnapshotIndexError>,
) -> bool {
    let charge = copy_charge(limits.max_source_bytes_total as int);
    if charge > usize::MAX {
        answer == Err::<SegmentImage, SnapshotIndexError>(SnapshotIndexError::Limits)
    } else {
        ||| call_ensures(reserve_copy, (charge as u64,), false) && answer == Err::<
            SegmentImage,
            SnapshotIndexError,
        >(SnapshotIndexError::ResourceDenied)
        ||| call_ensures(reserve_copy, (charge as u64,), true) && call_ensures(
            engine,
            (member, limits),
            answer,
        )
    }
}

/// Whether loading the `k`th member and making its segment may answer so.
pub open spec fn attempts<
    O: FnMut(usize) -> Result<VerifiedMember, PagedSnapshotError>,
    K: FnMut(u64) -> bool,
    B: FnMut(&VerifiedMember, IndexLimits) -> Result<SegmentImage, SnapshotIndexError>,
>(
    load: O,
    reserve_copy: K,
    engine: B,
    k: usize,
    limits: IndexLimits,
    answer: Result<SegmentImage, SnapshotIndexError>,
) -> bool {
    exists|loaded: Result<VerifiedMember, PagedSnapshotError>|
        #[trigger] call_ensures(load, (k,), loaded) && match loaded {
            Err(e) => answer == Err::<SegmentImage, SnapshotIndexError>(
                SnapshotIndexError::Archive(e),
            ),
            Ok(member) => segments_to(reserve_copy, engine, &member, limits, answer),
        }
}

/// Whether building the members from the `k`th on may end with `r`, given what
/// loading them and the engine may answer.
pub open spec fn builds<
    O: FnMut(usize) -> Result<VerifiedMember, PagedSnapshotError>,
    K: FnMut(u64) -> bool,
    B: FnMut(&VerifiedMember, IndexLimits) -> Result<SegmentImage, SnapshotIndexError>,
>(
    load: O,
    reserve_copy: K,
    engine: B,
    members: Seq<MemberModel>,
    prior: Option<SegmentsModel>,
    limits: IndexLimits,
    capacity: int,
    k: int,
    state: BuildingModel,
    r: Result<BuildingModel, SnapshotIndexError>,
) -> bool
    decreases members.len() - k,
{
    if k < 0 || k >= members.len() {
        r == Ok::<BuildingModel, SnapshotIndexError>(state)
    } else {
        let treatment = state.treatment(members[k], prior, limits, capacity);
        let room = capacity - state.grams.len();
        if treatment is Attempt {
            exists|answer: Result<SegmentImage, SnapshotIndexError>|
                #[trigger] attempts(
                    load,
                    reserve_copy,
                    engine,
                    k as usize,
                    limits.for_member(room as usize, members[k].data->byte_length),
                    answer,
                ) && match answer {
                    Err(e) => r == Err::<BuildingModel, SnapshotIndexError>(e),
                    Ok(image) => if !image_fits(image@, room) {
                        r == Err::<BuildingModel, SnapshotIndexError>(SnapshotIndexError::Format)
                    } else {
                        builds(
                            load,
                            reserve_copy,
                            engine,
                            members,
                            prior,
                            limits,
                            capacity,
                            k + 1,
                            state.with_image(
                                members[k].data->byte_length,
                                members[k].data->digest,
                                image@,
                            ),
                            r,
                        )
                    },
                }
        } else {
            builds(
                load,
                reserve_copy,
                engine,
                members,
                prior,
                limits,
                capacity,
                k + 1,
                state.without_loading(members[k], treatment),
                r,
            )
        }
    }
}

/// The trigrams that a new index may hold, counted from the `k`th member on.
pub open spec fn capacity_from(
    members: Seq<MemberModel>,
    limits: IndexLimits,
    k: int,
    sum: int,
) -> int
    decreases members.len() - k,
{
    if k < 0 || k >= members.len() {
        sum
    } else {
        let n = members[k].observed_bytes as int;
        let share = if n < 2 {
            0
        } else if n - 2 < limits.max_grams_per_file {
            n - 2
        } else {
            limits.max_grams_per_file as int
        };
        let more = if members[k].data is Captured && n <= limits.max_source_bytes_per_file {
            if sum + share < limits.max_total_grams {
                sum + share
            } else {
                limits.max_total_grams as int
            }
        } else {
            sum
        };
        capacity_from(members, limits, k + 1, more)
    }
}

/// A finished candidate, not a publication. The index owns all its trigrams.
#[derive(Debug)]
pub struct SnapshotRefresh {
    pub index: SnapshotIndex,
    pub stats: RefreshStats,
}

impl SnapshotRefresh {
    pub fn index(&self) -> (r: &SnapshotIndex)
        ensures
            *r == self.index,
    {
        &self.index
    }

    pub fn stats(&self) -> (r: RefreshStats)
        ensures
            r == self.stats,
    {
        self.stats
    }

    pub fn into_index(self) -> (r: SnapshotIndex)
        ensures
            r == self.index,
    {
        self.index
    }
}

/// The index made of a finished construction.
pub open spec fn finished(directory: DirectoryModel, built: BuildingModel) -> SegmentsModel {
    SnapshotIndex {
        owner: directory.owner,
        archive: directory.digest,
        rows: built.rows,
        grams: built.grams,
        stats: SavedIndexStats {
            build_source_bytes: built.examined,
            ..stats_of(built.rows, built.grams.len() as int)
        },
    }
}

/// Whether numbers are pairwise different.
pub open spec fn distinct(a: [u64; 4]) -> bool {
    a[0] != a[1] && a[0] != a[2] && a[0] != a[3] && a[1] != a[2] && a[1] != a[3] && a[2] != a[3]
}

/// Bytes charged for looking up old rows.
pub open spec fn lookup_charge(rows: int) -> int {
    rows * size_of::<usize>() + size_of::<Vec<usize>>()
}

/// Why construction is refused before any memory is asked for, if it is.
pub open spec fn refusal(
    directory: DirectoryModel,
    limits: IndexLimits,
    allocations: [u64; 4],
    prior: Option<SegmentsModel>,
) -> Option<SnapshotIndexError> {
    if !distinct(allocations) {
        Some(SnapshotIndexError::Limits)
    } else if prior is Some && prior->Some_0.owner != directory.owner {
        Some(SnapshotIndexError::OwnerMismatch)
    } else if directory.members.len() > MAX_INDEX_MEMBERS || !limits.admissible() {
        Some(SnapshotIndexError::Limits)
    } else {
        None
    }
}

/// Whether construction may answer so.
pub open spec fn is_construction<
    L: FnOnce(u64) -> bool,
    A: FnOnce(u64) -> bool,
    O: FnMut(usize) -> Result<VerifiedMember, PagedSnapshotError>,
    K: FnMut(u64) -> bool,
    B: FnMut(&VerifiedMember, IndexLimits) -> Result<SegmentImage, SnapshotIndexError>,
>(
    r: Result<SnapshotRefresh, SnapshotIndexError>,
    directory: DirectoryModel,
    limits: IndexLimits,
    allocations: [u64; 4],
    prior: Option<SegmentsModel>,
    reserve_lookup: L,
    reserve: A,
    load: O,
    reserve_copy: K,
    engine: B,
) -> bool {
    let rows = match prior {
        Some(old) => old.rows.len() as int,
        None => 0,
    };
    let capacity = capacity_from(directory.members, limits, 0, 0);
    let charge = segments_charge(directory.members.len() as int, capacity);
    match refusal(directory, limits, allocations, prior) {
        Some(e) => r matches Err(f) && f == e,
        None => {
            ||| prior is Some && lookup_charge(rows) > usize::MAX && (r matches Err(f) && f
                == SnapshotIndexError::Limits)
            ||| prior is Some && call_ensures(reserve_lookup, (lookup_charge(rows) as u64,), false)
                && (r matches Err(f) && f == SnapshotIndexError::ResourceDenied)
            ||| (prior is Some ==> call_ensures(
                reserve_lookup,
                (lookup_charge(rows) as u64,),
                true,
            )) && if charge > usize::MAX {
                r matches Err(f) && f == SnapshotIndexError::Limits
            } else {
                ||| call_ensures(reserve, (charge as u64,), false) && (r matches Err(f) && f
                    == SnapshotIndexError::ResourceDenied)
                ||| call_ensures(reserve, (charge as u64,), true) && exists|
                    built: Result<BuildingModel, SnapshotIndexError>,
                |
                    #[trigger] builds(
                        load,
                        reserve_copy,
                        engine,
                        directory.members,
                        prior,
                        limits,
                        capacity,
                        0,
                        started(),
                        built,
                    ) && match built {
                        Err(e) => r matches Err(f) && f == e,
                        Ok(built) => r matches Ok(refresh) && refresh.index@ == finished(
                            directory,
                            built,
                        ) && refresh.stats == built.refreshed,
                    }
            }
        },
    }
}

/// A construction that has not begun.
pub open spec fn started() -> BuildingModel {
    Building {
        rows: Seq::empty(),
        grams: Seq::empty(),
        refreshed: RefreshStats::zero(),
        examined: 0,
    }
}

fn find_reusable(old: &SnapshotIndex, digest: &Sha256Digest, length: u64) -> (r: Option<usize>)
    ensures
        match reusable_from(old@.rows, digest.data(), length, 0) {
            Some(i) => r == Some(i as usize) && 0 <= i < old@.rows.len(),
            None => r is None,
        },
{
    let mut i: usize = 0;
    while i < old.rows.len()
        invariant
            i <= old.rows@.len(),
            reusable_from(old@.rows, digest.data(), length, i as int) == reusable_from(
                old@.rows,
                digest.data(),
                length,
                0,
            ),
        decreases old.rows.len() - i,
    {
        let row = &old.rows[i];
        assert(old@.rows[i as int] == row@);
        if row.length == length && row.coverage.indexed() && row.digest.same(digest) {
            return Some(i);
        }
        i = i + 1;
    }
    None
}

fn gram_capacity<C: FnMut() -> bool>(
    members: &Vec<PagedMember>,
    limits: IndexLimits,
    canceled: &mut C,
) -> (r: Result<usize, SnapshotIndexError>)
    requires
        limits.admissible(),
        call_requires(*old(canceled), ()),
    ensures
        *final(canceled) == *old(canceled),
        stopped(r, *old(canceled)) || r == Ok::<usize, SnapshotIndexError>(
            capacity_from(views(members@), limits, 0, 0) as usize,
        ),
        r matches Ok(n) ==> n == capacity_from(views(members@), limits, 0, 0) && n
            <= limits.max_total_grams,
{
    let ghost model = views(members@);
    let mut sum: usize = 0;
    let mut k: usize = 0;
    while k < members.len()
        invariant
            k <= members@.len(),
            model == views(members@),
            limits.admissible(),
            sum <= limits.max_total_grams,
            *canceled == *old(canceled),
            call_requires(*canceled, ()),
            capacity_from(model, limits, k as int, sum as int) == capacity_from(
                model,
                limits,
                0,
                0,
            ),
        decreases members.len() - k,
    {
        if canceled() {
            return Err(SnapshotIndexError::Canceled);
        }
        let member = &members[k];
        assert(model[k as int] == member@);
        let n: u64 = member.observed_bytes;
        let captured = match member.data {
            PagedMemberData::Captured { byte_length: _, digest: _ } => true,
            PagedMemberData::Unavailable => false,
        };
        if captured && n <= limits.max_source_bytes_per_file as u64 {
            let whole: usize = if n < 2 {
                0
            } else {
                (n - 2) as usize
            };
            let share: usize = if whole < limits.max_grams_per_file {
                whole
            } else {
                limits.max_grams_per_file
            };
            sum = if share < limits.max_total_grams - sum {
                sum + share
            } else {
                limits.max_total_grams
            };
        }
        k = k + 1;
    }
    Ok(sum)
}

fn copy_grams(from: &Vec<u32>, start: usize, end: usize, to: &mut Vec<u32>)
    requires
        start <= end <= from@.len(),
    ensures
        final(to)@ == old(to)@ + from@.subrange(start as int, end as int),
{
    let ghost before = to@;
    let mut i: usize = start;
    assert(before + from@.subrange(start as int, start as int) =~= before);
    while i < end
        invariant
            start <= i <= end <= from@.len(),
            to@ == before + from@.subrange(start as int, i as int),
        decreases end - i,
    {
        to.push(from[i]);
        i = i + 1;
        assert(to@ =~= before + from@.subrange(start as int, i as int));
    }
}

fn grams_in_order(grams: &Vec<u32>) -> (r: bool)
    ensures
        r == in_order(grams@),
{
    let mut i: usize = 0;
    while i < grams.len()
        invariant
            i <= grams@.len(),
            increasing(grams@, 0, i as int),
            forall|k: int| 0 <= k < i ==> #[trigger] grams@[k] <= MAX_GRAM,
        decreases grams.len() - i,
    {
        if grams[i] > MAX_GRAM {
            return false;
        }
        if i > 0 && grams[i - 1] >= grams[i] {
            assert(!(grams@[i - 1] < grams@[i as int]));
            return false;
        }
        proof {
            assert forall|a: int, b: int| 0 <= a < b < i + 1 implies #[trigger] grams@[a]
                < #[trigger] grams@[b] by {
                if b == i && a < i - 1 {
                    assert(grams@[a] < grams@[i - 1]);
                }
            }
        }
        i = i + 1;
    }
    true
}

impl Building {
    fn push_row(&mut self, coverage: Coverage, length: u64, digest: Sha256Digest, count: usize)
        requires
            count <= old(self).grams@.len(),
        ensures
            final(self).grams == old(self).grams,
            final(self).refreshed == old(self).refreshed,
            final(self).examined == old(self).examined,
            views(final(self).rows@) == views(old(self).rows@).push(
                Row {
                    coverage,
                    length,
                    digest: digest.data(),
                    start: (old(self).grams@.len() - count) as usize,
                    count,
                },
            ),
    {
        let start: usize = self.grams.len() - count;
        self.rows.push(Row { coverage, length, digest, start, count });
    }

    /// Takes in the next member where nothing needs to be loaded. Gives the
    /// length and digest of one that does.
    fn settle(
        &mut self,
        k: usize,
        member: &PagedMember,
        prior: Option<&SnapshotIndex>,
        limits: IndexLimits,
        capacity: usize,
    ) -> (r: Option<(usize, Sha256Digest)>)
        requires
            limits.admissible(),
            capacity <= MAX_INDEX_GRAMS,
            k < MAX_INDEX_MEMBERS,
            old(self)@.wf(k as int, capacity as int),
            prior matches Some(index) ==> index@.wf(),
        ensures
            ({
                let treatment = old(self)@.treatment(
                    member@,
                    match prior {
                        Some(index) => Some(index@),
                        None => None,
                    },
                    limits,
                    capacity as int,
                );
                match r {
                    Some((length, digest)) => treatment is Attempt && *final(self) == *old(self)
                        && member@.data == (PagedMemberData::Captured {
                        byte_length: length,
                        digest: digest.data(),
                    }),
                    None => !(treatment is Attempt) && final(self)@ == old(self)@.without_loading(
                        member@,
                        treatment,
                    ) && final(self)@.wf(k + 1, capacity as int),
                }
            }),
    {
        let ghost before = self@;
        let (length, digest) = match member.data {
            PagedMemberData::Unavailable => {
                self.push_row(Coverage::Unavailable, member.observed_bytes, zero_digest(), 0);
                proof {
                    assert(before.grams + Seq::<u32>::empty() =~= before.grams);
                    segments_push(
                        before.rows,
                        before.grams,
                        Row {
                            coverage: Coverage::Unavailable,
                            length: member.observed_bytes,
                            digest: zeros(),
                            start: before.grams.len() as usize,
                            count: 0,
                        },
                        Seq::empty(),
                    );
                }
                return None;
            },
            PagedMemberData::Captured { byte_length, digest } => (byte_length, digest),
        };
        let found: Option<usize> = match prior {
            Some(old) => find_reusable(old, &digest, length as u64),
            None => None,
        };
        match (found, prior) {
            (Some(i), Some(old)) => {
                let row = old.rows[i];
                let ghost model = old@.rows[i as int];
                proof {
                    assert(model == row@);
                    segments_row(old@.rows, old@.grams, i as int);
                }
                if length <= limits.max_source_bytes_per_file && row.count
                    <= limits.max_grams_per_file && row.count <= capacity - self.grams.len() {
                    let end: usize = row.start + row.count;
                    copy_grams(&old.grams, row.start, end, &mut self.grams);
                    self.push_row(row.coverage, length as u64, digest, row.count);
                    self.refreshed.reused_files = self.refreshed.reused_files + 1;
                    self.refreshed.reused_source_bytes = self.refreshed.reused_source_bytes
                        + length as u64;
                    self.refreshed.reused_grams = self.refreshed.reused_grams + row.count;
                    proof {
                        let more = old@.grams.subrange(row.start as int, end as int);
                        lemma_slice_in_order(old@.grams, row.start as int, end as int);
                        segments_push(
                            before.rows,
                            before.grams,
                            Row {
                                coverage: row.coverage,
                                length: length as u64,
                                digest: digest.data(),
                                start: before.grams.len() as usize,
                                count: row.count,
                            },
                            more,
                        );
                        lemma_reusable(old@.rows, digest.data(), length as u64, 0);
                    }
                    None
                } else {
                    self.push_row(Coverage::Uncovered, length as u64, digest, 0);
                    self.refreshed.reuse_quota_refusals = self.refreshed.reuse_quota_refusals + 1;
                    proof {
                        lemma_uncovered(before, length as u64, digest.data());
                    }
                    None
                }
            },
            _ => {
                let need: usize = if length < 2 {
                    0
                } else {
                    length - 2
                };
                let loaded: u64 = self.refreshed.loaded_source_bytes;
                if length <= limits.max_source_bytes_per_file && need <= limits.max_scratch_bytes
                    / 4 && loaded <= limits.max_source_bytes_total && length as u64
                    <= limits.max_source_bytes_total - loaded && (length < 3 || self.grams.len()
                    < capacity) {
                    return Some((length, digest));
                }
                self.push_row(Coverage::Uncovered, length as u64, digest, 0);
                proof {
                    lemma_uncovered(before, length as u64, digest.data());
                }
                None
            },
        }
    }

    /// Takes in a member that was loaded.
    fn absorb(
        &mut self,
        k: usize,
        length: usize,
        digest: Sha256Digest,
        image: &SegmentImage,
        capacity: usize,
    ) -> (r: bool)
        requires
            capacity <= MAX_INDEX_GRAMS,
            k < MAX_INDEX_MEMBERS,
            length <= 1_048_576,
            old(self)@.wf(k as int, capacity as int),
        ensures
            r == image_fits(image@, capacity - old(self)@.grams.len()),
            r ==> final(self)@ == old(self)@.with_image(length, digest.data(), image@)
                && final(self)@.wf(k + 1, capacity as int),
    {
        let ghost before = self@;
        if image.indexed && (image.grams.len() > capacity - self.grams.len() || !grams_in_order(
            &image.grams,
        )) {
            return false;
        }
        let coverage = if !image.indexed {
            Coverage::Uncovered
        } else if image.utf8 {
            Coverage::Utf8
        } else {
            Coverage::Bytes
        };
        let mut count: usize = 0;
        if image.indexed {
            count = image.grams.len();
            copy_grams(&image.grams, 0, count, &mut self.grams);
            assert(image.grams@.subrange(0, count as int) =~= image.grams@);
            self.refreshed.rebuilt_files = self.refreshed.rebuilt_files + 1;
        }
        self.push_row(coverage, length as u64, digest, count);
        self.refreshed.attempted_files = self.refreshed.attempted_files + 1;
        self.refreshed.loaded_source_bytes = self.refreshed.loaded_source_bytes + length as u64;
        self.examined = self.examined.wrapping_add(image.examined);
        proof {
            let more = if image.indexed {
                image.grams@
            } else {
                Seq::empty()
            };
            assert(before.grams + more =~= self.grams@);
            segments_push(
                before.rows,
                before.grams,
                Row {
                    coverage,
                    length: length as u64,
                    digest: digest.data(),
                    start: before.grams.len() as usize,
                    count,
                },
                more,
            );
        }
        true
    }
}

proof fn lemma_slice_in_order(grams: Seq<u32>, start: int, end: int)
    requires
        0 <= start <= end <= grams.len(),
        increasing(grams, start, end),
        forall|i: int| 0 <= i < grams.len() ==> #[trigger] grams[i] <= MAX_GRAM,
    ensures
        in_order(grams.subrange(start, end)),
{
    let part = grams.subrange(start, end);
    assert forall|a: int, b: int| 0 <= a < b < part.len() implies #[trigger] part[a]
        < #[trigger] part[b] by {
        assert(grams[start + a] < grams[start + b]);
    }
}

proof fn lemma_reusable(rows: Seq<RowModel>, digest: Seq<u8>, length: u64, i: int)
    requires
        0 <= i,
    ensures
        reusable_from(rows, digest, length, i) matches Some(k) ==> i <= k < rows.len()
            && rows[k].coverage.has_segment() && rows[k].digest == digest && rows[k].length
            == length,
    decreases rows.len() - i,
{
    if i < rows.len() {
        lemma_reusable(rows, digest, length, i + 1);
    }
}

proof fn lemma_uncovered(before: BuildingModel, length: u64, digest: Seq<u8>)
    requires
        segments_ok(before.rows, before.grams),
        before.grams.len() <= MAX_INDEX_GRAMS,
        digest.len() == 32,
    ensures
        ({
            let row = Row {
                coverage: Coverage::Uncovered,
                length,
                digest,
                start: before.grams.len() as usize,
                count: 0usize,
            };
            segments_ok(before.rows.push(row), before.grams)
        }),
        before.grams + Seq::<u32>::empty() == before.grams,
{
    assert(before.grams + Seq::<u32>::empty() =~= before.grams);
    segments_push(
        before.rows,
        before.grams,
        Row {
            coverage: Coverage::Uncovered,
            length,
            digest,
            start: before.grams.len() as usize,
            count: 0,
        },
        Seq::empty(),
    );
}

/// Loads a member, pays for a copy of it and has its segment made.
fn attempt<
    O: FnMut(usize) -> Result<VerifiedMember, PagedSnapshotError>,
    K: FnMut(u64) -> bool,
    B: FnMut(&VerifiedMember, IndexLimits) -> Result<SegmentImage, SnapshotIndexError>,
>(k: usize, limits: IndexLimits, load: &mut O, reserve_copy: &mut K, engine: &mut B) -> (answer:
    Result<SegmentImage, SnapshotIndexError>)
    requires
        forall|k: usize| call_requires(*old(load), (k,)),
        forall|charge: u64| call_requires(*old(reserve_copy), (charge,)),
        forall|member: &VerifiedMember, limits: IndexLimits|
            call_requires(*old(engine), (member, limits)),
    ensures
        *final(load) == *old(load),
        *final(reserve_copy) == *old(reserve_copy),
        *final(engine) == *old(engine),
        attempts(*old(load), *old(reserve_copy), *old(engine), k, limits, answer),
{
    let loaded = load(k);
    assert(call_ensures(*old(load), (k,), loaded));
    match loaded {
        Err(e) => Err(SnapshotIndexError::Archive(e)),
        Ok(member) => {
            let charge: u128 = limits.max_source_bytes_total as u128
                + wide_size::<CompleteCapture>() + 64;
            if charge > usize::MAX as u128 {
                return Err(SnapshotIndexError::Limits);
            }
            if !reserve_copy(charge as u64) {
                return Err(SnapshotIndexError::ResourceDenied);
            }
            engine(&member, limits)
        },
    }
}

fn build_members<
    O: FnMut(usize) -> Result<VerifiedMember, PagedSnapshotError>,
    K: FnMut(u64) -> bool,
    B: FnMut(&VerifiedMember, IndexLimits) -> Result<SegmentImage, SnapshotIndexError>,
    C: FnMut() -> bool,
>(
    members: &Vec<PagedMember>,
    prior: Option<&SnapshotIndex>,
    limits: IndexLimits,
    capacity: usize,
    load: &mut O,
    reserve_copy: &mut K,
    engine: &mut B,
    canceled: &mut C,
) -> (r: Result<Building, SnapshotIndexError>)
    requires
        limits.admissible(),
        capacity <= MAX_INDEX_GRAMS,
        members@.len() <= MAX_INDEX_MEMBERS,
        prior matches Some(index) ==> index@.wf(),
        forall|k: usize| call_requires(*old(load), (k,)),
        forall|charge: u64| call_requires(*old(reserve_copy), (charge,)),
        forall|member: &VerifiedMember, limits: IndexLimits|
            call_requires(*old(engine), (member, limits)),
        call_requires(*old(canceled), ()),
    ensures
        *final(load) == *old(load),
        *final(reserve_copy) == *old(reserve_copy),
        *final(engine) == *old(engine),
        *final(canceled) == *old(canceled),
        r matches Ok(built) ==> built@.wf(members@.len() as int, capacity as int),
        stopped(r, *old(canceled)) || builds(
            *old(load),
            *old(reserve_copy),
            *old(engine),
            views(members@),
            match prior {
                Some(index) => Some(index@),
                None => None,
            },
            limits,
            capacity as int,
            0,
            started(),
            match r {
                Ok(built) => Ok(built@),
                Err(e) => Err(e),
            },
        ),
{
    let ghost model = views(members@);
    let ghost old_index = match prior {
        Some(index) => Some(index@),
        None => None,
    };
    let mut state = Building {
        rows: Vec::new(),
        grams: Vec::new(),
        refreshed: RefreshStats {
            reused_files: 0,
            reused_source_bytes: 0,
            reused_grams: 0,
            attempted_files: 0,
            loaded_source_bytes: 0,
            rebuilt_files: 0,
            reuse_quota_refusals: 0,
        },
        examined: 0,
    };
    assert(state@ == started()) by {
        assert(views(state.rows@) =~= Seq::<RowModel>::empty());
    }
    assert(segments_ok(state@.rows, state@.grams)) by {
        reveal(segments_ok);
    }
    let mut k: usize = 0;
    while k < members.len()
        invariant
            k <= members@.len() <= MAX_INDEX_MEMBERS,
            limits.admissible(),
            capacity <= MAX_INDEX_GRAMS,
            prior matches Some(index) ==> index@.wf(),
            model == views(members@),
            old_index == (match prior {
                Some(index) => Some(index@),
                None => None,
            }),
            *load == *old(load),
            *reserve_copy == *old(reserve_copy),
            *engine == *old(engine),
            *canceled == *old(canceled),
            forall|k: usize| call_requires(*load, (k,)),
            forall|charge: u64| call_requires(*reserve_copy, (charge,)),
            forall|member: &VerifiedMember, limits: IndexLimits|
                call_requires(*engine, (member, limits)),
            call_requires(*canceled, ()),
            state@.wf(k as int, capacity as int),
            forall|r: Result<BuildingModel, SnapshotIndexError>|
                #[trigger] builds(
                    *load,
                    *reserve_copy,
                    *engine,
                    model,
                    old_index,
                    limits,
                    capacity as int,
                    k as int,
                    state@,
                    r,
                ) ==> builds(
                    *load,
                    *reserve_copy,
                    *engine,
                    model,
                    old_index,
                    limits,
                    capacity as int,
                    0,
                    started(),
                    r,
                ),
        decreases members.len() - k,
    {
        if canceled() {
            return Err(SnapshotIndexError::Canceled);
        }
        let ghost before = state@;
        assert(model[k as int] == members@[k as int]@);
        match state.settle(k, &members[k], prior, limits, capacity) {
            None => {},
            Some((length, digest)) => {
                let room: usize = capacity - state.grams.len();
                let inner = IndexLimits {
                    max_total_grams: room,
                    max_source_bytes_total: length as u64,
                    ..limits
                };
                assert(inner == limits.for_member(room, model[k as int].data->byte_length));
                let answer = attempt(k, inner, load, reserve_copy, engine);
                assert(attempts(
                    *old(load),
                    *old(reserve_copy),
                    *old(engine),
                    k as int as usize,
                    limits.for_member(
                        (capacity - before.grams.len()) as usize,
                        model[k as int].data->byte_length,
                    ),
                    answer,
                ));
                match answer {
                    Err(e) => {
                        assert(builds(
                            *old(load),
                            *old(reserve_copy),
                            *old(engine),
                            model,
                            old_index,
                            limits,
                            capacity as int,
                            k as int,
                            before,
                            Err(e),
                        ));
                        return Err(e);
                    },
                    Ok(image) => {
                        let ghost given = image;
                        if !state.absorb(k, length, digest, &image, capacity) {
                            assert(builds(
                                *old(load),
                                *old(reserve_copy),
                                *old(engine),
                                model,
                                old_index,
                                limits,
                                capacity as int,
                                k as int,
                                before,
                                Err(SnapshotIndexError::Format),
                            ));
                            return Err(SnapshotIndexError::Format);
                        }
                    },
                }
            },
        }
        k = k + 1;
        assert forall|r: Result<BuildingModel, SnapshotIndexError>|
            #[trigger] builds(
                *load,
                *reserve_copy,
                *engine,
                model,
                old_index,
                limits,
                capacity as int,
                k as int,
                state@,
                r,
            ) implies builds(
            *load,
            *reserve_copy,
            *engine,
            model,
            old_index,
            limits,
            capacity as int,
            0,
            started(),
            r,
        ) by {
            assert(builds(
                *load,
                *reserve_copy,
                *engine,
                model,
                old_index,
                limits,
                capacity as int,
                k - 1,
                before,
                r,
            ));
        }
    }
    assert(builds(
        *load,
        *reserve_copy,
        *engine,
        model,
        old_index,
        limits,
        capacity as int,
        k as int,
        state@,
        Ok(state@),
    ));
    Ok(state)
}

fn construct<
    L: FnOnce(u64) -> bool,
    A: FnOnce(u64) -> bool,
    O: FnMut(usize) -> Result<VerifiedMember, PagedSnapshotError>,
    K: FnMut(u64) -> bool,
    B: FnMut(&VerifiedMember, IndexLimits) -> Result<SegmentImage, SnapshotIndexError>,
    C: FnMut() -> bool,
>(
    directory: &SnapshotDirectory,
    limits: IndexLimits,
    allocations: [u64; 4],
    prior: Option<&SnapshotIndex>,
    reserve_lookup: L,
    reserve: A,
    mut load: O,
    mut reserve_copy: K,
    mut engine: B,
    mut canceled: C,
) -> (r: Result<SnapshotRefresh, SnapshotIndexError>)
    requires
        prior matches Some(index) ==> index@.wf(),
        forall|charge: u64| call_requires(reserve_lookup, (charge,)),
        forall|charge: u64| call_requires(reserve, (charge,)),
        forall|k: usize| call_requires(load, (k,)),
        forall|charge: u64| call_requires(reserve_copy, (charge,)),
        forall|member: &VerifiedMember, limits: IndexLimits|
            call_requires(engine, (member, limits)),
        call_requires(canceled, ()),
    ensures
        r matches Ok(refresh) ==> refresh.index@.wf(),
        stopped(r, canceled) || is_construction(
            r,
            directory@,
            limits,
            allocations,
            match prior {
                Some(index) => Some(index@),
                None => None,
            },
            reserve_lookup,
            reserve,
            load,
            reserve_copy,
            engine,
        ),
{
    if allocations[0] == allocations[1] || allocations[0] == allocations[2] || allocations[0]
        == allocations[3] || allocations[1] == allocations[2] || allocations[1] == allocations[3]
        || allocations[2] == allocations[3] {
        return Err(SnapshotIndexError::Limits);
    }
    if let Some(old) = prior {
        if old.owner != directory.owner {
            return Err(SnapshotIndexError::OwnerMismatch);
        }
    }
    let count: usize = directory.members.len();
    if count > MAX_INDEX_MEMBERS || limits.max_total_grams > MAX_INDEX_GRAMS
        || limits.max_source_bytes_per_file > 1_048_576 || limits.max_scratch_bytes > 4_194_304 {
        return Err(SnapshotIndexError::Limits);
    }
    if canceled() {
        return Err(SnapshotIndexError::Canceled);
    }
    if let Some(old) = prior {
        let rows: usize = old.rows.len();
        let unit: u128 = wide_size::<usize>();
        assert(rows * unit <= 65_536 * 0xffff_ffff_ffff_ffff) by (nonlinear_arith)
            requires
                0 <= rows <= 65_536,
                0 <= unit <= 0xffff_ffff_ffff_ffff,
        ;
        let lookup: u128 = rows as u128 * unit + wide_size::<Vec<usize>>();
        if lookup > usize::MAX as u128 {
            return Err(SnapshotIndexError::Limits);
        }
        if !reserve_lookup(lookup as u64) {
            return Err(SnapshotIndexError::ResourceDenied);
        }
    }
    let capacity: usize = match gram_capacity(&directory.members, limits, &mut canceled) {
        Ok(n) => n,
        Err(e) => {
            return Err(e);
        },
    };
    let charge: u128 = segments_cost(count, capacity);
    if charge > usize::MAX as u128 {
        return Err(SnapshotIndexError::Limits);
    }
    if !reserve(charge as u64) {
        return Err(SnapshotIndexError::ResourceDenied);
    }
    let built = match build_members(
        &directory.members,
        prior,
        limits,
        capacity,
        &mut load,
        &mut reserve_copy,
        &mut engine,
        &mut canceled,
    ) {
        Ok(built) => built,
        Err(e) => {
            return Err(e);
        },
    };
    if canceled() {
        return Err(SnapshotIndexError::Canceled);
    }
    let ghost model = built@;
    let mut stats = count_rows(&built.rows, built.grams.len());
    stats.build_source_bytes = built.examined;
    let refreshed = built.refreshed;
    let index = SnapshotIndex {
        owner: directory.owner,
        archive: directory.digest,
        rows: built.rows,
        grams: built.grams,
        stats,
    };
    assert(index@ == finished(directory@, model));
    Ok(SnapshotRefresh { index, stats: refreshed })
}

impl SnapshotIndex {
    /// Builds an index of a snapshot's members, one at a time. Where a quota
    /// refuses a member, it stays in the index without a segment. `load` gives a
    /// member's verified bytes, `reserve_copy` pays for a copy of them, and
    /// `engine` makes the segment within the bounds that it is handed.
    pub fn build<
        A: FnOnce(u64) -> bool,
        O: FnMut(usize) -> Result<VerifiedMember, PagedSnapshotError>,
        K: FnMut(u64) -> bool,
        B: FnMut(&VerifiedMember, IndexLimits) -> Result<SegmentImage, SnapshotIndexError>,
        C: FnMut() -> bool,
    >(
        directory: &SnapshotDirectory,
        limits: IndexLimits,
        allocations: [u64; 4],
        reserve: A,
        load: O,
        reserve_copy: K,
        engine: B,
        canceled: C,
    ) -> (r: Result<Self, SnapshotIndexError>)
        requires
            forall|charge: u64| call_requires(reserve, (charge,)),
            forall|k: usize| call_requires(load, (k,)),
            forall|charge: u64| call_requires(reserve_copy, (charge,)),
            forall|member: &VerifiedMember, limits: IndexLimits|
                call_requires(engine, (member, limits)),
            call_requires(canceled, ()),
        ensures
            r matches Ok(index) ==> index@.wf(),
            stopped(r, canceled) || exists|made: Result<SnapshotRefresh, SnapshotIndexError>|
                #[trigger] is_construction(
                    made,
                    directory@,
                    limits,
                    allocations,
                    None,
                    reserve,
                    reserve,
                    load,
                    reserve_copy,
                    engine,
                ) && match made {
                    Ok(refresh) => r matches Ok(index) && index == refresh.index,
                    Err(e) => r matches Err(f) && f == e,
                },
    {
        let unasked = |charge: u64| -> (b: bool)
            ensures
                b,
            {
                true
            };
        let made = construct(
            directory,
            limits,
            allocations,
            None,
            unasked,
            reserve,
            load,
            reserve_copy,
            engine,
            canceled,
        );
        proof {
            if !stopped(made, canceled) {
                assert(is_construction(
                    made,
                    directory@,
                    limits,
                    allocations,
                    None,
                    reserve,
                    reserve,
                    load,
                    reserve_copy,
                    engine,
                ));
            }
        }
        match made {
            Ok(refresh) => Ok(refresh.into_index()),
            Err(e) => Err(e),
        }
    }

    /// Builds an index of a new snapshot, copying the complete segments that
    /// this index has of the same content.
    pub fn refresh<
        L: FnOnce(u64) -> bool,
        A: FnOnce(u64) -> bool,
        O: FnMut(usize) -> Result<VerifiedMember, PagedSnapshotError>,
        K: FnMut(u64) -> bool,
        B: FnMut(&VerifiedMember, IndexLimits) -> Result<SegmentImage, SnapshotIndexError>,
        C: FnMut() -> bool,
    >(
        &self,
        directory: &SnapshotDirectory,
        limits: IndexLimits,
        allocations: [u64; 5],
        reserve_lookup: L,
        reserve: A,
        load: O,
        reserve_copy: K,
        engine: B,
        canceled: C,
    ) -> (r: Result<SnapshotRefresh, SnapshotIndexError>)
        requires
            self@.wf(),
            forall|charge: u64| call_requires(reserve_lookup, (charge,)),
            forall|charge: u64| call_requires(reserve, (charge,)),
            forall|k: usize| call_requires(load, (k,)),
            forall|charge: u64| call_requires(reserve_copy, (charge,)),
            forall|member: &VerifiedMember, limits: IndexLimits|
                call_requires(engine, (member, limits)),
            call_requires(canceled, ()),
        ensures
            r matches Ok(refresh) ==> refresh.index@.wf(),
            if allocations[4] == allocations[0] || allocations[4] == allocations[1]
                || allocations[4] == allocations[2] || allocations[4] == allocations[3] {
                r matches Err(e) && e == SnapshotIndexError::Limits
            } else {
                stopped(r, canceled) || is_construction(
                    r,
                    directory@,
                    limits,
                    [allocations[0], allocations[1], allocations[2], allocations[3]],
                    Some(self@),
                    reserve_lookup,
                    reserve,
                    load,
                    reserve_copy,
                    engine,
                )
            },
    {
        if allocations[4] == allocations[0] || allocations[4] == allocations[1] || allocations[4]
            == allocations[2] || allocations[4] == allocations[3] {
            return Err(SnapshotIndexError::Limits);
        }
        construct(
            directory,
            limits,
            [allocations[0], allocations[1], allocations[2], allocations[3]],
            Some(self),
            reserve_lookup,
            reserve,
            load,
            reserve_copy,
            engine,
            canceled,
        )
    }
}

} // verus!
