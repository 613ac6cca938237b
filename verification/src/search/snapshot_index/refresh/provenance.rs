//! Where the segments of an index come from.
use vstd::prelude::*;

use super::{
    attempts, builds, is_construction, reusable, reusable_from, BuildingModel, IndexLimits,
    SegmentImage, SnapshotRefresh, Treatment,
};
use crate::search::archive::{DirectoryModel, MemberModel, PagedMemberData, PagedSnapshotError};
use crate::search::member_scan::VerifiedMember;
use crate::search::snapshot_index::{
    segments_ok, segments_row, Coverage, RowModel, SegmentsModel, SnapshotIndexError,
};

verus! {

/// A host that loads members and computes their trigrams.
pub ghost struct Host<O, K, B> {
    pub load: O,
    pub reserve_copy: K,
    pub engine: B,
}

/// The trigrams of a row.
pub open spec fn segment(row: RowModel, grams: Seq<u32>) -> Seq<u32> {
    grams.subrange(row.start as int, row.start + row.count)
}

/// A row has the segment of an old one with the same bytes.
pub open spec fn copied(row: RowModel, grams: Seq<u32>, prior: Option<SegmentsModel>) -> bool {
    prior is Some && exists|i: int|
        0 <= i < prior->Some_0.rows.len() && {
            let old = #[trigger] prior->Some_0.rows[i];
            &&& old.digest == row.digest
            &&& old.length == row.length
            &&& old.coverage == row.coverage
            &&& segment(old, prior->Some_0.grams) == segment(row, grams)
        }
}

impl<
    O: FnMut(usize) -> Result<VerifiedMember, PagedSnapshotError>,
    K: FnMut(u64) -> bool,
    B: FnMut(&VerifiedMember, IndexLimits) -> Result<SegmentImage, SnapshotIndexError>,
> Host<O, K, B> {
    /// The host may have answered so for a member.
    pub open spec fn answers(self, k: int, image: SegmentImage) -> bool {
        exists|limits: IndexLimits| #[trigger]
            attempts(self.load, self.reserve_copy, self.engine, k as usize, limits, Ok(image))
    }

    /// A row has what the host computed for its member.
    pub open spec fn computed(self, k: int, row: RowModel, grams: Seq<u32>) -> bool {
        exists|image: SegmentImage| #[trigger]
            self.answers(k, image) && image.indexed && segment(row, grams) == image.grams@
                && row.coverage == if image.utf8 {
                Coverage::Utf8
            } else {
                Coverage::Bytes
            }
    }

    /// The host may have given up on a member.
    pub open spec fn declined(self, k: int) -> bool {
        exists|image: SegmentImage| #[trigger] self.answers(k, image) && !image.indexed
    }

    /// A row is about its member, and has a segment only if it was copied from an old
    /// row with the same bytes or computed from the member.
    pub open spec fn sourced(
        self,
        member: MemberModel,
        k: int,
        row: RowModel,
        grams: Seq<u32>,
        prior: Option<SegmentsModel>,
    ) -> bool {
        &&& row.start + row.count <= grams.len()
        &&& match member.data {
            PagedMemberData::Unavailable => row.coverage is Unavailable && row.length
                == member.observed_bytes && row.count == 0,
            PagedMemberData::Captured { byte_length, digest } => {
                &&& row.length == byte_length
                &&& row.digest == digest
                &&& match row.coverage {
                    Coverage::Unavailable => false,
                    Coverage::Uncovered => row.count == 0,
                    Coverage::Utf8 => copied(row, grams, prior) || self.computed(k, row, grams),
                    Coverage::Bytes => copied(row, grams, prior) || self.computed(k, row, grams),
                }
            },
        }
    }

    /// A captured member has a segment unless it is too long, or too much was loaded, or
    /// no room was left, or the old segment of the same bytes does not fit, or the host
    /// gave up on it.
    pub open spec fn covered(
        self,
        member: MemberModel,
        k: int,
        row: RowModel,
        prior: Option<SegmentsModel>,
        limits: IndexLimits,
        capacity: int,
        loaded: int,
    ) -> bool {
        member.data matches PagedMemberData::Captured { byte_length, digest } ==> {
            ||| row.coverage is Utf8
            ||| row.coverage is Bytes
            ||| byte_length > limits.max_source_bytes_per_file
            ||| byte_length * 4 > limits.max_scratch_bytes
            ||| loaded + byte_length > limits.max_source_bytes_total
            ||| byte_length >= 3 && row.start >= capacity
            ||| outgrown(row, prior, limits, capacity)
            ||| self.declined(k)
        }
    }

    /// Rows as far as they were made.
    spec fn upto(
        self,
        members: Seq<MemberModel>,
        prior: Option<SegmentsModel>,
        state: BuildingModel,
        k: int,
    ) -> bool {
        &&& state.rows.len() == k
        &&& forall|j: int|
            0 <= j < k ==> self.sourced(
                members[j],
                j,
                #[trigger] state.rows[j],
                state.grams,
                prior,
            )
        &&& state.refreshed.loaded_source_bytes <= k * 1_048_576
        &&& state.refreshed.reused_files <= k
        &&& state.refreshed.rebuilt_files <= k
        &&& with_segments(state.rows) == state.refreshed.reused_files
            + state.refreshed.rebuilt_files
    }

    proof fn lemma_kept(
        self,
        member: MemberModel,
        k: int,
        row: RowModel,
        grams: Seq<u32>,
        more: Seq<u32>,
        prior: Option<SegmentsModel>,
    )
        requires
            self.sourced(member, k, row, grams, prior),
        ensures
            self.sourced(member, k, row, grams + more, prior),
    {
        assert(segment(row, grams + more) =~= segment(row, grams));
    }

    proof fn lemma_with_row(
        self,
        members: Seq<MemberModel>,
        prior: Option<SegmentsModel>,
        state: BuildingModel,
        next: BuildingModel,
        k: int,
        row: RowModel,
        more: Seq<u32>,
    )
        requires
            self.upto(members, prior, state, k),
            next.rows == state.rows.push(row),
            next.grams == state.grams + more,
            self.sourced(members[k], k, row, next.grams, prior),
        ensures
            forall|j: int|
                0 <= j < k + 1 ==> self.sourced(
                    members[j],
                    j,
                    #[trigger] next.rows[j],
                    next.grams,
                    prior,
                ),
            with_segments(next.rows) == with_segments(state.rows) + has_one(row),
    {
        assert(next.rows.drop_last() =~= state.rows);
        assert forall|j: int| 0 <= j < k + 1 implies self.sourced(
            members[j],
            j,
            #[trigger] next.rows[j],
            next.grams,
            prior,
        ) by {
            if j < k {
                assert(next.rows[j] == state.rows[j]);
                self.lemma_kept(members[j], j, state.rows[j], state.grams, more, prior);
            }
        }
    }

    proof fn lemma_builds(
        self,
        members: Seq<MemberModel>,
        prior: Option<SegmentsModel>,
        limits: IndexLimits,
        capacity: int,
        k: int,
        state: BuildingModel,
        built: BuildingModel,
    )
        requires
            builds(
                self.load,
                self.reserve_copy,
                self.engine,
                members,
                prior,
                limits,
                capacity,
                k,
                state,
                Ok(built),
            ),
            0 <= k <= members.len() <= 65_536,
            self.upto(members, prior, state, k),
            state.grams.len() <= capacity <= 0x1000_0000,
            limits.max_source_bytes_per_file <= 1_048_576,
            prior is Some ==> segments_ok(prior->Some_0.rows, prior->Some_0.grams),
        ensures
            self.upto(members, prior, built, members.len() as int),
            state.rows.len() <= built.rows.len(),
            built.rows.subrange(0, state.rows.len() as int) == state.rows,
            state.grams.len() <= built.grams.len(),
            state.refreshed.loaded_source_bytes <= built.refreshed.loaded_source_bytes,
            forall|j: int|
                k <= j < members.len() ==> self.covered(
                    members[j],
                    j,
                    #[trigger] built.rows[j],
                    prior,
                    limits,
                    capacity,
                    built.refreshed.loaded_source_bytes as int,
                ),
        decreases members.len() - k,
    {
        if k >= members.len() {
            assert(built.rows.subrange(0, k) =~= state.rows);
        } else {
            let member = members[k];
            let treatment = state.treatment(member, prior, limits, capacity);
            let room = capacity - state.grams.len();
            if treatment is Attempt {
                let length = member.data->byte_length;
                let digest = member.data->digest;
                let bounds = limits.for_member(room as usize, length);
                let answer = choose|answer: Result<SegmentImage, SnapshotIndexError>|
                    #[trigger] attempts(
                        self.load,
                        self.reserve_copy,
                        self.engine,
                        k as usize,
                        bounds,
                        answer,
                    ) && match answer {
                        Err(e) => Ok::<BuildingModel, SnapshotIndexError>(built) == Err::<
                            BuildingModel,
                            SnapshotIndexError,
                        >(e),
                        Ok(image) => if !super::image_fits(image@, room) {
                            Ok::<BuildingModel, SnapshotIndexError>(built) == Err::<
                                BuildingModel,
                                SnapshotIndexError,
                            >(SnapshotIndexError::Format)
                        } else {
                            builds(
                                self.load,
                                self.reserve_copy,
                                self.engine,
                                members,
                                prior,
                                limits,
                                capacity,
                                k + 1,
                                state.with_image(length, digest, image@),
                                Ok(built),
                            )
                        },
                    };
                let image = answer->Ok_0;
                let next = state.with_image(length, digest, image@);
                let more = if image.indexed {
                    image.grams@
                } else {
                    Seq::empty()
                };
                let row = next.rows.last();
                assert(self.answers(k, image));
                assert(segment(row, next.grams) =~= more);
                self.lemma_with_row(members, prior, state, next, k, row, more);
                self.lemma_builds(members, prior, limits, capacity, k + 1, next, built);
                self.lemma_prefix(state, next, built, k, row);
            } else {
                let next = state.without_loading(member, treatment);
                let row = next.rows.last();
                if let PagedMemberData::Captured { byte_length, digest } = member.data {
                    if let Some(old) = prior {
                        lemma_reusable(old.rows, digest, byte_length as u64, 0);
                        if let Some(i) = reusable(prior, digest, byte_length as u64) {
                            segments_row(old.rows, old.grams, i);
                        }
                    }
                }
                if let Treatment::Reuse(old_row, grams) = treatment {
                    let old = prior->Some_0;
                    assert(segment(row, next.grams) =~= grams);
                    assert(copied(row, next.grams, prior));
                    self.lemma_with_row(members, prior, state, next, k, row, grams);
                } else {
                    self.lemma_with_row(members, prior, state, next, k, row, Seq::empty());
                }
                self.lemma_builds(members, prior, limits, capacity, k + 1, next, built);
                self.lemma_prefix(state, next, built, k, row);
            }
        }
    }

    proof fn lemma_prefix(
        self,
        state: BuildingModel,
        next: BuildingModel,
        built: BuildingModel,
        k: int,
        row: RowModel,
    )
        requires
            state.rows.len() == k,
            next.rows == state.rows.push(row),
            k + 1 <= built.rows.len(),
            built.rows.subrange(0, k + 1) == next.rows,
        ensures
            built.rows.subrange(0, k) == state.rows,
            built.rows[k] == row,
    {
        assert(built.rows.subrange(0, k) =~= built.rows.subrange(0, k + 1).subrange(0, k));
        assert(next.rows.subrange(0, k) =~= state.rows);
        assert(built.rows[k] == built.rows.subrange(0, k + 1)[k]);
    }
}

/// One, if a row has a segment.
pub open spec fn has_one(row: RowModel) -> int {
    if row.coverage is Utf8 || row.coverage is Bytes {
        1
    } else {
        0
    }
}

/// The old segment of the same bytes is too large for a file, or for the room left.
pub open spec fn outgrown(
    row: RowModel,
    prior: Option<SegmentsModel>,
    limits: IndexLimits,
    capacity: int,
) -> bool {
    prior is Some && exists|i: int|
        0 <= i < prior->Some_0.rows.len() && {
            let old = #[trigger] prior->Some_0.rows[i];
            &&& old.digest == row.digest
            &&& old.length == row.length
            &&& old.count > limits.max_grams_per_file || row.start + old.count > capacity
        }
}

/// The most trigrams that the members can have, with so many for a file.
pub open spec fn most(members: Seq<MemberModel>, limits: IndexLimits) -> int
    decreases members.len(),
{
    if members.len() == 0 {
        0
    } else {
        let n = members.last().observed_bytes as int;
        most(members.drop_last(), limits) + if members.last().data is Captured && 2 <= n
            <= limits.max_source_bytes_per_file {
            if n - 2 < limits.max_grams_per_file {
                n - 2
            } else {
                limits.max_grams_per_file as int
            }
        } else {
            0
        }
    }
}

/// How many rows have a segment.
pub open spec fn with_segments(rows: Seq<RowModel>) -> int
    decreases rows.len(),
{
    if rows.len() == 0 {
        0
    } else {
        with_segments(rows.drop_last()) + has_one(rows.last())
    }
}

proof fn lemma_reusable(rows: Seq<RowModel>, digest: Seq<u8>, length: u64, i: int)
    requires
        0 <= i,
    ensures
        reusable_from(rows, digest, length, i) matches Some(n) ==> i <= n < rows.len()
            && rows[n].digest == digest && rows[n].length == length
            && rows[n].coverage.has_segment(),
    decreases rows.len() - i,
{
    if i < rows.len() {
        lemma_reusable(rows, digest, length, i + 1);
    }
}

proof fn lemma_most(members: Seq<MemberModel>, limits: IndexLimits)
    ensures
        most(members, limits) >= 0,
    decreases members.len(),
{
    if members.len() > 0 {
        lemma_most(members.drop_last(), limits);
    }
}

proof fn lemma_capacity(members: Seq<MemberModel>, limits: IndexLimits, k: int, sum: int)
    requires
        0 <= k <= members.len(),
        sum == if most(members.take(k), limits) < limits.max_total_grams {
            most(members.take(k), limits)
        } else {
            limits.max_total_grams as int
        },
        most(members.take(k), limits) >= 0,
    ensures
        super::capacity_from(members, limits, k, sum) == if most(members, limits)
            < limits.max_total_grams {
            most(members, limits)
        } else {
            limits.max_total_grams as int
        },
    decreases members.len() - k,
{
    if k < members.len() {
        assert(members.take(k + 1).drop_last() =~= members.take(k));
        assert(members.take(k + 1).last() == members[k]);
        let n = members[k].observed_bytes as int;
        let share = if n < 2 {
            0
        } else if n - 2 < limits.max_grams_per_file {
            n - 2
        } else {
            limits.max_grams_per_file as int
        };
        let more = if members[k].data is Captured && n <= limits.max_source_bytes_per_file {
            if sum + share < limits.max_total_grams {
                sum + share
            } else {
                limits.max_total_grams as int
            }
        } else {
            sum
        };
        lemma_capacity(members, limits, k + 1, more);
    } else {
        assert(members.take(k) =~= members);
    }
}

/// A new index has one row for each member, in order. A row has the member's digest and
/// length. It has a segment only if an old row with the same bytes had it or the host
/// computed it from the member, and it has one whenever the limits allow, unless the
/// host gave up on the member. Files with a segment were either reused or rebuilt.
pub proof fn segments_come_from_the_same_bytes<
    L: FnOnce(u64) -> bool,
    A: FnOnce(u64) -> bool,
    O: FnMut(usize) -> Result<VerifiedMember, PagedSnapshotError>,
    K: FnMut(u64) -> bool,
    B: FnMut(&VerifiedMember, IndexLimits) -> Result<SegmentImage, SnapshotIndexError>,
>(
    refresh: SnapshotRefresh,
    directory: DirectoryModel,
    limits: IndexLimits,
    allocations: [u64; 4],
    prior: Option<SegmentsModel>,
    reserve_lookup: L,
    reserve: A,
    host: Host<O, K, B>,
)
    requires
        is_construction(
            Ok(refresh),
            directory,
            limits,
            allocations,
            prior,
            reserve_lookup,
            reserve,
            host.load,
            host.reserve_copy,
            host.engine,
        ),
        prior is Some ==> segments_ok(prior->Some_0.rows, prior->Some_0.grams),
    ensures
        refresh.index@.owner == directory.owner,
        refresh.index@.archive == directory.digest,
        refresh.index@.rows.len() == directory.members.len(),
        forall|k: int|
            0 <= k < directory.members.len() ==> host.sourced(
                directory.members[k],
                k,
                #[trigger] refresh.index@.rows[k],
                refresh.index@.grams,
                prior,
            ),
        forall|k: int|
            0 <= k < directory.members.len() ==> host.covered(
                directory.members[k],
                k,
                #[trigger] refresh.index@.rows[k],
                prior,
                limits,
                if most(directory.members, limits) < limits.max_total_grams {
                    most(directory.members, limits)
                } else {
                    limits.max_total_grams as int
                },
                refresh.stats.loaded_source_bytes as int,
            ),
        with_segments(refresh.index@.rows) == refresh.stats.reused_files
            + refresh.stats.rebuilt_files,
{
    let capacity = super::capacity_from(directory.members, limits, 0, 0);
    assert(directory.members.take(0) =~= Seq::empty());
    lemma_capacity(directory.members, limits, 0, 0);
    lemma_most(directory.members, limits);
    let answer = choose|built: Result<BuildingModel, SnapshotIndexError>|
        #[trigger] builds(
            host.load,
            host.reserve_copy,
            host.engine,
            directory.members,
            prior,
            limits,
            capacity,
            0,
            super::started(),
            built,
        ) && match built {
            Err(e) => false,
            Ok(built) => refresh.index@ == super::finished(directory, built) && refresh.stats
                == built.refreshed,
        };
    host.lemma_builds(
        directory.members,
        prior,
        limits,
        capacity,
        0,
        super::started(),
        answer->Ok_0,
    );
}

} // verus!
