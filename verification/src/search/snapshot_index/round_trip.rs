//! What a stored index holds is what opening it gives back.
use vstd::prelude::*;

use crate::envelope::{
    covered, digest_at, field_at, field_holds, header, holds, holds_split, le_bytes, le_bytes_len,
    le_limits, le_value, sealed_frame_opens, Sha256Digest, FRAME_LEN, HEADER_LEN,
};
use crate::search::archive::{DirectoryModel, MemberModel, PagedMemberData, PagedSnapshotError};
use crate::search::member_scan::VerifiedMember;
use crate::search::snapshot_index::codec::{
    announced, decoded_index, gram_bytes, grams_at, index_payload, member_fits, opening_error,
    prefix_bytes, row_at, row_head, rows_bytes, sealed, segments_at, segments_charge, stats_of,
    wire_len,
};
use crate::search::snapshot_index::postings::stored::{heads_ok, start_of};
use crate::search::snapshot_index::refresh::{
    attempts, builds, capacity_from, finished, image_fits, reusable_from, segments_to, started,
    BuildingModel, IndexLimits, SegmentImage,
};
use crate::search::snapshot_index::{
    increasing, index_schema_spec, row_ok, segments_ok, segments_row, Coverage, RowModel,
    SegmentsModel, SnapshotIndex, SnapshotIndexError, MAX_GRAM, MAX_INDEX_BYTES, MAX_INDEX_GRAMS,
    MAX_INDEX_MEMBERS, PREFIX_BYTES, ROW_BYTES, SEMANTICS,
};

verus! {

/// Whether a row is that of a member and lists no more trigrams than the
/// member's bytes can hold.
pub open spec fn row_fits(row: RowModel, member: MemberModel) -> bool {
    &&& member_fits(member, row)
    &&& row.count <= (if row.length < 2 {
        0
    } else {
        row.length - 2
    })
}

/// Whether rows are those of the members of a directory.
pub open spec fn rows_fit(rows: Seq<RowModel>, members: Seq<MemberModel>) -> bool {
    &&& rows.len() == members.len()
    &&& forall|k: int| 0 <= k < rows.len() ==> row_fits(#[trigger] rows[k], members[k])
}

pub proof fn lemma_starts_within(rows: Seq<RowModel>, k: int)
    requires
        0 <= k <= rows.len(),
    ensures
        0 <= start_of(rows, k) <= start_of(rows, rows.len() as int),
    decreases rows.len() - k,
{
    if k < rows.len() {
        lemma_starts_within(rows, k + 1);
        lemma_start_not_negative(rows, k);
    } else {
        lemma_start_not_negative(rows, k);
    }
}

proof fn lemma_start_not_negative(rows: Seq<RowModel>, k: int)
    requires
        k <= rows.len(),
    ensures
        0 <= start_of(rows, k),
    decreases k,
{
    if k > 0 {
        lemma_start_not_negative(rows, k - 1);
    }
}

/// The head of a row is read back.
pub proof fn lemma_row(
    d: Seq<u8>,
    i: int,
    rows: Seq<RowModel>,
    k: int,
    total: int,
    member: MemberModel,
)
    requires
        0 <= k < rows.len(),
        heads_ok(rows, total),
        row_fits(rows[k], member),
        holds(d, i, row_head(rows[k])),
    ensures
        row_at(d, i, start_of(rows, k), total, member) == Ok::<RowModel, SnapshotIndexError>(
            rows[k],
        ),
        row_head(rows[k]).len() == ROW_BYTES,
        start_of(rows, k + 1) == start_of(rows, k) + rows[k].count <= total,
{
    let row = rows[k];
    let tag = seq![row.coverage.number()];
    let length = le_bytes(row.length as nat, 8);
    let count = le_bytes(row.count as nat, 8);
    le_bytes_len(row.length as nat, 8);
    le_bytes_len(row.count as nat, 8);
    le_limits();
    lemma_starts_within(rows, k);
    lemma_starts_within(rows, k + 1);
    holds_split(d, i, tag + length + row.digest, count);
    holds_split(d, i, tag + length, row.digest);
    holds_split(d, i, tag, length);
    assert(d.subrange(i, i + 1) == tag);
    reveal_with_fuel(le_value, 2);
    assert(field_at(d, i, 1) == Some(row.coverage.number() as nat));
    assert(Coverage::of(row.coverage.number() as nat) == Ok::<Coverage, SnapshotIndexError>(
        row.coverage,
    ));
    field_holds(d, i + 1, row.length as nat, 8);
    assert(digest_at(d, i + 9) == Some(row.digest));
    field_holds(d, i + 41, row.count as nat, 8);
}

/// The trigrams of a row are read back.
proof fn lemma_grams(d: Seq<u8>, i: int, grams: Seq<u32>, first: int, from: int, to: int)
    requires
        0 <= first <= from <= to <= grams.len(),
        increasing(grams, first, to),
        forall|j: int| 0 <= j < grams.len() ==> #[trigger] grams[j] <= MAX_GRAM,
        holds(d, i, gram_bytes(grams, from, to)),
    ensures
        grams_at(d, i, to - from, grams.subrange(0, from), first) == Ok::<
            Seq<u32>,
            SnapshotIndexError,
        >(grams.subrange(0, to)),
        gram_bytes(grams, from, to).len() == (to - from) * 4,
    decreases to - from,
{
    if from < to {
        let one = le_bytes(grams[from] as nat, 4);
        le_bytes_len(grams[from] as nat, 4);
        le_limits();
        holds_split(d, i, one, gram_bytes(grams, from + 1, to));
        field_holds(d, i, grams[from] as nat, 4);
        let done = grams.subrange(0, from);
        assert(from > first ==> done.last() == grams[from - 1]);
        assert(done.push(grams[from]) =~= grams.subrange(0, from + 1));
        lemma_grams(d, i + 4, grams, first, from + 1, to);
    }
}

/// Where the trigrams of a row start is where those before it end.
pub proof fn lemma_segment_heads(rows: Seq<RowModel>, grams: Seq<u32>, k: int)
    requires
        segments_ok(rows, grams),
        0 <= k <= rows.len(),
    ensures
        forall|j: int| 0 <= j < k ==> (#[trigger] rows[j]).start == start_of(rows, j),
        k > 0 ==> start_of(rows, k) == rows[k - 1].start + rows[k - 1].count,
        k == rows.len() ==> start_of(rows, k) == grams.len(),
        k == rows.len() ==> heads_ok(rows, grams.len() as int),
    decreases k,
{
    reveal(segments_ok);
    if k > 0 {
        lemma_segment_heads(rows, grams, k - 1);
        if k > 1 {
            assert(rows[k - 1].start == rows[k - 2].start + rows[k - 2].count);
        }
        assert(rows[k - 1].start == start_of(rows, k - 1));
    }
    if k == rows.len() {
        assert forall|j: int| 0 <= j < rows.len() implies ({
            let row = #[trigger] rows[j];
            &&& row.digest.len() == 32
            &&& row.start == start_of(rows, j)
            &&& !row.coverage.has_segment() ==> row.count == 0
        }) by {
            assert(row_ok(rows[j], grams));
        }
    }
}

/// One row with its trigrams is read back.
proof fn lemma_segment(
    d: Seq<u8>,
    i: int,
    index: SegmentsModel,
    member: MemberModel,
    k: int,
)
    requires
        0 <= k < index.rows.len(),
        segments_ok(index.rows, index.grams),
        heads_ok(index.rows, index.grams.len() as int),
        row_fits(index.rows[k], member),
        holds(d, i, rows_bytes(index, k)),
    ensures
        0 <= start_of(index.rows, k) <= index.grams.len(),
        start_of(index.rows, k + 1) == start_of(index.rows, k) + index.rows[k].count,
        row_at(d, i, start_of(index.rows, k), index.grams.len() as int, member) == Ok::<
            RowModel,
            SnapshotIndexError,
        >(index.rows[k]),
        grams_at(
            d,
            i + ROW_BYTES,
            index.rows[k].count as int,
            index.grams.subrange(0, start_of(index.rows, k)),
            start_of(index.rows, k),
        ) == Ok::<Seq<u32>, SnapshotIndexError>(
            index.grams.subrange(0, start_of(index.rows, k + 1)),
        ),
        holds(d, i + ROW_BYTES + index.rows[k].count * 4, rows_bytes(index, k + 1)),
        rows_bytes(index, k).len() == ROW_BYTES + index.rows[k].count * 4 + rows_bytes(
            index,
            k + 1,
        ).len(),
{
    let rows = index.rows;
    let grams = index.grams;
    let row = rows[k];
    let head = row_head(row);
    let body = gram_bytes(grams, row.start as int, index.end_of(k));
    lemma_starts_within(rows, k);
    assert(row_ok(row, grams)
        && forall|j: int| 0 <= j < grams.len() ==> #[trigger] grams[j] <= MAX_GRAM) by {
        reveal(segments_ok);
    }
    assert(row.start == start_of(rows, k));
    holds_split(d, i, head + body, rows_bytes(index, k + 1));
    holds_split(d, i, head, body);
    lemma_row(d, i, rows, k, grams.len() as int, member);
    let from = start_of(rows, k);
    lemma_grams(d, i + ROW_BYTES, grams, from, from, from + row.count);
}

/// All rows with their trigrams are read back.
proof fn lemma_segments_read(
    d: Seq<u8>,
    i: int,
    index: SegmentsModel,
    members: Seq<MemberModel>,
    k: int,
)
    requires
        0 <= k <= index.rows.len(),
        segments_ok(index.rows, index.grams),
        heads_ok(index.rows, index.grams.len() as int),
        rows_fit(index.rows, members),
        holds(d, i, rows_bytes(index, k)),
    ensures
        segments_at(
            d,
            i,
            members,
            k,
            index.grams.len() as int,
            index.rows.subrange(0, k),
            index.grams.subrange(0, start_of(index.rows, k)),
        ) == Ok::<(Seq<RowModel>, Seq<u32>, int), SnapshotIndexError>(
            (index.rows, index.grams, i + rows_bytes(index, k).len()),
        ),
        rows_bytes(index, k).len() == (index.rows.len() - k) * ROW_BYTES + (index.grams.len()
            - start_of(index.rows, k)) * 4,
    decreases index.rows.len() - k,
{
    let rows = index.rows;
    let grams = index.grams;
    if k < rows.len() {
        let row = rows[k];
        assert(row_fits(rows[k], members[k]));
        lemma_segment(d, i, index, members[k], k);
        lemma_segments_read(d, i + ROW_BYTES + row.count * 4, index, members, k + 1);
        assert(rows.subrange(0, k).push(row) =~= rows.subrange(0, k + 1));
        assert(grams.subrange(0, start_of(rows, k)).len() == start_of(rows, k));
    } else {
        assert(rows.subrange(0, k) =~= rows);
        assert(grams.subrange(0, start_of(rows, k)) =~= grams);
    }
}

/// What precedes the rows is read back.
pub proof fn lemma_announced(d: Seq<u8>, archive: Seq<u8>, rows: nat, total: nat)
    requires
        holds(d, HEADER_LEN as int, prefix_bytes(archive, rows, total)),
        archive.len() == 32,
        rows <= u64::MAX,
        total <= u64::MAX,
    ensures
        announced(d, archive) == Ok::<(nat, nat), SnapshotIndexError>((rows, total)),
        prefix_bytes(archive, rows, total).len() == PREFIX_BYTES,
{
    let semantics = le_bytes(SEMANTICS as nat, 4);
    le_bytes_len(SEMANTICS as nat, 4);
    le_bytes_len(rows, 8);
    le_bytes_len(total, 8);
    le_limits();
    let at = HEADER_LEN as int;
    holds_split(d, at, archive + semantics + le_bytes(rows, 8), le_bytes(total, 8));
    holds_split(d, at, archive + semantics, le_bytes(rows, 8));
    holds_split(d, at, archive, semantics);
    assert(digest_at(d, 24) == Some(archive));
    field_holds(d, 56, SEMANTICS as nat, 4);
    field_holds(d, 60, rows, 8);
    field_holds(d, 68, total, 8);
}

/// A sealed document opens under its own pin, and what it covers is the header
/// and the payload.
pub proof fn lemma_opens(
    schema: crate::envelope::EnvelopeSchema,
    payload: Seq<u8>,
    prefix: int,
    limit: usize,
    outer: Sha256Digest,
    inner: Sha256Digest,
)
    requires
        schema.minor == 0,
        0 <= prefix <= payload.len(),
        payload.len() + FRAME_LEN <= limit,
    ensures
        opening_error(
            sealed(schema, payload, inner),
            schema,
            prefix,
            limit,
            outer.data(),
            outer,
            inner,
        ) is None,
        covered(sealed(schema, payload, inner)) == header(schema, payload.len()) + payload,
        sealed(schema, payload, inner).len() == payload.len() + FRAME_LEN,
        holds(covered(sealed(schema, payload, inner)), HEADER_LEN as int, payload),
        covered(sealed(schema, payload, inner)).len() == HEADER_LEN + payload.len(),
{
    broadcast use le_bytes_len;

    sealed_frame_opens(schema, payload, inner, limit);
    let document = sealed(schema, payload, inner);
    let d = covered(document);
    assert(header(schema, payload.len()).len() == HEADER_LEN);
    assert(d.subrange(HEADER_LEN as int, HEADER_LEN + payload.len()) =~= payload);
}

/// A stored index opens again: under the digests of the stored document, with
/// memory granted, opening gives back the rows and the trigrams, for the same
/// directory and under the directory's owner. Only the count of the bytes read
/// to build it is not kept.
pub proof fn stored_indexes_open(
    index: SegmentsModel,
    directory: DirectoryModel,
    outer: Sha256Digest,
    inner: Sha256Digest,
)
    requires
        index.wf(),
        index.directory_error(directory) is None,
        rows_fit(index.rows, directory.members),
        wire_len(index.rows.len() as int, index.grams.len() as int) <= MAX_INDEX_BYTES,
        segments_charge(index.rows.len() as int, index.grams.len() as int) <= usize::MAX,
    ensures
        ({
            let document = sealed(index_schema_spec(), index_payload(index), inner);
            &&& document.len() == wire_len(index.rows.len() as int, index.grams.len() as int)
            &&& opening_error(
                document,
                index_schema_spec(),
                PREFIX_BYTES as int,
                MAX_INDEX_BYTES,
                outer.data(),
                outer,
                inner,
            ) is None
            &&& decoded_index(covered(document), document.len() as int, directory, true) == Ok::<
                SegmentsModel,
                SnapshotIndexError,
            >(
                SnapshotIndex {
                    stats: stats_of(index.rows, index.grams.len() as int),
                    ..index
                },
            )
        }),
{
    let payload = index_payload(index);
    let prefix = prefix_bytes(index.archive, index.rows.len(), index.grams.len());
    let rest = rows_bytes(index, 0);
    let whole = header(index_schema_spec(), payload.len()) + payload;
    broadcast use le_bytes_len;

    assert(prefix.len() == PREFIX_BYTES);
    lemma_segment_heads(index.rows, index.grams, index.rows.len() as int);
    assert(whole.subrange(HEADER_LEN as int, HEADER_LEN + payload.len()) =~= payload);
    assert(holds(whole, HEADER_LEN as int, payload));
    holds_split(whole, HEADER_LEN as int, prefix, rest);
    lemma_announced(whole, index.archive, index.rows.len(), index.grams.len());
    lemma_segments_read(whole, HEADER_LEN + PREFIX_BYTES, index, directory.members, 0);
    assert(index.rows.subrange(0, 0) =~= Seq::empty());
    assert(index.grams.subrange(0, 0) =~= Seq::empty());
    lemma_opens(index_schema_spec(), payload, PREFIX_BYTES as int, MAX_INDEX_BYTES, outer, inner);
}

/// The most trigrams that so many bytes can hold.
pub open spec fn most_grams(length: int) -> int {
    if length < 2 {
        0
    } else {
        length - 2
    }
}

/// Members whose saved bytes are as many as were observed.
pub open spec fn saved_whole(members: Seq<MemberModel>) -> bool {
    forall|k: int|
        0 <= k < members.len() ==> ((#[trigger] members[k]).data matches PagedMemberData::Captured {
            byte_length,
            digest,
        } ==> members[k].observed_bytes == byte_length)
}

/// An engine that lists no more trigrams than bytes within its bounds can hold.
pub open spec fn lists_no_more<
    B: FnMut(&VerifiedMember, IndexLimits) -> Result<SegmentImage, SnapshotIndexError>,
>(engine: B) -> bool {
    forall|member: &VerifiedMember, limits: IndexLimits, image: SegmentImage|
        #[trigger] call_ensures(
            engine,
            (member, limits),
            Ok::<SegmentImage, SnapshotIndexError>(image),
        ) && image@.indexed ==> image@.grams.len() <= most_grams(
            limits.max_source_bytes_total as int,
        )
}

/// An older index whose rows list no more than their members' bytes can hold.
pub open spec fn rows_bounded(prior: Option<SegmentsModel>) -> bool {
    prior matches Some(old) ==> old.wf() && forall|k: int|
        0 <= k < old.rows.len() ==> (#[trigger] old.rows[k]).count <= most_grams(
            old.rows[k].length as int,
        )
}

proof fn lemma_reusable_found(rows: Seq<RowModel>, digest: Seq<u8>, length: u64, i: int)
    requires
        0 <= i,
    ensures
        reusable_from(rows, digest, length, i) matches Some(k) ==> i <= k < rows.len()
            && rows[k].digest == digest && rows[k].length == length,
        reusable_from(rows, digest, length, i) matches Some(k) ==> rows[k].coverage.has_segment(),
    decreases rows.len() - i,
{
    if i < rows.len() {
        lemma_reusable_found(rows, digest, length, i + 1);
    }
}

proof fn lemma_capacity(members: Seq<MemberModel>, limits: IndexLimits, k: int, sum: int)
    requires
        0 <= k,
        0 <= sum <= limits.max_total_grams,
    ensures
        0 <= capacity_from(members, limits, k, sum) <= limits.max_total_grams,
    decreases members.len() - k,
{
    if k < members.len() {
        let n = members[k].observed_bytes as int;
        let share = if n < 2 {
            0
        } else if n - 2 < limits.max_grams_per_file {
            n - 2
        } else {
            limits.max_grams_per_file as int
        };
        let more = if members[k].data is Captured && n <= limits.max_source_bytes_per_file {
            if sum + share < limits.max_total_grams {
                sum + share
            } else {
                limits.max_total_grams as int
            }
        } else {
            sum
        };
        lemma_capacity(members, limits, k + 1, more);
    }
}

/// One more row that fits its member.
proof fn lemma_row_pushed(rows: Seq<RowModel>, row: RowModel, members: Seq<MemberModel>, k: int)
    requires
        rows.len() == k < members.len(),
        forall|j: int| 0 <= j < k ==> row_fits(#[trigger] rows[j], members[j]),
        row_fits(row, members[k]),
    ensures
        forall|j: int| 0 <= j < k + 1 ==> row_fits(#[trigger] rows.push(row)[j], members[j]),
{
    assert forall|j: int| 0 <= j < k + 1 implies row_fits(
        #[trigger] rows.push(row)[j],
        members[j],
    ) by {
        if j < k {
            assert(rows.push(row)[j] == rows[j]);
        }
    }
}

proof fn lemma_builds_fit<
    O: FnMut(usize) -> Result<VerifiedMember, PagedSnapshotError>,
    K: FnMut(u64) -> bool,
    B: FnMut(&VerifiedMember, IndexLimits) -> Result<SegmentImage, SnapshotIndexError>,
>(
    load: O,
    reserve_copy: K,
    engine: B,
    members: Seq<MemberModel>,
    prior: Option<SegmentsModel>,
    limits: IndexLimits,
    capacity: int,
    k: int,
    state: BuildingModel,
    built: BuildingModel,
)
    requires
        saved_whole(members),
        lists_no_more(engine),
        rows_bounded(prior),
        0 <= capacity <= MAX_INDEX_GRAMS,
        members.len() <= MAX_INDEX_MEMBERS,
        0 <= k <= members.len(),
        state.rows.len() == k,
        forall|j: int| 0 <= j < k ==> row_fits(#[trigger] state.rows[j], members[j]),
        builds(
            load,
            reserve_copy,
            engine,
            members,
            prior,
            limits,
            capacity,
            k,
            state,
            Ok::<BuildingModel, SnapshotIndexError>(built),
        ),
    ensures
        rows_fit(built.rows, members),
    decreases members.len() - k,
{
    if k < members.len() {
        let r = Ok::<BuildingModel, SnapshotIndexError>(built);
        let treatment = state.treatment(members[k], prior, limits, capacity);
        let room = capacity - state.grams.len();
        if treatment is Attempt {
            let inner = limits.for_member(room as usize, members[k].data->byte_length);
            let answer = choose|answer: Result<SegmentImage, SnapshotIndexError>|
                #[trigger] attempts(
                    load,
                    reserve_copy,
                    engine,
                    k as usize,
                    inner,
                    answer,
                ) && match answer {
                    Err(e) => r == Err::<BuildingModel, SnapshotIndexError>(e),
                    Ok(image) => if !image_fits(image@, room) {
                        r == Err::<BuildingModel, SnapshotIndexError>(SnapshotIndexError::Format)
                    } else {
                        builds(
                            load,
                            reserve_copy,
                            engine,
                            members,
                            prior,
                            limits,
                            capacity,
                            k + 1,
                            state.with_image(
                                members[k].data->byte_length,
                                members[k].data->digest,
                                image@,
                            ),
                            r,
                        )
                    },
                };
            let image = answer->Ok_0;
            let next = state.with_image(
                members[k].data->byte_length,
                members[k].data->digest,
                image@,
            );
            let loaded = choose|loaded: Result<VerifiedMember, PagedSnapshotError>|
                #[trigger] call_ensures(load, (k as usize,), loaded) && match loaded {
                    Err(e) => answer == Err::<SegmentImage, SnapshotIndexError>(
                        SnapshotIndexError::Archive(e),
                    ),
                    Ok(member) => segments_to(reserve_copy, engine, &member, inner, answer),
                };
            assert(call_ensures(
                engine,
                (&loaded->Ok_0, inner),
                Ok::<SegmentImage, SnapshotIndexError>(image),
            ));
            lemma_row_pushed(state.rows, next.rows[k], members, k);
            lemma_builds_fit(
                load,
                reserve_copy,
                engine,
                members,
                prior,
                limits,
                capacity,
                k + 1,
                next,
                built,
            );
        } else {
            let next = state.without_loading(members[k], treatment);
            if let PagedMemberData::Captured { byte_length, digest } = members[k].data {
                if let Some(old) = prior {
                    lemma_reusable_found(old.rows, digest, byte_length as u64, 0);
                    if let Some(i) = reusable_from(old.rows, digest, byte_length as u64, 0) {
                        segments_row(old.rows, old.grams, i);
                    }
                }
            }
            lemma_row_pushed(state.rows, next.rows[k], members, k);
            lemma_builds_fit(
                load,
                reserve_copy,
                engine,
                members,
                prior,
                limits,
                capacity,
                k + 1,
                next,
                built,
            );
        }
    }
}

/// What is built of a directory fits it, so that it can be stored and opened
/// again: every row is its member's, and lists no more trigrams than the
/// member's bytes can hold, where the engine and the older index do not.
pub proof fn built_indexes_fit_their_directory<
    O: FnMut(usize) -> Result<VerifiedMember, PagedSnapshotError>,
    K: FnMut(u64) -> bool,
    B: FnMut(&VerifiedMember, IndexLimits) -> Result<SegmentImage, SnapshotIndexError>,
>(
    load: O,
    reserve_copy: K,
    engine: B,
    directory: DirectoryModel,
    prior: Option<SegmentsModel>,
    limits: IndexLimits,
    built: BuildingModel,
)
    requires
        saved_whole(directory.members),
        lists_no_more(engine),
        rows_bounded(prior),
        limits.admissible(),
        directory.members.len() <= MAX_INDEX_MEMBERS,
        builds(
            load,
            reserve_copy,
            engine,
            directory.members,
            prior,
            limits,
            capacity_from(directory.members, limits, 0, 0),
            0,
            started(),
            Ok::<BuildingModel, SnapshotIndexError>(built),
        ),
    ensures
        rows_fit(finished(directory, built).rows, directory.members),
        finished(directory, built).directory_error(directory) is None,
{
    let capacity = capacity_from(directory.members, limits, 0, 0);
    lemma_capacity(directory.members, limits, 0, 0);
    lemma_builds_fit(
        load,
        reserve_copy,
        engine,
        directory.members,
        prior,
        limits,
        capacity,
        0,
        started(),
        built,
    );
}

} // verus!
