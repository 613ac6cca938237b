//! A global inverse of the segments of an index.
//!
//! Inverting transposes trigrams; it never reads sources and invents no
//! coverage. Candidates come in the order of the members. Every candidate still
//! needs exact verification.
pub mod paged;
pub mod round_trip;
pub mod stored;
pub mod transposition;
pub mod traversal;

use vstd::layout::size_of;
use vstd::prelude::*;

use crate::envelope::{EnvelopeSchema, Sha256Digest};
use crate::identity::ArenaOwnerId;
use crate::memory::wide_size;
use crate::model::{group_views, views};
use crate::search::archive::{DirectoryModel, SnapshotDirectory};
use crate::search::snapshot_index::codec::stopped;
use crate::search::snapshot_index::{
    directory_error, gram_at, probe_at, segments_row, trigram_at, Coverage, IndexDecision, Row,
    RowModel, SavedIndexStats, SegmentsModel, SnapshotIndex, SnapshotIndexError, FRAME_AND_PREFIX,
    MAX_GRAM, MAX_INDEX_GRAMS, MAX_INDEX_MEMBERS, ROW_BYTES,
};
use traversal::{counted, lemma_fresh_counted, lemma_step_counted};

verus! {

broadcast use group_views;

pub const MAX_POSTINGS_BYTES: usize = 25_165_824;

/// What the ordinals of a packed pair are counted in.
pub const SPAN: u64 = 0x1_0000_0000;

pub open spec fn postings_schema_spec() -> EnvelopeSchema {
    EnvelopeSchema { magic: 0x4f42_4346, schema_id: 0x504f_5332, major: 1, minor: 0 }
}

/// The schema of stored postings.
pub fn postings_schema() -> (r: EnvelopeSchema)
    ensures
        r == postings_schema_spec(),
{
    EnvelopeSchema { magic: 0x4f42_4346, schema_id: 0x504f_5332, major: 1, minor: 0 }
}

/// A trigram and a member in one number: ordered by trigram, then by member.
pub open spec fn packed(gram: int, ordinal: int) -> int {
    gram * SPAN + ordinal
}

pub open spec fn gram_of(pair: u64) -> int {
    pair as int / SPAN as int
}

pub open spec fn ordinal_of(pair: u64) -> int {
    pair as int % SPAN as int
}

pub fn pack(gram: u32, ordinal: usize) -> (r: u64)
    requires
        ordinal < SPAN,
    ensures
        r == packed(gram as int, ordinal as int),
{
    gram as u64 * SPAN + ordinal as u64
}

pub fn ordinal(pair: u64) -> (r: usize)
    ensures
        r == ordinal_of(pair),
        r < SPAN,
{
    (pair % SPAN) as usize
}

/// `[u64]::sort_unstable`: the same numbers, in increasing order.
#[verifier::external_body]
fn sort_numbers(numbers: &mut Vec<u64>)
    ensures
        final(numbers)@.to_multiset() == old(numbers)@.to_multiset(),
        forall|i: int, j: int|
            0 <= i < j < final(numbers)@.len() ==> #[trigger] final(numbers)@[i]
                <= #[trigger] final(numbers)@[j],
{
    numbers.sort_unstable();
}

/// Numbers in strictly increasing order.
pub open spec fn ascending(pairs: Seq<u64>) -> bool {
    forall|i: int, j: int| 0 <= i < j < pairs.len() ==> #[trigger] pairs[i] < #[trigger] pairs[j]
}

/// Which members a list is for.
#[derive(Clone, Copy, Debug, PartialEq, Eq, Structural)]
pub enum Keep {
    Captured,
    RawFallback,
    TextFallback,
}

impl Keep {
    pub open spec fn keeps(self, coverage: Coverage) -> bool {
        match self {
            Keep::Captured => !(coverage is Unavailable),
            Keep::RawFallback => coverage is Uncovered,
            Keep::TextFallback => coverage is Uncovered || coverage is Bytes,
        }
    }

    fn takes(self, coverage: Coverage) -> (r: bool)
        ensures
            r == self.keeps(coverage),
    {
        match self {
            Keep::Captured => match coverage {
                Coverage::Unavailable => false,
                _ => true,
            },
            Keep::RawFallback => match coverage {
                Coverage::Uncovered => true,
                _ => false,
            },
            Keep::TextFallback => match coverage {
                Coverage::Uncovered => true,
                Coverage::Bytes => true,
                _ => false,
            },
        }
    }
}

/// The members on a list, from the `k`th on.
pub open spec fn kept_from(rows: Seq<RowModel>, keep: Keep, k: int) -> Seq<u32>
    decreases rows.len() - k,
{
    if k < 0 || k >= rows.len() {
        Seq::empty()
    } else if keep.keeps(rows[k].coverage) {
        seq![k as u32] + kept_from(rows, keep, k + 1)
    } else {
        kept_from(rows, keep, k + 1)
    }
}

/// The postings of an index.
#[derive(Debug)]
pub struct SnapshotPostings<D = Sha256Digest, R = Vec<Row>, P = Vec<u64>, L = Vec<u32>> {
    pub owner: ArenaOwnerId,
    pub archive: D,
    pub rows: R,
    pub pairs: P,
    pub captured: L,
    pub raw_fallback: L,
    pub text_fallback: L,
    pub stats: SavedIndexStats,
}

/// The model of postings.
pub type PostingsModel = SnapshotPostings<Seq<u8>, Seq<RowModel>, Seq<u64>, Seq<u32>>;

impl View for SnapshotPostings {
    type V = SnapshotPostings<Seq<u8>, Seq<RowModel>, Seq<u64>, Seq<u32>>;

    open spec fn view(&self) -> SnapshotPostings<Seq<u8>, Seq<RowModel>, Seq<u64>, Seq<u32>> {
        SnapshotPostings {
            owner: self.owner,
            archive: self.archive.data(),
            rows: views(self.rows@),
            pairs: self.pairs@,
            captured: self.captured@,
            raw_fallback: self.raw_fallback@,
            text_fallback: self.text_fallback@,
            stats: self.stats,
        }
    }
}

/// Whether a pair names a trigram and a member with a segment.
pub open spec fn pair_ok(pair: u64, rows: Seq<RowModel>) -> bool {
    gram_of(pair) <= MAX_GRAM && ordinal_of(pair) < rows.len() && rows[ordinal_of(
        pair,
    )].coverage.has_segment()
}

impl PostingsModel {
    pub open spec fn wf(self) -> bool {
        &&& self.archive.len() == 32
        &&& self.rows.len() <= MAX_INDEX_MEMBERS
        &&& self.pairs.len() <= MAX_INDEX_GRAMS
        &&& ascending(self.pairs)
        &&& forall|i: int| 0 <= i < self.pairs.len() ==> pair_ok(#[trigger] self.pairs[i], self.rows)
        &&& self.captured == kept_from(self.rows, Keep::Captured, 0)
        &&& self.raw_fallback == kept_from(self.rows, Keep::RawFallback, 0)
        &&& self.text_fallback == kept_from(self.rows, Keep::TextFallback, 0)
    }

    pub open spec fn directory_error(self, directory: DirectoryModel) -> Option<SnapshotIndexError> {
        directory_error(self.owner, self.archive, self.rows.len(), directory)
    }

    /// The members that need not be narrowed.
    pub open spec fn fallback(self, short: bool, text: bool) -> Seq<u32> {
        if short {
            self.captured
        } else if text {
            self.text_fallback
        } else {
            self.raw_fallback
        }
    }
}

/// The pairs that an index lists, from the `k`th row on.
pub open spec fn listed_from(index: SegmentsModel, k: int) -> Seq<u64>
    decreases index.rows.len() - k,
{
    if k < 0 || k >= index.rows.len() {
        Seq::empty()
    } else {
        Seq::new(
            index.rows[k].count as nat,
            |i: int| packed(index.grams[index.rows[k].start + i] as int, k) as u64,
        ) + listed_from(index, k + 1)
    }
}

/// Whether pairs are the transposed segments of an index.
pub open spec fn transposes(index: SegmentsModel, pairs: Seq<u64>) -> bool {
    ascending(pairs) && pairs.to_multiset() == listed_from(index, 0).to_multiset()
}

/// Bytes of stored postings.
pub open spec fn postings_len(rows: int, pairs: int) -> int {
    rows * ROW_BYTES + FRAME_AND_PREFIX + pairs * 8
}

pub open spec fn postings_len_ok(rows: int, pairs: int) -> bool {
    rows <= MAX_INDEX_MEMBERS && pairs <= MAX_INDEX_GRAMS && postings_len(rows, pairs)
        <= MAX_POSTINGS_BYTES
}

/// Bytes of stored postings, if there may be that many.
pub fn encoded_length(rows: usize, pairs: usize) -> (r: Result<usize, SnapshotIndexError>)
    ensures
        r == (if postings_len_ok(rows as int, pairs as int) {
            Ok::<usize, SnapshotIndexError>(postings_len(rows as int, pairs as int) as usize)
        } else {
            Err(SnapshotIndexError::Limits)
        }),
{
    let length: u128 = rows as u128 * ROW_BYTES as u128 + FRAME_AND_PREFIX as u128 + pairs as u128
        * 8;
    if rows > MAX_INDEX_MEMBERS || pairs > MAX_INDEX_GRAMS || length > MAX_POSTINGS_BYTES as u128 {
        Err(SnapshotIndexError::Limits)
    } else {
        Ok(length as usize)
    }
}

/// Bytes charged for postings.
pub open spec fn postings_charge(rows: int, pairs: int, conversion: bool) -> int {
    rows * (size_of::<Row>() + 12) + pairs * (if conversion {
        12int
    } else {
        8int
    }) + size_of::<SnapshotPostings>() + size_of::<SnapshotIndex>()
}

pub fn postings_cost(rows: usize, pairs: usize, conversion: bool) -> (r: u128)
    requires
        rows <= MAX_INDEX_MEMBERS,
        pairs <= MAX_INDEX_GRAMS,
    ensures
        r == postings_charge(rows as int, pairs as int, conversion),
{
    let row: u128 = wide_size::<Row>() + 12;
    assert(rows * row <= 65_536 * 0x1_0000_0000_0000_000c) by (nonlinear_arith)
        requires
            0 <= rows <= 65_536,
            0 <= row <= 0x1_0000_0000_0000_000c,
    ;
    let unit: u128 = if conversion {
        12
    } else {
        8
    };
    assert(pairs * unit <= 2_097_152 * 12) by (nonlinear_arith)
        requires
            0 <= pairs <= 2_097_152,
            0 <= unit <= 12,
    ;
    rows as u128 * row + pairs as u128 * unit + wide_size::<SnapshotPostings>() + wide_size::<
        SnapshotIndex,
    >()
}

/// The members on a list.
pub fn list_of<C: FnMut() -> bool>(rows: &Vec<Row>, keep: Keep, canceled: &mut C) -> (r: Result<
    Vec<u32>,
    SnapshotIndexError,
>)
    requires
        rows@.len() <= MAX_INDEX_MEMBERS,
        call_requires(*old(canceled), ()),
    ensures
        *final(canceled) == *old(canceled),
        match r {
            Ok(list) => list@ == kept_from(views(rows@), keep, 0),
            Err(_) => stopped(r, *old(canceled)),
        },
{
    let ghost model = views(rows@);
    let mut out: Vec<u32> = Vec::new();
    let mut k: usize = 0;
    assert(out@ + kept_from(model, keep, 0) =~= kept_from(model, keep, 0));
    while k < rows.len()
        invariant
            k <= rows@.len() <= MAX_INDEX_MEMBERS,
            model == views(rows@),
            *canceled == *old(canceled),
            call_requires(*canceled, ()),
            out@ + kept_from(model, keep, k as int) == kept_from(model, keep, 0),
        decreases rows.len() - k,
    {
        if canceled() {
            return Err(SnapshotIndexError::Canceled);
        }
        assert(model[k as int] == rows@[k as int]@);
        if keep.takes(rows[k].coverage) {
            out.push(k as u32);
        }
        k = k + 1;
        assert(out@ + kept_from(model, keep, k as int) =~= kept_from(model, keep, 0));
    }
    assert(out@ =~= kept_from(model, keep, 0));
    Ok(out)
}

/// The three lists of members.
pub fn fallbacks<C: FnMut() -> bool>(rows: &Vec<Row>, canceled: &mut C) -> (r: Result<
    (Vec<u32>, Vec<u32>, Vec<u32>),
    SnapshotIndexError,
>)
    requires
        rows@.len() <= MAX_INDEX_MEMBERS,
        call_requires(*old(canceled), ()),
    ensures
        *final(canceled) == *old(canceled),
        match r {
            Ok((captured, raw, text)) => captured@ == kept_from(views(rows@), Keep::Captured, 0)
                && raw@ == kept_from(views(rows@), Keep::RawFallback, 0) && text@ == kept_from(
                views(rows@),
                Keep::TextFallback,
                0,
            ),
            Err(_) => stopped(r, *old(canceled)),
        },
{
    let captured = match list_of(rows, Keep::Captured, canceled) {
        Ok(list) => list,
        Err(e) => {
            return Err(e);
        },
    };
    let raw = match list_of(rows, Keep::RawFallback, canceled) {
        Ok(list) => list,
        Err(e) => {
            return Err(e);
        },
    };
    match list_of(rows, Keep::TextFallback, canceled) {
        Ok(text) => Ok((captured, raw, text)),
        Err(e) => Err(e),
    }
}

pub proof fn lemma_pack(gram: int, ordinal: int)
    requires
        0 <= gram <= MAX_GRAM,
        0 <= ordinal < SPAN,
    ensures
        0 <= packed(gram, ordinal) <= u64::MAX,
        gram_of(packed(gram, ordinal) as u64) == gram,
        ordinal_of(packed(gram, ordinal) as u64) == ordinal,
{
}

/// Every pair listed names a trigram of a member with a segment, and none is
/// listed twice.
pub proof fn lemma_listed(index: SegmentsModel, k: int)
    requires
        index.wf(),
        0 <= k <= index.rows.len(),
    ensures
        forall|i: int|
            0 <= i < listed_from(index, k).len() ==> {
                let pair = #[trigger] listed_from(index, k)[i];
                pair_ok(pair, index.rows) && ordinal_of(pair) >= k
            },
        listed_from(index, k).no_duplicates(),
        listed_from(index, k).len() == index.grams.len() - (if k < index.rows.len() {
            index.rows[k].start as int
        } else {
            index.grams.len() as int
        }),
    decreases index.rows.len() - k,
{
    if k < index.rows.len() {
        lemma_listed(index, k + 1);
        segments_row(index.rows, index.grams, k);
        let row = index.rows[k];
        let head = Seq::new(
            row.count as nat,
            |i: int| packed(index.grams[row.start + i] as int, k) as u64,
        );
        let rest = listed_from(index, k + 1);
        let all = listed_from(index, k);
        assert forall|i: int| 0 <= i < head.len() implies gram_of(#[trigger] head[i])
            == index.grams[row.start + i] && ordinal_of(head[i]) == k && pair_ok(
            head[i],
            index.rows,
        ) by {
            lemma_pack(index.grams[row.start + i] as int, k);
        }
        assert forall|i: int| 0 <= i < all.len() implies ({
            let pair = #[trigger] all[i];
            pair_ok(pair, index.rows) && ordinal_of(pair) >= k
        }) by {
            if i < head.len() {
                assert(all[i] == head[i]);
            } else {
                assert(all[i] == rest[i - head.len()]);
            }
        }
        assert forall|i: int, j: int| 0 <= i < all.len() && 0 <= j < all.len() && i != j implies
            all[i] != all[j] by {
            if i < head.len() && j < head.len() {
                let a = row.start + i;
                let b = row.start + j;
                if i < j {
                    assert(index.grams[a] < index.grams[b]);
                } else {
                    assert(index.grams[b] < index.grams[a]);
                }
                assert(gram_of(head[i]) != gram_of(head[j]));
            } else if i >= head.len() && j >= head.len() {
                assert(all[i] == rest[i - head.len()]);
                assert(all[j] == rest[j - head.len()]);
            } else if i < head.len() {
                assert(all[j] == rest[j - head.len()]);
                assert(ordinal_of(all[i]) == k);
                assert(ordinal_of(all[j]) >= k + 1);
            } else {
                assert(all[i] == rest[i - head.len()]);
                assert(ordinal_of(all[j]) == k);
                assert(ordinal_of(all[i]) >= k + 1);
            }
        }
    }
}

/// Sorted pairs of an index are in strict order and name what the index lists.
proof fn lemma_sorted(index: SegmentsModel, pairs: Seq<u64>)
    requires
        index.wf(),
        pairs.to_multiset() == listed_from(index, 0).to_multiset(),
        forall|i: int, j: int|
            0 <= i < j < pairs.len() ==> #[trigger] pairs[i] <= #[trigger] pairs[j],
    ensures
        transposes(index, pairs),
        pairs.len() == index.grams.len(),
        forall|i: int| 0 <= i < pairs.len() ==> pair_ok(#[trigger] pairs[i], index.rows),
{
    broadcast use vstd::seq_lib::group_to_multiset_ensures;

    let all = listed_from(index, 0);
    lemma_listed(index, 0);
    all.lemma_multiset_has_no_duplicates();
    assert(pairs.len() == pairs.to_multiset().len());
    assert(all.len() == all.to_multiset().len());
    if index.rows.len() > 0 {
        segments_row(index.rows, index.grams, 0);
    } else {
        reveal(crate::search::snapshot_index::segments_ok);
    }
    assert forall|i: int| 0 <= i < pairs.len() implies pair_ok(#[trigger] pairs[i], index.rows) by {
        assert(pairs.to_multiset().count(pairs[i]) > 0);
        assert(all.to_multiset().count(pairs[i]) > 0);
        assert(all.contains(pairs[i]));
    }
    assert(pairs.no_duplicates()) by {
        assert(forall|x: u64| pairs.to_multiset().contains(x) ==> pairs.to_multiset().count(x) == 1);
        pairs.lemma_multiset_has_no_duplicates_conv();
    }
    assert forall|i: int, j: int| 0 <= i < j < pairs.len() implies #[trigger] pairs[i]
        < #[trigger] pairs[j] by {
        assert(pairs[i] <= pairs[j]);
        assert(pairs[i] != pairs[j]);
    }
}

impl SnapshotIndex {
    fn list_pairs<C: FnMut() -> bool>(&self, canceled: &mut C) -> (r: Result<
        (Vec<Row>, Vec<u64>),
        SnapshotIndexError,
    >)
        requires
            self@.wf(),
            call_requires(*old(canceled), ()),
        ensures
            *final(canceled) == *old(canceled),
            match r {
                Ok((rows, pairs)) => views(rows@) == self@.rows && pairs@ == listed_from(self@, 0),
                Err(_) => stopped(r, *old(canceled)),
            },
    {
        let mut rows: Vec<Row> = Vec::new();
        let mut pairs: Vec<u64> = Vec::new();
        let ghost all = listed_from(self@, 0);
        let mut k: usize = 0;
        assert(pairs@ + all =~= all);
        assert(views(rows@) =~= self@.rows.subrange(0, 0));
        while k < self.rows.len()
            invariant
                self@.wf(),
                k <= self.rows@.len(),
                *canceled == *old(canceled),
                call_requires(*canceled, ()),
                all == listed_from(self@, 0),
                pairs@ + listed_from(self@, k as int) == all,
                views(rows@) == self@.rows.subrange(0, k as int),
            decreases self.rows.len() - k,
        {
            if canceled() {
                return Err(SnapshotIndexError::Canceled);
            }
            let row = self.rows[k];
            let ghost model = self@.rows[k as int];
            proof {
                assert(model == row@);
                segments_row(self@.rows, self@.grams, k as int);
            }
            rows.push(row);
            assert(views(rows@) =~= self@.rows.subrange(0, k + 1));
            let ghost before = pairs@;
            let ghost head = Seq::new(
                row.count as nat,
                |i: int| packed(self@.grams[row.start + i] as int, k as int) as u64,
            );
            let mut i: usize = 0;
            assert(before + head.subrange(0, 0) =~= before);
            while i < row.count
                invariant
                    i <= row.count,
                    row.start + row.count <= self.grams@.len(),
                    k < MAX_INDEX_MEMBERS,
                    self@.grams.len() <= MAX_INDEX_GRAMS,
                    forall|j: int| 0 <= j < self@.grams.len() ==> #[trigger] self@.grams[j] <= MAX_GRAM,
                    *canceled == *old(canceled),
                    call_requires(*canceled, ()),
                    head == Seq::new(
                        row.count as nat,
                        |i: int| packed(self@.grams[row.start + i] as int, k as int) as u64,
                    ),
                    pairs@ == before + head.subrange(0, i as int),
                decreases row.count - i,
            {
                if i % 4096 == 0 && canceled() {
                    return Err(SnapshotIndexError::Canceled);
                }
                pairs.push(pack(self.grams[row.start + i], k));
                i = i + 1;
                assert(pairs@ =~= before + head.subrange(0, i as int));
            }
            assert(head.subrange(0, i as int) =~= head);
            k = k + 1;
            assert(pairs@ + listed_from(self@, k as int) =~= all);
        }
        assert(pairs@ =~= all);
        assert(views(rows@) =~= self@.rows);
        Ok((rows, pairs))
    }

    /// Transposes the segments into postings.
    pub fn invert<A: FnOnce(u64) -> bool, C: FnMut() -> bool>(
        &self,
        reserve: A,
        mut canceled: C,
    ) -> (r: Result<SnapshotPostings, SnapshotIndexError>)
        requires
            self@.wf(),
            forall|charge: u64| call_requires(reserve, (charge,)),
            call_requires(canceled, ()),
        ensures
            r matches Ok(postings) ==> postings@.wf(),
            stopped(r, canceled) || ({
                let rows = self@.rows.len() as int;
                let grams = self@.grams.len() as int;
                let charge = postings_charge(rows, grams, false);
                if !postings_len_ok(rows, grams) || charge > usize::MAX {
                    r matches Err(e) && e == SnapshotIndexError::Limits
                } else {
                    ||| call_ensures(reserve, (charge as u64,), false) && (r matches Err(e) && e
                        == SnapshotIndexError::ResourceDenied)
                    ||| call_ensures(reserve, (charge as u64,), true) && (r matches Ok(postings)
                        && postings@.owner == self@.owner && postings@.archive == self@.archive
                        && postings@.rows == self@.rows && postings@.stats == self@.stats
                        && transposes(self@, postings@.pairs))
                }
            }),
    {
        if canceled() {
            return Err(SnapshotIndexError::Canceled);
        }
        match encoded_length(self.rows.len(), self.grams.len()) {
            Ok(_) => {},
            Err(e) => {
                return Err(e);
            },
        }
        let charge: u128 = postings_cost(self.rows.len(), self.grams.len(), false);
        if charge > usize::MAX as u128 {
            return Err(SnapshotIndexError::Limits);
        }
        if !reserve(charge as u64) {
            return Err(SnapshotIndexError::ResourceDenied);
        }
        let (rows, mut pairs) = match self.list_pairs(&mut canceled) {
            Ok(found) => found,
            Err(e) => {
                return Err(e);
            },
        };
        sort_numbers(&mut pairs);
        proof {
            lemma_sorted(self@, pairs@);
        }
        let (captured, raw_fallback, text_fallback) = match fallbacks(&rows, &mut canceled) {
            Ok(lists) => lists,
            Err(e) => {
                return Err(e);
            },
        };
        if canceled() {
            return Err(SnapshotIndexError::Canceled);
        }
        Ok(
            SnapshotPostings {
                owner: self.owner,
                archive: self.archive,
                rows,
                pairs,
                captured,
                raw_fallback,
                text_fallback,
                stats: self.stats,
            },
        )
    }
}

#[derive(Clone, Copy, Debug, PartialEq, Eq, Structural)]
pub struct PostingProbeStats {
    pub list_lookups: usize,
    pub posting_entries_visited: usize,
    pub membership_lookups: usize,
    pub candidates_emitted: usize,
    pub fallback_emitted: usize,
}

#[derive(Clone, Copy, Debug, PartialEq, Eq, Structural)]
pub enum PostingStep {
    /// One posting was examined, but did not survive.
    Pending,
    Candidate { ordinal: usize, decision: IndexDecision },
    Finished,
}

/// A stretch of the pairs.
#[derive(Clone, Copy, Debug, PartialEq, Eq, Structural)]
pub struct Stretch {
    pub start: usize,
    pub end: usize,
}

impl Stretch {
    pub open spec fn size(self) -> int {
        if self.start < self.end {
            self.end - self.start
        } else {
            0
        }
    }

    pub fn len(&self) -> (r: usize)
        ensures
            r == self.size(),
    {
        if self.start < self.end {
            self.end - self.start
        } else {
            0
        }
    }
}

/// The first position from `i` on whose pair is not below a value.
pub open spec fn bound_from(pairs: Seq<u64>, value: int, i: int) -> int
    decreases pairs.len() - i,
{
    if i < 0 || i >= pairs.len() || pairs[i] >= value {
        i
    } else {
        bound_from(pairs, value, i + 1)
    }
}

/// The stretch of a trigram's pairs.
pub open spec fn stretch_of(pairs: Seq<u64>, gram: u32) -> Stretch {
    Stretch {
        start: bound_from(pairs, packed(gram as int, 0), 0) as usize,
        end: bound_from(pairs, packed(gram + 1, 0), 0) as usize,
    }
}

/// The first of three stretches that is shortest.
pub open spec fn rarest(a: Stretch, b: Stretch, c: Stretch) -> Stretch {
    if a.size() <= b.size() && a.size() <= c.size() {
        a
    } else if b.size() <= c.size() {
        b
    } else {
        c
    }
}

/// Where the intersection of three lists stands.
#[derive(Clone, Copy, Debug)]
pub struct CandidateCursor {
    pub keys: (u32, u32, u32),
    pub lists: (Stretch, Stretch, Stretch),
    pub driver: Stretch,
    pub fallback_next: usize,
    pub text: bool,
    pub short: bool,
    pub stats: PostingProbeStats,
}

/// Whether a pair is among the postings.
pub open spec fn posted(pairs: Seq<u64>, gram: u32, file: int) -> bool {
    pairs.contains(packed(gram as int, file) as u64)
}

impl CandidateCursor {
    pub open spec fn fresh(postings: PostingsModel, needle: Seq<u8>, text: bool) -> CandidateCursor {
        let short = needle.len() < 3;
        let n = needle.len() as int;
        let key = |p: int| trigram_at(needle, probe_at(n, p));
        let keys = if short {
            (0u32, 0u32, 0u32)
        } else {
            (key(0), key(1), key(2))
        };
        let none = Stretch { start: 0, end: 0 };
        let lists = if short {
            (none, none, none)
        } else {
            (
                stretch_of(postings.pairs, keys.0),
                stretch_of(postings.pairs, keys.1),
                stretch_of(postings.pairs, keys.2),
            )
        };
        CandidateCursor {
            keys,
            lists,
            driver: rarest(lists.0, lists.1, lists.2),
            fallback_next: 0,
            text,
            short,
            stats: PostingProbeStats {
                list_lookups: if short {
                    0
                } else {
                    3
                },
                posting_entries_visited: 0,
                membership_lookups: 0,
                candidates_emitted: 0,
                fallback_emitted: 0,
            },
        }
    }

    pub open spec fn wf(self, postings: PostingsModel) -> bool {
        &&& postings.wf()
        &&& self.keys.0 <= MAX_GRAM && self.keys.1 <= MAX_GRAM && self.keys.2 <= MAX_GRAM
        &&& self.driver.start <= self.driver.end <= postings.pairs.len()
        &&& self.fallback_next <= postings.fallback(self.short, self.text).len()
        &&& self.short ==> self.driver.start == self.driver.end
        &&& self.stats.fallback_emitted == self.fallback_next
        &&& self.stats.posting_entries_visited <= self.driver.start
        &&& self.stats.candidates_emitted <= self.stats.posting_entries_visited
        &&& self.stats.membership_lookups <= 3 * self.stats.posting_entries_visited
    }

    pub open spec fn finished(self, postings: PostingsModel) -> bool {
        self.driver.start == self.driver.end && self.fallback_next == postings.fallback(
            self.short,
            self.text,
        ).len()
    }

    /// How many of the three lists are looked at for a member: up to the first
    /// that lacks it.
    pub open spec fn looked(self, postings: PostingsModel, file: int) -> int {
        if !posted(postings.pairs, self.keys.0, file) {
            1
        } else if !posted(postings.pairs, self.keys.1, file) {
            2
        } else {
            3
        }
    }

    /// Whether all three lists have a member.
    pub open spec fn survives(self, postings: PostingsModel, file: int) -> bool {
        posted(postings.pairs, self.keys.0, file) && posted(postings.pairs, self.keys.1, file)
            && posted(postings.pairs, self.keys.2, file)
    }

    /// The cursor and what it says after one step.
    pub open spec fn stepped(self, postings: PostingsModel) -> (CandidateCursor, PostingStep) {
        let listed = self.driver.start < self.driver.end;
        let posting = ordinal_of(postings.pairs[self.driver.start as int]);
        let list = postings.fallback(self.short, self.text);
        let more = self.fallback_next < list.len();
        let file = list[self.fallback_next as int] as int;
        let passed = Stretch { start: (self.driver.start + 1) as usize, ..self.driver };
        let visited = (self.stats.posting_entries_visited + 1) as usize;
        if more && (!listed || file <= posting) {
            let same = listed && posting == file;
            (
                CandidateCursor {
                    fallback_next: (self.fallback_next + 1) as usize,
                    driver: if same {
                        passed
                    } else {
                        self.driver
                    },
                    stats: PostingProbeStats {
                        posting_entries_visited: if same {
                            visited
                        } else {
                            self.stats.posting_entries_visited
                        },
                        fallback_emitted: (self.stats.fallback_emitted + 1) as usize,
                        ..self.stats
                    },
                    ..self
                },
                PostingStep::Candidate {
                    ordinal: file as usize,
                    decision: IndexDecision::Fallback,
                },
            )
        } else if !listed {
            (self, PostingStep::Finished)
        } else if self.text && !(postings.rows[posting].coverage is Utf8) {
            (
                CandidateCursor {
                    driver: passed,
                    stats: PostingProbeStats { posting_entries_visited: visited, ..self.stats },
                    ..self
                },
                PostingStep::Pending,
            )
        } else {
            let survives = self.survives(postings, posting);
            (
                CandidateCursor {
                    driver: passed,
                    stats: PostingProbeStats {
                        posting_entries_visited: visited,
                        membership_lookups: (self.stats.membership_lookups + self.looked(
                            postings,
                            posting,
                        )) as usize,
                        candidates_emitted: if survives {
                            (self.stats.candidates_emitted + 1) as usize
                        } else {
                            self.stats.candidates_emitted
                        },
                        ..self.stats
                    },
                    ..self
                },
                if survives {
                    PostingStep::Candidate {
                        ordinal: posting as usize,
                        decision: IndexDecision::Verify,
                    }
                } else {
                    PostingStep::Pending
                },
            )
        }
    }
}

/// Intersection of three complete trigram lists, in the order of the members.
#[derive(Debug)]
pub struct PostingCandidates<'index> {
    pub index: &'index SnapshotPostings,
    pub cursor: CandidateCursor,
}

proof fn lemma_bound(pairs: Seq<u64>, value: int, i: int, low: int)
    requires
        0 <= i <= low <= pairs.len(),
        forall|j: int| i <= j < low ==> #[trigger] pairs[j] < value,
        low < pairs.len() ==> pairs[low] >= value,
    ensures
        bound_from(pairs, value, i) == low,
    decreases low - i,
{
    if i < low {
        lemma_bound(pairs, value, i + 1, low);
    }
}

pub proof fn lemma_bound_range(pairs: Seq<u64>, value: int, i: int)
    requires
        0 <= i <= pairs.len(),
    ensures
        i <= bound_from(pairs, value, i) <= pairs.len(),
        forall|j: int| i <= j < bound_from(pairs, value, i) ==> #[trigger] pairs[j] < value,
        bound_from(pairs, value, i) < pairs.len() ==> pairs[bound_from(pairs, value, i)] >= value,
    decreases pairs.len() - i,
{
    if i < pairs.len() && pairs[i] < value {
        lemma_bound_range(pairs, value, i + 1);
    }
}

impl SnapshotPostings {
    pub fn owner(&self) -> (r: ArenaOwnerId)
        ensures
            r == self@.owner,
    {
        self.owner
    }

    pub fn archive_digest(&self) -> (r: Sha256Digest)
        ensures
            r.data() == self@.archive,
    {
        self.archive
    }

    pub fn stats(&self) -> (r: SavedIndexStats)
        ensures
            r == self@.stats,
    {
        self.stats
    }

    pub fn posting_count(&self) -> (r: usize)
        ensures
            r == self@.pairs.len(),
    {
        self.pairs.len()
    }

    pub fn validate_directory(&self, directory: &SnapshotDirectory) -> (r: Result<
        (),
        SnapshotIndexError,
    >)
        ensures
            r == (match self@.directory_error(directory@) {
                Some(e) => Err::<(), SnapshotIndexError>(e),
                None => Ok(()),
            }),
    {
        if self.owner != directory.owner {
            return Err(SnapshotIndexError::OwnerMismatch);
        }
        if !self.archive.same(&directory.digest) || self.rows.len() != directory.members.len() {
            return Err(SnapshotIndexError::SourceMismatch);
        }
        Ok(())
    }

    /// The first position whose pair is not below a value.
    fn lower_bound(&self, value: u64) -> (r: usize)
        requires
            self@.wf(),
        ensures
            r == bound_from(self@.pairs, value as int, 0),
            r <= self@.pairs.len(),
    {
        let mut low: usize = 0;
        let mut high: usize = self.pairs.len();
        while low < high
            invariant
                low <= high <= self.pairs@.len(),
                ascending(self.pairs@),
                forall|i: int| 0 <= i < low ==> #[trigger] self.pairs@[i] < value,
                forall|i: int|
                    high <= i < self.pairs@.len() ==> #[trigger] self.pairs@[i] >= value,
            decreases high - low,
        {
            let middle: usize = low + (high - low) / 2;
            if self.pairs[middle] < value {
                low = middle + 1;
            } else {
                high = middle;
            }
        }
        proof {
            lemma_bound(self@.pairs, value as int, 0, low as int);
        }
        low
    }

    fn gram_range(&self, gram: u32) -> (r: Stretch)
        requires
            self@.wf(),
            gram <= MAX_GRAM,
        ensures
            r == stretch_of(self@.pairs, gram),
            r.start <= r.end <= self@.pairs.len(),
    {
        let start: usize = self.lower_bound(pack(gram, 0));
        let end: usize = self.lower_bound(pack(gram + 1, 0));
        proof {
            lemma_bound_range(self@.pairs, packed(gram as int, 0), 0);
            lemma_bound_range(self@.pairs, packed(gram + 1, 0), 0);
            if end < start {
                assert(self@.pairs[end as int] >= packed(gram + 1, 0));
                assert(self@.pairs[end as int] < packed(gram as int, 0));
            }
        }
        Stretch { start, end }
    }

    fn has_pair(&self, gram: u32, file: usize) -> (r: bool)
        requires
            self@.wf(),
            gram <= MAX_GRAM,
            file < SPAN,
        ensures
            r == posted(self@.pairs, gram, file as int),
    {
        let value: u64 = pack(gram, file);
        let at: usize = self.lower_bound(value);
        proof {
            lemma_bound_range(self@.pairs, value as int, 0);
        }
        if at < self.pairs.len() && self.pairs[at] == value {
            assert(self@.pairs[at as int] == value);
            return true;
        }
        proof {
            if self@.pairs.contains(value) {
                let i = choose|i: int| 0 <= i < self@.pairs.len() && self@.pairs[i] == value;
                if i >= at {
                    if i > at {
                        assert(self@.pairs[at as int] < self@.pairs[i]);
                    }
                }
            }
        }
        false
    }

    pub fn raw_candidates(&self, needle: &[u8]) -> (r: PostingCandidates<'_>)
        requires
            self@.wf(),
        ensures
            r.index == self,
            r.cursor == CandidateCursor::fresh(self@, needle@, false),
            r.wf(),
    {
        self.candidates(needle, false)
    }

    pub fn text_candidates(&self, needle: &str) -> (r: PostingCandidates<'_>)
        requires
            self@.wf(),
        ensures
            r.index == self,
            r.cursor == CandidateCursor::fresh(
                self@,
                vstd::utf8::encode_utf8(needle@),
                true,
            ),
            r.wf(),
    {
        self.candidates(needle.as_bytes(), true)
    }

    pub fn candidates(&self, needle: &[u8], text: bool) -> (r: PostingCandidates<'_>)
        requires
            self@.wf(),
        ensures
            r.index == self,
            r.cursor == CandidateCursor::fresh(self@, needle@, text),
            r.wf(),
    {
        let n: usize = needle.len();
        let short = n < 3;
        let none = Stretch { start: 0, end: 0 };
        let mut keys: (u32, u32, u32) = (0, 0, 0);
        let mut lists = (none, none, none);
        if !short {
            let a: u32 = gram_at(needle, 0);
            let b: u32 = gram_at(needle, (n - 3) / 2);
            let c: u32 = gram_at(needle, n - 3);
            keys = (a, b, c);
            lists = (self.gram_range(a), self.gram_range(b), self.gram_range(c));
        }
        let x: usize = lists.0.len();
        let y: usize = lists.1.len();
        let z: usize = lists.2.len();
        let driver = if x <= y && x <= z {
            lists.0
        } else if y <= z {
            lists.1
        } else {
            lists.2
        };
        let stats = PostingProbeStats {
            list_lookups: if short {
                0
            } else {
                3
            },
            posting_entries_visited: 0,
            membership_lookups: 0,
            candidates_emitted: 0,
            fallback_emitted: 0,
        };
        let cursor = CandidateCursor { keys, lists, driver, fallback_next: 0, text, short, stats };
        proof {
            lemma_fresh_counted(self@, needle@, text);
        }
        PostingCandidates { index: self, cursor }
    }
}

impl<'index> PostingCandidates<'index> {
    pub open spec fn wf(self) -> bool {
        self.cursor.wf(self.index@) && counted(self.cursor, self.index@)
    }

    pub fn stats(&self) -> (r: PostingProbeStats)
        ensures
            r == self.cursor.stats,
    {
        self.cursor.stats
    }

    fn fallback(&self) -> (r: &'index Vec<u32>)
        ensures
            r@ == self.index@.fallback(self.cursor.short, self.cursor.text),
    {
        if self.cursor.short {
            &self.index.captured
        } else if self.cursor.text {
            &self.index.text_fallback
        } else {
            &self.index.raw_fallback
        }
    }

    pub fn is_finished(&self) -> (r: bool)
        ensures
            r == self.cursor.finished(self.index@),
    {
        self.cursor.driver.start == self.cursor.driver.end && self.cursor.fallback_next
            == self.fallback().len()
    }

    /// The members proved not to hold the needle; known only when finished.
    pub fn excluded_files(&self) -> (r: Option<usize>)
        requires
            self.wf(),
        ensures
            r == (if self.cursor.finished(self.index@) {
                Some(
                    (self.index@.captured.len() - self.cursor.stats.candidates_emitted
                        - self.cursor.stats.fallback_emitted) as usize,
                )
            } else {
                None
            }),
    {
        if self.is_finished() {
            Some(
                self.index.captured.len() - self.cursor.stats.candidates_emitted
                    - self.cursor.stats.fallback_emitted,
            )
        } else {
            None
        }
    }

    /// Looks at no more than one posting and one fallback member.
    pub fn step(&mut self) -> (r: PostingStep)
        requires
            old(self).wf(),
        ensures
            final(self).index == old(self).index,
            (final(self).cursor, r) == old(self).cursor.stepped(old(self).index@),
            final(self).wf(),
    {
        proof {
            lemma_step_counted(self.cursor, self.index@);
        }
        let pairs = &self.index.pairs;
        let listed = self.cursor.driver.start < self.cursor.driver.end;
        let posting: usize = if listed {
            assert(pair_ok(
                self.index@.pairs[self.cursor.driver.start as int],
                self.index@.rows,
            ));
            ordinal(pairs[self.cursor.driver.start])
        } else {
            0
        };
        let list = self.fallback();
        let next: usize = self.cursor.fallback_next;
        if next < list.len() {
            let file: usize = list[next] as usize;
            if !listed || file <= posting {
                self.cursor.fallback_next = next + 1;
                if listed && posting == file {
                    self.cursor.driver.start = self.cursor.driver.start + 1;
                    self.cursor.stats.posting_entries_visited =
                    self.cursor.stats.posting_entries_visited + 1;
                }
                self.cursor.stats.fallback_emitted = self.cursor.stats.fallback_emitted + 1;
                return PostingStep::Candidate { ordinal: file, decision: IndexDecision::Fallback };
            }
        }
        if !listed {
            return PostingStep::Finished;
        }
        self.cursor.driver.start = self.cursor.driver.start + 1;
        self.cursor.stats.posting_entries_visited = self.cursor.stats.posting_entries_visited + 1;
        assert(self.index@.rows[posting as int] == self.index.rows@[posting as int]@);
        if self.cursor.text {
            match self.index.rows[posting].coverage {
                Coverage::Utf8 => {},
                _ => {
                    return PostingStep::Pending;
                },
            }
        }
        self.cursor.stats.membership_lookups = self.cursor.stats.membership_lookups + 1;
        if !self.index.has_pair(self.cursor.keys.0, posting) {
            return PostingStep::Pending;
        }
        self.cursor.stats.membership_lookups = self.cursor.stats.membership_lookups + 1;
        if !self.index.has_pair(self.cursor.keys.1, posting) {
            return PostingStep::Pending;
        }
        self.cursor.stats.membership_lookups = self.cursor.stats.membership_lookups + 1;
        if !self.index.has_pair(self.cursor.keys.2, posting) {
            return PostingStep::Pending;
        }
        self.cursor.stats.candidates_emitted = self.cursor.stats.candidates_emitted + 1;
        PostingStep::Candidate { ordinal: posting, decision: IndexDecision::Verify }
    }
}

} // verus!
