//! Storing postings, and opening them under a pin.
use vstd::prelude::*;

use crate::envelope::{covered, le_bytes, put_le, Sha256Digest, DIGEST_LEN, FRAME_LEN, HEADER_LEN};
use crate::memory::wide_size;
use crate::model::{group_views, views};
use crate::search::archive::{DirectoryModel, MemberModel, SnapshotDirectory};
use crate::search::snapshot_index::codec::{
    announced, count_rows, in_order, is_artifact, need, need_field, open_document, opening_digests,
    opening_error, prefix_bytes, put_prefix, put_row_head, read_announced, read_row, row_at,
    row_head, seal_document, stats_of, stopped, IndexArtifact,
};
use crate::search::snapshot_index::postings::{
    ascending, encoded_length, fallbacks, gram_of, kept_from, ordinal, ordinal_of, pair_ok,
    postings_charge, postings_cost, postings_len, postings_len_ok, postings_schema,
    postings_schema_spec, Keep, PostingsModel, SnapshotPostings, MAX_POSTINGS_BYTES, SPAN,
};
use crate::search::snapshot_index::{
    segments_ok, segments_push, Row, RowModel, SegmentsModel, SnapshotIndex, SnapshotIndexError,
    MAX_GRAM, MAX_INDEX_GRAMS, MAX_INDEX_MEMBERS, PREFIX_BYTES, ROW_BYTES,
};

verus! {

broadcast use group_views;

/// The heads of rows from the `k`th on.
pub open spec fn heads_from(rows: Seq<RowModel>, k: int) -> Seq<u8>
    decreases rows.len() - k,
{
    if k < 0 || k >= rows.len() {
        Seq::empty()
    } else {
        row_head(rows[k]) + heads_from(rows, k + 1)
    }
}

/// Pairs from the `i`th on, as a document holds them.
pub open spec fn pairs_from(pairs: Seq<u64>, i: int) -> Seq<u8>
    decreases pairs.len() - i,
{
    if i < 0 || i >= pairs.len() {
        Seq::empty()
    } else {
        le_bytes(pairs[i] as nat, 8) + pairs_from(pairs, i + 1)
    }
}

/// The payload of stored postings.
pub open spec fn postings_payload(postings: PostingsModel) -> Seq<u8> {
    prefix_bytes(postings.archive, postings.rows.len(), postings.pairs.len()) + heads_from(
        postings.rows,
        0,
    ) + pairs_from(postings.pairs, 0)
}

/// Appends the heads of rows.
pub fn put_heads<C: FnMut() -> bool>(out: &mut Vec<u8>, rows: &Vec<Row>, canceled: &mut C) -> (r:
    Result<(), SnapshotIndexError>)
    requires
        call_requires(*old(canceled), ()),
    ensures
        *final(canceled) == *old(canceled),
        match r {
            Ok(()) => final(out)@ == old(out)@ + heads_from(views(rows@), 0),
            Err(_) => stopped(r, *old(canceled)),
        },
{
    let ghost model = views(rows@);
    let ghost all = out@ + heads_from(model, 0);
    let mut k: usize = 0;
    while k < rows.len()
        invariant
            k <= rows@.len(),
            model == views(rows@),
            *canceled == *old(canceled),
            call_requires(*canceled, ()),
            all == out@ + heads_from(model, k as int),
        decreases rows.len() - k,
    {
        if canceled() {
            return Err(SnapshotIndexError::Canceled);
        }
        assert(model[k as int] == rows@[k as int]@);
        put_row_head(out, &rows[k]);
        k = k + 1;
        assert(all =~= out@ + heads_from(model, k as int));
    }
    assert(all =~= out@);
    Ok(())
}

/// Whether bytes start like stored postings. This establishes no trust.
pub open spec fn looks_like_postings(bytes: Seq<u8>) -> bool {
    bytes.len() >= 4 && bytes[0] == 70 && bytes[1] == 67 && bytes[2] == 66 && bytes[3] == 79
}

/// So many pairs from a position on, behind those already read.
pub open spec fn pairs_at(
    d: Seq<u8>,
    i: int,
    n: int,
    rows: int,
    done: Seq<u64>,
) -> Result<Seq<u64>, SnapshotIndexError>
    decreases n,
{
    if n <= 0 {
        Ok(done)
    } else {
        match need(d, i, 8) {
            Err(e) => Err(e),
            Ok(pair) => if gram_of(pair as u64) > MAX_GRAM || ordinal_of(pair as u64) >= rows || (
            done.len() > 0 && done.last() >= pair) {
                Err(SnapshotIndexError::Format)
            } else {
                pairs_at(d, i + 8, n - 1, rows, done.push(pair as u64))
            },
        }
    }
}

/// The heads of the rows from the `k`th on, at fixed places, and the trigrams
/// that they count.
pub open spec fn heads_at(
    d: Seq<u8>,
    i: int,
    members: Seq<MemberModel>,
    k: int,
    total: int,
    rows: Seq<RowModel>,
    sum: int,
) -> Result<(Seq<RowModel>, int), SnapshotIndexError>
    decreases members.len() - k,
{
    if k < 0 || k >= members.len() {
        Ok((rows, sum))
    } else {
        match row_at(d, i, sum, total, members[k]) {
            Err(e) => Err(e),
            Ok(row) => heads_at(
                d,
                i + ROW_BYTES,
                members,
                k + 1,
                total,
                rows.push(row),
                sum + row.count,
            ),
        }
    }
}

/// How many of the first `n` pairs name a member.
pub open spec fn named(pairs: Seq<u64>, n: int, k: int) -> int
    decreases n,
{
    if n <= 0 {
        0
    } else {
        named(pairs, n - 1, k) + if ordinal_of(pairs[n - 1]) == k {
            1int
        } else {
            0int
        }
    }
}

/// Whether every row is named as often as it says.
pub open spec fn counts_match(rows: Seq<RowModel>, pairs: Seq<u64>) -> bool {
    forall|k: int|
        0 <= k < rows.len() ==> #[trigger] named(pairs, pairs.len() as int, k) == rows[k].count
}

/// What stored postings hold, given whether memory is granted.
pub open spec fn decoded_postings(
    d: Seq<u8>,
    length: int,
    directory: DirectoryModel,
    conversion: bool,
    granted: bool,
) -> Result<PostingsModel, SnapshotIndexError> {
    match announced(d, directory.digest) {
        Err(e) => Err(e),
        Ok((rows, total)) => if rows != directory.members.len() || !postings_len_ok(
            rows as int,
            total as int,
        ) || postings_len(rows as int, total as int) != length || postings_charge(
            rows as int,
            total as int,
            conversion,
        ) > usize::MAX {
            Err(SnapshotIndexError::Limits)
        } else if !granted {
            Err(SnapshotIndexError::ResourceDenied)
        } else {
            match heads_at(
                d,
                HEADER_LEN + PREFIX_BYTES,
                directory.members,
                0,
                total as int,
                Seq::empty(),
                0,
            ) {
                Err(e) => Err(e),
                Ok((found, sum)) => if sum != total {
                    Err(SnapshotIndexError::Format)
                } else {
                    match pairs_at(
                        d,
                        HEADER_LEN + PREFIX_BYTES + rows * ROW_BYTES,
                        total as int,
                        rows as int,
                        Seq::empty(),
                    ) {
                        Err(e) => Err(e),
                        Ok(pairs) => if !counts_match(found, pairs) {
                            Err(SnapshotIndexError::Format)
                        } else {
                            Ok(
                                SnapshotPostings {
                                    owner: directory.owner,
                                    archive: directory.digest,
                                    rows: found,
                                    pairs,
                                    captured: kept_from(found, Keep::Captured, 0),
                                    raw_fallback: kept_from(found, Keep::RawFallback, 0),
                                    text_fallback: kept_from(found, Keep::TextFallback, 0),
                                    stats: stats_of(found, total as int),
                                },
                            )
                        },
                    }
                },
            }
        },
    }
}

/// Reads the heads of all rows.
pub fn read_heads<C: FnMut() -> bool>(
    document: &Vec<u8>,
    end: usize,
    start: usize,
    directory: &SnapshotDirectory,
    total: usize,
    canceled: &mut C,
) -> (r: Result<(Vec<Row>, usize), SnapshotIndexError>)
    requires
        start <= end <= document@.len(),
        total <= MAX_INDEX_GRAMS,
        directory@.members.len() <= MAX_INDEX_MEMBERS,
        call_requires(*old(canceled), ()),
    ensures
        *final(canceled) == *old(canceled),
        stopped(r, *old(canceled)) || match heads_at(
            document@.subrange(0, end as int),
            start as int,
            directory@.members,
            0,
            total as int,
            Seq::empty(),
            0,
        ) {
            Err(e) => r matches Err(f) && f == e,
            Ok((found, sum)) => r matches Ok((rows, n)) && views(rows@) == found && n == sum,
        },
        r matches Ok((rows, n)) ==> rows@.len() == directory@.members.len() && n <= total && start
            + rows@.len() * ROW_BYTES <= end && heads_ok(views(rows@), n as int),
{
    let ghost d = document@.subrange(0, end as int);
    let ghost all = heads_at(
        d,
        start as int,
        directory@.members,
        0,
        total as int,
        Seq::empty(),
        0,
    );
    let mut rows: Vec<Row> = Vec::new();
    let mut sum: usize = 0;
    let mut at: usize = start;
    let mut k: usize = 0;
    assert(views(rows@) =~= Seq::<RowModel>::empty());
    while k < directory.members.len()
        invariant
            k <= directory@.members.len() <= MAX_INDEX_MEMBERS,
            start <= at <= end <= document.len(),
            at == start + k * ROW_BYTES,
            total <= MAX_INDEX_GRAMS,
            d == document@.subrange(0, end as int),
            rows@.len() == k,
            sum <= total,
            *canceled == *old(canceled),
            call_requires(*canceled, ()),
            heads_ok(views(rows@), sum as int),
            all == heads_at(
                d,
                start as int,
                directory@.members,
                0,
                total as int,
                Seq::empty(),
                0,
            ),
            all == heads_at(
                d,
                at as int,
                directory@.members,
                k as int,
                total as int,
                views(rows@),
                sum as int,
            ),
        decreases directory.members.len() - k,
    {
        if canceled() {
            return Err(SnapshotIndexError::Canceled);
        }
        assert(directory@.members[k as int] == directory.members@[k as int]@);
        let row = match read_row(document, end, at, sum, total, &directory.members[k]) {
            Ok(row) => row,
            Err(e) => {
                return Err(e);
            },
        };
        let ghost earlier = views(rows@);
        proof {
            lemma_heads_push(earlier, sum as int, row@);
        }
        at = at + ROW_BYTES;
        sum = sum + row.count;
        rows.push(row);
        k = k + 1;
    }
    Ok((rows, sum))
}

/// Rows whose trigrams follow one another and are so many in all.
pub open spec fn heads_ok(rows: Seq<RowModel>, sum: int) -> bool {
    &&& forall|k: int|
        0 <= k < rows.len() ==> {
            let row = #[trigger] rows[k];
            &&& row.digest.len() == 32
            &&& row.start == start_of(rows, k)
            &&& !row.coverage.has_segment() ==> row.count == 0
        }
    &&& start_of(rows, rows.len() as int) == sum
}

/// Where the trigrams of a row start.
pub open spec fn start_of(rows: Seq<RowModel>, k: int) -> int
    decreases k,
{
    if k <= 0 {
        0
    } else {
        start_of(rows, k - 1) + rows[k - 1].count
    }
}

proof fn lemma_start_prefix(rows: Seq<RowModel>, row: RowModel, k: int)
    requires
        0 <= k <= rows.len(),
    ensures
        start_of(rows.push(row), k) == start_of(rows, k),
    decreases k,
{
    if k > 0 {
        lemma_start_prefix(rows, row, k - 1);
        assert(rows.push(row)[k - 1] == rows[k - 1]);
    }
}

proof fn lemma_heads_push(rows: Seq<RowModel>, sum: int, row: RowModel)
    requires
        heads_ok(rows, sum),
        row.digest.len() == 32,
        row.start == sum,
        !row.coverage.has_segment() ==> row.count == 0,
    ensures
        heads_ok(rows.push(row), sum + row.count),
{
    let now = rows.push(row);
    lemma_start_prefix(rows, row, rows.len() as int);
    assert forall|k: int| 0 <= k < now.len() implies ({
        let one = #[trigger] now[k];
        &&& one.digest.len() == 32
        &&& one.start == start_of(now, k)
        &&& !one.coverage.has_segment() ==> one.count == 0
    }) by {
        lemma_start_prefix(rows, row, k);
        if k < rows.len() {
            assert(now[k] == rows[k]);
        }
    }
}

fn read_pairs<C: FnMut() -> bool>(
    document: &Vec<u8>,
    end: usize,
    start: usize,
    n: usize,
    rows: usize,
    canceled: &mut C,
) -> (r: Result<Vec<u64>, SnapshotIndexError>)
    requires
        start <= end <= document@.len(),
        n <= MAX_INDEX_GRAMS,
        rows <= MAX_INDEX_MEMBERS,
        call_requires(*old(canceled), ()),
    ensures
        *final(canceled) == *old(canceled),
        stopped(r, *old(canceled)) || match pairs_at(
            document@.subrange(0, end as int),
            start as int,
            n as int,
            rows as int,
            Seq::empty(),
        ) {
            Ok(pairs) => r matches Ok(out) && out@ == pairs,
            Err(e) => r matches Err(f) && f == e,
        },
        r matches Ok(out) ==> out@.len() == n && ascending(out@) && forall|i: int|
            0 <= i < out@.len() ==> gram_of(#[trigger] out@[i]) <= MAX_GRAM && ordinal_of(out@[i])
                < rows,
{
    let ghost d = document@.subrange(0, end as int);
    let mut out: Vec<u64> = Vec::new();
    let mut i: usize = 0;
    assert(out@ =~= Seq::<u64>::empty());
    while i < n
        invariant
            i <= n <= MAX_INDEX_GRAMS,
            start <= end <= document.len(),
            start + i * 8 <= end,
            d == document@.subrange(0, end as int),
            out@.len() == i,
            rows <= MAX_INDEX_MEMBERS,
            ascending(out@),
            forall|i: int|
                0 <= i < out@.len() ==> gram_of(#[trigger] out@[i]) <= MAX_GRAM && ordinal_of(
                    out@[i],
                ) < rows,
            *canceled == *old(canceled),
            call_requires(*canceled, ()),
            pairs_at(d, start as int, n as int, rows as int, Seq::empty()) == pairs_at(
                d,
                start + i * 8,
                n - i,
                rows as int,
                out@,
            ),
        decreases n - i,
    {
        if i % 4096 == 0 && canceled() {
            return Err(SnapshotIndexError::Canceled);
        }
        let pair: u64 = match need_field(document, end, start + i * 8, 8) {
            Ok(pair) => pair,
            Err(e) => {
                return Err(e);
            },
        };
        if pair / SPAN > MAX_GRAM as u64 || ordinal(pair) >= rows {
            return Err(SnapshotIndexError::Format);
        }
        if i > 0 && out[i - 1] >= pair {
            return Err(SnapshotIndexError::Format);
        }
        proof {
            let longer = out@.push(pair);
            assert forall|a: int, b: int| 0 <= a < b < longer.len() implies #[trigger] longer[a]
                < #[trigger] longer[b] by {
                assert(longer[a] == out@[a]);
                if b < out@.len() {
                    assert(longer[b] == out@[b]);
                } else if a < out@.len() - 1 {
                    assert(out@[a] < out@[out@.len() - 1]);
                }
            }
        }
        out.push(pair);
        i = i + 1;
    }
    Ok(out)
}

/// Whether every row is named as often as it says.
fn check_counts(rows: &Vec<Row>, pairs: &Vec<u64>) -> (r: bool)
    requires
        forall|i: int| 0 <= i < pairs@.len() ==> ordinal_of(#[trigger] pairs@[i]) < rows@.len(),
    ensures
        r == counts_match(views(rows@), pairs@),
{
    let ghost model = views(rows@);
    let mut seen: Vec<usize> = Vec::new();
    let mut k: usize = 0;
    while k < rows.len()
        invariant
            k <= rows@.len(),
            seen@.len() == k,
            forall|j: int| 0 <= j < k ==> #[trigger] seen@[j] == 0,
        decreases rows.len() - k,
    {
        seen.push(0);
        k = k + 1;
    }
    let mut i: usize = 0;
    while i < pairs.len()
        invariant
            i <= pairs.len(),
            seen@.len() == rows@.len(),
            forall|j: int|
                0 <= j < pairs@.len() ==> ordinal_of(#[trigger] pairs@[j]) < rows@.len(),
            forall|j: int| 0 <= j < seen@.len() ==> #[trigger] seen@[j] == named(pairs@, i as int, j),
            forall|j: int| 0 <= j < seen@.len() ==> #[trigger] seen@[j] <= i,
        decreases pairs.len() - i,
    {
        let at: usize = ordinal(pairs[i]);
        let ghost before = seen@;
        let count: usize = seen[at];
        seen.set(at, count + 1);
        i = i + 1;
        assert forall|j: int| 0 <= j < seen@.len() implies #[trigger] seen@[j] == named(
            pairs@,
            i as int,
            j,
        ) by {
            assert(before[j] == named(pairs@, i - 1, j));
        }
        assert forall|j: int| 0 <= j < seen@.len() implies #[trigger] seen@[j] <= i by {
            assert(before[j] <= i - 1);
        }
    }
    k = 0;
    while k < rows.len()
        invariant
            k <= rows@.len(),
            model == views(rows@),
            seen@.len() == rows@.len(),
            forall|j: int|
                0 <= j < seen@.len() ==> #[trigger] seen@[j] == named(
                    pairs@,
                    pairs@.len() as int,
                    j,
                ),
            forall|j: int|
                0 <= j < k ==> #[trigger] named(pairs@, pairs@.len() as int, j) == model[j].count,
        decreases rows.len() - k,
    {
        assert(model[k as int] == rows@[k as int]@);
        assert(seen@[k as int] == named(pairs@, pairs@.len() as int, k as int));
        if seen[k] != rows[k].count {
            return false;
        }
        k = k + 1;
    }
    true
}

pub proof fn lemma_named(pairs: Seq<u64>, n: int, k: int, i: int)
    requires
        0 <= i < n <= pairs.len(),
        ordinal_of(pairs[i]) == k,
    ensures
        named(pairs, n, k) > 0,
    decreases n,
{
    lemma_named_bound(pairs, n - 1, k);
    if i < n - 1 {
        lemma_named(pairs, n - 1, k, i);
    }
}

proof fn lemma_named_bound(pairs: Seq<u64>, n: int, k: int)
    requires
        0 <= n,
    ensures
        0 <= named(pairs, n, k) <= n,
    decreases n,
{
    if n > 0 {
        lemma_named_bound(pairs, n - 1, k);
    }
}

/// Rows named as often as they say, and only those with a segment, make every
/// pair a pair of a segment.
proof fn lemma_pairs_ok(rows: Seq<RowModel>, pairs: Seq<u64>, sum: int)
    requires
        heads_ok(rows, sum),
        counts_match(rows, pairs),
        forall|i: int|
            0 <= i < pairs.len() ==> gram_of(#[trigger] pairs[i]) <= MAX_GRAM && ordinal_of(
                pairs[i],
            ) < rows.len(),
    ensures
        forall|i: int| 0 <= i < pairs.len() ==> pair_ok(#[trigger] pairs[i], rows),
{
    assert forall|i: int| 0 <= i < pairs.len() implies pair_ok(#[trigger] pairs[i], rows) by {
        let k = ordinal_of(pairs[i]);
        lemma_named(pairs, pairs.len() as int, k, i);
        assert(named(pairs, pairs.len() as int, k) == rows[k].count);
    }
}

/// Whether opening postings answers as a model says.
pub open spec fn are_postings(
    r: Result<SnapshotPostings, SnapshotIndexError>,
    result: Result<PostingsModel, SnapshotIndexError>,
) -> bool {
    match result {
        Ok(found) => r matches Ok(postings) && postings@ == found,
        Err(e) => r matches Err(f) && f == e,
    }
}

/// Whether memory was granted or refused for the size that a document
/// announces, if any was asked for.
pub open spec fn postings_grant<A: FnOnce(u64) -> bool>(
    document: Seq<u8>,
    directory: DirectoryModel,
    conversion: bool,
    reserve: A,
    granted: bool,
) -> bool {
    announced(covered(document), directory.digest) matches Ok((rows, total)) ==> {
        let charge = postings_charge(rows as int, total as int, conversion);
        rows == directory.members.len() && postings_len_ok(rows as int, total as int)
            && postings_len(rows as int, total as int) == document.len() && charge <= usize::MAX
            ==> call_ensures(reserve, (charge as u64,), granted)
    }
}

/// Whether opening stored postings under a pin may answer so.
pub open spec fn is_decoding<
    A: FnOnce(u64) -> bool,
    H: Fn(&Vec<u8>, usize) -> Sha256Digest,
>(
    r: Result<SnapshotPostings, SnapshotIndexError>,
    document: Seq<u8>,
    pin: Seq<u8>,
    directory: DirectoryModel,
    conversion: bool,
    reserve: A,
    hash: H,
) -> bool {
    exists|outer: Sha256Digest, inner: Sha256Digest|
        #[trigger] opening_digests(document, 52, MAX_POSTINGS_BYTES, hash, outer, inner)
            && match opening_error(
            document,
            postings_schema_spec(),
            52,
            MAX_POSTINGS_BYTES,
            pin,
            outer,
            inner,
        ) {
            Some(e) => r matches Err(f) && f == e,
            None => exists|granted: bool|
                #[trigger] postings_grant(document, directory, conversion, reserve, granted)
                    && are_postings(
                    r,
                    decoded_postings(
                        covered(document),
                        document.len() as int,
                        directory,
                        conversion,
                        granted,
                    ),
                ),
        }
}

impl SnapshotPostings {
    /// Whether bytes start like stored postings. This establishes no trust.
    pub fn is_encoded(bytes: &Vec<u8>) -> (r: bool)
        ensures
            r == looks_like_postings(bytes@),
    {
        bytes.len() >= 4 && bytes[0] == 70 && bytes[1] == 67 && bytes[2] == 66 && bytes[3] == 79
    }

    /// Stores the postings.
    pub fn encode<
        A: FnOnce(u64) -> bool,
        H: Fn(&Vec<u8>, usize) -> Sha256Digest,
        C: FnMut() -> bool,
    >(&self, reserve: A, hash: H, mut canceled: C) -> (r: Result<IndexArtifact, SnapshotIndexError>)
        requires
            self@.wf(),
            forall|charge: u64| call_requires(reserve, (charge,)),
            forall|document: &Vec<u8>, n: usize|
                n <= document@.len() ==> call_requires(hash, (document, n)),
            call_requires(canceled, ()),
        ensures
            stopped(r, canceled) || is_artifact(
                r,
                postings_schema_spec(),
                postings_payload(self@),
                postings_len(self@.rows.len() as int, self@.pairs.len() as int),
                MAX_POSTINGS_BYTES as int,
                reserve,
                hash,
            ),
    {
        let length: usize = match encoded_length(self.rows.len(), self.pairs.len()) {
            Ok(length) => length,
            Err(e) => {
                return Err(e);
            },
        };
        let charge: u128 = length as u128 * 4 + wide_size::<IndexArtifact>();
        if charge > usize::MAX as u128 {
            return Err(SnapshotIndexError::Limits);
        }
        if !reserve(charge as u64) {
            return Err(SnapshotIndexError::ResourceDenied);
        }
        if canceled() {
            return Err(SnapshotIndexError::Canceled);
        }
        let mut payload: Vec<u8> = Vec::new();
        put_prefix(&mut payload, &self.archive, self.rows.len(), self.pairs.len());
        match put_heads(&mut payload, &self.rows, &mut canceled) {
            Ok(()) => {},
            Err(e) => {
                return Err(e);
            },
        }
        match self.put_pairs(&mut payload, &mut canceled) {
            Ok(()) => {},
            Err(e) => {
                return Err(e);
            },
        }
        assert(payload@ =~= postings_payload(self@));
        if payload.len() > length || length - payload.len() != FRAME_LEN {
            return Err(SnapshotIndexError::ResourceDenied);
        }
        let artifact = seal_document(postings_schema(), &payload, &hash);
        if canceled() {
            return Err(SnapshotIndexError::Canceled);
        }
        Ok(artifact)
    }

    fn put_pairs<C: FnMut() -> bool>(&self, out: &mut Vec<u8>, canceled: &mut C) -> (r: Result<
        (),
        SnapshotIndexError,
    >)
        requires
            call_requires(*old(canceled), ()),
        ensures
            *final(canceled) == *old(canceled),
            match r {
                Ok(()) => final(out)@ == old(out)@ + pairs_from(self@.pairs, 0),
                Err(_) => stopped(r, *old(canceled)),
            },
    {
        let ghost all = out@ + pairs_from(self@.pairs, 0);
        let mut i: usize = 0;
        while i < self.pairs.len()
            invariant
                i <= self.pairs@.len(),
                *canceled == *old(canceled),
                call_requires(*canceled, ()),
                all == out@ + pairs_from(self@.pairs, i as int),
            decreases self.pairs.len() - i,
        {
            if i % 4096 == 0 && canceled() {
                return Err(SnapshotIndexError::Canceled);
            }
            put_le(out, self.pairs[i], 8);
            i = i + 1;
            assert(all =~= out@ + pairs_from(self@.pairs, i as int));
        }
        assert(all =~= out@);
        Ok(())
    }

    /// Opens stored postings under a digest that the host retained.
    pub fn decode_pinned<
        A: FnOnce(u64) -> bool,
        H: Fn(&Vec<u8>, usize) -> Sha256Digest,
        C: FnMut() -> bool,
    >(
        bytes: &Vec<u8>,
        trusted_digest: &Sha256Digest,
        directory: &SnapshotDirectory,
        reserve: A,
        hash: H,
        mut canceled: C,
    ) -> (r: Result<Self, SnapshotIndexError>)
        requires
            forall|charge: u64| call_requires(reserve, (charge,)),
            forall|document: &Vec<u8>, n: usize|
                n <= document@.len() ==> call_requires(hash, (document, n)),
            call_requires(canceled, ()),
        ensures
            r matches Ok(postings) ==> postings@.wf(),
            stopped(r, canceled) || is_decoding(
                r,
                bytes@,
                trusted_digest.data(),
                directory@,
                false,
                reserve,
                hash,
            ),
    {
        SnapshotPostings::decode(
            bytes,
            trusted_digest,
            directory,
            false,
            reserve,
            &hash,
            &mut canceled,
        )
    }

    fn decode<
        A: FnOnce(u64) -> bool,
        H: Fn(&Vec<u8>, usize) -> Sha256Digest,
        C: FnMut() -> bool,
    >(
        bytes: &Vec<u8>,
        trusted_digest: &Sha256Digest,
        directory: &SnapshotDirectory,
        conversion_headroom: bool,
        reserve: A,
        hash: &H,
        canceled: &mut C,
    ) -> (r: Result<Self, SnapshotIndexError>)
        requires
            forall|charge: u64| call_requires(reserve, (charge,)),
            forall|document: &Vec<u8>, n: usize|
                n <= document@.len() ==> call_requires(*hash, (document, n)),
            call_requires(*old(canceled), ()),
        ensures
            *final(canceled) == *old(canceled),
            r matches Ok(postings) ==> postings@.wf() && heads_ok(
                postings@.rows,
                postings@.pairs.len() as int,
            ) && counts_match(postings@.rows, postings@.pairs),
            stopped(r, *old(canceled)) || is_decoding(
                r,
                bytes@,
                trusted_digest.data(),
                directory@,
                conversion_headroom,
                reserve,
                *hash,
            ),
    {
        match open_document(
            bytes,
            postings_schema(),
            PREFIX_BYTES,
            MAX_POSTINGS_BYTES,
            trusted_digest,
            hash,
            canceled,
        ) {
            Ok(()) => {},
            Err(e) => {
                return Err(e);
            },
        }
        let end: usize = bytes.len() - DIGEST_LEN;
        assert(bytes@.subrange(0, end as int) == covered(bytes@));
        let ghost ask = |granted: bool|
            postings_grant(bytes@, directory@, conversion_headroom, reserve, granted);
        let (count, total) = match read_announced(bytes, end, &directory.digest) {
            Ok(found) => found,
            Err(e) => {
                assert(ask(false));
                return Err(e);
            },
        };
        if count != directory.members.len() as u64 || count > MAX_INDEX_MEMBERS as u64 || total
            > MAX_INDEX_GRAMS as u64 {
            assert(ask(false));
            return Err(SnapshotIndexError::Limits);
        }
        let count: usize = count as usize;
        let total: usize = total as usize;
        match encoded_length(count, total) {
            Ok(length) => {
                if length != bytes.len() {
                    assert(ask(false));
                    return Err(SnapshotIndexError::Limits);
                }
            },
            Err(e) => {
                assert(ask(false));
                return Err(e);
            },
        }
        let charge: u128 = postings_cost(count, total, conversion_headroom);
        if charge > usize::MAX as u128 {
            assert(ask(false));
            return Err(SnapshotIndexError::Limits);
        }
        let granted = reserve(charge as u64);
        assert(ask(granted));
        if !granted {
            return Err(SnapshotIndexError::ResourceDenied);
        }
        let start: usize = HEADER_LEN + PREFIX_BYTES;
        let (rows, sum) = match read_heads(bytes, end, start, directory, total, canceled) {
            Ok(found) => found,
            Err(e) => {
                return Err(e);
            },
        };
        if sum != total {
            return Err(SnapshotIndexError::Format);
        }
        let pairs = match read_pairs(
            bytes,
            end,
            start + count * ROW_BYTES,
            total,
            count,
            canceled,
        ) {
            Ok(pairs) => pairs,
            Err(e) => {
                return Err(e);
            },
        };
        if !check_counts(&rows, &pairs) {
            return Err(SnapshotIndexError::Format);
        }
        proof {
            lemma_pairs_ok(views(rows@), pairs@, sum as int);
        }
        let (captured, raw_fallback, text_fallback) = match fallbacks(&rows, canceled) {
            Ok(lists) => lists,
            Err(e) => {
                return Err(e);
            },
        };
        if canceled() {
            return Err(SnapshotIndexError::Canceled);
        }
        let stats = count_rows(&rows, total);
        Ok(
            SnapshotPostings {
                owner: directory.owner,
                archive: directory.digest,
                rows,
                pairs,
                captured,
                raw_fallback,
                text_fallback,
                stats,
            },
        )
    }
}

/// The trigrams that the first `n` pairs name for a member, in order.
pub open spec fn grams_for(pairs: Seq<u64>, n: int, k: int) -> Seq<u32>
    decreases n,
{
    if n <= 0 {
        Seq::empty()
    } else if ordinal_of(pairs[n - 1]) == k {
        grams_for(pairs, n - 1, k).push(gram_of(pairs[n - 1]) as u32)
    } else {
        grams_for(pairs, n - 1, k)
    }
}

/// Whether an index is postings transposed back: each row lists the trigrams
/// that the pairs name for it.
pub open spec fn transposed_back(postings: PostingsModel, index: SegmentsModel) -> bool {
    &&& index.owner == postings.owner
    &&& index.archive == postings.archive
    &&& index.rows == postings.rows
    &&& index.stats == postings.stats
    &&& index.grams.len() == postings.pairs.len()
    &&& forall|k: int|
        0 <= k < index.rows.len() ==> index.grams.subrange(
            (#[trigger] index.rows[k]).start as int,
            index.end_of(k),
        ) == grams_for(postings.pairs, postings.pairs.len() as int, k)
}

proof fn lemma_grams_for(pairs: Seq<u64>, n: int, k: int)
    requires
        0 <= n <= pairs.len(),
        ascending(pairs),
        forall|i: int| 0 <= i < pairs.len() ==> gram_of(#[trigger] pairs[i]) <= MAX_GRAM,
    ensures
        grams_for(pairs, n, k).len() == named(pairs, n, k),
        in_order(grams_for(pairs, n, k)),
        grams_for(pairs, n, k).len() > 0 ==> exists|i: int|
            0 <= i < n && ordinal_of(#[trigger] pairs[i]) == k && gram_of(pairs[i]) == grams_for(
                pairs,
                n,
                k,
            ).last(),
    decreases n,
{
    if n > 0 {
        lemma_grams_for(pairs, n - 1, k);
        let before = grams_for(pairs, n - 1, k);
        let pair = pairs[n - 1];
        if ordinal_of(pair) == k {
            let now = grams_for(pairs, n, k);
            assert(gram_of(pair) <= MAX_GRAM);
            if before.len() > 0 {
                let i = choose|i: int|
                    0 <= i < n - 1 && ordinal_of(#[trigger] pairs[i]) == k && gram_of(pairs[i])
                        == before.last();
                assert(pairs[i] < pair);
                assert(gram_of(pairs[i]) < gram_of(pair));
            }
            assert forall|a: int, b: int| 0 <= a < b < now.len() implies #[trigger] now[a]
                < #[trigger] now[b] by {
                assert(now[a] == before[a]);
                if b < before.len() {
                    assert(now[b] == before[b]);
                } else if a < before.len() - 1 {
                    assert(before[a] < before[before.len() - 1]);
                }
            }
            assert(now.last() == gram_of(pair));
            assert(ordinal_of(pairs[n - 1]) == k);
        }
    }
}

proof fn lemma_named_grows(pairs: Seq<u64>, a: int, b: int, k: int)
    requires
        0 <= a <= b,
    ensures
        named(pairs, a, k) <= named(pairs, b, k),
    decreases b - a,
{
    if a < b {
        lemma_named_grows(pairs, a, b - 1, k);
    }
}

proof fn lemma_starts(rows: Seq<RowModel>, j: int, k: int)
    requires
        0 <= j <= k <= rows.len(),
    ensures
        0 <= start_of(rows, j) <= start_of(rows, k),
    decreases k,
{
    if k > 0 {
        if j < k {
            lemma_starts(rows, j, k - 1);
        } else {
            lemma_starts(rows, k - 1, k - 1);
        }
    }
}

/// Segments placed side by side make a well-formed index.
proof fn lemma_segments(rows: Seq<RowModel>, grams: Seq<u32>, k: int)
    requires
        0 <= k <= rows.len(),
        heads_ok(rows, grams.len() as int),
        forall|j: int|
            0 <= j < rows.len() ==> in_order(
                grams.subrange((#[trigger] rows[j]).start as int, rows[j].start + rows[j].count),
            ),
    ensures
        0 <= start_of(rows, k) <= grams.len(),
        segments_ok(rows.subrange(0, k), grams.subrange(0, start_of(rows, k))),
    decreases k,
{
    lemma_starts(rows, k, rows.len() as int);
    if k == 0 {
        reveal(segments_ok);
    } else {
        lemma_segments(rows, grams, k - 1);
        let row = rows[k - 1];
        let more = grams.subrange(row.start as int, row.start + row.count);
        assert(in_order(more));
        segments_push(
            rows.subrange(0, k - 1),
            grams.subrange(0, start_of(rows, k - 1)),
            row,
            more,
        );
        assert(rows.subrange(0, k) =~= rows.subrange(0, k - 1).push(row));
        assert(grams.subrange(0, start_of(rows, k)) =~= grams.subrange(0, start_of(rows, k - 1))
            + more);
    }
}

/// Puts each pair's trigram behind those of the same member.
fn distribute<C: FnMut() -> bool>(
    rows: &Vec<Row>,
    pairs: &Vec<u64>,
    canceled: &mut C,
) -> (r: Result<Vec<u32>, SnapshotIndexError>)
    requires
        heads_ok(views(rows@), pairs@.len() as int),
        counts_match(views(rows@), pairs@),
        forall|i: int|
            0 <= i < pairs@.len() ==> gram_of(#[trigger] pairs@[i]) <= MAX_GRAM && ordinal_of(
                pairs@[i],
            ) < rows@.len(),
        call_requires(*old(canceled), ()),
    ensures
        *final(canceled) == *old(canceled),
        match r {
            Ok(grams) => grams@.len() == pairs@.len() && forall|k: int|
                0 <= k < rows@.len() ==> grams@.subrange(
                    (#[trigger] views(rows@)[k]).start as int,
                    views(rows@)[k].start + views(rows@)[k].count,
                ) == grams_for(pairs@, pairs@.len() as int, k),
            Err(_) => stopped(r, *old(canceled)),
        },
{
    let ghost model = views(rows@);
    let mut grams: Vec<u32> = Vec::new();
    grams.resize(pairs.len(), 0);
    let mut placed: Vec<usize> = Vec::new();
    placed.resize(rows.len(), 0);
    let mut i: usize = 0;
    assert forall|k: int| 0 <= k < model.len() implies #[trigger] placed@[k] == named(pairs@, 0, k)
        && grams@.subrange(model[k].start as int, model[k].start + placed@[k]) == grams_for(
        pairs@,
        0,
        k,
    ) by {
        lemma_starts(model, k, model.len() as int);
        lemma_starts(model, k + 1, model.len() as int);
        assert(model[k].start == start_of(model, k));
        assert(grams@.subrange(model[k].start as int, model[k].start + placed@[k])
            =~= Seq::<u32>::empty());
    }
    while i < pairs.len()
        invariant
            i <= pairs@.len(),
            model == views(rows@),
            heads_ok(model, pairs@.len() as int),
            counts_match(model, pairs@),
            forall|i: int|
                0 <= i < pairs@.len() ==> gram_of(#[trigger] pairs@[i]) <= MAX_GRAM && ordinal_of(
                    pairs@[i],
                ) < rows@.len(),
            *canceled == *old(canceled),
            call_requires(*canceled, ()),
            grams@.len() == pairs.len(),
            placed@.len() == rows@.len(),
            forall|k: int|
                0 <= k < model.len() ==> #[trigger] placed@[k] == named(pairs@, i as int, k)
                    && grams@.subrange(model[k].start as int, model[k].start + placed@[k])
                    == grams_for(pairs@, i as int, k),
        decreases pairs.len() - i,
    {
        if i % 4096 == 0 && canceled() {
            return Err(SnapshotIndexError::Canceled);
        }
        let pair: u64 = pairs[i];
        let at: usize = ordinal(pair);
        let gram: u32 = (pair / SPAN) as u32;
        assert(gram_of(pairs@[i as int]) <= MAX_GRAM);
        assert(model[at as int] == rows@[at as int]@);
        let done: usize = placed[at];
        proof {
            assert(named(pairs@, pairs@.len() as int, at as int) == model[at as int].count);
            lemma_named_grows(pairs@, i + 1, pairs@.len() as int, at as int);
            assert(placed@[at as int] == named(pairs@, i as int, at as int));
            lemma_starts(model, at + 1, model.len() as int);
            lemma_starts(model, at as int, model.len() as int);
            assert(model[at as int].start == start_of(model, at as int));
            assert(start_of(model, at + 1) == start_of(model, at as int) + model[at as int].count);
        }
        let ghost before = grams@;
        let ghost earlier = placed@;
        let slot: usize = rows[at].start + done;
        grams.set(slot, gram);
        placed.set(at, done + 1);
        i = i + 1;
        assert forall|k: int| 0 <= k < model.len() implies #[trigger] placed@[k] == named(
            pairs@,
            i as int,
            k,
        ) && grams@.subrange(model[k].start as int, model[k].start + placed@[k]) == grams_for(
            pairs@,
            i as int,
            k,
        ) by {
            assert(earlier[k] == named(pairs@, i - 1, k));
            let start = model[k].start as int;
            assert(start == start_of(model, k));
            lemma_starts(model, k, model.len() as int);
            lemma_starts(model, k + 1, model.len() as int);
            assert(start_of(model, k + 1) == start_of(model, k) + model[k].count);
            assert(named(pairs@, pairs@.len() as int, k) == model[k].count);
            lemma_named_grows(pairs@, i - 1, pairs@.len() as int, k);
            lemma_named_bound(pairs@, i - 1, k);
            if k == at {
                assert(grams@.subrange(start, start + placed@[k]) =~= before.subrange(
                    start,
                    start + earlier[k],
                ).push(gram));
            } else {
                if k < at {
                    lemma_starts(model, k + 1, at as int);
                } else {
                    lemma_starts(model, at + 1, k);
                }
                assert(grams@.subrange(start, start + placed@[k]) =~= before.subrange(
                    start,
                    start + earlier[k],
                ));
            }
        }
    }
    assert forall|k: int| 0 <= k < rows@.len() implies grams@.subrange(
        (#[trigger] model[k]).start as int,
        model[k].start + model[k].count,
    ) == grams_for(pairs@, pairs@.len() as int, k) by {
        assert(placed@[k] == named(pairs@, i as int, k));
        assert(named(pairs@, pairs@.len() as int, k) == model[k].count);
    }
    Ok(grams)
}

/// Whether opening stored postings as segments may answer so.
pub open spec fn is_conversion(
    r: Result<SnapshotIndex, SnapshotIndexError>,
    opened: Result<SnapshotPostings, SnapshotIndexError>,
) -> bool {
    match opened {
        Ok(postings) => r matches Ok(index) && transposed_back(postings@, index@),
        Err(e) => r matches Err(f) && f == e,
    }
}

impl SnapshotPostings {
    /// Opens stored postings and transposes them back into segments, without
    /// reading sources.
    #[verifier::rlimit(40)]
    pub fn decode_segments<
        A: FnOnce(u64) -> bool,
        H: Fn(&Vec<u8>, usize) -> Sha256Digest,
        C: FnMut() -> bool,
    >(
        bytes: &Vec<u8>,
        pin: &Sha256Digest,
        directory: &SnapshotDirectory,
        reserve: A,
        hash: H,
        mut canceled: C,
    ) -> (r: Result<SnapshotIndex, SnapshotIndexError>)
        requires
            forall|charge: u64| call_requires(reserve, (charge,)),
            forall|document: &Vec<u8>, n: usize|
                n <= document@.len() ==> call_requires(hash, (document, n)),
            call_requires(canceled, ()),
        ensures
            r matches Ok(index) ==> index@.wf(),
            stopped(r, canceled) || exists|opened: Result<SnapshotPostings, SnapshotIndexError>|
                #[trigger] is_decoding(
                    opened,
                    bytes@,
                    pin.data(),
                    directory@,
                    true,
                    reserve,
                    hash,
                ) && is_conversion(r, opened),
    {
        let opened = SnapshotPostings::decode(
            bytes,
            pin,
            directory,
            true,
            reserve,
            &hash,
            &mut canceled,
        );
        let ghost given = opened;
        let inverse = match opened {
            Ok(inverse) => inverse,
            Err(e) => {
                return Err(e);
            },
        };
        assert(is_decoding(given, bytes@, pin.data(), directory@, true, reserve, hash));
        let ghost model = inverse@;
        let grams = match distribute(&inverse.rows, &inverse.pairs, &mut canceled) {
            Ok(grams) => grams,
            Err(e) => {
                return Err(e);
            },
        };
        if canceled() {
            return Err(SnapshotIndexError::Canceled);
        }
        let index = SnapshotIndex {
            owner: inverse.owner,
            archive: inverse.archive,
            rows: inverse.rows,
            grams,
            stats: inverse.stats,
        };
        proof {
            assert forall|j: int| 0 <= j < model.rows.len() implies in_order(
                index@.grams.subrange(
                    (#[trigger] model.rows[j]).start as int,
                    model.rows[j].start + model.rows[j].count,
                ),
            ) by {
                lemma_grams_for(model.pairs, model.pairs.len() as int, j);
            }
            lemma_segments(model.rows, index@.grams, model.rows.len() as int);
            assert(model.rows.subrange(0, model.rows.len() as int) =~= model.rows);
            assert(index@.grams.subrange(0, index@.grams.len() as int) =~= index@.grams);
            assert(transposed_back(model, index@));
        }
        Ok(index)
    }
}

impl SnapshotIndex {
    /// Opens a stored index under a digest that the host retained. Stored
    /// postings are transposed back into segments.
    pub fn decode_pinned<
        A: FnOnce(u64) -> bool,
        H: Fn(&Vec<u8>, usize) -> Sha256Digest,
        C: FnMut() -> bool,
    >(
        bytes: &Vec<u8>,
        trusted_digest: &Sha256Digest,
        directory: &SnapshotDirectory,
        reserve: A,
        hash: H,
        canceled: C,
    ) -> (r: Result<Self, SnapshotIndexError>)
        requires
            forall|charge: u64| call_requires(reserve, (charge,)),
            forall|document: &Vec<u8>, n: usize|
                n <= document@.len() ==> call_requires(hash, (document, n)),
            call_requires(canceled, ()),
        ensures
            r matches Ok(index) ==> index@.wf(),
            stopped(r, canceled) || if looks_like_postings(bytes@) {
                exists|opened: Result<SnapshotPostings, SnapshotIndexError>|
                    #[trigger] is_decoding(
                        opened,
                        bytes@,
                        trusted_digest.data(),
                        directory@,
                        true,
                        reserve,
                        hash,
                    ) && is_conversion(r, opened)
            } else {
                crate::search::snapshot_index::codec::is_row_decoding(
                    r,
                    bytes@,
                    trusted_digest.data(),
                    directory@,
                    reserve,
                    hash,
                )
            },
    {
        if SnapshotPostings::is_encoded(bytes) {
            return SnapshotPostings::decode_segments(
                bytes,
                trusted_digest,
                directory,
                reserve,
                hash,
                canceled,
            );
        }
        SnapshotIndex::decode_rows(bytes, trusted_digest, directory, reserve, hash, canceled)
    }
}

} // verus!
