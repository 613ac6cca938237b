//! What stored postings hold is what opening them gives back.
use vstd::prelude::*;

use crate::envelope::{
    covered, digest_at, field_holds, header, holds, holds_split, le_bytes, le_bytes_len, le_limits,
    le_round_trip, Sha256Digest, HEADER_LEN,
};
use crate::search::archive::{DirectoryModel, MemberModel};
use crate::search::snapshot_index::codec::{
    need, opening_error, prefix_bytes, row_head, sealed, stats_of,
};
use crate::search::snapshot_index::postings::paged::encoding::{
    file_header, manifest_payload, manifest_prefix, meta_bytes, metas_from, page_pairs,
};
use crate::search::snapshot_index::postings::paged::manifest::{
    decoded_manifest, file_len, file_len_ok, header_plan, manifest_announced, manifest_len,
    manifest_len_ok, manifest_schema_spec, meta_at, meta_fits, metas_at,
};
use crate::search::snapshot_index::postings::paged::{
    lemma_pages, page_count, page_fits, page_size, valid_pair_spec, words_from, ManifestModel,
    MetaModel, PageMeta, FILE_HEADER_BYTES, MANIFEST_PREFIX, MAX_PAGED_MANIFEST_BYTES,
    MAX_PAGED_POSTINGS_BYTES, PAGE_META_BYTES, POSTING_PAGE_BYTES, POSTING_PAGE_PAIRS,
};
use crate::search::snapshot_index::postings::stored::{
    counts_match, decoded_postings, heads_at, heads_from, heads_ok, lemma_named, named, pairs_at,
    pairs_from, postings_payload, start_of,
};
use crate::search::snapshot_index::postings::{
    ascending, ordinal_of, pair_ok, postings_charge, postings_len, postings_len_ok,
    postings_schema_spec, PostingsModel, SnapshotPostings, MAX_POSTINGS_BYTES,
};
use crate::search::snapshot_index::round_trip::{
    lemma_announced, lemma_opens, lemma_row, row_fits, rows_fit,
};
use crate::search::snapshot_index::{
    RowModel, SnapshotIndexError, PREFIX_BYTES, ROW_BYTES, SEMANTICS,
};

verus! {

/// Whether postings are of the members of a directory: each row is its
/// member's, and is named as often as it says.
pub open spec fn postings_fit(postings: PostingsModel, directory: DirectoryModel) -> bool {
    &&& postings.wf()
    &&& postings.directory_error(directory) is None
    &&& rows_fit(postings.rows, directory.members)
    &&& heads_ok(postings.rows, postings.pairs.len() as int)
    &&& counts_match(postings.rows, postings.pairs)
}

/// The heads of all rows are read back.
proof fn lemma_heads_read(
    d: Seq<u8>,
    i: int,
    rows: Seq<RowModel>,
    members: Seq<MemberModel>,
    k: int,
    total: int,
)
    requires
        0 <= k <= rows.len(),
        heads_ok(rows, total),
        rows_fit(rows, members),
        holds(d, i, heads_from(rows, k)),
    ensures
        heads_at(d, i, members, k, total, rows.subrange(0, k), start_of(rows, k)) == Ok::<
            (Seq<RowModel>, int),
            SnapshotIndexError,
        >((rows, total)),
        heads_from(rows, k).len() == (rows.len() - k) * ROW_BYTES,
    decreases rows.len() - k,
{
    if k < rows.len() {
        assert(row_fits(rows[k], members[k]));
        holds_split(d, i, row_head(rows[k]), heads_from(rows, k + 1));
        lemma_row(d, i, rows, k, total, members[k]);
        lemma_heads_read(d, i + ROW_BYTES, rows, members, k + 1, total);
        assert(rows.subrange(0, k).push(rows[k]) =~= rows.subrange(0, k + 1));
    } else {
        assert(rows.subrange(0, k) =~= rows);
    }
}

proof fn lemma_pairs_len(pairs: Seq<u64>, j: int)
    requires
        0 <= j <= pairs.len(),
    ensures
        pairs_from(pairs, j).len() == (pairs.len() - j) * 8,
    decreases pairs.len() - j,
{
    if j < pairs.len() {
        le_bytes_len(pairs[j] as nat, 8);
        lemma_pairs_len(pairs, j + 1);
    }
}

/// All pairs are read back.
proof fn lemma_pairs_read(d: Seq<u8>, i: int, pairs: Seq<u64>, rows: Seq<RowModel>, j: int)
    requires
        0 <= j <= pairs.len(),
        ascending(pairs),
        forall|n: int| 0 <= n < pairs.len() ==> pair_ok(#[trigger] pairs[n], rows),
        holds(d, i, pairs_from(pairs, j)),
    ensures
        pairs_at(d, i, pairs.len() - j, rows.len() as int, pairs.subrange(0, j)) == Ok::<
            Seq<u64>,
            SnapshotIndexError,
        >(pairs),
    decreases pairs.len() - j,
{
    if j < pairs.len() {
        le_bytes_len(pairs[j] as nat, 8);
        le_limits();
        holds_split(d, i, le_bytes(pairs[j] as nat, 8), pairs_from(pairs, j + 1));
        field_holds(d, i, pairs[j] as nat, 8);
        assert(pair_ok(pairs[j], rows));
        let done = pairs.subrange(0, j);
        assert(j > 0 ==> done.last() == pairs[j - 1]);
        lemma_pairs_read(d, i + 8, pairs, rows, j + 1);
        assert(done.push(pairs[j]) =~= pairs.subrange(0, j + 1));
    } else {
        assert(pairs.subrange(0, j) =~= pairs);
    }
}

/// Stored postings open again: under the digests of the stored document, with
/// memory granted, opening gives back the rows, the pairs and the lists of
/// members, for the same directory. Only the count of the bytes read to build
/// the index is not kept.
pub proof fn stored_postings_open(
    postings: PostingsModel,
    directory: DirectoryModel,
    conversion: bool,
    outer: Sha256Digest,
    inner: Sha256Digest,
)
    requires
        postings_fit(postings, directory),
        postings_len_ok(postings.rows.len() as int, postings.pairs.len() as int),
        postings_charge(postings.rows.len() as int, postings.pairs.len() as int, conversion)
            <= usize::MAX,
    ensures
        ({
            let document = sealed(postings_schema_spec(), postings_payload(postings), inner);
            &&& document.len() == postings_len(
                postings.rows.len() as int,
                postings.pairs.len() as int,
            )
            &&& opening_error(
                document,
                postings_schema_spec(),
                PREFIX_BYTES as int,
                MAX_POSTINGS_BYTES,
                outer.data(),
                outer,
                inner,
            ) is None
            &&& decoded_postings(
                covered(document),
                document.len() as int,
                directory,
                conversion,
                true,
            ) == Ok::<PostingsModel, SnapshotIndexError>(
                SnapshotPostings {
                    stats: stats_of(postings.rows, postings.pairs.len() as int),
                    ..postings
                },
            )
        }),
{
    let rows = postings.rows;
    let pairs = postings.pairs;
    let payload = postings_payload(postings);
    let prefix = prefix_bytes(postings.archive, rows.len(), pairs.len());
    let heads = heads_from(rows, 0);
    let whole = header(postings_schema_spec(), payload.len()) + payload;
    let at = HEADER_LEN as int;
    assert(header(postings_schema_spec(), payload.len()).len() == HEADER_LEN) by {
        broadcast use le_bytes_len;

    }
    assert(prefix.len() == PREFIX_BYTES) by {
        broadcast use le_bytes_len;

    }
    assert(whole.subrange(at, at + payload.len()) =~= payload);
    assert(holds(whole, at, payload));
    holds_split(whole, at, prefix + heads, pairs_from(pairs, 0));
    holds_split(whole, at, prefix, heads);
    lemma_announced(whole, postings.archive, rows.len(), pairs.len());
    lemma_heads_read(whole, at + PREFIX_BYTES, rows, directory.members, 0, pairs.len() as int);
    lemma_pairs_len(pairs, 0);
    lemma_pairs_read(whole, at + PREFIX_BYTES + rows.len() * ROW_BYTES, pairs, rows, 0);
    assert(rows.subrange(0, 0) =~= Seq::empty());
    assert(pairs.subrange(0, 0) =~= Seq::empty());
    lemma_opens(
        postings_schema_spec(),
        payload,
        PREFIX_BYTES as int,
        MAX_POSTINGS_BYTES,
        outer,
        inner,
    );
}

/// What a manifest keeps of a page.
pub open spec fn meta_of(pairs: Seq<u64>, digests: Seq<Sha256Digest>, p: int) -> MetaModel {
    PageMeta {
        first: page_pairs(pairs, p)[0],
        last: page_pairs(pairs, p).last(),
        count: page_size(pairs.len() as int, p) as usize,
        digest: digests[p].data(),
    }
}

/// What a manifest keeps of all pages.
pub open spec fn metas_of(pairs: Seq<u64>, digests: Seq<Sha256Digest>) -> Seq<MetaModel> {
    Seq::new(page_count(pairs.len() as int) as nat, |p: int| meta_of(pairs, digests, p))
}

/// Every pair of postings that fit names a listed trigram of a member.
proof fn lemma_valid(postings: PostingsModel, directory: DirectoryModel, i: int)
    requires
        postings_fit(postings, directory),
        0 <= i < postings.pairs.len(),
    ensures
        valid_pair_spec(postings.pairs[i], postings.rows),
{
    let pairs = postings.pairs;
    let k = ordinal_of(pairs[i]);
    assert(pair_ok(pairs[i], postings.rows));
    lemma_named(pairs, pairs.len() as int, k, i);
    assert(named(pairs, pairs.len() as int, k) == postings.rows[k].count);
}

/// A page is a stretch of the pairs, and is what its entry says.
proof fn lemma_page_fits(
    postings: PostingsModel,
    directory: DirectoryModel,
    digests: Seq<Sha256Digest>,
    p: int,
)
    requires
        postings_fit(postings, directory),
        0 <= p < page_count(postings.pairs.len() as int),
    ensures
        page_pairs(postings.pairs, p).len() == page_size(postings.pairs.len() as int, p) > 0,
        page_fits(
            page_pairs(postings.pairs, p),
            meta_of(postings.pairs, digests, p),
            postings.rows,
        ),
{
    let pairs = postings.pairs;
    let total = pairs.len() as int;
    let page = page_pairs(pairs, p);
    let start = p * POSTING_PAGE_PAIRS;
    lemma_pages(total, p);
    assert forall|i: int| 0 <= i < page.len() implies valid_pair_spec(
        #[trigger] page[i],
        postings.rows,
    ) by {
        assert(page[i] == pairs[start + i]);
        lemma_valid(postings, directory, start + i);
    }
    assert forall|i: int, j: int| 0 <= i < j < page.len() implies #[trigger] page[i]
        < #[trigger] page[j] by {
        assert(page[i] == pairs[start + i]);
        assert(page[j] == pairs[start + j]);
    }
}

/// The entry of a page follows those before it.
#[verifier::rlimit(50)]
proof fn lemma_meta_fits(
    postings: PostingsModel,
    directory: DirectoryModel,
    digests: Seq<Sha256Digest>,
    p: int,
)
    requires
        postings_fit(postings, directory),
        0 <= p < page_count(postings.pairs.len() as int),
    ensures
        meta_fits(
            meta_of(postings.pairs, digests, p),
            postings.pairs.len() as int,
            postings.rows,
            metas_of(postings.pairs, digests).subrange(0, p),
        ),
{
    let pairs = postings.pairs;
    let total = pairs.len() as int;
    let page = page_pairs(pairs, p);
    let done = metas_of(pairs, digests).subrange(0, p);
    let start = p * POSTING_PAGE_PAIRS;
    lemma_page_fits(postings, directory, digests, p);
    lemma_pages(total, p);
    assert(page[0] == pairs[start]);
    assert(page.last() == pairs[start + page.len() - 1]);
    if p > 0 {
        lemma_pages(total, p - 1);
        let before = page_pairs(pairs, p - 1);
        assert(done.last() == meta_of(pairs, digests, p - 1));
        assert(page_size(total, p - 1) == POSTING_PAGE_PAIRS);
        assert(before.last() == pairs[start - 1]);
        assert(pairs[start - 1] < pairs[start]);
    }
    if page.len() > 1 {
        assert(page[0] < page[page.len() - 1]);
    }
    assert(valid_pair_spec(page[0], postings.rows));
    assert(valid_pair_spec(page[page.len() - 1], postings.rows));
}

/// The fields of a page's entry are read back.
proof fn lemma_meta_fields(d: Seq<u8>, i: int, page: Seq<u64>, digest: Sha256Digest)
    requires
        0 < page.len() <= POSTING_PAGE_PAIRS,
        holds(d, i, meta_bytes(page, digest)),
    ensures
        need(d, i, 8) == Ok::<nat, SnapshotIndexError>(page[0] as nat),
        need(d, i + 8, 8) == Ok::<nat, SnapshotIndexError>(page.last() as nat),
        need(d, i + 16, 8) == Ok::<nat, SnapshotIndexError>(page.len()),
        digest_at(d, i + 24) == Some(digest.data()),
        meta_bytes(page, digest).len() == PAGE_META_BYTES,
{
    let first = le_bytes(page[0] as nat, 8);
    let last = le_bytes(page.last() as nat, 8);
    let count = le_bytes(page.len(), 8);
    le_bytes_len(page[0] as nat, 8);
    le_bytes_len(page.last() as nat, 8);
    le_bytes_len(page.len(), 8);
    le_limits();
    holds_split(d, i, first + last + count, digest.data());
    holds_split(d, i, first + last, count);
    holds_split(d, i, first, last);
    field_holds(d, i, page[0] as nat, 8);
    field_holds(d, i + 8, page.last() as nat, 8);
    field_holds(d, i + 16, page.len(), 8);
}

/// The entry of a page is read back.
proof fn lemma_meta(
    d: Seq<u8>,
    i: int,
    postings: PostingsModel,
    directory: DirectoryModel,
    digests: Seq<Sha256Digest>,
    p: int,
)
    requires
        postings_fit(postings, directory),
        0 <= p < page_count(postings.pairs.len() as int),
        holds(d, i, meta_bytes(page_pairs(postings.pairs, p), digests[p])),
    ensures
        meta_at(
            d,
            i,
            postings.pairs.len() as int,
            postings.rows,
            metas_of(postings.pairs, digests).subrange(0, p),
        ) == Ok::<MetaModel, SnapshotIndexError>(meta_of(postings.pairs, digests, p)),
        meta_bytes(page_pairs(postings.pairs, p), digests[p]).len() == PAGE_META_BYTES,
{
    lemma_page_fits(postings, directory, digests, p);
    lemma_pages(postings.pairs.len() as int, p);
    lemma_meta_fields(d, i, page_pairs(postings.pairs, p), digests[p]);
    lemma_meta_fits(postings, directory, digests, p);
}

/// The entries of all pages are read back.
proof fn lemma_metas_read(
    d: Seq<u8>,
    i: int,
    postings: PostingsModel,
    directory: DirectoryModel,
    digests: Seq<Sha256Digest>,
    p: int,
)
    requires
        postings_fit(postings, directory),
        0 <= p <= page_count(postings.pairs.len() as int),
        holds(d, i, metas_from(postings.pairs, digests, p)),
    ensures
        metas_at(
            d,
            i,
            page_count(postings.pairs.len() as int),
            postings.pairs.len() as int,
            postings.rows,
            metas_of(postings.pairs, digests).subrange(0, p),
        ) == Ok::<Seq<MetaModel>, SnapshotIndexError>(metas_of(postings.pairs, digests)),
        metas_from(postings.pairs, digests, p).len() == (page_count(postings.pairs.len() as int)
            - p) * PAGE_META_BYTES,
    decreases page_count(postings.pairs.len() as int) - p,
{
    let pairs = postings.pairs;
    let metas = metas_of(pairs, digests);
    if p < page_count(pairs.len() as int) {
        let one = meta_bytes(page_pairs(pairs, p), digests[p]);
        holds_split(d, i, one, metas_from(pairs, digests, p + 1));
        lemma_meta(d, i, postings, directory, digests, p);
        lemma_metas_read(d, i + PAGE_META_BYTES, postings, directory, digests, p + 1);
        assert(metas.subrange(0, p).push(metas[p]) =~= metas.subrange(0, p + 1));
    } else {
        assert(metas.subrange(0, p) =~= metas);
    }
}

/// What precedes the rows of a manifest is read back.
proof fn lemma_manifest_announced(
    d: Seq<u8>,
    archive: Seq<u8>,
    rows: nat,
    total: nat,
    pages: nat,
)
    requires
        holds(d, HEADER_LEN as int, manifest_prefix(archive, rows, total, pages)),
        archive.len() == 32,
        rows <= u64::MAX,
        total <= u64::MAX,
        pages <= u64::MAX,
    ensures
        manifest_announced(d, archive) == Ok::<(nat, nat, nat), SnapshotIndexError>(
            (rows, total, pages),
        ),
        manifest_prefix(archive, rows, total, pages).len() == MANIFEST_PREFIX,
{
    let semantics = le_bytes(SEMANTICS as nat, 4);
    let size = le_bytes(POSTING_PAGE_PAIRS as nat, 4);
    le_bytes_len(SEMANTICS as nat, 4);
    le_bytes_len(POSTING_PAGE_PAIRS as nat, 4);
    le_bytes_len(rows, 8);
    le_bytes_len(total, 8);
    le_bytes_len(pages, 8);
    le_limits();
    let at = HEADER_LEN as int;
    let first = archive + semantics + size + le_bytes(rows, 8) + le_bytes(total, 8);
    holds_split(d, at, first, le_bytes(pages, 8));
    holds_split(d, at, archive + semantics + size + le_bytes(rows, 8), le_bytes(total, 8));
    holds_split(d, at, archive + semantics + size, le_bytes(rows, 8));
    holds_split(d, at, archive + semantics, size);
    holds_split(d, at, archive, semantics);
    assert(digest_at(d, 24) == Some(archive));
    field_holds(d, 56, SEMANTICS as nat, 4);
    field_holds(d, 60, POSTING_PAGE_PAIRS as nat, 4);
    field_holds(d, 64, rows, 8);
    field_holds(d, 72, total, 8);
    field_holds(d, 80, pages, 8);
}

/// The manifest of stored pages opens again: under its own digests, and for the
/// same directory and the size of the whole file, it gives back the rows, an
/// entry for every page and the number of pairs.
pub proof fn stored_manifests_open(
    postings: PostingsModel,
    directory: DirectoryModel,
    digests: Seq<Sha256Digest>,
    outer: Sha256Digest,
    inner: Sha256Digest,
)
    requires
        postings_fit(postings, directory),
        manifest_len_ok(
            postings.rows.len() as int,
            page_count(postings.pairs.len() as int),
        ),
        file_len_ok(
            manifest_len(postings.rows.len() as int, page_count(postings.pairs.len() as int)),
            postings.pairs.len() as int,
        ),
    ensures
        ({
            let document = sealed(
                manifest_schema_spec(),
                manifest_payload(postings, digests),
                inner,
            );
            &&& document.len() == manifest_len(
                postings.rows.len() as int,
                page_count(postings.pairs.len() as int),
            )
            &&& opening_error(
                document,
                manifest_schema_spec(),
                MANIFEST_PREFIX as int,
                MAX_PAGED_MANIFEST_BYTES,
                outer.data(),
                outer,
                inner,
            ) is None
            &&& decoded_manifest(
                covered(document),
                document.len() as int,
                file_len(document.len() as int, postings.pairs.len() as int),
                directory,
            ) == Ok::<ManifestModel, SnapshotIndexError>(
                ManifestModel {
                    rows: postings.rows,
                    pages: metas_of(postings.pairs, digests),
                    total: postings.pairs.len() as int,
                },
            )
        }),
{
    let rows = postings.rows;
    let pairs = postings.pairs;
    let pages = page_count(pairs.len() as int);
    let payload = manifest_payload(postings, digests);
    let prefix = manifest_prefix(postings.archive, rows.len(), pairs.len(), pages as nat);
    let heads = heads_from(rows, 0);
    let metas = metas_from(pairs, digests, 0);
    let whole = header(manifest_schema_spec(), payload.len()) + payload;
    let at = HEADER_LEN as int;
    assert(header(manifest_schema_spec(), payload.len()).len() == HEADER_LEN) by {
        broadcast use le_bytes_len;

    }
    assert(whole.subrange(at, at + payload.len()) =~= payload);
    assert(holds(whole, at, payload));
    holds_split(whole, at, prefix + heads, metas);
    holds_split(whole, at, prefix, heads);
    lemma_manifest_announced(whole, postings.archive, rows.len(), pairs.len(), pages as nat);
    lemma_heads_read(whole, at + MANIFEST_PREFIX, rows, directory.members, 0, pairs.len() as int);
    lemma_metas_read(
        whole,
        at + MANIFEST_PREFIX + rows.len() * ROW_BYTES,
        postings,
        directory,
        digests,
        0,
    );
    assert(rows.subrange(0, 0) =~= Seq::empty());
    assert(metas_of(pairs, digests).subrange(0, 0) =~= Seq::empty());
    lemma_opens(
        manifest_schema_spec(),
        payload,
        MANIFEST_PREFIX as int,
        MAX_PAGED_MANIFEST_BYTES,
        outer,
        inner,
    );
}

/// Pairs are read back from the bytes that hold them.
proof fn lemma_words(bytes: Seq<u8>, pairs: Seq<u64>, j: int)
    requires
        0 <= j <= pairs.len(),
        holds(bytes, j * 8, pairs_from(pairs, j)),
    ensures
        words_from(bytes, j, pairs.len() as int) == pairs.subrange(j, pairs.len() as int),
    decreases pairs.len() - j,
{
    if j < pairs.len() {
        let one = le_bytes(pairs[j] as nat, 8);
        le_bytes_len(pairs[j] as nat, 8);
        le_limits();
        holds_split(bytes, j * 8, one, pairs_from(pairs, j + 1));
        le_round_trip(pairs[j] as nat, 8);
        lemma_words(bytes, pairs, j + 1);
        assert(pairs.subrange(j, pairs.len() as int) =~= seq![pairs[j]] + pairs.subrange(
            j + 1,
            pairs.len() as int,
        ));
    } else {
        assert(pairs.subrange(j, pairs.len() as int) =~= Seq::empty());
    }
}

/// A stretch of pairs stands at its own place among the bytes of all.
proof fn lemma_stretch_bytes(pairs: Seq<u64>, from: int, to: int, j: int)
    requires
        0 <= j <= from <= to <= pairs.len(),
    ensures
        holds(pairs_from(pairs, j), (from - j) * 8, pairs_from(pairs.subrange(from, to), 0)),
    decreases pairs.len() - j,
{
    lemma_pairs_len(pairs, j);
    let part = pairs.subrange(from, to);
    lemma_pairs_len(part, 0);
    if j < from {
        le_bytes_len(pairs[j] as nat, 8);
        lemma_stretch_bytes(pairs, from, to, j + 1);
        let rest = pairs_from(pairs, j + 1);
        let all = pairs_from(pairs, j);
        lemma_pairs_len(pairs, j + 1);
        let n = pairs_from(part, 0).len() as int;
        assert(all.subrange((from - j) * 8, (from - j) * 8 + n) =~= rest.subrange(
            (from - j - 1) * 8,
            (from - j - 1) * 8 + n,
        ));
    } else {
        lemma_same_bytes(pairs, from, to, from);
    }
}

/// The bytes of a stretch start those of the pairs from there on.
proof fn lemma_same_bytes(pairs: Seq<u64>, from: int, to: int, j: int)
    requires
        0 <= from <= j <= to <= pairs.len(),
    ensures
        holds(pairs_from(pairs, j), 0, pairs_from(pairs.subrange(from, to), j - from)),
    decreases to - j,
{
    let part = pairs.subrange(from, to);
    let all = pairs_from(pairs, j);
    let some = pairs_from(part, j - from);
    lemma_pairs_len(pairs, j);
    lemma_pairs_len(part, j - from);
    if j < to {
        lemma_same_bytes(pairs, from, to, j + 1);
        lemma_pairs_len(pairs, j + 1);
        lemma_pairs_len(part, j + 1 - from);
        le_bytes_len(pairs[j] as nat, 8);
        let one = le_bytes(pairs[j] as nat, 8);
        let rest = pairs_from(pairs, j + 1);
        let less = pairs_from(part, j + 1 - from);
        assert(part[j - from] == pairs[j]);
        assert(all == one + rest);
        assert(some == one + less);
        assert(all.subrange(0, some.len() as int) =~= one + rest.subrange(0, less.len() as int));
    } else {
        assert(some =~= Seq::empty());
        assert(all.subrange(0, 0) =~= Seq::empty());
    }
}

/// Where everything stands in a file of stored pages: the header announces the
/// manifest and the file, the manifest follows, and the bytes of every page
/// stand at the page's place, are those that the page's digest is of, read as
/// the page's pairs, and are what the page's entry says.
#[verifier::rlimit(60)]
#[verifier::spinoff_prover]
pub proof fn stored_pages_are_found(
    postings: PostingsModel,
    directory: DirectoryModel,
    digests: Seq<Sha256Digest>,
    manifest: Seq<u8>,
    p: int,
)
    requires
        postings_fit(postings, directory),
        manifest.len() == manifest_len(
            postings.rows.len() as int,
            page_count(postings.pairs.len() as int),
        ),
        manifest_len_ok(
            postings.rows.len() as int,
            page_count(postings.pairs.len() as int),
        ),
        file_len_ok(manifest.len() as int, postings.pairs.len() as int),
        0 <= p < page_count(postings.pairs.len() as int),
    ensures
        ({
            let size = file_len(manifest.len() as int, postings.pairs.len() as int);
            let file = file_header(manifest.len(), size as nat) + manifest + pairs_from(
                postings.pairs,
                0,
            );
            let head = file.subrange(0, FILE_HEADER_BYTES as int);
            let body = FILE_HEADER_BYTES + manifest.len();
            let meta = meta_of(postings.pairs, digests, p);
            let at = body + p * POSTING_PAGE_BYTES;
            let bytes = file.subrange(at, at + meta.count * 8);
            &&& file.len() == size
            &&& header_plan(head) == Ok::<(nat, nat), SnapshotIndexError>(
                (manifest.len(), size as nat),
            )
            &&& file.subrange(FILE_HEADER_BYTES as int, body as int) == manifest
            &&& at + meta.count * 8 <= file.len()
            &&& bytes == pairs_from(page_pairs(postings.pairs, p), 0)
            &&& words_from(bytes, 0, meta.count as int) == page_pairs(postings.pairs, p)
            &&& page_fits(page_pairs(postings.pairs, p), meta, postings.rows)
        }),
{
    let pairs = postings.pairs;
    let total = pairs.len() as int;
    let size = file_len(manifest.len() as int, total);
    let front = file_header(manifest.len(), size as nat);
    let all = pairs_from(pairs, 0);
    let page = page_pairs(pairs, p);
    let start = p * POSTING_PAGE_PAIRS;
    assert(front.len() == FILE_HEADER_BYTES) by {
        broadcast use le_bytes_len;

    }
    lemma_pairs_len(pairs, 0);
    lemma_page_fits(postings, directory, digests, p);
    lemma_pages(total, p);
    lemma_file_header(manifest.len(), size as nat);
    lemma_parts(front, manifest, all, start * 8, page.len() as int * 8);
    lemma_stretch_bytes(pairs, start, start + page.len(), 0);
    lemma_pairs_len(page, 0);
    let bytes = pairs_from(page, 0);
    assert(bytes.subrange(0, bytes.len() as int) =~= bytes);
    lemma_words(bytes, page, 0);
    assert(page.subrange(0, page.len() as int) =~= page);
}

/// Parts of a file that follow one another are found at their places.
proof fn lemma_parts(front: Seq<u8>, middle: Seq<u8>, rest: Seq<u8>, at: int, n: int)
    requires
        0 <= at,
        0 <= n,
        at + n <= rest.len(),
    ensures
        ({
            let file = front + middle + rest;
            let body = front.len() + middle.len();
            &&& file.len() == body + rest.len()
            &&& file.subrange(0, front.len() as int) == front
            &&& file.subrange(front.len() as int, body as int) == middle
            &&& file.subrange(body + at, body + at + n) == rest.subrange(at, at + n)
        }),
{
    let file = front + middle + rest;
    let body = front.len() + middle.len();
    assert(file.subrange(0, front.len() as int) =~= front);
    assert(file.subrange(front.len() as int, body as int) =~= middle);
    assert(file.subrange(body + at, body + at + n) =~= rest.subrange(at, at + n));
}

/// A file's header is read back.
proof fn lemma_file_header(manifest: nat, total: nat)
    requires
        crate::envelope::FRAME_LEN + MANIFEST_PREFIX <= manifest <= MAX_PAGED_MANIFEST_BYTES,
        total <= MAX_PAGED_POSTINGS_BYTES,
    ensures
        header_plan(file_header(manifest, total)) == Ok::<(nat, nat), SnapshotIndexError>(
            (manifest, total),
        ),
{
    let d = file_header(manifest, total);
    let magic = le_bytes(0x4442_4346, 4);
    let one = le_bytes(1, 4);
    let first = le_bytes(manifest, 8);
    let second = le_bytes(total, 8);
    let zero = le_bytes(0, 8);
    le_bytes_len(0x4442_4346, 4);
    le_bytes_len(1, 4);
    le_bytes_len(manifest, 8);
    le_bytes_len(total, 8);
    le_bytes_len(0, 8);
    le_limits();
    assert(d.subrange(0, d.len() as int) =~= d);
    assert(holds(d, 0, d));
    holds_split(d, 0, magic + one + first + second, zero);
    holds_split(d, 0, magic + one + first, second);
    holds_split(d, 0, magic + one, first);
    holds_split(d, 0, magic, one);
    le_round_trip(0x4442_4346, 4);
    le_round_trip(1, 4);
    le_round_trip(manifest, 8);
    le_round_trip(total, 8);
    le_round_trip(0, 8);
}

} // verus!
