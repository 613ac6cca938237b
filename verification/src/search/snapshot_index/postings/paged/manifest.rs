//! Opening paged postings under the pin of their manifest.
use vstd::layout::size_of;
use vstd::prelude::*;

use crate::envelope::{
    covered, digest_at, number_at, read_digest, read_le, EnvelopeSchema, Sha256Digest, DIGEST_LEN,
    FRAME_LEN, HEADER_LEN,
};
use crate::memory::wide_size;
use crate::model::{group_views, views};
use crate::search::archive::{DirectoryModel, SnapshotDirectory};
use crate::search::snapshot_index::codec::{
    count_rows, need, need_field, open_document, opening_digests, opening_error, stats_of, stopped,
};
use crate::search::snapshot_index::postings::paged::{
    lemma_pages, page_count, page_size, page_stopped, read_exact, valid_pair, valid_pair_spec,
    was_read, ManifestModel, MetaModel, PageMeta, PagedPostingError, PagedPostings, PostingPageIo,
    ReadReply, FILE_HEADER_BYTES, MANIFEST_PREFIX, MAX_PAGED_MANIFEST_BYTES,
    MAX_PAGED_POSTINGS_BYTES, PAGE_META_BYTES, POSTING_PAGE_BYTES, POSTING_PAGE_PAIRS,
};
use crate::search::snapshot_index::postings::stored::{heads_at, read_heads};
use crate::search::snapshot_index::postings::{fallbacks, kept_from, Keep};
use crate::search::snapshot_index::{
    Row, RowModel, SnapshotIndexError, MAX_INDEX_GRAMS, MAX_INDEX_MEMBERS, ROW_BYTES, SEMANTICS,
};

verus! {

broadcast use group_views;

/// The schema of a manifest.
pub open spec fn manifest_schema_spec() -> EnvelopeSchema {
    EnvelopeSchema { magic: 0x4d50_4346, schema_id: 0x504f_5333, major: 1, minor: 0 }
}

pub fn manifest_schema() -> (r: EnvelopeSchema)
    ensures
        r == manifest_schema_spec(),
{
    EnvelopeSchema { magic: 0x4d50_4346, schema_id: 0x504f_5333, major: 1, minor: 0 }
}

/// Bytes of a manifest.
pub open spec fn manifest_len(rows: int, pages: int) -> int {
    rows * ROW_BYTES + pages * PAGE_META_BYTES + FRAME_LEN + MANIFEST_PREFIX
}

/// Whether a manifest may be that long.
pub open spec fn manifest_len_ok(rows: int, pages: int) -> bool {
    rows <= MAX_INDEX_MEMBERS && manifest_len(rows, pages) <= MAX_PAGED_MANIFEST_BYTES
}

pub fn manifest_length(rows: usize, pages: usize) -> (r: Result<usize, SnapshotIndexError>)
    ensures
        r == (if manifest_len_ok(rows as int, pages as int) {
            Ok::<usize, SnapshotIndexError>(manifest_len(rows as int, pages as int) as usize)
        } else {
            Err(SnapshotIndexError::Limits)
        }),
{
    let length: u128 = rows as u128 * ROW_BYTES as u128 + pages as u128 * PAGE_META_BYTES as u128
        + FRAME_LEN as u128 + MANIFEST_PREFIX as u128;
    if rows > MAX_INDEX_MEMBERS || length > MAX_PAGED_MANIFEST_BYTES as u128 {
        Err(SnapshotIndexError::Limits)
    } else {
        Ok(length as usize)
    }
}

/// Bytes of a file.
pub open spec fn file_len(manifest: int, pairs: int) -> int {
    pairs * 8 + FILE_HEADER_BYTES + manifest
}

/// Whether a file may be that long.
pub open spec fn file_len_ok(manifest: int, pairs: int) -> bool {
    pairs <= MAX_INDEX_GRAMS && file_len(manifest, pairs) <= MAX_PAGED_POSTINGS_BYTES
}

pub fn file_length(manifest: usize, pairs: usize) -> (r: Result<usize, SnapshotIndexError>)
    ensures
        r == (if file_len_ok(manifest as int, pairs as int) {
            Ok::<usize, SnapshotIndexError>(file_len(manifest as int, pairs as int) as usize)
        } else {
            Err(SnapshotIndexError::Limits)
        }),
{
    let length: u128 = pairs as u128 * 8 + FILE_HEADER_BYTES as u128 + manifest as u128;
    if pairs > MAX_INDEX_GRAMS || length > MAX_PAGED_POSTINGS_BYTES as u128 {
        Err(SnapshotIndexError::Limits)
    } else {
        Ok(length as usize)
    }
}

/// The bytes of a manifest and of the file that a file header announces.
pub open spec fn header_plan(head: Seq<u8>) -> Result<(nat, nat), SnapshotIndexError> {
    if number_at(head, 0, 4) != 0x4442_4346 || number_at(head, 4, 8) != 1 || number_at(head, 24, 32)
        != 0 {
        Err(SnapshotIndexError::Version)
    } else if number_at(head, 8, 16) < FRAME_LEN + MANIFEST_PREFIX || number_at(head, 8, 16)
        > MAX_PAGED_MANIFEST_BYTES || number_at(head, 16, 24) > MAX_PAGED_POSTINGS_BYTES {
        Err(SnapshotIndexError::Limits)
    } else {
        Ok((number_at(head, 8, 16), number_at(head, 16, 24)))
    }
}

fn read_header(head: &Vec<u8>) -> (r: Result<(usize, u64), SnapshotIndexError>)
    requires
        head@.len() == FILE_HEADER_BYTES,
    ensures
        match header_plan(head@) {
            Ok((manifest, file)) => r == Ok::<(usize, u64), SnapshotIndexError>(
                (manifest as usize, file as u64),
            ) && manifest <= MAX_PAGED_MANIFEST_BYTES && file <= MAX_PAGED_POSTINGS_BYTES,
            Err(e) => r == Err::<(usize, u64), SnapshotIndexError>(e),
        },
{
    if read_le(head, 0, 4) != 0x4442_4346 || read_le(head, 4, 4) != 1 || read_le(head, 24, 8) != 0 {
        return Err(SnapshotIndexError::Version);
    }
    let manifest: u64 = read_le(head, 8, 8);
    let file: u64 = read_le(head, 16, 8);
    if manifest < (FRAME_LEN + MANIFEST_PREFIX) as u64 || manifest > MAX_PAGED_MANIFEST_BYTES as u64
        || file > MAX_PAGED_POSTINGS_BYTES as u64 {
        return Err(SnapshotIndexError::Limits);
    }
    Ok((manifest as usize, file))
}

/// The rows, pairs and pages that a manifest announces.
pub open spec fn manifest_announced(d: Seq<u8>, archive: Seq<u8>) -> Result<
    (nat, nat, nat),
    SnapshotIndexError,
> {
    match digest_at(d, 24) {
        None => Err(SnapshotIndexError::Format),
        Some(found) => if found != archive {
            Err(SnapshotIndexError::SourceMismatch)
        } else {
            match (need(d, 56, 4), need(d, 60, 4), need(d, 64, 8), need(d, 72, 8), need(d, 80, 8)) {
                (Ok(semantics), Ok(size), Ok(rows), Ok(total), Ok(pages)) => if semantics
                    != SEMANTICS || size != POSTING_PAGE_PAIRS {
                    Err(SnapshotIndexError::Version)
                } else {
                    Ok((rows, total, pages))
                },
                _ => Err(SnapshotIndexError::Format),
            }
        },
    }
}

fn read_manifest_announced(document: &Vec<u8>, end: usize, archive: &Sha256Digest) -> (r: Result<
    (u64, u64, u64),
    SnapshotIndexError,
>)
    requires
        HEADER_LEN + MANIFEST_PREFIX <= end <= document@.len(),
    ensures
        match manifest_announced(document@.subrange(0, end as int), archive.data()) {
            Ok((rows, total, pages)) => r == Ok::<(u64, u64, u64), SnapshotIndexError>(
                (rows as u64, total as u64, pages as u64),
            ) && rows <= u64::MAX && total <= u64::MAX && pages <= u64::MAX,
            Err(e) => r == Err::<(u64, u64, u64), SnapshotIndexError>(e),
        },
{
    let found = match read_digest(document, end, 24) {
        Some(found) => found,
        None => {
            return Err(SnapshotIndexError::Format);
        },
    };
    if !found.same(archive) {
        return Err(SnapshotIndexError::SourceMismatch);
    }
    match (
        need_field(document, end, 56, 4),
        need_field(document, end, 60, 4),
        need_field(document, end, 64, 8),
        need_field(document, end, 72, 8),
        need_field(document, end, 80, 8),
    ) {
        (Ok(semantics), Ok(size), Ok(rows), Ok(total), Ok(pages)) => {
            if semantics != SEMANTICS as u64 || size != POSTING_PAGE_PAIRS as u64 {
                Err(SnapshotIndexError::Version)
            } else {
                Ok((rows, total, pages))
            }
        },
        _ => Err(SnapshotIndexError::Format),
    }
}

/// Whether a page's entry follows those before it.
pub open spec fn meta_fits(
    meta: MetaModel,
    total: int,
    rows: Seq<RowModel>,
    done: Seq<MetaModel>,
) -> bool {
    &&& meta.count == page_size(total, done.len() as int)
    &&& meta.first <= meta.last
    &&& (meta.count == 1) == (meta.first == meta.last)
    &&& done.len() > 0 ==> done.last().last < meta.first
    &&& valid_pair_spec(meta.first, rows)
    &&& valid_pair_spec(meta.last, rows)
}

/// The page's entry at a position.
pub open spec fn meta_at(
    d: Seq<u8>,
    i: int,
    total: int,
    rows: Seq<RowModel>,
    done: Seq<MetaModel>,
) -> Result<MetaModel, SnapshotIndexError> {
    match (need(d, i, 8), need(d, i + 8, 8), need(d, i + 16, 8)) {
        (Ok(first), Ok(last), Ok(count)) => if count > usize::MAX {
            Err(SnapshotIndexError::Limits)
        } else {
            match digest_at(d, i + 24) {
                None => Err(SnapshotIndexError::Format),
                Some(digest) => {
                    let meta = PageMeta {
                        first: first as u64,
                        last: last as u64,
                        count: count as usize,
                        digest,
                    };
                    if meta_fits(meta, total, rows, done) {
                        Ok(meta)
                    } else {
                        Err(SnapshotIndexError::Format)
                    }
                },
            }
        },
        _ => Err(SnapshotIndexError::Format),
    }
}

/// The pages' entries from a position on, behind those already read.
pub open spec fn metas_at(
    d: Seq<u8>,
    i: int,
    pages: int,
    total: int,
    rows: Seq<RowModel>,
    done: Seq<MetaModel>,
) -> Result<Seq<MetaModel>, SnapshotIndexError>
    decreases pages - done.len(),
{
    if done.len() >= pages {
        Ok(done)
    } else {
        match meta_at(d, i, total, rows, done) {
            Err(e) => Err(e),
            Ok(meta) => metas_at(d, i + PAGE_META_BYTES, pages, total, rows, done.push(meta)),
        }
    }
}

/// Entries that follow one another.
pub open spec fn metas_ok(rows: Seq<RowModel>, total: int, pages: Seq<MetaModel>) -> bool {
    &&& forall|p: int|
        0 <= p < pages.len() ==> {
            let meta = #[trigger] pages[p];
            &&& meta.count == page_size(total, p)
            &&& meta.first <= meta.last
            &&& (meta.count == 1) == (meta.first == meta.last)
            &&& valid_pair_spec(meta.first, rows)
            &&& valid_pair_spec(meta.last, rows)
        }
    &&& forall|p: int, q: int|
        0 <= p < q < pages.len() ==> (#[trigger] pages[p]).last < (#[trigger] pages[q]).first
}

proof fn lemma_metas_push(rows: Seq<RowModel>, total: int, pages: Seq<MetaModel>, meta: MetaModel)
    requires
        metas_ok(rows, total, pages),
        meta_fits(meta, total, rows, pages),
    ensures
        metas_ok(rows, total, pages.push(meta)),
{
    let now = pages.push(meta);
    assert forall|p: int, q: int| 0 <= p < q < now.len() implies (#[trigger] now[p]).last < (
    #[trigger] now[q]).first by {
        assert(now[p] == pages[p]);
        if q < pages.len() {
            assert(now[q] == pages[q]);
        } else {
            let end = pages.len() - 1;
            if p < end {
                assert(pages[p].last < pages[end].first);
                assert(pages[end].first <= pages[end].last);
            }
        }
    }
}

fn read_meta(
    document: &Vec<u8>,
    end: usize,
    at: usize,
    total: usize,
    rows: &Vec<Row>,
    done: &Vec<PageMeta>,
) -> (r: Result<PageMeta, SnapshotIndexError>)
    requires
        end <= document@.len(),
        total <= MAX_INDEX_GRAMS,
        done@.len() < page_count(total as int),
    ensures
        match meta_at(
            document@.subrange(0, end as int),
            at as int,
            total as int,
            views(rows@),
            views(done@),
        ) {
            Ok(meta) => r matches Ok(found) && found@ == meta && at + PAGE_META_BYTES <= end,
            Err(e) => r matches Err(f) && f == e,
        },
        r matches Ok(found) ==> at + PAGE_META_BYTES <= end && meta_fits(
            found@,
            total as int,
            views(rows@),
            views(done@),
        ),
{
    proof {
        lemma_pages(total as int, done@.len() as int);
    }
    if at > end || end - at < 24 {
        assert(need(document@.subrange(0, end as int), at + 16, 8) is Err);
        return Err(SnapshotIndexError::Format);
    }
    match (
        need_field(document, end, at, 8),
        need_field(document, end, at + 8, 8),
        need_field(document, end, at + 16, 8),
    ) {
        (Ok(first), Ok(last), Ok(count)) => {
            if count > usize::MAX as u64 {
                return Err(SnapshotIndexError::Limits);
            }
            let digest = match read_digest(document, end, at + 24) {
                Some(digest) => digest,
                None => {
                    return Err(SnapshotIndexError::Format);
                },
            };
            let count: usize = count as usize;
            let left: usize = total - done.len() * POSTING_PAGE_PAIRS;
            let size: usize = if left < POSTING_PAGE_PAIRS {
                left
            } else {
                POSTING_PAGE_PAIRS
            };
            if done.len() > 0 {
                assert(views(done@).last() == done@.last()@);
            }
            if count != size || first > last || (count == 1) != (first == last) || (done.len() > 0
                && done[done.len() - 1].last >= first) || !valid_pair(first, rows) || !valid_pair(
                last,
                rows,
            ) {
                return Err(SnapshotIndexError::Format);
            }
            Ok(PageMeta { first, last, count, digest })
        },
        _ => Err(SnapshotIndexError::Format),
    }
}

fn read_metas<C: FnMut() -> bool>(
    document: &Vec<u8>,
    end: usize,
    start: usize,
    pages: usize,
    total: usize,
    rows: &Vec<Row>,
    canceled: &mut C,
) -> (r: Result<Vec<PageMeta>, SnapshotIndexError>)
    requires
        start <= end <= document@.len(),
        total <= MAX_INDEX_GRAMS,
        pages == page_count(total as int),
        call_requires(*old(canceled), ()),
    ensures
        *final(canceled) == *old(canceled),
        stopped(r, *old(canceled)) || match metas_at(
            document@.subrange(0, end as int),
            start as int,
            pages as int,
            total as int,
            views(rows@),
            Seq::empty(),
        ) {
            Ok(metas) => r matches Ok(found) && views(found@) == metas,
            Err(e) => r matches Err(f) && f == e,
        },
        r matches Ok(found) ==> found@.len() == pages && metas_ok(
            views(rows@),
            total as int,
            views(found@),
        ),
{
    let ghost d = document@.subrange(0, end as int);
    let mut out: Vec<PageMeta> = Vec::new();
    let mut at: usize = start;
    assert(views(out@) =~= Seq::<MetaModel>::empty());
    while out.len() < pages
        invariant
            out@.len() <= pages,
            pages == page_count(total as int),
            start <= at <= end <= document.len(),
            total <= MAX_INDEX_GRAMS,
            d == document@.subrange(0, end as int),
            *canceled == *old(canceled),
            call_requires(*canceled, ()),
            metas_ok(views(rows@), total as int, views(out@)),
            metas_at(
                d,
                start as int,
                pages as int,
                total as int,
                views(rows@),
                Seq::empty(),
            ) == metas_at(d, at as int, pages as int, total as int, views(rows@), views(out@)),
        decreases pages - out.len(),
    {
        if canceled() {
            return Err(SnapshotIndexError::Canceled);
        }
        let meta = match read_meta(document, end, at, total, rows, &out) {
            Ok(meta) => meta,
            Err(e) => {
                return Err(e);
            },
        };
        proof {
            lemma_metas_push(views(rows@), total as int, views(out@), meta@);
        }
        at = at + PAGE_META_BYTES;
        out.push(meta);
    }
    Ok(out)
}

/// What a manifest holds, if it is one of the directory and of a file that long.
pub open spec fn decoded_manifest(
    d: Seq<u8>,
    length: int,
    file: int,
    directory: DirectoryModel,
) -> Result<ManifestModel, SnapshotIndexError> {
    match manifest_announced(d, directory.digest) {
        Err(e) => Err(e),
        Ok((rows, total, pages)) => if rows != directory.members.len() || total > MAX_INDEX_GRAMS
            || pages != page_count(total as int) || !manifest_len_ok(rows as int, pages as int)
            || manifest_len(rows as int, pages as int) != length || !file_len_ok(
            length,
            total as int,
        ) || file_len(length, total as int) != file {
            Err(SnapshotIndexError::Limits)
        } else {
            match heads_at(
                d,
                HEADER_LEN + MANIFEST_PREFIX,
                directory.members,
                0,
                total as int,
                Seq::empty(),
                0,
            ) {
                Err(e) => Err(e),
                Ok((found, sum)) => if sum != total {
                    Err(SnapshotIndexError::Format)
                } else {
                    match metas_at(
                        d,
                        HEADER_LEN + MANIFEST_PREFIX + rows * ROW_BYTES,
                        pages as int,
                        total as int,
                        found,
                        Seq::empty(),
                    ) {
                        Err(e) => Err(e),
                        Ok(metas) => Ok(
                            ManifestModel { rows: found, pages: metas, total: total as int },
                        ),
                    }
                },
            }
        },
    }
}

/// The rows, the pages and the number of pairs of a manifest that opened.
fn read_manifest<C: FnMut() -> bool>(
    document: &Vec<u8>,
    file: u64,
    directory: &SnapshotDirectory,
    canceled: &mut C,
) -> (r: Result<(Vec<Row>, Vec<PageMeta>, usize), SnapshotIndexError>)
    requires
        FRAME_LEN + MANIFEST_PREFIX <= document@.len() <= MAX_PAGED_MANIFEST_BYTES,
        call_requires(*old(canceled), ()),
    ensures
        *final(canceled) == *old(canceled),
        stopped(r, *old(canceled)) || match decoded_manifest(
            covered(document@),
            document@.len() as int,
            file as int,
            directory@,
        ) {
            Ok(model) => r matches Ok((rows, pages, total)) && model == (ManifestModel {
                rows: views(rows@),
                pages: views(pages@),
                total: total as int,
            }),
            Err(e) => r matches Err(f) && f == e,
        },
        r matches Ok((rows, pages, total)) ==> (ManifestModel {
            rows: views(rows@),
            pages: views(pages@),
            total: total as int,
        }).wf(),
{
    let end: usize = document.len() - DIGEST_LEN;
    assert(document@.subrange(0, end as int) == covered(document@));
    let (count, total, pages) = match read_manifest_announced(document, end, &directory.digest) {
        Ok(found) => found,
        Err(e) => {
            return Err(e);
        },
    };
    if count != directory.members.len() as u64 || count > MAX_INDEX_MEMBERS as u64 || total
        > MAX_INDEX_GRAMS as u64 {
        return Err(SnapshotIndexError::Limits);
    }
    let count: usize = count as usize;
    let total: usize = total as usize;
    let expected: usize = (total + POSTING_PAGE_PAIRS - 1) / POSTING_PAGE_PAIRS;
    if pages != expected as u64 {
        return Err(SnapshotIndexError::Limits);
    }
    match manifest_length(count, expected) {
        Ok(length) => {
            if length != document.len() {
                return Err(SnapshotIndexError::Limits);
            }
        },
        Err(e) => {
            return Err(e);
        },
    }
    match file_length(document.len(), total) {
        Ok(length) => {
            if length as u64 != file {
                return Err(SnapshotIndexError::Limits);
            }
        },
        Err(e) => {
            return Err(e);
        },
    }
    let start: usize = HEADER_LEN + MANIFEST_PREFIX;
    let (rows, sum) = match read_heads(document, end, start, directory, total, canceled) {
        Ok(found) => found,
        Err(e) => {
            return Err(e);
        },
    };
    if sum != total {
        return Err(SnapshotIndexError::Format);
    }
    let metas = match read_metas(
        document,
        end,
        start + count * ROW_BYTES,
        expected,
        total,
        &rows,
        canceled,
    ) {
        Ok(metas) => metas,
        Err(e) => {
            return Err(e);
        },
    };
    Ok((rows, metas, total))
}

/// Bytes charged for opening.
pub open spec fn opening_charge(manifest: int, cache_pages: int) -> int {
    manifest * 4 + cache_pages * (POSTING_PAGE_BYTES + size_of::<Option<usize>>()) + size_of::<
        PagedPostings,
    >()
}

impl PagedPostings {
    /// Just opened: no page has been read.
    pub open spec fn is_fresh(
        self,
        model: ManifestModel,
        directory: DirectoryModel,
        pin: Sha256Digest,
        manifest: int,
        file: int,
        cache_pages: int,
    ) -> bool {
        &&& self.manifest() == model
        &&& self.owner == directory.owner
        &&& self.archive.data() == directory.digest
        &&& self.pin == pin
        &&& self.captured@ == kept_from(model.rows, Keep::Captured, 0)
        &&& self.raw_fallback@ == kept_from(model.rows, Keep::RawFallback, 0)
        &&& self.text_fallback@ == kept_from(model.rows, Keep::TextFallback, 0)
        &&& self.body_offset == FILE_HEADER_BYTES + manifest
        &&& self.file_bytes == file
        &&& self.slots@.len() == cache_pages
        &&& forall|s: int| 0 <= s < self.slots@.len() ==> (#[trigger] self.slots@[s]) is None
        &&& self.replacement == 0
        &&& self.stats == stats_of(model.rows, model.total)
        &&& self.io.manifest_bytes_read == FILE_HEADER_BYTES + manifest
        &&& self.io.page_bytes_read == 0
        &&& self.io.page_loads == 0
        &&& self.io.cache_hits == 0
        &&& self.io.evictions == 0
        &&& self.failed is None
    }
}

/// Whether a manifest that was read may open so.
pub open spec fn manifest_opens<
    S: FnOnce() -> Option<u64>,
    H: Fn(&Vec<u8>, usize) -> Sha256Digest,
>(
    r: Result<PagedPostings, PagedPostingError>,
    manifest: Seq<u8>,
    file: int,
    pin: Sha256Digest,
    directory: DirectoryModel,
    cache_pages: int,
    size: S,
    hash: H,
) -> bool {
    exists|outer: Sha256Digest, inner: Sha256Digest|
        #[trigger] opening_digests(
            manifest,
            MANIFEST_PREFIX as int,
            MAX_PAGED_MANIFEST_BYTES,
            hash,
            outer,
            inner,
        ) && match opening_error(
            manifest,
            manifest_schema_spec(),
            MANIFEST_PREFIX as int,
            MAX_PAGED_MANIFEST_BYTES,
            pin.data(),
            outer,
            inner,
        ) {
            Some(e) => r matches Err(f) && f == PagedPostingError::Index(e),
            None => match decoded_manifest(
                covered(manifest),
                manifest.len() as int,
                file,
                directory,
            ) {
                Err(e) => r matches Err(f) && f == PagedPostingError::Index(e),
                Ok(model) => exists|found: Option<u64>|
                    #[trigger] call_ensures(size, (), found) && match found {
                        None => r matches Err(f) && f == PagedPostingError::Io,
                        Some(bytes) => if bytes != file {
                            r matches Err(f) && f == PagedPostingError::Index(
                                SnapshotIndexError::Format,
                            )
                        } else {
                            r matches Ok(postings) && postings.is_fresh(
                                model,
                                directory,
                                pin,
                                manifest.len() as int,
                                file,
                                cache_pages,
                            )
                        },
                    },
            },
        }
}

/// Whether a file whose header was read may open so.
pub open spec fn header_opens<
    R: FnMut(u64, usize) -> ReadReply,
    S: FnOnce() -> Option<u64>,
    A: FnOnce(u64) -> bool,
    H: Fn(&Vec<u8>, usize) -> Sha256Digest,
>(
    r: Result<PagedPostings, PagedPostingError>,
    head: Seq<u8>,
    pin: Sha256Digest,
    directory: DirectoryModel,
    cache_pages: int,
    read: R,
    size: S,
    reserve: A,
    hash: H,
) -> bool {
    match header_plan(head) {
        Err(e) => r matches Err(f) && f == PagedPostingError::Index(e),
        Ok((length, file)) => {
            let charge = opening_charge(length as int, cache_pages);
            if charge > usize::MAX {
                r matches Err(f) && f == PagedPostingError::Index(SnapshotIndexError::Limits)
            } else {
                ||| call_ensures(reserve, (charge as u64,), false) && (r matches Err(f) && f
                    == PagedPostingError::Index(SnapshotIndexError::ResourceDenied))
                ||| call_ensures(reserve, (charge as u64,), true) && (r matches Err(f) && was_read(
                    read,
                    FILE_HEADER_BYTES as u64,
                    length as int,
                    Err(f),
                ))
                ||| call_ensures(reserve, (charge as u64,), true) && exists|manifest: Seq<u8>|
                    #[trigger] was_read(
                        read,
                        FILE_HEADER_BYTES as u64,
                        length as int,
                        Ok(manifest),
                    ) && manifest_opens(
                        r,
                        manifest,
                        file as int,
                        pin,
                        directory,
                        cache_pages,
                        size,
                        hash,
                    )
            }
        },
    }
}

/// Whether opening may answer so: the header is read first, then the manifest
/// that it announces, and no page at all.
pub open spec fn is_opening<
    R: FnMut(u64, usize) -> ReadReply,
    S: FnOnce() -> Option<u64>,
    A: FnOnce(u64) -> bool,
    H: Fn(&Vec<u8>, usize) -> Sha256Digest,
>(
    r: Result<PagedPostings, PagedPostingError>,
    pin: Sha256Digest,
    directory: DirectoryModel,
    cache_pages: int,
    read: R,
    size: S,
    reserve: A,
    hash: H,
) -> bool {
    if cache_pages < 1 || cache_pages > 16 {
        r matches Err(f) && f == PagedPostingError::Index(SnapshotIndexError::Limits)
    } else {
        ||| r matches Err(f) && was_read(read, 0, FILE_HEADER_BYTES as int, Err(f))
        ||| exists|head: Seq<u8>|
            #[trigger] was_read(read, 0, FILE_HEADER_BYTES as int, Ok(head)) && header_opens(
                r,
                head,
                pin,
                directory,
                cache_pages,
                read,
                size,
                reserve,
                hash,
            )
    }
}

impl PagedPostings {
    /// Opens a file of pages under the pin of its manifest. The pin must come
    /// from the host, not from the file. No page is read.
    pub fn open_pinned<
        R: FnMut(u64, usize) -> ReadReply,
        S: FnOnce() -> Option<u64>,
        A: FnOnce(u64) -> bool,
        H: Fn(&Vec<u8>, usize) -> Sha256Digest,
        C: FnMut() -> bool,
    >(
        pin: Sha256Digest,
        directory: &SnapshotDirectory,
        cache_pages: usize,
        read: &mut R,
        size: S,
        reserve: A,
        hash: &H,
        canceled: &mut C,
    ) -> (r: Result<Self, PagedPostingError>)
        requires
            forall|at: u64, n: usize| call_requires(*old(read), (at, n)),
            call_requires(size, ()),
            forall|charge: u64| call_requires(reserve, (charge,)),
            forall|bytes: &Vec<u8>, n: usize|
                n <= bytes@.len() ==> call_requires(*hash, (bytes, n)),
            call_requires(*old(canceled), ()),
        ensures
            *final(read) == *old(read),
            *final(canceled) == *old(canceled),
            r matches Ok(postings) ==> postings.wf(),
            page_stopped(r, *old(canceled)) || is_opening(
                r,
                pin,
                directory@,
                cache_pages as int,
                *old(read),
                size,
                reserve,
                *hash,
            ),
    {
        if cache_pages < 1 || cache_pages > 16 {
            return Err(PagedPostingError::Index(SnapshotIndexError::Limits));
        }
        let mut io = PostingPageIo {
            manifest_bytes_read: 0,
            page_bytes_read: 0,
            read_calls: 0,
            page_loads: 0,
            cache_hits: 0,
            evictions: 0,
        };
        let head = match read_exact(read, 0, FILE_HEADER_BYTES, &mut io, false, canceled) {
            Ok(head) => head,
            Err(e) => {
                return Err(e);
            },
        };
        assert(was_read(*old(read), 0, FILE_HEADER_BYTES as int, Ok(head@)));
        let (length, file) = match read_header(&head) {
            Ok(plan) => plan,
            Err(e) => {
                return Err(PagedPostingError::Index(e));
            },
        };
        let slot: u128 = POSTING_PAGE_BYTES as u128 + wide_size::<Option<usize>>();
        assert(0 <= cache_pages * slot <= 16 * slot) by (nonlinear_arith)
            requires
                1 <= cache_pages <= 16,
                slot >= 0,
        ;
        let charge: u128 = length as u128 * 4 + cache_pages as u128 * slot + wide_size::<
            PagedPostings,
        >();
        assert(charge == opening_charge(length as int, cache_pages as int));
        if charge > usize::MAX as u128 {
            return Err(PagedPostingError::Index(SnapshotIndexError::Limits));
        }
        let granted = reserve(charge as u64);
        assert(call_ensures(
            reserve,
            (opening_charge(length as int, cache_pages as int) as u64,),
            granted,
        ));
        if !granted {
            return Err(PagedPostingError::Index(SnapshotIndexError::ResourceDenied));
        }
        let manifest = match read_exact(
            read,
            FILE_HEADER_BYTES as u64,
            length,
            &mut io,
            false,
            canceled,
        ) {
            Ok(manifest) => manifest,
            Err(e) => {
                return Err(e);
            },
        };
        assert(was_read(*old(read), FILE_HEADER_BYTES as u64, length as int, Ok(manifest@)));
        PagedPostings::open_manifest(
            manifest,
            file,
            pin,
            directory,
            cache_pages,
            io,
            size,
            hash,
            canceled,
        )
    }

    fn open_manifest<
        S: FnOnce() -> Option<u64>,
        H: Fn(&Vec<u8>, usize) -> Sha256Digest,
        C: FnMut() -> bool,
    >(
        manifest: Vec<u8>,
        file: u64,
        pin: Sha256Digest,
        directory: &SnapshotDirectory,
        cache_pages: usize,
        io: PostingPageIo,
        size: S,
        hash: &H,
        canceled: &mut C,
    ) -> (r: Result<Self, PagedPostingError>)
        requires
            1 <= cache_pages <= 16,
            manifest@.len() <= MAX_PAGED_MANIFEST_BYTES,
            io.manifest_bytes_read == FILE_HEADER_BYTES + manifest@.len(),
            io.page_bytes_read == 0,
            io.page_loads == 0,
            io.cache_hits == 0,
            io.evictions == 0,
            call_requires(size, ()),
            forall|bytes: &Vec<u8>, n: usize|
                n <= bytes@.len() ==> call_requires(*hash, (bytes, n)),
            call_requires(*old(canceled), ()),
        ensures
            *final(canceled) == *old(canceled),
            r matches Ok(postings) ==> postings.wf(),
            page_stopped(r, *old(canceled)) || manifest_opens(
                r,
                manifest@,
                file as int,
                pin,
                directory@,
                cache_pages as int,
                size,
                *hash,
            ),
    {
        match open_document(
            &manifest,
            manifest_schema(),
            MANIFEST_PREFIX,
            MAX_PAGED_MANIFEST_BYTES,
            &pin,
            hash,
            canceled,
        ) {
            Ok(()) => {},
            Err(e) => {
                return Err(PagedPostingError::Index(e));
            },
        }
        let (rows, pages, total) = match read_manifest(&manifest, file, directory, canceled) {
            Ok(found) => found,
            Err(e) => {
                return Err(PagedPostingError::Index(e));
            },
        };
        match size() {
            None => {
                return Err(PagedPostingError::Io);
            },
            Some(bytes) => {
                if bytes != file {
                    return Err(PagedPostingError::Index(SnapshotIndexError::Format));
                }
            },
        }
        let (captured, raw_fallback, text_fallback) = match fallbacks(&rows, canceled) {
            Ok(lists) => lists,
            Err(e) => {
                return Err(PagedPostingError::Index(e));
            },
        };
        let mut cache: Vec<Vec<u64>> = Vec::new();
        let mut slots: Vec<Option<usize>> = Vec::new();
        while slots.len() < cache_pages
            invariant
                slots@.len() <= cache_pages,
                cache@.len() == slots@.len(),
                forall|s: int| 0 <= s < slots@.len() ==> (#[trigger] slots@[s]) is None,
            decreases cache_pages - slots.len(),
        {
            slots.push(None);
            cache.push(Vec::new());
        }
        if canceled() {
            return Err(PagedPostingError::Index(SnapshotIndexError::Canceled));
        }
        let stats = count_rows(&rows, total);
        Ok(
            PagedPostings {
                owner: directory.owner,
                archive: directory.digest,
                pin,
                rows,
                pages,
                captured,
                raw_fallback,
                text_fallback,
                total,
                body_offset: (FILE_HEADER_BYTES + manifest.len()) as u64,
                file_bytes: file,
                cache,
                slots,
                replacement: 0,
                stats,
                io,
                failed: None,
            },
        )
    }
}

} // verus!
