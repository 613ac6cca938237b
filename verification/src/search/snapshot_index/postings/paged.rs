//! Postings in independently verified pages.
//!
//! The pin covers the whole manifest, every page digest included. Opening reads
//! the header and the manifest only; every page is verified before it supports a
//! candidate. The host reads bytes at a position.
pub mod cursor;
pub mod encoding;
pub mod manifest;
pub mod order;

use vstd::prelude::*;

use crate::envelope::{le_value, put_raw, read_le, Sha256Digest};
use crate::identity::ArenaOwnerId;
use crate::model::{group_views, views};
use crate::search::archive::SnapshotDirectory;
use crate::search::snapshot_index::codec::hashed;
use crate::search::snapshot_index::postings::{
    ascending, gram_of, kept_from, ordinal, ordinal_of, Keep, SPAN,
};
use crate::search::snapshot_index::{
    directory_error, Row, RowModel, SavedIndexStats, SnapshotIndexError, MAX_GRAM, MAX_INDEX_GRAMS,
    MAX_INDEX_MEMBERS,
};

verus! {

broadcast use group_views;

pub const POSTING_PAGE_PAIRS: usize = 2048;

pub const POSTING_PAGE_BYTES: usize = 16_384;

pub const MAX_PAGED_MANIFEST_BYTES: usize = 4_194_304;

pub const MAX_PAGED_POSTINGS_BYTES: usize = 25_165_824;

/// Bytes of the file header.
pub const FILE_HEADER_BYTES: usize = 32;

/// Bytes before the rows of a manifest.
pub const MANIFEST_PREFIX: usize = 64;

/// Bytes of what a manifest keeps of a page.
pub const PAGE_META_BYTES: usize = 56;

/// Most reads for one stretch of bytes.
pub const MAX_IO_CALLS: u64 = 131_072;

/// Most bytes of one read.
pub const MAX_READ_BYTES: usize = 65_536;

#[derive(Clone, Copy, Debug, PartialEq, Eq, Structural)]
pub enum PagedPostingError {
    Index(SnapshotIndexError),
    Io,
    ReadCallLimit,
    ChangedPage,
    InvalidRead,
}

impl PagedPostingError {
    /// The stable code of an error, where it is one of this library's.
    pub open spec fn code_spec(self) -> Option<Seq<char>> {
        match self {
            PagedPostingError::Index(error) => error.code_spec(),
            PagedPostingError::Io => Some("PAGED_INDEX_IO"@),
            PagedPostingError::ReadCallLimit => Some("PAGED_INDEX_READ_CALL_LIMIT"@),
            PagedPostingError::ChangedPage => Some("PAGED_INDEX_CHANGED_PAGE"@),
            PagedPostingError::InvalidRead => Some("PAGED_INDEX_INVALID_READ"@),
        }
    }

    pub fn code(&self) -> (r: Option<&'static str>)
        ensures
            match self.code_spec() {
                Some(code) => r matches Some(text) && text@ == code,
                None => r is None,
            },
    {
        match self {
            PagedPostingError::Index(error) => error.code(),
            PagedPostingError::Io => Some("PAGED_INDEX_IO"),
            PagedPostingError::ReadCallLimit => Some("PAGED_INDEX_READ_CALL_LIMIT"),
            PagedPostingError::ChangedPage => Some("PAGED_INDEX_CHANGED_PAGE"),
            PagedPostingError::InvalidRead => Some("PAGED_INDEX_INVALID_READ"),
        }
    }
}

#[derive(Clone, Copy, Debug, PartialEq, Eq, Structural)]
pub struct PostingPageIo {
    pub manifest_bytes_read: u64,
    pub page_bytes_read: u64,
    pub read_calls: u64,
    pub page_loads: u64,
    pub cache_hits: u64,
    pub evictions: u64,
}

impl PostingPageIo {
    pub open spec fn zero() -> PostingPageIo {
        PostingPageIo {
            manifest_bytes_read: 0,
            page_bytes_read: 0,
            read_calls: 0,
            page_loads: 0,
            cache_hits: 0,
            evictions: 0,
        }
    }

    /// After some reads. Counts wrap around.
    pub open spec fn after_reads(self, page: bool, calls: u64, bytes: u64) -> PostingPageIo {
        if page {
            PostingPageIo {
                read_calls: self.read_calls.wrapping_add(calls),
                page_bytes_read: self.page_bytes_read.wrapping_add(bytes),
                ..self
            }
        } else {
            PostingPageIo {
                read_calls: self.read_calls.wrapping_add(calls),
                manifest_bytes_read: self.manifest_bytes_read.wrapping_add(bytes),
                ..self
            }
        }
    }

    /// After a page was found in memory. Counts wrap around.
    pub open spec fn after_hit(self) -> PostingPageIo {
        PostingPageIo { cache_hits: self.cache_hits.wrapping_add(1), ..self }
    }

    /// After a page was asked for in place of another, or in an empty slot, and
    /// came or not. Counts wrap around.
    pub open spec fn after_load(
        self,
        evicts: bool,
        calls: u64,
        bytes: u64,
        loaded: bool,
    ) -> PostingPageIo {
        PostingPageIo {
            page_bytes_read: self.page_bytes_read.wrapping_add(bytes),
            read_calls: self.read_calls.wrapping_add(calls),
            page_loads: if loaded {
                self.page_loads.wrapping_add(1)
            } else {
                self.page_loads
            },
            evictions: if evicts {
                self.evictions.wrapping_add(1)
            } else {
                self.evictions
            },
            ..self
        }
    }
}

/// What the host says to a request for bytes at a position.
#[derive(Debug)]
pub enum ReadReply {
    Bytes(Vec<u8>),
    Interrupted,
    /// The position could not be reached.
    Misplaced,
    Failed,
}

/// Whether work gave up because it was told to.
pub open spec fn page_stopped<T, C: FnMut() -> bool>(
    r: Result<T, PagedPostingError>,
    canceled: C,
) -> bool {
    r matches Err(PagedPostingError::Index(SnapshotIndexError::Canceled)) && call_ensures(
        canceled,
        (),
        true,
    )
}

/// Bytes asked for next.
pub open spec fn wanted(len: int, got: int) -> int {
    if len - got < MAX_READ_BYTES {
        len - got
    } else {
        MAX_READ_BYTES as int
    }
}

/// Whether reading `len` bytes at a position, behind those got with so many
/// calls, may end with `r` after `used` calls.
pub open spec fn reads<R: FnMut(u64, usize) -> ReadReply>(
    read: R,
    offset: u64,
    len: int,
    got: Seq<u8>,
    calls: int,
    used: int,
    r: Result<Seq<u8>, PagedPostingError>,
) -> bool
    decreases MAX_IO_CALLS - calls,
{
    if got.len() >= len {
        r == Ok::<Seq<u8>, PagedPostingError>(got) && used == calls
    } else if calls >= MAX_IO_CALLS {
        r == Err::<Seq<u8>, PagedPostingError>(PagedPostingError::ReadCallLimit) && used == calls
    } else {
        exists|reply: ReadReply|
            #[trigger] call_ensures(
                read,
                ((offset + got.len()) as u64, wanted(len, got.len() as int) as usize),
                reply,
            ) && match reply {
                ReadReply::Bytes(bytes) => if bytes@.len() == 0 || bytes@.len() > wanted(
                    len,
                    got.len() as int,
                ) {
                    r == Err::<Seq<u8>, PagedPostingError>(PagedPostingError::InvalidRead) && used
                        == calls + 1
                } else {
                    reads(read, offset, len, got + bytes@, calls + 1, used, r)
                },
                ReadReply::Interrupted => reads(read, offset, len, got, calls + 1, used, r),
                ReadReply::Misplaced => r == Err::<Seq<u8>, PagedPostingError>(
                    PagedPostingError::InvalidRead,
                ) && used == calls + 1,
                ReadReply::Failed => r == Err::<Seq<u8>, PagedPostingError>(PagedPostingError::Io)
                    && used == calls + 1,
            }
    }
}

/// Whether some bytes are what a host gave for a stretch.
pub open spec fn was_read<R: FnMut(u64, usize) -> ReadReply>(
    read: R,
    offset: u64,
    len: int,
    r: Result<Seq<u8>, PagedPostingError>,
) -> bool {
    exists|used: int| #[trigger] reads(read, offset, len, Seq::empty(), 0, used, r)
}

/// Reads exactly `len` bytes at a position.
pub fn read_exact<R: FnMut(u64, usize) -> ReadReply, C: FnMut() -> bool>(
    read: &mut R,
    offset: u64,
    len: usize,
    io: &mut PostingPageIo,
    page: bool,
    canceled: &mut C,
) -> (r: Result<Vec<u8>, PagedPostingError>)
    requires
        offset + len <= u64::MAX,
        forall|at: u64, n: usize| call_requires(*old(read), (at, n)),
        call_requires(*old(canceled), ()),
    ensures
        *final(read) == *old(read),
        *final(canceled) == *old(canceled),
        exists|calls: u64, bytes: u64|
            *final(io) == #[trigger] old(io).after_reads(page, calls, bytes) && (r is Ok ==> bytes
                == len),
        r == Err::<Vec<u8>, PagedPostingError>(
            PagedPostingError::Index(SnapshotIndexError::Canceled),
        ) ==> page_stopped(r, *old(canceled)),
        r matches Ok(bytes) ==> bytes@.len() == len,
        page_stopped(r, *old(canceled)) || was_read(
            *old(read),
            offset,
            len as int,
            match r {
                Ok(bytes) => Ok(bytes@),
                Err(e) => Err(e),
            },
        ),
{
    let mut out: Vec<u8> = Vec::new();
    let mut calls: u64 = 0;
    let before = *io;
    assert(out@ =~= Seq::<u8>::empty());
    while out.len() < len
        invariant
            out@.len() <= len,
            calls <= MAX_IO_CALLS,
            offset + len <= u64::MAX,
            before == *old(io),
            *io == *old(io),
            *read == *old(read),
            *canceled == *old(canceled),
            forall|at: u64, n: usize| call_requires(*read, (at, n)),
            call_requires(*canceled, ()),
            forall|used: int, r: Result<Seq<u8>, PagedPostingError>|
                #[trigger] reads(*read, offset, len as int, out@, calls as int, used, r) ==> reads(
                    *read,
                    offset,
                    len as int,
                    Seq::empty(),
                    0,
                    used,
                    r,
                ),
        decreases MAX_IO_CALLS - calls, len - out@.len(),
    {
        if canceled() {
            count_reads(io, page, calls, out.len() as u64);
            return Err(PagedPostingError::Index(SnapshotIndexError::Canceled));
        }
        if calls == MAX_IO_CALLS {
            assert(reads(
                *read,
                offset,
                len as int,
                out@,
                calls as int,
                calls as int,
                Err(PagedPostingError::ReadCallLimit),
            ));
            count_reads(io, page, calls, out.len() as u64);
            return Err(PagedPostingError::ReadCallLimit);
        }
        let ghost got = out@;
        let left: usize = len - out.len();
        let want: usize = if left < MAX_READ_BYTES {
            left
        } else {
            MAX_READ_BYTES
        };
        let reply = read(offset + out.len() as u64, want);
        assert(call_ensures(*old(read), ((offset + got.len()) as u64, want), reply));
        calls = calls + 1;
        match reply {
            ReadReply::Bytes(bytes) => {
                if bytes.len() == 0 || bytes.len() > want {
                    assert(reads(
                        *read,
                        offset,
                        len as int,
                        got,
                        calls - 1,
                        calls as int,
                        Err(PagedPostingError::InvalidRead),
                    ));
                    count_reads(io, page, calls, out.len() as u64);
                    return Err(PagedPostingError::InvalidRead);
                }
                put_raw(&mut out, bytes.as_slice());
                assert forall|used: int, r: Result<Seq<u8>, PagedPostingError>|
                    #[trigger] reads(
                        *read,
                        offset,
                        len as int,
                        out@,
                        calls as int,
                        used,
                        r,
                    ) implies reads(*read, offset, len as int, Seq::empty(), 0, used, r) by {
                    assert(reads(*read, offset, len as int, got, calls - 1, used, r));
                }
            },
            ReadReply::Interrupted => {
                assert forall|used: int, r: Result<Seq<u8>, PagedPostingError>|
                    #[trigger] reads(
                        *read,
                        offset,
                        len as int,
                        out@,
                        calls as int,
                        used,
                        r,
                    ) implies reads(*read, offset, len as int, Seq::empty(), 0, used, r) by {
                    assert(reads(*read, offset, len as int, got, calls - 1, used, r));
                }
            },
            ReadReply::Misplaced => {
                assert(reads(
                    *read,
                    offset,
                    len as int,
                    got,
                    calls - 1,
                    calls as int,
                    Err(PagedPostingError::InvalidRead),
                ));
                count_reads(io, page, calls, out.len() as u64);
                return Err(PagedPostingError::InvalidRead);
            },
            ReadReply::Failed => {
                assert(reads(
                    *read,
                    offset,
                    len as int,
                    got,
                    calls - 1,
                    calls as int,
                    Err(PagedPostingError::Io),
                ));
                count_reads(io, page, calls, out.len() as u64);
                return Err(PagedPostingError::Io);
            },
        }
    }
    assert(reads(*read, offset, len as int, out@, calls as int, calls as int, Ok(out@)));
    count_reads(io, page, calls, out.len() as u64);
    Ok(out)
}

fn count_reads(io: &mut PostingPageIo, page: bool, calls: u64, bytes: u64)
    ensures
        *final(io) == old(io).after_reads(page, calls, bytes),
{
    io.read_calls = io.read_calls.wrapping_add(calls);
    if page {
        io.page_bytes_read = io.page_bytes_read.wrapping_add(bytes);
    } else {
        io.manifest_bytes_read = io.manifest_bytes_read.wrapping_add(bytes);
    }
}

/// What a manifest keeps of a page.
#[derive(Clone, Copy, Debug)]
pub struct PageMeta<D = Sha256Digest> {
    pub first: u64,
    pub last: u64,
    pub count: usize,
    pub digest: D,
}

/// The model of a page's entry.
pub type MetaModel = PageMeta<Seq<u8>>;

impl View for PageMeta {
    type V = PageMeta<Seq<u8>>;

    open spec fn view(&self) -> PageMeta<Seq<u8>> {
        PageMeta {
            first: self.first,
            last: self.last,
            count: self.count,
            digest: self.digest.data(),
        }
    }
}

/// Whether a pair names a trigram and a member with listed trigrams.
pub open spec fn valid_pair_spec(pair: u64, rows: Seq<RowModel>) -> bool {
    gram_of(pair) <= MAX_GRAM && ordinal_of(pair) < rows.len() && rows[ordinal_of(
        pair,
    )].coverage.has_segment() && rows[ordinal_of(pair)].count > 0
}

pub fn valid_pair(pair: u64, rows: &Vec<Row>) -> (r: bool)
    ensures
        r == valid_pair_spec(pair, views(rows@)),
{
    let at: usize = ordinal(pair);
    if pair / SPAN > MAX_GRAM as u64 || at >= rows.len() {
        return false;
    }
    assert(views(rows@)[at as int] == rows@[at as int]@);
    rows[at].coverage.indexed() && rows[at].count > 0
}

/// Whether pairs are what a page's entry says, apart from the digest.
pub open spec fn page_fits(pairs: Seq<u64>, meta: MetaModel, rows: Seq<RowModel>) -> bool {
    &&& pairs.len() == meta.count
    &&& ascending(pairs)
    &&& pairs.len() > 0 ==> pairs[0] == meta.first && pairs.last() == meta.last
    &&& forall|i: int| 0 <= i < pairs.len() ==> valid_pair_spec(#[trigger] pairs[i], rows)
}

/// The pairs that bytes hold, from the `i`th on.
pub open spec fn words_from(bytes: Seq<u8>, i: int, n: int) -> Seq<u64>
    decreases n - i,
{
    if i < 0 || i >= n {
        Seq::empty()
    } else {
        seq![le_value(bytes.subrange(i * 8, i * 8 + 8)) as u64] + words_from(bytes, i + 1, n)
    }
}

/// Pages of stored postings, and a few of them in memory.
#[derive(Debug)]
pub struct PagedPostings {
    pub owner: ArenaOwnerId,
    pub archive: Sha256Digest,
    pub pin: Sha256Digest,
    pub rows: Vec<Row>,
    pub pages: Vec<PageMeta>,
    pub captured: Vec<u32>,
    pub raw_fallback: Vec<u32>,
    pub text_fallback: Vec<u32>,
    pub total: usize,
    pub body_offset: u64,
    pub file_bytes: u64,
    pub cache: Vec<Vec<u64>>,
    pub slots: Vec<Option<usize>>,
    pub replacement: usize,
    pub stats: SavedIndexStats,
    pub io: PostingPageIo,
    pub failed: Option<PagedPostingError>,
}

/// What an opened manifest says, apart from the cache.
pub ghost struct ManifestModel {
    pub rows: Seq<RowModel>,
    pub pages: Seq<MetaModel>,
    pub total: int,
}

/// Pairs of the `p`th page.
pub open spec fn page_size(total: int, p: int) -> int {
    if total - p * POSTING_PAGE_PAIRS < POSTING_PAGE_PAIRS {
        total - p * POSTING_PAGE_PAIRS
    } else {
        POSTING_PAGE_PAIRS as int
    }
}

/// Pages of so many pairs.
pub open spec fn page_count(total: int) -> int {
    (total + POSTING_PAGE_PAIRS - 1) / POSTING_PAGE_PAIRS as int
}

impl ManifestModel {
    /// Pages follow one another in order.
    pub open spec fn wf(self) -> bool {
        &&& self.rows.len() <= MAX_INDEX_MEMBERS
        &&& 0 <= self.total <= MAX_INDEX_GRAMS
        &&& self.pages.len() == page_count(self.total)
        &&& forall|p: int|
            0 <= p < self.pages.len() ==> {
                let meta = #[trigger] self.pages[p];
                &&& meta.count == page_size(self.total, p)
                &&& meta.first <= meta.last
                &&& (meta.count == 1) == (meta.first == meta.last)
                &&& valid_pair_spec(meta.first, self.rows)
                &&& valid_pair_spec(meta.last, self.rows)
            }
        &&& forall|p: int, q: int|
            0 <= p < q < self.pages.len() ==> (#[trigger] self.pages[p]).last < (
            #[trigger] self.pages[q]).first
    }
}

impl PagedPostings {
    pub open spec fn manifest(self) -> ManifestModel {
        ManifestModel {
            rows: views(self.rows@),
            pages: views(self.pages@),
            total: self.total as int,
        }
    }

    /// Every page in memory is what the manifest says of it.
    pub open spec fn wf(self) -> bool {
        &&& self.manifest().wf()
        &&& self.captured@ == kept_from(views(self.rows@), Keep::Captured, 0)
        &&& self.raw_fallback@ == kept_from(views(self.rows@), Keep::RawFallback, 0)
        &&& self.text_fallback@ == kept_from(views(self.rows@), Keep::TextFallback, 0)
        &&& self.body_offset <= MAX_PAGED_POSTINGS_BYTES
        &&& 1 <= self.slots@.len() == self.cache@.len()
        &&& self.slots@.len() <= 16
        &&& self.replacement < self.slots@.len()
        &&& forall|s: int|
            0 <= s < self.slots@.len() ==> ((#[trigger] self.slots@[s]) matches Some(page) ==> page
                < self.pages@.len() && page_fits(
                self.cache@[s]@,
                views(self.pages@)[page as int],
                views(self.rows@),
            ))
    }

    /// Everything but the cache and its counts stays the same.
    pub open spec fn same_index(self, other: PagedPostings) -> bool {
        &&& self.owner == other.owner
        &&& self.archive == other.archive
        &&& self.pin == other.pin
        &&& self.rows == other.rows
        &&& self.pages == other.pages
        &&& self.captured == other.captured
        &&& self.raw_fallback == other.raw_fallback
        &&& self.text_fallback == other.text_fallback
        &&& self.total == other.total
        &&& self.body_offset == other.body_offset
        &&& self.file_bytes == other.file_bytes
        &&& self.stats == other.stats
        &&& self.slots@.len() == other.slots@.len()
    }

    /// Where a page is kept, from a slot on.
    pub open spec fn slot_from(slots: Seq<Option<usize>>, page: usize, s: int) -> Option<int>
        decreases slots.len() - s,
    {
        if s < 0 || s >= slots.len() {
            None
        } else if slots[s] == Some(page) {
            Some(s)
        } else {
            PagedPostings::slot_from(slots, page, s + 1)
        }
    }

    pub fn owner(&self) -> (r: ArenaOwnerId)
        ensures
            r == self.owner,
    {
        self.owner
    }

    pub fn archive_digest(&self) -> (r: Sha256Digest)
        ensures
            r == self.archive,
    {
        self.archive
    }

    pub fn digest(&self) -> (r: Sha256Digest)
        ensures
            r == self.pin,
    {
        self.pin
    }

    pub fn stats(&self) -> (r: SavedIndexStats)
        ensures
            r == self.stats,
    {
        self.stats
    }

    pub fn io_stats(&self) -> (r: PostingPageIo)
        ensures
            r == self.io,
    {
        self.io
    }

    pub fn file_bytes(&self) -> (r: u64)
        ensures
            r == self.file_bytes,
    {
        self.file_bytes
    }

    pub fn cache_capacity_bytes(&self) -> (r: usize)
        requires
            self.wf(),
        ensures
            r == self.slots@.len() * POSTING_PAGE_BYTES,
    {
        self.slots.len() * POSTING_PAGE_BYTES
    }

    /// The pages in memory, up to a slot.
    pub open spec fn residents(slots: Seq<Option<usize>>, s: int) -> int
        decreases s,
    {
        if s <= 0 {
            0
        } else {
            PagedPostings::residents(slots, s - 1) + if slots[s - 1] is Some {
                1int
            } else {
                0int
            }
        }
    }

    pub fn resident_pages(&self) -> (r: usize)
        ensures
            r == PagedPostings::residents(self.slots@, self.slots@.len() as int),
    {
        let mut count: usize = 0;
        let mut s: usize = 0;
        while s < self.slots.len()
            invariant
                s <= self.slots@.len(),
                count <= s,
                count == PagedPostings::residents(self.slots@, s as int),
            decreases self.slots.len() - s,
        {
            if self.slots[s].is_some() {
                count = count + 1;
            }
            s = s + 1;
        }
        count
    }

    pub fn validate_directory(&self, directory: &SnapshotDirectory) -> (r: Result<
        (),
        SnapshotIndexError,
    >)
        ensures
            r == (match directory_error(
                self.owner,
                self.archive.data(),
                self.rows@.len(),
                directory@,
            ) {
                Some(e) => Err::<(), SnapshotIndexError>(e),
                None => Ok(()),
            }),
    {
        if self.owner != directory.owner {
            return Err(SnapshotIndexError::OwnerMismatch);
        }
        if !self.archive.same(&directory.digest) || self.rows.len() != directory.members.len() {
            return Err(SnapshotIndexError::SourceMismatch);
        }
        Ok(())
    }
}

fn read_words(bytes: &Vec<u8>, n: usize) -> (r: Vec<u64>)
    requires
        n <= POSTING_PAGE_PAIRS,
        bytes@.len() == n * 8,
    ensures
        r@ == words_from(bytes@, 0, n as int),
        r@.len() == n,
{
    let mut out: Vec<u64> = Vec::new();
    let mut i: usize = 0;
    assert(out@ + words_from(bytes@, 0, n as int) =~= words_from(bytes@, 0, n as int));
    while i < n
        invariant
            i <= n <= POSTING_PAGE_PAIRS,
            bytes@.len() == n * 8,
            out@.len() == i,
            out@ + words_from(bytes@, i as int, n as int) == words_from(bytes@, 0, n as int),
        decreases n - i,
    {
        out.push(read_le(bytes, i * 8, 8));
        i = i + 1;
        assert(out@ + words_from(bytes@, i as int, n as int) =~= words_from(
            bytes@,
            0,
            n as int,
        ));
    }
    assert(out@ =~= words_from(bytes@, 0, n as int));
    out
}

/// Whether pairs are what a page's entry says, apart from the digest.
fn check_page<C: FnMut() -> bool>(
    pairs: &Vec<u64>,
    meta: &PageMeta,
    rows: &Vec<Row>,
    canceled: &mut C,
) -> (r: Result<(), PagedPostingError>)
    requires
        pairs@.len() == meta.count,
        call_requires(*old(canceled), ()),
    ensures
        *final(canceled) == *old(canceled),
        page_stopped(r, *old(canceled)) || r == (if page_fits(pairs@, meta@, views(rows@)) {
            Ok::<(), PagedPostingError>(())
        } else {
            Err(PagedPostingError::Index(SnapshotIndexError::Format))
        }),
        r == Err::<(), PagedPostingError>(
            PagedPostingError::Index(SnapshotIndexError::Canceled),
        ) ==> page_stopped(r, *old(canceled)),
        r is Ok ==> page_fits(pairs@, meta@, views(rows@)),
{
    let mut i: usize = 0;
    while i < pairs.len()
        invariant
            i <= pairs@.len(),
            pairs@.len() == meta.count,
            *canceled == *old(canceled),
            call_requires(*canceled, ()),
            forall|k: int| 0 <= k < i ==> valid_pair_spec(#[trigger] pairs@[k], views(rows@)),
            forall|a: int, b: int| 0 <= a < b < i ==> #[trigger] pairs@[a] < #[trigger] pairs@[b],
            i > 0 ==> pairs@[0] == meta.first,
            i == pairs@.len() && i > 0 ==> pairs@.last() == meta.last,
        decreases pairs.len() - i,
    {
        if i % 256 == 0 && canceled() {
            return Err(PagedPostingError::Index(SnapshotIndexError::Canceled));
        }
        let pair: u64 = pairs[i];
        if !valid_pair(pair, rows) || (i > 0 && pairs[i - 1] >= pair) || (i == 0 && pair
            != meta.first) || (i + 1 == meta.count && pair != meta.last) {
            proof {
                if page_fits(pairs@, meta@, views(rows@)) {
                    assert(valid_pair_spec(pairs@[i as int], views(rows@)));
                    if i > 0 {
                        assert(pairs@[i - 1] < pairs@[i as int]);
                    }
                }
            }
            return Err(PagedPostingError::Index(SnapshotIndexError::Format));
        }
        proof {
            assert forall|a: int, b: int| 0 <= a < b < i + 1 implies #[trigger] pairs@[a]
                < #[trigger] pairs@[b] by {
                if b == i && a < i - 1 {
                    assert(pairs@[a] < pairs@[i - 1]);
                }
            }
        }
        i = i + 1;
    }
    Ok(())
}

/// What the bytes of a page come to: they have the digest of the manifest and
/// hold what it says.
pub open spec fn page_from(
    bytes: Seq<u8>,
    digest: Sha256Digest,
    meta: MetaModel,
    rows: Seq<RowModel>,
) -> Result<Seq<u64>, PagedPostingError> {
    let pairs = words_from(bytes, 0, meta.count as int);
    if digest.data() != meta.digest {
        Err(PagedPostingError::ChangedPage)
    } else if !page_fits(pairs, meta, rows) {
        Err(PagedPostingError::Index(SnapshotIndexError::Format))
    } else {
        Ok(pairs)
    }
}

/// What loading a page may come to: its bytes are read and checked.
pub open spec fn is_page<
    R: FnMut(u64, usize) -> ReadReply,
    H: Fn(&Vec<u8>, usize) -> Sha256Digest,
>(
    read: R,
    hash: H,
    offset: u64,
    meta: MetaModel,
    rows: Seq<RowModel>,
    r: Result<Seq<u64>, PagedPostingError>,
) -> bool {
    ||| r matches Err(e) && was_read(read, offset, meta.count * 8, Err(e))
    ||| exists|bytes: Seq<u8>, digest: Sha256Digest|
        #[trigger] hashed(hash, bytes, digest) && was_read(read, offset, meta.count * 8, Ok(bytes))
            && r == page_from(bytes, digest, meta, rows)
}

impl PagedPostings {
    /// Reads and checks a page.
    fn fetch<
        R: FnMut(u64, usize) -> ReadReply,
        H: Fn(&Vec<u8>, usize) -> Sha256Digest,
        C: FnMut() -> bool,
    >(&mut self, page: usize, read: &mut R, hash: &H, canceled: &mut C) -> (r: Result<
        Vec<u64>,
        PagedPostingError,
    >)
        requires
            old(self).wf(),
            page < old(self).pages@.len(),
            forall|at: u64, n: usize| call_requires(*old(read), (at, n)),
            forall|bytes: &Vec<u8>, n: usize|
                n <= bytes@.len() ==> call_requires(*hash, (bytes, n)),
            call_requires(*old(canceled), ()),
        ensures
            *final(read) == *old(read),
            *final(canceled) == *old(canceled),
            exists|calls: u64, bytes: u64|
                *final(self) == (PagedPostings {
                    io: #[trigger] old(self).io.after_reads(true, calls, bytes),
                    ..*old(self)
                }) && (r is Ok ==> bytes == views(old(self).pages@)[page as int].count * 8),
            r == Err::<Vec<u64>, PagedPostingError>(
                PagedPostingError::Index(SnapshotIndexError::Canceled),
            ) ==> page_stopped(r, *old(canceled)),
            r matches Ok(pairs) ==> page_fits(
                pairs@,
                views(old(self).pages@)[page as int],
                views(old(self).rows@),
            ),
            page_stopped(r, *old(canceled)) || is_page(
                *old(read),
                *hash,
                (old(self).body_offset + page * POSTING_PAGE_BYTES) as u64,
                views(old(self).pages@)[page as int],
                views(old(self).rows@),
                match r {
                    Ok(pairs) => Ok(pairs@),
                    Err(e) => Err(e),
                },
            ),
    {
        let meta = self.pages[page];
        assert(views(self.pages@)[page as int] == meta@);
        proof {
            lemma_pages(self.total as int, page as int);
        }
        let offset: u64 = self.body_offset + (page * POSTING_PAGE_BYTES) as u64;
        let got = read_exact(read, offset, meta.count * 8, &mut self.io, true, canceled);
        let ghost answer = got;
        let bytes = match got {
            Ok(bytes) => bytes,
            Err(e) => {
                return Err(e);
            },
        };
        assert(offset == (old(self).body_offset + page * POSTING_PAGE_BYTES) as u64);
        let ghost whole: Result<Seq<u8>, PagedPostingError> = Ok(bytes@);
        assert(was_read(*old(read), offset, meta@.count * 8, whole));
        let n: usize = bytes.len();
        let digest = hash(&bytes, n);
        proof {
            assert(bytes@.subrange(0, n as int) =~= bytes@);
            assert(call_ensures(*hash, (&bytes, n), digest));
            assert(hashed(*hash, bytes@, digest));
        }
        if !digest.same(&meta.digest) {
            return Err(PagedPostingError::ChangedPage);
        }
        let pairs = read_words(&bytes, meta.count);
        match check_page(&pairs, &meta, &self.rows, canceled) {
            Ok(()) => {},
            Err(e) => {
                return Err(e);
            },
        }
        if canceled() {
            return Err(PagedPostingError::Index(SnapshotIndexError::Canceled));
        }
        Ok(pairs)
    }

    fn find_slot(&self, page: usize) -> (r: Option<usize>)
        ensures
            match PagedPostings::slot_from(self.slots@, page, 0) {
                Some(s) => r == Some(s as usize) && 0 <= s < self.slots@.len() && self.slots@[s]
                    == Some(page),
                None => r is None,
            },
    {
        let mut s: usize = 0;
        while s < self.slots.len()
            invariant
                s <= self.slots@.len(),
                PagedPostings::slot_from(self.slots@, page, s as int)
                    == PagedPostings::slot_from(self.slots@, page, 0),
            decreases self.slots.len() - s,
        {
            match self.slots[s] {
                Some(stored) => {
                    if stored == page {
                        return Some(s);
                    }
                },
                None => {},
            }
            s = s + 1;
        }
        None
    }

    /// Puts a page into the next slot, in place of the one there.
    fn load_page<
        R: FnMut(u64, usize) -> ReadReply,
        H: Fn(&Vec<u8>, usize) -> Sha256Digest,
        C: FnMut() -> bool,
    >(&mut self, page: usize, slot: usize, read: &mut R, hash: &H, canceled: &mut C) -> (r: Result<
        (),
        PagedPostingError,
    >)
        requires
            old(self).wf(),
            page < old(self).pages@.len(),
            slot < old(self).slots@.len(),
            forall|at: u64, n: usize| call_requires(*old(read), (at, n)),
            forall|bytes: &Vec<u8>, n: usize|
                n <= bytes@.len() ==> call_requires(*hash, (bytes, n)),
            call_requires(*old(canceled), ()),
        ensures
            *final(read) == *old(read),
            *final(canceled) == *old(canceled),
            r == Err::<(), PagedPostingError>(
                PagedPostingError::Index(SnapshotIndexError::Canceled),
            ) ==> page_stopped(r, *old(canceled)),
            final(self).wf(),
            final(self).same_index(*old(self)),
            final(self).replacement == old(self).replacement,
            final(self).failed == old(self).failed,
            load_counted(*old(self), page as int, slot as int, r is Ok, final(self).io),
            match r {
                Ok(()) => final(self).slots@ == old(self).slots@.update(slot as int, Some(page)),
                Err(_) => final(self).slots@ == old(self).slots@.update(slot as int, None),
            },
            forall|s: int|
                0 <= s < old(self).slots@.len() && s != slot ==> #[trigger] final(self).cache@[s]
                    == old(self).cache@[s],
            page_stopped(r, *old(canceled)) || is_page(
                *old(read),
                *hash,
                (old(self).body_offset + page * POSTING_PAGE_BYTES) as u64,
                views(old(self).pages@)[page as int],
                views(old(self).rows@),
                match r {
                    Ok(()) => Ok(final(self).cache@[slot as int]@),
                    Err(e) => Err(e),
                },
            ),
    {
        if self.slots[slot].is_some() {
            self.io.evictions = self.io.evictions.wrapping_add(1);
        }
        self.slots.set(slot, None);
        let ghost io = self.io;
        let fetched = self.fetch(page, read, hash, canceled);
        let ghost (calls, bytes) = choose|calls: u64, bytes: u64|
            self.io == #[trigger] io.after_reads(true, calls, bytes) && (fetched is Ok ==> bytes
                == views(old(self).pages@)[page as int].count * 8);
        let ghost evicts = old(self).slots@[slot as int] is Some;
        match fetched {
            Err(e) => {
                assert(self.io == old(self).io.after_load(evicts, calls, bytes, false));
                Err(e)
            },
            Ok(pairs) => {
                self.cache.set(slot, pairs);
                self.slots.set(slot, Some(page));
                self.io.page_loads = self.io.page_loads.wrapping_add(1);
                assert(self.io == old(self).io.after_load(evicts, calls, bytes, true));
                Ok(())
            },
        }
    }

    /// The pair at a position. Gives nothing if its page is not in memory and
    /// none may be loaded. A failure to load stays.
    pub fn pair<
        R: FnMut(u64, usize) -> ReadReply,
        H: Fn(&Vec<u8>, usize) -> Sha256Digest,
        C: FnMut() -> bool,
    >(&mut self, index: usize, loads: &mut usize, read: &mut R, hash: &H, canceled: &mut C) -> (r:
        Result<Option<u64>, PagedPostingError>)
        requires
            old(self).wf(),
            forall|at: u64, n: usize| call_requires(*old(read), (at, n)),
            forall|bytes: &Vec<u8>, n: usize|
                n <= bytes@.len() ==> call_requires(*hash, (bytes, n)),
            call_requires(*old(canceled), ()),
        ensures
            *final(read) == *old(read),
            *final(canceled) == *old(canceled),
            final(self).wf(),
            final(self).same_index(*old(self)),
            old(self).failed matches Some(e) ==> r == Err::<Option<u64>, PagedPostingError>(e)
                && *final(self) == *old(self) && *final(loads) == *old(loads),
            old(self).failed is None ==> {
                let page = (index / POSTING_PAGE_PAIRS) as usize;
                let place = (index % POSTING_PAGE_PAIRS) as int;
                &&& !page_stopped(r, *old(canceled)) && index >= old(self).total ==> r == Err::<
                    Option<u64>,
                    PagedPostingError,
                >(PagedPostingError::Index(SnapshotIndexError::Format)) && *final(self) == *old(
                    self,
                ) && *final(loads) == *old(loads)
                &&& !page_stopped(r, *old(canceled)) && index < old(self).total
                    ==> match PagedPostings::slot_from(old(self).slots@, page, 0) {
                    Some(s) => r == Ok::<Option<u64>, PagedPostingError>(
                        Some(old(self).cache@[s]@[place]),
                    ) && *final(self) == (PagedPostings {
                        io: old(self).io.after_hit(),
                        ..*old(self)
                    }) && *final(loads) == *old(loads),
                    None => if *old(loads) == 0 {
                        r == Ok::<Option<u64>, PagedPostingError>(None) && *final(self)
                            == *old(self) && *final(loads) == 0
                    } else {
                        exists|loaded: Result<Seq<u64>, PagedPostingError>|
                            #[trigger] is_page(
                                *old(read),
                                *hash,
                                (old(self).body_offset + page * POSTING_PAGE_BYTES) as u64,
                                views(old(self).pages@)[page as int],
                                views(old(self).rows@),
                                loaded,
                            ) && *final(loads) == *old(loads) - 1 && final(self).replacement == (if old(
                                self,
                            ).replacement + 1 < old(self).slots@.len() {
                                old(self).replacement + 1
                            } else {
                                0
                            }) && load_counted(
                                *old(self),
                                page as int,
                                old(self).replacement as int,
                                loaded is Ok,
                                final(self).io,
                            ) && match loaded {
                                Ok(pairs) => r == Ok::<Option<u64>, PagedPostingError>(
                                    Some(pairs[place]),
                                ) && final(self).slots@ == old(self).slots@.update(
                                    old(self).replacement as int,
                                    Some(page),
                                ) && final(self).cache@[old(self).replacement as int]@ == pairs
                                    && final(self).failed is None,
                                Err(e) => r == Err::<Option<u64>, PagedPostingError>(e)
                                    && final(self).slots@ == old(self).slots@.update(
                                    old(self).replacement as int,
                                    None,
                                ) && final(self).failed == (if e == PagedPostingError::Index(
                                    SnapshotIndexError::Canceled,
                                ) {
                                    None
                                } else {
                                    Some(e)
                                }),
                            }
                    },
                }
            },
            r matches Ok(Some(value)) ==> {
                let page = (index / POSTING_PAGE_PAIRS) as usize;
                &&& index < final(self).total
                &&& exists|s: int|
                    0 <= s < final(self).slots@.len() && #[trigger] final(self).slots@[s] == Some(
                        page,
                    ) && final(self).cache@[s]@[(index % POSTING_PAGE_PAIRS) as int] == value
            },
            r matches Ok(Some(_)) ==> keeps_or_replaces(*old(self), *final(self)),
            page_failure(r, *old(self), *old(read), *hash, *final(self), *old(canceled)) || index
                >= old(self).total && r == Err::<Option<u64>, PagedPostingError>(
                PagedPostingError::Index(SnapshotIndexError::Format),
            ) && *final(self) == *old(self) && *final(loads) == *old(loads),
            r matches Ok(None) ==> *final(self) == *old(self) && *old(loads) == 0,
            r is Ok ==> final(self).failed == old(self).failed,
            pages_counted(*old(self), *old(loads), *final(self), *final(loads)),
            r is Ok && *final(loads) < *old(loads) ==> final(self).io.page_loads
                == old(self).io.page_loads.wrapping_add(1),
    {
        if let Some(error) = self.failed {
            return Err(error);
        }
        if canceled() {
            return Err(PagedPostingError::Index(SnapshotIndexError::Canceled));
        }
        if index >= self.total {
            return Err(PagedPostingError::Index(SnapshotIndexError::Format));
        }
        let page: usize = index / POSTING_PAGE_PAIRS;
        let place: usize = index % POSTING_PAGE_PAIRS;
        proof {
            lemma_page_of(self.total as int, index as int);
            lemma_pages(self.total as int, page as int);
            assert(views(self.pages@)[page as int].count == page_size(
                self.total as int,
                page as int,
            ));
        }
        let slot: usize = match self.find_slot(page) {
            Some(slot) => {
                assert(self.slots@[slot as int] == Some(page));
                self.io.cache_hits = self.io.cache_hits.wrapping_add(1);
                slot
            },
            None => {
                if *loads == 0 {
                    return Ok(None);
                }
                *loads = *loads - 1;
                let slot: usize = self.replacement;
                self.replacement = if self.replacement + 1 < self.slots.len() {
                    self.replacement + 1
                } else {
                    0
                };
                match self.load_page(page, slot, read, hash, canceled) {
                    Ok(()) => {
                        assert(self.slots@[slot as int] == Some(page));
                        slot
                    },
                    Err(error) => {
                        if error != PagedPostingError::Index(SnapshotIndexError::Canceled) {
                            self.failed = Some(error);
                        }
                        return Err(error);
                    },
                }
            },
        };
        assert(page_fits(
            self.cache@[slot as int]@,
            views(self.pages@)[page as int],
            views(self.rows@),
        ));
        Ok(Some(self.cache[slot][place]))
    }

    /// The stretch of one page in which a value's place must be found.
    pub fn bracket(&self, value: u64) -> (r: (usize, usize))
        requires
            self.wf(),
        ensures
            r.0 <= r.1 <= self.total,
            is_bracket(self.manifest(), value, r.0 as int, r.1 as int),
    {
        let mut page: usize = 0;
        while page < self.pages.len() && self.pages[page].last < value
            invariant
                page <= self.pages@.len(),
                forall|p: int| 0 <= p < page ==> (#[trigger] self.pages@[p]).last < value,
            decreases self.pages.len() - page,
        {
            page = page + 1;
        }
        assert forall|p: int| 0 <= p < page implies (
        #[trigger] self.manifest().pages[p]).last < value by {
            assert(self.manifest().pages[p] == self.pages@[p]@);
        }
        if page == self.pages.len() {
            return (self.total, self.total);
        }
        proof {
            assert(self.manifest().pages[page as int] == self.pages@[page as int]@);
            lemma_pages(self.total as int, page as int);
        }
        let start: usize = page * POSTING_PAGE_PAIRS;
        if value <= self.pages[page].first {
            (start, start)
        } else {
            (start, start + self.pages[page].count)
        }
    }
}

/// Whether a stretch is where a value's place must be found, as the page
/// entries tell.
pub open spec fn is_bracket(manifest: ManifestModel, value: u64, low: int, high: int) -> bool {
    exists|page: int|
        {
            &&& 0 <= page <= manifest.pages.len()
            &&& forall|p: int| 0 <= p < page ==> (#[trigger] manifest.pages[p]).last < value
            &&& if page == manifest.pages.len() {
                low == manifest.total && high == manifest.total
            } else {
                &&& (#[trigger] manifest.pages[page]).last >= value
                &&& low == page * POSTING_PAGE_PAIRS
                &&& high == if value <= manifest.pages[page].first {
                    low
                } else {
                    low + manifest.pages[page].count
                }
            }
        }
}

/// Whether these are the counts after a page was asked for in a slot.
pub open spec fn load_counted(
    before: PagedPostings,
    page: int,
    slot: int,
    loaded: bool,
    io: PostingPageIo,
) -> bool {
    exists|calls: u64, bytes: u64|
        io == #[trigger] before.io.after_load(before.slots@[slot] is Some, calls, bytes, loaded)
            && (loaded ==> bytes == views(before.pages@)[page].count * 8)
}

/// No more pages are loaded than were allowed, and each that is, is counted.
pub open spec fn pages_counted(
    before: PagedPostings,
    loads: usize,
    end: PagedPostings,
    left: usize,
) -> bool {
    &&& left <= loads
    &&& end.io.page_loads == before.io.page_loads || left < loads && end.io.page_loads
        == before.io.page_loads.wrapping_add(1)
}

/// Whether a page may fail so.
pub open spec fn page_fails<
    R: FnMut(u64, usize) -> ReadReply,
    H: Fn(&Vec<u8>, usize) -> Sha256Digest,
>(source: PagedPostings, read: R, hash: H, e: PagedPostingError) -> bool {
    exists|page: usize|
        page < source.pages@.len() && #[trigger] is_page(
            read,
            hash,
            (source.body_offset + page * POSTING_PAGE_BYTES) as u64,
            views(source.pages@)[page as int],
            views(source.rows@),
            Err(e),
        )
}

/// Why work on pages may fail: it was told to stop, a page failed before, or one
/// fails now. The last stays.
pub open spec fn page_failure<
    T,
    R: FnMut(u64, usize) -> ReadReply,
    H: Fn(&Vec<u8>, usize) -> Sha256Digest,
    C: FnMut() -> bool,
>(
    r: Result<T, PagedPostingError>,
    source: PagedPostings,
    read: R,
    hash: H,
    after: PagedPostings,
    canceled: C,
) -> bool {
    r matches Err(e) ==> {
        ||| page_stopped(r, canceled) && after.failed == source.failed
        ||| source.failed == Some(e) && after.failed == Some(e)
        ||| source.failed is None && after.failed == Some(e) && page_fails(source, read, hash, e)
    }
}

/// The pages in memory afterwards were there before, but for at most one slot.
pub open spec fn keeps_or_replaces(before: PagedPostings, end: PagedPostings) -> bool {
    forall|s: int|
        0 <= s < before.slots@.len() && s != before.replacement ==> (#[trigger] end.slots@[s])
            == before.slots@[s] && end.cache@[s] == before.cache@[s]
}

/// A page lies within the pairs.
pub proof fn lemma_pages(total: int, p: int)
    requires
        0 <= total <= MAX_INDEX_GRAMS,
        0 <= p < page_count(total),
    ensures
        0 < page_size(total, p) <= POSTING_PAGE_PAIRS,
        p * POSTING_PAGE_PAIRS + page_size(total, p) <= total,
        p <= 1024,
{
}

/// A pair lies within its page.
pub proof fn lemma_page_of(total: int, index: int)
    requires
        0 <= index < total <= MAX_INDEX_GRAMS,
    ensures
        0 <= (index / (POSTING_PAGE_PAIRS as int)) < page_count(total),
        (index % (POSTING_PAGE_PAIRS as int)) < page_size(
            total,
            index / (POSTING_PAGE_PAIRS as int),
        ),
{
}

} // verus!
