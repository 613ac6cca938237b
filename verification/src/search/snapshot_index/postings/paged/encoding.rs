//! Storing postings as pages behind a manifest.
use vstd::layout::size_of;
use vstd::prelude::*;

use crate::envelope::{le_bytes, le_bytes_len, put_le, put_raw, Sha256Digest};
use crate::memory::wide_size;
use crate::model::group_views;
use crate::search::snapshot_index::codec::{
    hashed, is_sealed, seal_document, IndexArtifact,
};
use crate::search::snapshot_index::postings::paged::manifest::{
    file_len, file_len_ok, file_length, manifest_len, manifest_len_ok, manifest_length,
    manifest_schema, manifest_schema_spec,
};
use crate::search::snapshot_index::postings::paged::{
    lemma_pages, page_count, page_size, page_stopped, PagedPostingError, POSTING_PAGE_BYTES,
    POSTING_PAGE_PAIRS,
};
use crate::search::snapshot_index::postings::stored::{heads_from, pairs_from, put_heads};
use crate::search::snapshot_index::postings::{PostingsModel, SnapshotPostings};
use crate::search::snapshot_index::{SnapshotIndexError, SEMANTICS};

verus! {

broadcast use {group_views, le_bytes_len};

/// Stored pages, and the digest of the manifest that covers them.
#[derive(Debug)]
pub struct PagedIndexArtifact {
    pub bytes: Vec<u8>,
    pub pin: Sha256Digest,
    pub manifest_bytes: usize,
}

impl PagedIndexArtifact {
    pub fn bytes(&self) -> (r: &Vec<u8>)
        ensures
            *r == self.bytes,
    {
        &self.bytes
    }

    pub fn digest(&self) -> (r: Sha256Digest)
        ensures
            r == self.pin,
    {
        self.pin
    }

    pub fn manifest_bytes(&self) -> (r: usize)
        ensures
            r == self.manifest_bytes,
    {
        self.manifest_bytes
    }
}

/// The pairs of the `p`th page.
pub open spec fn page_pairs(pairs: Seq<u64>, p: int) -> Seq<u64> {
    pairs.subrange(
        p * POSTING_PAGE_PAIRS,
        p * POSTING_PAGE_PAIRS + page_size(pairs.len() as int, p),
    )
}

/// What a manifest keeps of the pages from the `p`th on, given their digests.
pub open spec fn metas_from(pairs: Seq<u64>, digests: Seq<Sha256Digest>, p: int) -> Seq<u8>
    decreases page_count(pairs.len() as int) - p,
{
    if p < 0 || p >= page_count(pairs.len() as int) {
        Seq::empty()
    } else {
        meta_bytes(page_pairs(pairs, p), digests[p]) + metas_from(pairs, digests, p + 1)
    }
}

/// What a manifest keeps of a page.
pub open spec fn meta_bytes(page: Seq<u64>, digest: Sha256Digest) -> Seq<u8> {
    le_bytes(page[0] as nat, 8) + le_bytes(page.last() as nat, 8) + le_bytes(page.len(), 8)
        + digest.data()
}

/// Whether these are the digests of the pages.
pub open spec fn page_digests<H: Fn(&Vec<u8>, usize) -> Sha256Digest>(
    pairs: Seq<u64>,
    digests: Seq<Sha256Digest>,
    hash: H,
) -> bool {
    &&& digests.len() == page_count(pairs.len() as int)
    &&& forall|p: int|
        0 <= p < digests.len() ==> hashed(
            hash,
            pairs_from(page_pairs(pairs, p), 0),
            #[trigger] digests[p],
        )
}

/// What precedes the rows of a manifest.
pub open spec fn manifest_prefix(archive: Seq<u8>, rows: nat, total: nat, pages: nat) -> Seq<u8> {
    archive + le_bytes(SEMANTICS as nat, 4) + le_bytes(POSTING_PAGE_PAIRS as nat, 4) + le_bytes(
        rows,
        8,
    ) + le_bytes(total, 8) + le_bytes(pages, 8)
}

/// The payload of a manifest.
pub open spec fn manifest_payload(postings: PostingsModel, digests: Seq<Sha256Digest>) -> Seq<u8> {
    manifest_prefix(
        postings.archive,
        postings.rows.len(),
        postings.pairs.len(),
        page_count(postings.pairs.len() as int) as nat,
    ) + heads_from(postings.rows, 0) + metas_from(postings.pairs, digests, 0)
}

/// The header of a file.
pub open spec fn file_header(manifest: nat, total: nat) -> Seq<u8> {
    le_bytes(0x4442_4346, 4) + le_bytes(1, 4) + le_bytes(manifest, 8) + le_bytes(total, 8)
        + le_bytes(0, 8)
}

/// Bytes charged for storing pages.
pub open spec fn paged_charge(manifest: int, file: int) -> int {
    file + manifest * 4 + POSTING_PAGE_BYTES + size_of::<PagedIndexArtifact>()
}

/// Whether an artifact is a file header, the sealed manifest and all pairs.
pub open spec fn is_paged_file<H: Fn(&Vec<u8>, usize) -> Sha256Digest>(
    artifact: PagedIndexArtifact,
    postings: PostingsModel,
    digests: Seq<Sha256Digest>,
    hash: H,
) -> bool {
    exists|manifest: IndexArtifact|
        #[trigger] is_sealed(
            manifest,
            manifest_schema_spec(),
            manifest_payload(postings, digests),
            hash,
        ) && artifact.pin.data() == manifest.pin() && artifact.manifest_bytes
            == manifest.document().len() && artifact.bytes@ == file_header(
            manifest.document().len(),
            file_len(manifest.document().len() as int, postings.pairs.len() as int) as nat,
        ) + manifest.document() + pairs_from(postings.pairs, 0)
}

/// Whether storing pages may answer so.
pub open spec fn is_paged<A: FnOnce(u64) -> bool, H: Fn(&Vec<u8>, usize) -> Sha256Digest>(
    r: Result<PagedIndexArtifact, PagedPostingError>,
    postings: PostingsModel,
    reserve: A,
    hash: H,
) -> bool {
    let pairs = postings.pairs.len() as int;
    let length = manifest_len(postings.rows.len() as int, page_count(pairs));
    let charge = paged_charge(length, file_len(length, pairs));
    if !manifest_len_ok(postings.rows.len() as int, page_count(pairs)) || !file_len_ok(length, pairs)
        || charge > usize::MAX {
        r matches Err(e) && e == PagedPostingError::Index(SnapshotIndexError::Limits)
    } else {
        ||| call_ensures(reserve, (charge as u64,), false) && (r matches Err(e) && e
            == PagedPostingError::Index(SnapshotIndexError::ResourceDenied))
        ||| call_ensures(reserve, (charge as u64,), true) && (r matches Ok(artifact) && exists|
            digests: Seq<Sha256Digest>,
        |
            #[trigger] page_digests(postings.pairs, digests, hash) && is_paged_file(
                artifact,
                postings,
                digests,
                hash,
            ))
    }
}

proof fn lemma_heads_len(postings: PostingsModel, k: int)
    requires
        0 <= k <= postings.rows.len(),
        forall|j: int| 0 <= j < postings.rows.len() ==> (#[trigger] postings.rows[j]).digest.len()
            == 32,
    ensures
        heads_from(postings.rows, k).len() == (postings.rows.len() - k) * 49,
    decreases postings.rows.len() - k,
{
    if k < postings.rows.len() {
        lemma_heads_len(postings, k + 1);
        assert(postings.rows[k].digest.len() == 32);
    }
}

proof fn lemma_metas_len(pairs: Seq<u64>, digests: Seq<Sha256Digest>, p: int)
    requires
        0 <= p <= page_count(pairs.len() as int),
    ensures
        metas_from(pairs, digests, p).len() == (page_count(pairs.len() as int) - p) * 56,
    decreases page_count(pairs.len() as int) - p,
{
    if p < page_count(pairs.len() as int) {
        lemma_metas_len(pairs, digests, p + 1);
    }
}

proof fn lemma_pairs_len(pairs: Seq<u64>, i: int)
    requires
        0 <= i <= pairs.len(),
    ensures
        pairs_from(pairs, i).len() == (pairs.len() - i) * 8,
    decreases pairs.len() - i,
{
    if i < pairs.len() {
        lemma_pairs_len(pairs, i + 1);
    }
}

/// Digests behind those already known do not change the entries before.
proof fn lemma_metas_extend(
    pairs: Seq<u64>,
    digests: Seq<Sha256Digest>,
    more: Sha256Digest,
    p: int,
)
    requires
        0 <= p <= digests.len(),
        digests.len() < page_count(pairs.len() as int),
    ensures
        metas_until(pairs, digests.push(more), p) == metas_until(pairs, digests, p),
    decreases p,
{
    if p > 0 {
        lemma_metas_extend(pairs, digests, more, p - 1);
        assert(digests.push(more)[p - 1] == digests[p - 1]);
    }
}

/// The entries of the first `p` pages.
pub open spec fn metas_until(pairs: Seq<u64>, digests: Seq<Sha256Digest>, p: int) -> Seq<u8>
    decreases p,
{
    if p <= 0 {
        Seq::empty()
    } else {
        metas_until(pairs, digests, p - 1) + meta_bytes(page_pairs(pairs, p - 1), digests[p - 1])
    }
}

proof fn lemma_metas_join(pairs: Seq<u64>, digests: Seq<Sha256Digest>, p: int)
    requires
        0 <= p <= page_count(pairs.len() as int),
    ensures
        metas_until(pairs, digests, p) + metas_from(pairs, digests, p) == metas_from(
            pairs,
            digests,
            0,
        ),
    decreases p,
{
    if p > 0 {
        lemma_metas_join(pairs, digests, p - 1);
        assert(metas_until(pairs, digests, p) + metas_from(pairs, digests, p) =~= metas_until(
            pairs,
            digests,
            p - 1,
        ) + metas_from(pairs, digests, p - 1));
    } else {
        assert(metas_until(pairs, digests, 0) + metas_from(pairs, digests, 0) =~= metas_from(
            pairs,
            digests,
            0,
        ));
    }
}

impl SnapshotPostings {
    /// Appends the pairs of a stretch.
    fn put_stretch(&self, out: &mut Vec<u8>, from: usize, to: usize)
        requires
            from <= to <= self.pairs@.len(),
        ensures
            final(out)@ == old(out)@ + pairs_from(
                self.pairs@.subrange(from as int, to as int),
                0,
            ),
    {
        let ghost part = self.pairs@.subrange(from as int, to as int);
        let ghost all = out@ + pairs_from(part, 0);
        let mut i: usize = from;
        while i < to
            invariant
                from <= i <= to <= self.pairs@.len(),
                part == self.pairs@.subrange(from as int, to as int),
                all == out@ + pairs_from(part, i - from),
            decreases to - i,
        {
            put_le(out, self.pairs[i], 8);
            i = i + 1;
            assert(all =~= out@ + pairs_from(part, i - from));
        }
        assert(all =~= out@);
    }

    /// Appends what a manifest keeps of every page.
    fn put_metas<H: Fn(&Vec<u8>, usize) -> Sha256Digest, C: FnMut() -> bool>(
        &self,
        out: &mut Vec<u8>,
        pages: usize,
        hash: &H,
        canceled: &mut C,
    ) -> (r: Result<Vec<Sha256Digest>, PagedPostingError>)
        requires
            self@.wf(),
            pages == page_count(self.pairs@.len() as int),
            forall|bytes: &Vec<u8>, n: usize|
                n <= bytes@.len() ==> call_requires(*hash, (bytes, n)),
            call_requires(*old(canceled), ()),
        ensures
            *final(canceled) == *old(canceled),
            match r {
                Ok(digests) => page_digests(self.pairs@, digests@, *hash) && final(out)@
                    == old(out)@ + metas_from(self.pairs@, digests@, 0),
                Err(_) => page_stopped(r, *old(canceled)),
            },
    {
        let ghost before = out@;
        let mut digests: Vec<Sha256Digest> = Vec::new();
        assert(out@ =~= before + metas_until(self.pairs@, digests@, 0));
        while digests.len() < pages
            invariant
                self@.wf(),
                digests@.len() <= pages,
                pages == page_count(self.pairs@.len() as int),
                forall|bytes: &Vec<u8>, n: usize|
                    n <= bytes@.len() ==> call_requires(*hash, (bytes, n)),
                *canceled == *old(canceled),
                call_requires(*canceled, ()),
                out@ == before + metas_until(self.pairs@, digests@, digests@.len() as int),
                forall|p: int|
                    0 <= p < digests@.len() ==> hashed(
                        *hash,
                        pairs_from(page_pairs(self.pairs@, p), 0),
                        #[trigger] digests@[p],
                    ),
            decreases pages - digests.len(),
        {
            if canceled() {
                return Err(PagedPostingError::Index(SnapshotIndexError::Canceled));
            }
            let p: usize = digests.len();
            proof {
                lemma_pages(self.pairs@.len() as int, p as int);
            }
            let from: usize = p * POSTING_PAGE_PAIRS;
            let left: usize = self.pairs.len() - from;
            let count: usize = if left < POSTING_PAGE_PAIRS {
                left
            } else {
                POSTING_PAGE_PAIRS
            };
            let mut scratch: Vec<u8> = Vec::new();
            self.put_stretch(&mut scratch, from, from + count);
            let ghost page = page_pairs(self.pairs@, p as int);
            assert(page == self.pairs@.subrange(from as int, from + count));
            assert(scratch@ =~= pairs_from(page, 0));
            let n: usize = scratch.len();
            let digest = hash(&scratch, n);
            assert(scratch@.subrange(0, n as int) =~= scratch@);
            assert(call_ensures(*hash, (&scratch, n), digest));
            assert(hashed(*hash, pairs_from(page, 0), digest));
            let ghost earlier = out@;
            put_le(out, self.pairs[from], 8);
            put_le(out, self.pairs[from + count - 1], 8);
            put_le(out, count as u64, 8);
            put_raw(out, digest.bytes.as_slice());
            proof {
                assert(out@ =~= earlier + meta_bytes(page, digest));
                lemma_metas_extend(self.pairs@, digests@, digest, p as int);
            }
            let ghost known = digests@;
            digests.push(digest);
            assert(digests@[p as int] == digest);
            assert(out@ =~= before + metas_until(self.pairs@, digests@, digests@.len() as int));
        }
        proof {
            lemma_metas_join(self.pairs@, digests@, pages as int);
            assert(metas_until(self.pairs@, digests@, pages as int) =~= metas_from(
                self.pairs@,
                digests@,
                0,
            ));
        }
        Ok(digests)
    }

    /// Stores exactly these pairs as verified pages.
    pub fn encode_paged<
        A: FnOnce(u64) -> bool,
        H: Fn(&Vec<u8>, usize) -> Sha256Digest,
        C: FnMut() -> bool,
    >(&self, reserve: A, hash: H, mut canceled: C) -> (r: Result<
        PagedIndexArtifact,
        PagedPostingError,
    >)
        requires
            self@.wf(),
            forall|charge: u64| call_requires(reserve, (charge,)),
            forall|bytes: &Vec<u8>, n: usize|
                n <= bytes@.len() ==> call_requires(hash, (bytes, n)),
            call_requires(canceled, ()),
        ensures
            page_stopped(r, canceled) || is_paged(r, self@, reserve, hash),
    {
        let pages: usize = (self.pairs.len() + POSTING_PAGE_PAIRS - 1) / POSTING_PAGE_PAIRS;
        let length: usize = match manifest_length(self.rows.len(), pages) {
            Ok(length) => length,
            Err(e) => {
                return Err(PagedPostingError::Index(e));
            },
        };
        let total: usize = match file_length(length, self.pairs.len()) {
            Ok(total) => total,
            Err(e) => {
                return Err(PagedPostingError::Index(e));
            },
        };
        let charge: u128 = total as u128 + length as u128 * 4 + POSTING_PAGE_BYTES as u128
            + wide_size::<PagedIndexArtifact>();
        if charge > usize::MAX as u128 {
            return Err(PagedPostingError::Index(SnapshotIndexError::Limits));
        }
        if canceled() {
            return Err(PagedPostingError::Index(SnapshotIndexError::Canceled));
        }
        if !reserve(charge as u64) {
            return Err(PagedPostingError::Index(SnapshotIndexError::ResourceDenied));
        }
        let mut payload: Vec<u8> = Vec::new();
        put_raw(&mut payload, self.archive.bytes.as_slice());
        put_le(&mut payload, SEMANTICS as u64, 4);
        put_le(&mut payload, POSTING_PAGE_PAIRS as u64, 4);
        put_le(&mut payload, self.rows.len() as u64, 8);
        put_le(&mut payload, self.pairs.len() as u64, 8);
        put_le(&mut payload, pages as u64, 8);
        let ghost prefix = manifest_prefix(
            self@.archive,
            self@.rows.len(),
            self@.pairs.len(),
            pages as nat,
        );
        assert(payload@ =~= prefix);
        match put_heads(&mut payload, &self.rows, &mut canceled) {
            Ok(()) => {},
            Err(e) => {
                return Err(PagedPostingError::Index(e));
            },
        }
        let digests = match self.put_metas(&mut payload, pages, &hash, &mut canceled) {
            Ok(digests) => digests,
            Err(e) => {
                return Err(e);
            },
        };
        assert(payload@ =~= manifest_payload(self@, digests@));
        let manifest = seal_document(manifest_schema(), &payload, &hash);
        proof {
            assert forall|j: int| 0 <= j < self@.rows.len() implies (
            #[trigger] self@.rows[j]).digest.len() == 32 by {
                assert(self@.rows[j] == self.rows@[j]@);
            }
            lemma_heads_len(self@, 0);
            lemma_metas_len(self@.pairs, digests@, 0);
        }
        assert(manifest.document().len() == length);
        let mut bytes: Vec<u8> = Vec::new();
        put_le(&mut bytes, 0x4442_4346, 4);
        put_le(&mut bytes, 1, 4);
        put_le(&mut bytes, length as u64, 8);
        put_le(&mut bytes, total as u64, 8);
        put_le(&mut bytes, 0, 8);
        put_raw(&mut bytes, manifest.bytes().as_slice());
        if canceled() {
            return Err(PagedPostingError::Index(SnapshotIndexError::Canceled));
        }
        let ghost head = bytes@;
        let n: usize = self.pairs.len();
        self.put_stretch(&mut bytes, 0, n);
        proof {
            assert(self.pairs@.subrange(0, n as int) =~= self@.pairs);
            assert(head =~= file_header(length as nat, total as nat) + manifest.document());
        }
        if canceled() {
            return Err(PagedPostingError::Index(SnapshotIndexError::Canceled));
        }
        let artifact = PagedIndexArtifact { bytes, pin: manifest.digest(), manifest_bytes: length };
        assert(is_paged_file(artifact, self@, digests@, hash));
        assert(call_ensures(reserve, (charge as u64,), true));
        Ok(artifact)
    }
}

} // verus!
