//! Storing an index as a document, and opening one under a pin.
use vstd::layout::size_of;
use vstd::prelude::*;

use crate::envelope::{
    check_frame, covered, digest_at, field_at, frame_error, header, le_bytes, number_at, put_header,
    put_le, put_raw, read_digest, read_field, read_le, EnvelopeSchema, Sha256Digest, DIGEST_LEN,
    FRAME_LEN, HEADER_LEN,
};
use crate::memory::wide_size;
use crate::model::{group_views, views};
use crate::search::archive::{
    DirectoryModel, MemberModel, PagedMember, PagedMemberData, SnapshotDirectory,
};
use crate::search::snapshot_index::{
    increasing, index_schema, index_schema_spec, segments_ok, segments_push, segments_row,
    Coverage, Row, RowModel, SavedIndexStats, SegmentsModel, SnapshotIndex, SnapshotIndexError,
    MAX_GRAM, MAX_INDEX_BYTES, MAX_INDEX_GRAMS, MAX_INDEX_MEMBERS, PREFIX_BYTES, ROW_BYTES,
    SEMANTICS,
};

verus! {

broadcast use group_views;

/// A stored index and the digest of the whole document.
#[derive(Debug)]
pub struct IndexArtifact {
    bytes: Vec<u8>,
    digest: Sha256Digest,
}

impl IndexArtifact {
    pub closed spec fn document(self) -> Seq<u8> {
        self.bytes@
    }

    pub closed spec fn pin(self) -> Seq<u8> {
        self.digest.data()
    }

    pub(crate) fn seal(bytes: Vec<u8>, digest: Sha256Digest) -> (r: Self)
        ensures
            r.document() == bytes@,
            r.pin() == digest.data(),
    {
        IndexArtifact { bytes, digest }
    }

    pub fn bytes(&self) -> (r: &Vec<u8>)
        ensures
            r@ == self.document(),
    {
        &self.bytes
    }

    pub fn digest(&self) -> (r: Sha256Digest)
        ensures
            r.data() == self.pin(),
    {
        self.digest
    }
}

/// Whether work gave up because it was told to.
pub open spec fn stopped<T, C: FnMut() -> bool>(
    r: Result<T, SnapshotIndexError>,
    canceled: C,
) -> bool {
    r matches Err(SnapshotIndexError::Canceled) && call_ensures(canceled, (), true)
}

/// Whether `digest` is what a hash function says of the first `n` bytes.
pub open spec fn hashed<H: Fn(&Vec<u8>, usize) -> Sha256Digest>(
    hash: H,
    document: Seq<u8>,
    digest: Sha256Digest,
) -> bool {
    exists|bytes: &Vec<u8>, n: usize|
        n <= bytes@.len() && bytes@.subrange(0, n as int) == document && #[trigger] call_ensures(
            hash,
            (bytes, n),
            digest,
        )
}

/// Bytes of an index document.
pub open spec fn wire_len(rows: int, grams: int) -> int {
    rows * ROW_BYTES + FRAME_LEN + PREFIX_BYTES + grams * 4
}

/// Bytes of an index document, if it may be that long.
pub fn wire_length(rows: usize, grams: usize) -> (r: Result<usize, SnapshotIndexError>)
    ensures
        r == (if wire_len(rows as int, grams as int) > MAX_INDEX_BYTES {
            Err::<usize, SnapshotIndexError>(SnapshotIndexError::Limits)
        } else {
            Ok(wire_len(rows as int, grams as int) as usize)
        }),
{
    let length: u128 = rows as u128 * ROW_BYTES as u128 + FRAME_LEN as u128 + PREFIX_BYTES as u128
        + grams as u128 * 4;
    if length > MAX_INDEX_BYTES as u128 {
        Err(SnapshotIndexError::Limits)
    } else {
        Ok(length as usize)
    }
}

/// What every stored form keeps of a row.
pub open spec fn row_head(row: RowModel) -> Seq<u8> {
    seq![row.coverage.number()] + le_bytes(row.length as nat, 8) + row.digest + le_bytes(
        row.count as nat,
        8,
    )
}

/// Trigrams as a document holds them.
pub open spec fn gram_bytes(grams: Seq<u32>, from: int, to: int) -> Seq<u8>
    decreases to - from,
{
    if from >= to {
        Seq::empty()
    } else {
        le_bytes(grams[from] as nat, 4) + gram_bytes(grams, from + 1, to)
    }
}

/// The rows of an index from the `k`th on, each with its trigrams.
pub open spec fn rows_bytes(index: SegmentsModel, k: int) -> Seq<u8>
    decreases index.rows.len() - k,
{
    if k < 0 || k >= index.rows.len() {
        Seq::empty()
    } else {
        row_head(index.rows[k]) + gram_bytes(
            index.grams,
            index.rows[k].start as int,
            index.end_of(k),
        ) + rows_bytes(index, k + 1)
    }
}

/// What precedes the rows of a document.
pub open spec fn prefix_bytes(archive: Seq<u8>, rows: nat, total: nat) -> Seq<u8> {
    archive + le_bytes(SEMANTICS as nat, 4) + le_bytes(rows, 8) + le_bytes(total, 8)
}

/// The payload of an index document.
pub open spec fn index_payload(index: SegmentsModel) -> Seq<u8> {
    prefix_bytes(index.archive, index.rows.len(), index.grams.len()) + rows_bytes(index, 0)
}

/// A document made of a header, a payload and the digest of both.
pub open spec fn sealed(schema: EnvelopeSchema, payload: Seq<u8>, digest: Sha256Digest) -> Seq<u8> {
    header(schema, payload.len()) + payload + digest.data()
}

/// Bytes charged for storing a document of this length.
pub open spec fn artifact_charge(length: int) -> int {
    length * 4 + size_of::<IndexArtifact>()
}

/// Whether storing a payload may answer so: memory is reserved for the size,
/// the embedded digest covers header and payload, and the pin the whole
/// document.
pub open spec fn is_artifact<
    A: FnOnce(u64) -> bool,
    H: Fn(&Vec<u8>, usize) -> Sha256Digest,
>(
    r: Result<IndexArtifact, SnapshotIndexError>,
    schema: EnvelopeSchema,
    payload: Seq<u8>,
    length: int,
    limit: int,
    reserve: A,
    hash: H,
) -> bool {
    if length > limit || artifact_charge(length) > usize::MAX {
        r matches Err(e) && e == SnapshotIndexError::Limits
    } else {
        ||| call_ensures(reserve, (artifact_charge(length) as u64,), false) && (r matches Err(e)
            && e == SnapshotIndexError::ResourceDenied)
        ||| call_ensures(reserve, (artifact_charge(length) as u64,), true) && if payload.len()
            + FRAME_LEN != length {
            r matches Err(e) && e == SnapshotIndexError::ResourceDenied
        } else {
            r matches Ok(artifact) && is_sealed(artifact, schema, payload, hash)
        }
    }
}

/// Whether an artifact is a payload between its header and digests.
pub open spec fn is_sealed<H: Fn(&Vec<u8>, usize) -> Sha256Digest>(
    artifact: IndexArtifact,
    schema: EnvelopeSchema,
    payload: Seq<u8>,
    hash: H,
) -> bool {
    exists|inner: Sha256Digest, outer: Sha256Digest|
        #[trigger] hashed(hash, header(schema, payload.len()) + payload, inner)
            && artifact.document() == sealed(schema, payload, inner) && #[trigger] hashed(
            hash,
            artifact.document(),
            outer,
        ) && artifact.pin() == outer.data()
}

/// Appends what every stored form keeps of a row.
pub fn put_row_head(out: &mut Vec<u8>, row: &Row)
    ensures
        final(out)@ == old(out)@ + row_head(row@),
{
    let ghost before = out@;
    out.push(row.coverage.tag());
    put_le(out, row.length, 8);
    put_raw(out, row.digest.bytes.as_slice());
    put_le(out, row.count as u64, 8);
    assert(out@ =~= before + row_head(row@));
}

/// Appends what precedes the rows.
pub fn put_prefix(out: &mut Vec<u8>, archive: &Sha256Digest, rows: usize, total: usize)
    ensures
        final(out)@ == old(out)@ + prefix_bytes(archive.data(), rows as nat, total as nat),
{
    let ghost before = out@;
    put_raw(out, archive.bytes.as_slice());
    put_le(out, SEMANTICS as u64, 4);
    put_le(out, rows as u64, 8);
    put_le(out, total as u64, 8);
    assert(out@ =~= before + prefix_bytes(archive.data(), rows as nat, total as nat));
}

/// Puts a header before a payload and digests around it.
pub fn seal_document<H: Fn(&Vec<u8>, usize) -> Sha256Digest>(
    schema: EnvelopeSchema,
    payload: &Vec<u8>,
    hash: &H,
) -> (r: IndexArtifact)
    requires
        forall|document: &Vec<u8>, n: usize|
            n <= document@.len() ==> call_requires(*hash, (document, n)),
    ensures
        is_sealed(r, schema, payload@, *hash),
{
    let mut bytes: Vec<u8> = Vec::new();
    put_header(&mut bytes, schema, payload.len() as u64);
    put_raw(&mut bytes, payload.as_slice());
    let n: usize = bytes.len();
    let inner = hash(&bytes, n);
    let ghost head = bytes;
    assert(head@.subrange(0, n as int) =~= header(schema, payload@.len()) + payload@);
    assert(call_ensures(*hash, (&head, n), inner));
    assert(hashed(*hash, header(schema, payload@.len()) + payload@, inner));
    put_raw(&mut bytes, inner.bytes.as_slice());
    let m: usize = bytes.len();
    let outer = hash(&bytes, m);
    assert(bytes@ =~= sealed(schema, payload@, inner));
    assert(bytes@.subrange(0, m as int) =~= bytes@);
    assert(call_ensures(*hash, (&bytes, m), outer));
    assert(hashed(*hash, bytes@, outer));
    IndexArtifact::seal(bytes, outer)
}

impl SnapshotIndex {
    fn put_rows<C: FnMut() -> bool>(&self, out: &mut Vec<u8>, canceled: &mut C) -> (r: Result<
        (),
        SnapshotIndexError,
    >)
        requires
            self@.wf(),
            call_requires(*old(canceled), ()),
        ensures
            *final(canceled) == *old(canceled),
            match r {
                Ok(()) => final(out)@ == old(out)@ + rows_bytes(self@, 0),
                Err(_) => stopped(r, *old(canceled)),
            },
    {
        let ghost all = out@ + rows_bytes(self@, 0);
        let mut k: usize = 0;
        while k < self.rows.len()
            invariant
                self@.wf(),
                k <= self.rows@.len(),
                *canceled == *old(canceled),
                call_requires(*canceled, ()),
                all == out@ + rows_bytes(self@, k as int),
            decreases self.rows.len() - k,
        {
            if canceled() {
                return Err(SnapshotIndexError::Canceled);
            }
            let ghost before = out@;
            let row = &self.rows[k];
            assert(self@.rows[k as int] == row@);
            proof {
                segments_row(self@.rows, self@.grams, k as int);
            }
            put_row_head(out, row);
            let end: usize = row.start + row.count;
            let mut i: usize = row.start;
            let ghost grams = gram_bytes(self@.grams, row.start as int, end as int);
            assert(out@ + grams =~= before + row_head(row@) + grams);
            while i < end
                invariant
                    row.start <= i <= end <= self.grams@.len(),
                    end == row.start + row.count,
                    *canceled == *old(canceled),
                    call_requires(*canceled, ()),
                    out@ + gram_bytes(self@.grams, i as int, end as int) == before + row_head(row@)
                        + grams,
                decreases end - i,
            {
                if (i - row.start) % 4096 == 0 && canceled() {
                    return Err(SnapshotIndexError::Canceled);
                }
                put_le(out, self.grams[i] as u64, 4);
                i = i + 1;
                assert(out@ + gram_bytes(self@.grams, i as int, end as int) =~= before + row_head(
                    row@,
                ) + grams);
            }
            assert(out@ =~= before + row_head(row@) + grams);
            k = k + 1;
            assert(all =~= out@ + rows_bytes(self@, k as int));
        }
        assert(all =~= out@);
        Ok(())
    }

    /// Stores the index. The digest of the whole document is what the host must
    /// retain before it may rely on the index again.
    pub fn encode<
        A: FnOnce(u64) -> bool,
        H: Fn(&Vec<u8>, usize) -> Sha256Digest,
        C: FnMut() -> bool,
    >(&self, reserve: A, hash: H, mut canceled: C) -> (r: Result<IndexArtifact, SnapshotIndexError>)
        requires
            self@.wf(),
            forall|charge: u64| call_requires(reserve, (charge,)),
            forall|document: &Vec<u8>, n: usize|
                n <= document@.len() ==> call_requires(hash, (document, n)),
            call_requires(canceled, ()),
        ensures
            stopped(r, canceled) || is_artifact(
                r,
                index_schema_spec(),
                index_payload(self@),
                wire_len(self@.rows.len() as int, self@.grams.len() as int),
                MAX_INDEX_BYTES as int,
                reserve,
                hash,
            ),
    {
        let length: usize = match wire_length(self.rows.len(), self.grams.len()) {
            Ok(length) => length,
            Err(e) => {
                return Err(e);
            },
        };
        let charge: u128 = length as u128 * 4 + wide_size::<IndexArtifact>();
        if charge > usize::MAX as u128 {
            return Err(SnapshotIndexError::Limits);
        }
        if !reserve(charge as u64) {
            return Err(SnapshotIndexError::ResourceDenied);
        }
        if canceled() {
            return Err(SnapshotIndexError::Canceled);
        }
        let mut payload: Vec<u8> = Vec::new();
        put_prefix(&mut payload, &self.archive, self.rows.len(), self.grams.len());
        match self.put_rows(&mut payload, &mut canceled) {
            Ok(()) => {},
            Err(e) => {
                return Err(e);
            },
        }
        assert(payload@ =~= index_payload(self@));
        if payload.len() > length || length - payload.len() != FRAME_LEN {
            return Err(SnapshotIndexError::ResourceDenied);
        }
        let artifact = seal_document(index_schema(), &payload, &hash);
        assert(call_ensures(reserve, (charge as u64,), true));
        assert(artifact_charge(wire_len(self@.rows.len() as int, self@.grams.len() as int))
            == charge);
        if canceled() {
            return Err(SnapshotIndexError::Canceled);
        }
        Ok(artifact)
    }
}

/// A document that was accepted before and still is what it says.
pub open spec fn opening_error(
    document: Seq<u8>,
    schema: EnvelopeSchema,
    prefix: int,
    limit: usize,
    pin: Seq<u8>,
    outer: Sha256Digest,
    inner: Sha256Digest,
) -> Option<SnapshotIndexError> {
    if document.len() < FRAME_LEN + prefix || document.len() > limit {
        Some(SnapshotIndexError::Limits)
    } else if outer.data() != pin {
        Some(SnapshotIndexError::PinMismatch)
    } else if number_at(document, 10, 12) != 0 || number_at(document, 12, 16) != 0 {
        Some(SnapshotIndexError::Version)
    } else if number_at(document, 16, 24) != document.len() - FRAME_LEN {
        Some(SnapshotIndexError::Format)
    } else if frame_error(document, schema, limit, inner) is Some {
        Some(SnapshotIndexError::Format)
    } else {
        None
    }
}

/// Opens a document of a schema under a pin.
pub fn open_document<H: Fn(&Vec<u8>, usize) -> Sha256Digest, C: FnMut() -> bool>(
    document: &Vec<u8>,
    schema: EnvelopeSchema,
    prefix: usize,
    limit: usize,
    pin: &Sha256Digest,
    hash: &H,
    canceled: &mut C,
) -> (r: Result<(), SnapshotIndexError>)
    requires
        prefix <= 64,
        forall|bytes: &Vec<u8>, n: usize|
            n <= bytes@.len() ==> call_requires(*hash, (bytes, n)),
        call_requires(*old(canceled), ()),
    ensures
        *final(canceled) == *old(canceled),
        r is Ok ==> FRAME_LEN + prefix <= document@.len() <= limit,
        stopped(r, *old(canceled)) || exists|outer: Sha256Digest, inner: Sha256Digest|
            #[trigger] opening_digests(document@, prefix as int, limit, *hash, outer, inner) && r
                == (match opening_error(
                document@,
                schema,
                prefix as int,
                limit,
                pin.data(),
                outer,
                inner,
            ) {
                Some(e) => Err::<(), SnapshotIndexError>(e),
                None => Ok(()),
            }),
{
    let ghost some = Sha256Digest { bytes: pin.bytes };
    if document.len() < FRAME_LEN + prefix || document.len() > limit {
        assert(opening_digests(document@, prefix as int, limit, *hash, some, some));
        return Err(SnapshotIndexError::Limits);
    }
    if canceled() {
        return Err(SnapshotIndexError::Canceled);
    }
    let n: usize = document.len();
    let outer = hash(document, n);
    let inner = hash(document, n - DIGEST_LEN);
    proof {
        assert(document@.subrange(0, n as int) =~= document@);
        assert(call_ensures(*hash, (document, n), outer));
        assert(hashed(*hash, document@, outer));
        assert(call_ensures(*hash, (document, (n - DIGEST_LEN) as usize), inner));
        assert(hashed(*hash, covered(document@), inner));
        assert(opening_digests(document@, prefix as int, limit, *hash, outer, inner));
    }
    if !outer.same(pin) {
        return Err(SnapshotIndexError::PinMismatch);
    }
    if read_le(document, 10, 2) != 0 || read_le(document, 12, 4) != 0 {
        return Err(SnapshotIndexError::Version);
    }
    if read_le(document, 16, 8) != (n - FRAME_LEN) as u64 {
        return Err(SnapshotIndexError::Format);
    }
    match check_frame(document, schema, limit, &inner) {
        Ok(()) => Ok(()),
        Err(_) => Err(SnapshotIndexError::Format),
    }
}

/// Whether these are the digests of a document and of what its own digest
/// covers.
pub open spec fn opening_digests<H: Fn(&Vec<u8>, usize) -> Sha256Digest>(
    document: Seq<u8>,
    prefix: int,
    limit: usize,
    hash: H,
    outer: Sha256Digest,
    inner: Sha256Digest,
) -> bool {
    FRAME_LEN + prefix <= document.len() <= limit ==> hashed(hash, document, outer) && hashed(
        hash,
        covered(document),
        inner,
    )
}

/// The number at a position, or a format error.
pub open spec fn need(d: Seq<u8>, i: int, width: int) -> Result<nat, SnapshotIndexError> {
    match field_at(d, i, width) {
        Some(n) => Ok(n),
        None => Err(SnapshotIndexError::Format),
    }
}

pub fn need_field(document: &Vec<u8>, end: usize, at: usize, width: usize) -> (r: Result<
    u64,
    SnapshotIndexError,
>)
    requires
        width <= 8,
        end <= document@.len(),
    ensures
        match need(document@.subrange(0, end as int), at as int, width as int) {
            Ok(n) => r == Ok::<u64, SnapshotIndexError>(n as u64) && n <= u64::MAX && at + width
                <= end,
            Err(e) => r == Err::<u64, SnapshotIndexError>(e),
        },
{
    match read_field(document, end, at, width) {
        Some(n) => Ok(n),
        None => Err(SnapshotIndexError::Format),
    }
}

/// The archive, the number of rows and the number of trigrams that a document
/// announces.
pub open spec fn announced(d: Seq<u8>, archive: Seq<u8>) -> Result<(nat, nat), SnapshotIndexError> {
    match digest_at(d, 24) {
        None => Err(SnapshotIndexError::Format),
        Some(found) => if found != archive {
            Err(SnapshotIndexError::SourceMismatch)
        } else {
            match need(d, 56, 4) {
                Err(e) => Err(e),
                Ok(semantics) => if semantics != SEMANTICS {
                    Err(SnapshotIndexError::Version)
                } else {
                    match need(d, 60, 8) {
                        Err(e) => Err(e),
                        Ok(rows) => match need(d, 68, 8) {
                            Err(e) => Err(e),
                            Ok(total) => Ok((rows, total)),
                        },
                    }
                },
            }
        },
    }
}

pub fn read_announced(document: &Vec<u8>, end: usize, archive: &Sha256Digest) -> (r: Result<
    (u64, u64),
    SnapshotIndexError,
>)
    requires
        end <= document@.len(),
    ensures
        match announced(document@.subrange(0, end as int), archive.data()) {
            Ok((rows, total)) => r == Ok::<(u64, u64), SnapshotIndexError>(
                (rows as u64, total as u64),
            ) && rows <= u64::MAX && total <= u64::MAX,
            Err(e) => r == Err::<(u64, u64), SnapshotIndexError>(e),
        },
{
    let found = match read_digest(document, end, 24) {
        Some(found) => found,
        None => {
            return Err(SnapshotIndexError::Format);
        },
    };
    if !found.same(archive) {
        return Err(SnapshotIndexError::SourceMismatch);
    }
    let semantics: u64 = match need_field(document, end, 56, 4) {
        Ok(n) => n,
        Err(e) => {
            return Err(e);
        },
    };
    if semantics != SEMANTICS as u64 {
        return Err(SnapshotIndexError::Version);
    }
    let rows: u64 = match need_field(document, end, 60, 8) {
        Ok(n) => n,
        Err(e) => {
            return Err(e);
        },
    };
    match need_field(document, end, 68, 8) {
        Ok(total) => Ok((rows, total)),
        Err(e) => Err(e),
    }
}

/// Whether a member is what a row says of it.
pub open spec fn member_fits(member: MemberModel, row: RowModel) -> bool {
    row.length == member.observed_bytes && match member.data {
        PagedMemberData::Captured { byte_length, digest } => !(row.coverage is Unavailable)
            && row.digest == digest,
        PagedMemberData::Unavailable => row.coverage is Unavailable && row.digest == zeros(),
    }
}

/// The digest of nothing that was read.
pub open spec fn zeros() -> Seq<u8> {
    Seq::new(32, |i: int| 0u8)
}

pub fn zero_digest() -> (r: Sha256Digest)
    ensures
        r.data() == zeros(),
{
    let r = Sha256Digest { bytes: [0u8; 32] };
    assert(r.data() =~= zeros());
    r
}

pub fn fits_member(member: &PagedMember, row: &Row) -> (r: bool)
    ensures
        r == member_fits(member@, row@),
{
    if row.length != member.observed_bytes {
        return false;
    }
    let unavailable = match row.coverage {
        Coverage::Unavailable => true,
        _ => false,
    };
    match &member.data {
        PagedMemberData::Captured { byte_length: _, digest } => !unavailable && row.digest.same(
            digest,
        ),
        PagedMemberData::Unavailable => unavailable && row.digest.same(&zero_digest()),
    }
}

/// Whether a row may list so many trigrams behind `used` of `total`.
pub open spec fn count_fits(row: RowModel, used: int, total: int) -> bool {
    &&& row.count <= total - used
    &&& !row.coverage.has_segment() ==> row.count == 0
    &&& row.count <= (if row.length < 2 {
        0
    } else {
        row.length - 2
    })
}

/// The head of a row at a position; its trigrams come behind `used` others.
pub open spec fn row_at(d: Seq<u8>, i: int, used: int, total: int, member: MemberModel) -> Result<
    RowModel,
    SnapshotIndexError,
> {
    match need(d, i, 1) {
        Err(e) => Err(e),
        Ok(tag) => match Coverage::of(tag) {
            Err(e) => Err(e),
            Ok(coverage) => match need(d, i + 1, 8) {
                Err(e) => Err(e),
                Ok(length) => match digest_at(d, i + 9) {
                    None => Err(SnapshotIndexError::Format),
                    Some(digest) => match need(d, i + 41, 8) {
                        Err(e) => Err(e),
                        Ok(count) => if count > usize::MAX {
                            Err(SnapshotIndexError::Limits)
                        } else {
                            let row = Row {
                                coverage,
                                length: length as u64,
                                digest,
                                start: used as usize,
                                count: count as usize,
                            };
                            if !count_fits(row, used, total) {
                                Err(SnapshotIndexError::Format)
                            } else if !member_fits(member, row) {
                                Err(SnapshotIndexError::SourceMismatch)
                            } else {
                                Ok(row)
                            }
                        },
                    },
                },
            },
        },
    }
}

pub fn read_row(
    document: &Vec<u8>,
    end: usize,
    at: usize,
    used: usize,
    total: usize,
    member: &PagedMember,
) -> (r: Result<Row, SnapshotIndexError>)
    requires
        end <= document@.len(),
        at <= end,
        used <= total,
    ensures
        match row_at(
            document@.subrange(0, end as int),
            at as int,
            used as int,
            total as int,
            member@,
        ) {
            Ok(row) => r matches Ok(out) && out@ == row && at + ROW_BYTES <= end,
            Err(e) => r matches Err(f) && f == e,
        },
{
    assert(document@.len() == document.len());
    let coverage = match need_field(document, end, at, 1) {
        Ok(tag) => match Coverage::parse(tag) {
            Ok(coverage) => coverage,
            Err(e) => {
                return Err(e);
            },
        },
        Err(e) => {
            return Err(e);
        },
    };
    let length: u64 = match need_field(document, end, at + 1, 8) {
        Ok(n) => n,
        Err(e) => {
            return Err(e);
        },
    };
    let digest = match read_digest(document, end, at + 9) {
        Some(digest) => digest,
        None => {
            return Err(SnapshotIndexError::Format);
        },
    };
    let count: u64 = match need_field(document, end, at + 41, 8) {
        Ok(n) => n,
        Err(e) => {
            return Err(e);
        },
    };
    if count > usize::MAX as u64 {
        return Err(SnapshotIndexError::Limits);
    }
    let row = Row { coverage, length, digest, start: used, count: count as usize };
    let most: u64 = if length < 2 {
        0
    } else {
        length - 2
    };
    if row.count > total - used || (!coverage.indexed() && row.count != 0) || count > most {
        return Err(SnapshotIndexError::Format);
    }
    if !fits_member(member, &row) {
        return Err(SnapshotIndexError::SourceMismatch);
    }
    Ok(row)
}

/// So many trigrams from a position on, behind those already read of one row.
pub open spec fn grams_at(d: Seq<u8>, i: int, n: int, done: Seq<u32>, first: int) -> Result<
    Seq<u32>,
    SnapshotIndexError,
>
    decreases n,
{
    if n <= 0 {
        Ok(done)
    } else {
        match need(d, i, 4) {
            Err(e) => Err(e),
            Ok(gram) => if gram > MAX_GRAM || done.len() > first && done.last() >= gram {
                Err(SnapshotIndexError::Format)
            } else {
                grams_at(d, i + 4, n - 1, done.push(gram as u32), first)
            },
        }
    }
}

/// The rows from the `k`th on with their trigrams, from a position on.
pub open spec fn segments_at(
    d: Seq<u8>,
    i: int,
    members: Seq<MemberModel>,
    k: int,
    total: int,
    rows: Seq<RowModel>,
    grams: Seq<u32>,
) -> Result<(Seq<RowModel>, Seq<u32>, int), SnapshotIndexError>
    decreases members.len() - k,
{
    if k < 0 || k >= members.len() {
        Ok((rows, grams, i))
    } else {
        match row_at(d, i, grams.len() as int, total, members[k]) {
            Err(e) => Err(e),
            Ok(row) => match grams_at(
                d,
                i + ROW_BYTES,
                row.count as int,
                grams,
                grams.len() as int,
            ) {
                Err(e) => Err(e),
                Ok(more) => segments_at(
                    d,
                    i + ROW_BYTES + row.count * 4,
                    members,
                    k + 1,
                    total,
                    rows.push(row),
                    more,
                ),
            },
        }
    }
}

/// How many rows are of a kind, up to the `k`th.
pub open spec fn tally(rows: Seq<RowModel>, k: int) -> (int, int, int)
    decreases k,
{
    if k <= 0 {
        (0, 0, 0)
    } else {
        let (indexed, uncovered, unavailable) = tally(rows, k - 1);
        if rows[k - 1].coverage is Unavailable {
            (indexed, uncovered, unavailable + 1)
        } else if rows[k - 1].coverage is Uncovered {
            (indexed, uncovered + 1, unavailable)
        } else {
            (indexed + 1, uncovered, unavailable)
        }
    }
}

/// The statistics of stored rows.
pub open spec fn stats_of(rows: Seq<RowModel>, total: int) -> SavedIndexStats {
    let (indexed, uncovered, unavailable) = tally(rows, rows.len() as int);
    SavedIndexStats {
        members: rows.len() as usize,
        indexed_files: indexed as usize,
        uncovered_files: uncovered as usize,
        unavailable_files: unavailable as usize,
        unique_grams: total as usize,
        build_source_bytes: 0,
    }
}

pub proof fn lemma_tally(rows: Seq<RowModel>, k: int)
    requires
        0 <= k,
    ensures
        tally(rows, k).0 >= 0,
        tally(rows, k).1 >= 0,
        tally(rows, k).2 >= 0,
        tally(rows, k).0 + tally(rows, k).1 + tally(rows, k).2 == k,
    decreases k,
{
    if k > 0 {
        lemma_tally(rows, k - 1);
    }
}

/// The statistics of stored rows.
pub fn count_rows(rows: &Vec<Row>, total: usize) -> (r: SavedIndexStats)
    ensures
        r == stats_of(views(rows@), total as int),
{
    let mut indexed: usize = 0;
    let mut uncovered: usize = 0;
    let mut unavailable: usize = 0;
    let mut k: usize = 0;
    let ghost model = views(rows@);
    while k < rows.len()
        invariant
            k <= rows.len(),
            model == views(rows@),
            tally(model, k as int) == (indexed as int, uncovered as int, unavailable as int),
            indexed + uncovered + unavailable == k,
        decreases rows.len() - k,
    {
        assert(model[k as int] == rows@[k as int]@);
        match rows[k].coverage {
            Coverage::Unavailable => {
                unavailable = unavailable + 1;
            },
            Coverage::Uncovered => {
                uncovered = uncovered + 1;
            },
            _ => {
                indexed = indexed + 1;
            },
        }
        k = k + 1;
    }
    SavedIndexStats {
        members: rows.len(),
        indexed_files: indexed,
        uncovered_files: uncovered,
        unavailable_files: unavailable,
        unique_grams: total,
        build_source_bytes: 0,
    }
}

/// Bytes charged for an index.
pub open spec fn segments_charge(rows: int, grams: int) -> int {
    rows * size_of::<Row>() + grams * 4 + size_of::<SnapshotIndex>()
}

pub fn segments_cost(rows: usize, grams: usize) -> (r: u128)
    requires
        rows <= MAX_INDEX_MEMBERS,
        grams <= MAX_INDEX_GRAMS,
    ensures
        r == segments_charge(rows as int, grams as int),
{
    let row: u128 = wide_size::<Row>();
    assert(rows * row <= 65_536 * 0xffff_ffff_ffff_ffff) by (nonlinear_arith)
        requires
            0 <= rows <= 65_536,
            0 <= row <= 0xffff_ffff_ffff_ffff,
    ;
    rows as u128 * row + grams as u128 * 4 + wide_size::<SnapshotIndex>()
}

/// What a stored index holds, given whether memory is granted.
pub open spec fn decoded_index(
    d: Seq<u8>,
    length: int,
    directory: DirectoryModel,
    granted: bool,
) -> Result<SegmentsModel, SnapshotIndexError> {
    match announced(d, directory.digest) {
        Err(e) => Err(e),
        Ok((rows, total)) => if rows != directory.members.len() || rows > MAX_INDEX_MEMBERS || total
            > MAX_INDEX_GRAMS || wire_len(rows as int, total as int) > MAX_INDEX_BYTES || wire_len(
            rows as int,
            total as int,
        ) != length || segments_charge(rows as int, total as int) > usize::MAX {
            Err(SnapshotIndexError::Limits)
        } else if !granted {
            Err(SnapshotIndexError::ResourceDenied)
        } else {
            match segments_at(
                d,
                HEADER_LEN + PREFIX_BYTES,
                directory.members,
                0,
                total as int,
                Seq::empty(),
                Seq::empty(),
            ) {
                Err(e) => Err(e),
                Ok((found, grams, end)) => if grams.len() != total || end != d.len() {
                    Err(SnapshotIndexError::Format)
                } else {
                    Ok(
                        SnapshotIndex {
                            owner: directory.owner,
                            archive: directory.digest,
                            rows: found,
                            grams,
                            stats: stats_of(found, total as int),
                        },
                    )
                },
            }
        },
    }
}

fn read_grams<C: FnMut() -> bool>(
    document: &Vec<u8>,
    end: usize,
    start: usize,
    n: usize,
    grams: &mut Vec<u32>,
    canceled: &mut C,
) -> (r: Result<(), SnapshotIndexError>)
    requires
        start <= end <= document@.len(),
        n <= MAX_INDEX_GRAMS,
        call_requires(*old(canceled), ()),
    ensures
        *final(canceled) == *old(canceled),
        stopped(r, *old(canceled)) || match grams_at(
            document@.subrange(0, end as int),
            start as int,
            n as int,
            old(grams)@,
            old(grams)@.len() as int,
        ) {
            Ok(more) => r is Ok && final(grams)@ == more,
            Err(e) => r == Err::<(), SnapshotIndexError>(e),
        },
        r is Ok ==> {
            &&& start + n * 4 <= end
            &&& exists|more: Seq<u32>|
                #[trigger] in_order(more) && more.len() == n && final(grams)@ == old(grams)@ + more
        },
{
    let ghost d = document@.subrange(0, end as int);
    let ghost before = grams@;
    let ghost mut more: Seq<u32> = Seq::empty();
    let first: usize = grams.len();
    let mut i: usize = 0;
    assert(before + more =~= before);
    while i < n
        invariant
            i <= n <= MAX_INDEX_GRAMS,
            start <= end <= document.len(),
            start + i * 4 <= end,
            d == document@.subrange(0, end as int),
            before == old(grams)@,
            first == before.len(),
            more.len() == i,
            in_order(more),
            grams@ == before + more,
            *canceled == *old(canceled),
            call_requires(*canceled, ()),
            grams_at(d, start as int, n as int, before, first as int) == grams_at(
                d,
                start + i * 4,
                n - i,
                grams@,
                first as int,
            ),
        decreases n - i,
    {
        if i % 4096 == 0 && canceled() {
            return Err(SnapshotIndexError::Canceled);
        }
        let gram: u64 = match need_field(document, end, start + i * 4, 4) {
            Ok(gram) => gram,
            Err(e) => {
                return Err(e);
            },
        };
        if gram > MAX_GRAM as u64 {
            return Err(SnapshotIndexError::Format);
        }
        if i > 0 && grams[grams.len() - 1] as u64 >= gram {
            return Err(SnapshotIndexError::Format);
        }
        proof {
            let longer = more.push(gram as u32);
            assert(i > 0 ==> grams@.last() == more.last());
            assert forall|a: int, b: int| 0 <= a < b < longer.len() implies #[trigger] longer[a]
                < #[trigger] longer[b] by {
                assert(longer[a] == more[a]);
                if b < more.len() {
                    assert(longer[b] == more[b]);
                } else if a < more.len() - 1 {
                    assert(more[a] < more[more.len() - 1]);
                }
            }
            assert(before + longer =~= grams@.push(gram as u32));
            more = longer;
        }
        grams.push(gram as u32);
        i = i + 1;
    }
    Ok(())
}

/// Trigrams in strictly increasing order.
pub open spec fn in_order(grams: Seq<u32>) -> bool {
    &&& increasing(grams, 0, grams.len() as int)
    &&& forall|i: int| 0 <= i < grams.len() ==> #[trigger] grams[i] <= MAX_GRAM
}

impl SnapshotIndex {
    fn read_segments<C: FnMut() -> bool>(
        document: &Vec<u8>,
        end: usize,
        directory: &SnapshotDirectory,
        total: usize,
        canceled: &mut C,
    ) -> (r: Result<(Vec<Row>, Vec<u32>), SnapshotIndexError>)
        requires
            76 <= end <= document@.len(),
            total <= MAX_INDEX_GRAMS,
            directory@.members.len() <= MAX_INDEX_MEMBERS,
            directory@.digest.len() == 32,
            call_requires(*old(canceled), ()),
        ensures
            *final(canceled) == *old(canceled),
            stopped(r, *old(canceled)) || match segments_at(
                document@.subrange(0, end as int),
                76,
                directory@.members,
                0,
                total as int,
                Seq::empty(),
                Seq::empty(),
            ) {
                Err(e) => r matches Err(f) && f == e,
                Ok((found, grams, at)) => if grams.len() != total || at != end {
                    r matches Err(f) && f == SnapshotIndexError::Format
                } else {
                    r matches Ok((rows, more)) && views(rows@) == found && more@ == grams
                },
            },
            r matches Ok((rows, more)) ==> (SnapshotIndex {
                owner: directory@.owner,
                archive: directory@.digest,
                rows: views(rows@),
                grams: more@,
                stats: stats_of(views(rows@), total as int),
            }).wf(),
    {
        let ghost d = document@.subrange(0, end as int);
        let ghost all = segments_at(
            d,
            76,
            directory@.members,
            0,
            total as int,
            Seq::empty(),
            Seq::empty(),
        );
        let mut rows: Vec<Row> = Vec::new();
        let mut grams: Vec<u32> = Vec::new();
        let mut at: usize = 76;
        let mut k: usize = 0;
        assert(views(rows@) =~= Seq::<RowModel>::empty());
        assert(segments_ok(views(rows@), grams@)) by {
            reveal(segments_ok);
        }
        while k < directory.members.len()
            invariant
                k <= directory@.members.len() <= MAX_INDEX_MEMBERS,
                76 <= at <= end <= document.len(),
                total <= MAX_INDEX_GRAMS,
                d == document@.subrange(0, end as int),
                rows@.len() == k,
                grams@.len() <= total,
                *canceled == *old(canceled),
                call_requires(*canceled, ()),
                all == segments_at(
                    d,
                    76,
                    directory@.members,
                    0,
                    total as int,
                    Seq::empty(),
                    Seq::empty(),
                ),
                all == segments_at(
                    d,
                    at as int,
                    directory@.members,
                    k as int,
                    total as int,
                    views(rows@),
                    grams@,
                ),
                segments_ok(views(rows@), grams@),
            decreases directory.members.len() - k,
        {
            if canceled() {
                return Err(SnapshotIndexError::Canceled);
            }
            assert(directory@.members[k as int] == directory.members@[k as int]@);
            let row = match read_row(document, end, at, grams.len(), total, &directory.members[k]) {
                Ok(row) => row,
                Err(e) => {
                    return Err(e);
                },
            };
            let ghost before = grams@;
            let ghost earlier = views(rows@);
            match read_grams(document, end, at + ROW_BYTES, row.count, &mut grams, canceled) {
                Ok(()) => {},
                Err(e) => {
                    return Err(e);
                },
            }
            at = at + ROW_BYTES + row.count * 4;
            rows.push(row);
            k = k + 1;
            proof {
                let more = choose|more: Seq<u32>|
                    #[trigger] in_order(more) && more.len() == row.count && grams@ == before + more;
                segments_push(earlier, before, row@, more);
            }
        }
        if grams.len() != total || at != end {
            return Err(SnapshotIndexError::Format);
        }
        Ok((rows, grams))
    }

    /// Opens the segment form of a stored index under a pin.
    pub fn decode_rows<
        A: FnOnce(u64) -> bool,
        H: Fn(&Vec<u8>, usize) -> Sha256Digest,
        C: FnMut() -> bool,
    >(
        document: &Vec<u8>,
        trusted_digest: &Sha256Digest,
        directory: &SnapshotDirectory,
        reserve: A,
        hash: H,
        mut canceled: C,
    ) -> (r: Result<Self, SnapshotIndexError>)
        requires
            forall|charge: u64| call_requires(reserve, (charge,)),
            forall|bytes: &Vec<u8>, n: usize|
                n <= bytes@.len() ==> call_requires(hash, (bytes, n)),
            call_requires(canceled, ()),
        ensures
            r matches Ok(index) ==> index@.wf(),
            stopped(r, canceled) || is_row_decoding(
                r,
                document@,
                trusted_digest.data(),
                directory@,
                reserve,
                hash,
            ),
    {
        match open_document(
            document,
            index_schema(),
            PREFIX_BYTES,
            MAX_INDEX_BYTES,
            trusted_digest,
            &hash,
            &mut canceled,
        ) {
            Ok(()) => {},
            Err(e) => {
                return Err(e);
            },
        }
        let end: usize = document.len() - DIGEST_LEN;
        assert(document@.subrange(0, end as int) == covered(document@));
        let (count, total) = match read_announced(document, end, &directory.digest) {
            Ok(found) => found,
            Err(e) => {
                assert(index_grant(document@, directory@, reserve, false));
                return Err(e);
            },
        };
        if count != directory.members.len() as u64 || count > MAX_INDEX_MEMBERS as u64 || total
            > MAX_INDEX_GRAMS as u64 {
            assert(index_grant(document@, directory@, reserve, false));
            return Err(SnapshotIndexError::Limits);
        }
        let rows: usize = count as usize;
        let grams: usize = total as usize;
        match wire_length(rows, grams) {
            Ok(length) => {
                if length != document.len() {
                    assert(index_grant(document@, directory@, reserve, false));
                    return Err(SnapshotIndexError::Limits);
                }
            },
            Err(e) => {
                assert(index_grant(document@, directory@, reserve, false));
                return Err(e);
            },
        }
        let charge: u128 = segments_cost(rows, grams);
        if charge > usize::MAX as u128 {
            assert(index_grant(document@, directory@, reserve, false));
            return Err(SnapshotIndexError::Limits);
        }
        let granted = reserve(charge as u64);
        assert(index_grant(document@, directory@, reserve, granted));
        if !granted {
            return Err(SnapshotIndexError::ResourceDenied);
        }
        match SnapshotIndex::read_segments(document, end, directory, grams, &mut canceled) {
            Err(e) => Err(e),
            Ok((rows, grams)) => {
                if canceled() {
                    return Err(SnapshotIndexError::Canceled);
                }
                let stats = count_rows(&rows, grams.len());
                Ok(
                    SnapshotIndex {
                        owner: directory.owner,
                        archive: directory.digest,
                        rows,
                        grams,
                        stats,
                    },
                )
            },
        }
    }
}

/// Whether opening the segment form under a pin may answer so.
pub open spec fn is_row_decoding<
    A: FnOnce(u64) -> bool,
    H: Fn(&Vec<u8>, usize) -> Sha256Digest,
>(
    r: Result<SnapshotIndex, SnapshotIndexError>,
    document: Seq<u8>,
    pin: Seq<u8>,
    directory: DirectoryModel,
    reserve: A,
    hash: H,
) -> bool {
    exists|outer: Sha256Digest, inner: Sha256Digest|
        #[trigger] opening_digests(document, 52, MAX_INDEX_BYTES, hash, outer, inner)
            && match opening_error(
            document,
            index_schema_spec(),
            52,
            MAX_INDEX_BYTES,
            pin,
            outer,
            inner,
        ) {
            Some(e) => r matches Err(f) && f == e,
            None => exists|granted: bool|
                #[trigger] index_grant(document, directory, reserve, granted) && is_index(
                    r,
                    decoded_index(
                        covered(document),
                        document.len() as int,
                        directory,
                        granted,
                    ),
                ),
        }
}

/// Whether opening an index answers as a model says.
pub open spec fn is_index(
    r: Result<SnapshotIndex, SnapshotIndexError>,
    result: Result<SegmentsModel, SnapshotIndexError>,
) -> bool {
    match result {
        Ok(found) => r matches Ok(index) && index@ == found,
        Err(e) => r matches Err(f) && f == e,
    }
}

/// Whether memory was granted or refused for the size that a document
/// announces, if one was asked for.
pub open spec fn index_grant<A: FnOnce(u64) -> bool>(
    document: Seq<u8>,
    directory: DirectoryModel,
    reserve: A,
    granted: bool,
) -> bool {
    announced(covered(document), directory.digest) matches Ok((rows, total)) ==> (rows
        <= MAX_INDEX_MEMBERS && rows == directory.members.len() && total <= MAX_INDEX_GRAMS
        && wire_len(rows as int, total as int) == document.len() && segments_charge(
        rows as int,
        total as int,
    ) <= usize::MAX ==> call_ensures(
        reserve,
        (segments_charge(rows as int, total as int) as u64,),
        granted,
    ))
}

} // verus!
