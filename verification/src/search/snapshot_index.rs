//! Reusable substring segments of a saved snapshot.
//!
//! A segment lists every trigram of one member's bytes, so an absent trigram
//! proves that a literal cannot occur. A stored checksum proves consistency, not
//! completeness: opening a stored index requires the digest of an artifact that
//! the host accepted before.
pub mod codec;
pub mod decisions;
pub mod postings;
pub mod refresh;
pub mod round_trip;

use vstd::prelude::*;

use crate::envelope::{EnvelopeSchema, Sha256Digest};
use crate::identity::ArenaOwnerId;
use crate::model::{group_views, views};
use crate::search::archive::{DirectoryModel, PagedSnapshotError, SnapshotDirectory};

verus! {

broadcast use group_views;

pub const MAX_INDEX_BYTES: usize = 16_777_216;

pub const MAX_INDEX_GRAMS: usize = 2_097_152;

pub const MAX_INDEX_MEMBERS: usize = 65_536;

/// Raw contiguous byte trigrams, sorted and unique.
pub const SEMANTICS: u32 = 1;

/// Bytes of a row apart from its trigrams.
pub const ROW_BYTES: usize = 49;

/// Bytes before the rows.
pub const PREFIX_BYTES: usize = 52;

/// Bytes of the frame and of what precedes the rows.
pub const FRAME_AND_PREFIX: usize = 108;

/// The largest trigram.
pub const MAX_GRAM: u32 = 0x00ff_ffff;

pub open spec fn index_schema_spec() -> EnvelopeSchema {
    EnvelopeSchema { magic: 0x4942_4346, schema_id: 0x504f_5331, major: 1, minor: 0 }
}

/// The schema of a stored index.
pub fn index_schema() -> (r: EnvelopeSchema)
    ensures
        r == index_schema_spec(),
{
    EnvelopeSchema { magic: 0x4942_4346, schema_id: 0x504f_5331, major: 1, minor: 0 }
}

/// Why the index engine of the host failed.
#[derive(Clone, Copy, Debug, PartialEq, Eq, Structural)]
pub enum IndexError {
    Canceled,
    Failed,
}

#[derive(Clone, Copy, Debug, PartialEq, Eq, Structural)]
pub enum SnapshotIndexError {
    Limits,
    Format,
    Version,
    PinMismatch,
    SourceMismatch,
    OwnerMismatch,
    ResourceDenied,
    Canceled,
    Build(IndexError),
    Archive(PagedSnapshotError),
}

impl SnapshotIndexError {
    /// The stable code of an error of this library.
    pub open spec fn code_spec(self) -> Option<Seq<char>> {
        match self {
            SnapshotIndexError::Limits => Some("SAVED_INDEX_LIMIT"@),
            SnapshotIndexError::Format => Some("SAVED_INDEX_FORMAT"@),
            SnapshotIndexError::Version => Some("SAVED_INDEX_VERSION"@),
            SnapshotIndexError::PinMismatch => Some("SAVED_INDEX_PIN_MISMATCH"@),
            SnapshotIndexError::SourceMismatch => Some("SAVED_INDEX_SOURCE_MISMATCH"@),
            SnapshotIndexError::OwnerMismatch => Some("SAVED_INDEX_OWNER_MISMATCH"@),
            SnapshotIndexError::ResourceDenied => Some("SAVED_INDEX_RESOURCE_DENIED"@),
            SnapshotIndexError::Canceled => Some("SAVED_INDEX_CANCELED"@),
            _ => None,
        }
    }

    pub fn code(&self) -> (r: Option<&'static str>)
        ensures
            match self.code_spec() {
                Some(code) => r matches Some(text) && text@ == code,
                None => r is None,
            },
    {
        match self {
            SnapshotIndexError::Limits => Some("SAVED_INDEX_LIMIT"),
            SnapshotIndexError::Format => Some("SAVED_INDEX_FORMAT"),
            SnapshotIndexError::Version => Some("SAVED_INDEX_VERSION"),
            SnapshotIndexError::PinMismatch => Some("SAVED_INDEX_PIN_MISMATCH"),
            SnapshotIndexError::SourceMismatch => Some("SAVED_INDEX_SOURCE_MISMATCH"),
            SnapshotIndexError::OwnerMismatch => Some("SAVED_INDEX_OWNER_MISMATCH"),
            SnapshotIndexError::ResourceDenied => Some("SAVED_INDEX_RESOURCE_DENIED"),
            SnapshotIndexError::Canceled => Some("SAVED_INDEX_CANCELED"),
            _ => None,
        }
    }
}

#[derive(Clone, Copy, Debug, PartialEq, Eq, Structural)]
pub enum IndexDecision {
    /// A complete, compatible segment proves the literal cannot occur.
    Excluded,
    /// Compatible segment; still requires exact verification.
    Verify,
    /// Missing or incompatible indexing must not narrow the source universe.
    Fallback,
}

#[derive(Clone, Copy, Debug, PartialEq, Eq, Structural)]
pub struct SavedIndexStats {
    pub members: usize,
    pub indexed_files: usize,
    pub uncovered_files: usize,
    pub unavailable_files: usize,
    pub unique_grams: usize,
    pub build_source_bytes: u64,
}

#[derive(Clone, Copy, Debug, PartialEq, Eq, Structural)]
pub enum Coverage {
    Unavailable,
    Uncovered,
    Utf8,
    Bytes,
}

impl Coverage {
    pub open spec fn number(self) -> u8 {
        match self {
            Coverage::Unavailable => 0,
            Coverage::Uncovered => 1,
            Coverage::Utf8 => 2,
            Coverage::Bytes => 3,
        }
    }

    pub open spec fn of(tag: nat) -> Result<Coverage, SnapshotIndexError> {
        if tag == 0 {
            Ok(Coverage::Unavailable)
        } else if tag == 1 {
            Ok(Coverage::Uncovered)
        } else if tag == 2 {
            Ok(Coverage::Utf8)
        } else if tag == 3 {
            Ok(Coverage::Bytes)
        } else {
            Err(SnapshotIndexError::Format)
        }
    }

    pub open spec fn has_segment(self) -> bool {
        self is Utf8 || self is Bytes
    }

    pub fn tag(self) -> (r: u8)
        ensures
            r == self.number(),
    {
        match self {
            Coverage::Unavailable => 0,
            Coverage::Uncovered => 1,
            Coverage::Utf8 => 2,
            Coverage::Bytes => 3,
        }
    }

    pub fn parse(tag: u64) -> (r: Result<Self, SnapshotIndexError>)
        ensures
            r == Coverage::of(tag as nat),
    {
        match tag {
            0 => Ok(Coverage::Unavailable),
            1 => Ok(Coverage::Uncovered),
            2 => Ok(Coverage::Utf8),
            3 => Ok(Coverage::Bytes),
            _ => Err(SnapshotIndexError::Format),
        }
    }

    pub fn indexed(self) -> (r: bool)
        ensures
            r == self.has_segment(),
    {
        match self {
            Coverage::Utf8 => true,
            Coverage::Bytes => true,
            _ => false,
        }
    }
}

/// What is known of one member, and where its trigrams are.
#[derive(Clone, Copy, Debug)]
pub struct Row<D = Sha256Digest> {
    pub coverage: Coverage,
    pub length: u64,
    pub digest: D,
    pub start: usize,
    pub count: usize,
}

/// The model of a row.
pub type RowModel = Row<Seq<u8>>;

impl View for Row {
    type V = Row<Seq<u8>>;

    open spec fn view(&self) -> Row<Seq<u8>> {
        Row {
            coverage: self.coverage,
            length: self.length,
            digest: self.digest.data(),
            start: self.start,
            count: self.count,
        }
    }
}

/// Immutable segments of a snapshot's members.
#[derive(Debug)]
pub struct SnapshotIndex<D = Sha256Digest, R = Vec<Row>, G = Vec<u32>> {
    pub owner: ArenaOwnerId,
    pub archive: D,
    pub rows: R,
    pub grams: G,
    pub stats: SavedIndexStats,
}

/// The model of an index.
pub type SegmentsModel = SnapshotIndex<Seq<u8>, Seq<RowModel>, Seq<u32>>;

impl View for SnapshotIndex {
    type V = SnapshotIndex<Seq<u8>, Seq<RowModel>, Seq<u32>>;

    open spec fn view(&self) -> SnapshotIndex<Seq<u8>, Seq<RowModel>, Seq<u32>> {
        SnapshotIndex {
            owner: self.owner,
            archive: self.archive.data(),
            rows: views(self.rows@),
            grams: self.grams@,
            stats: self.stats,
        }
    }
}

/// The trigram of three bytes.
pub open spec fn trigram(a: u8, b: u8, c: u8) -> u32 {
    (a as u32 * 65_536 + b as u32 * 256 + c as u32) as u32
}

/// The trigram of bytes at a position.
pub open spec fn trigram_at(bytes: Seq<u8>, i: int) -> u32 {
    trigram(bytes[i], bytes[i + 1], bytes[i + 2])
}

/// The three positions whose trigrams are looked up.
pub open spec fn probe_at(n: int, k: int) -> int {
    if k == 0 {
        0
    } else if k == 1 {
        (n - 3) / 2
    } else {
        n - 3
    }
}

/// Whether trigrams are in strictly increasing order from one position up to
/// another.
pub open spec fn increasing(grams: Seq<u32>, from: int, to: int) -> bool {
    forall|i: int, j: int| from <= i < j < to ==> #[trigger] grams[i] < #[trigger] grams[j]
}

/// Whether a row names a stretch of trigrams in order, and only names any if it
/// has a segment.
pub open spec fn row_ok(row: RowModel, grams: Seq<u32>) -> bool {
    &&& row.digest.len() == 32
    &&& row.start + row.count <= grams.len()
    &&& !row.coverage.has_segment() ==> row.count == 0
    &&& increasing(grams, row.start as int, row.start + row.count)
}

/// Whether segments follow one another, each in order, and are all there is.
#[verifier::opaque]
pub open spec fn segments_ok(rows: Seq<RowModel>, grams: Seq<u32>) -> bool {
    &&& forall|k: int| 0 <= k < rows.len() ==> row_ok(#[trigger] rows[k], grams)
    &&& forall|j: int, k: int|
        0 <= j < k < rows.len() && k == j + 1 ==> (#[trigger] rows[k]).start == (
        #[trigger] rows[j]).start + rows[j].count
    &&& if rows.len() == 0 {
        grams.len() == 0
    } else {
        rows[0].start == 0 && rows.last().start + rows.last().count == grams.len()
    }
    &&& forall|i: int| 0 <= i < grams.len() ==> #[trigger] grams[i] <= MAX_GRAM
}

/// One more segment behind the others.
pub proof fn segments_push(
    rows: Seq<RowModel>,
    grams: Seq<u32>,
    row: RowModel,
    more: Seq<u32>,
)
    requires
        segments_ok(rows, grams),
        row.digest.len() == 32,
        row.start == grams.len(),
        row.count == more.len(),
        !row.coverage.has_segment() ==> row.count == 0,
        increasing(more, 0, more.len() as int),
        forall|i: int| 0 <= i < more.len() ==> #[trigger] more[i] <= MAX_GRAM,
    ensures
        segments_ok(rows.push(row), grams + more),
{
    reveal(segments_ok);
    let now = rows.push(row);
    let all = grams + more;
    assert forall|k: int| 0 <= k < now.len() implies row_ok(#[trigger] now[k], all) by {
        if k < rows.len() {
            let earlier = rows[k];
            assert(row_ok(earlier, grams));
            assert forall|a: int, b: int|
                earlier.start <= a < b < earlier.start + earlier.count implies #[trigger] all[a]
                < #[trigger] all[b] by {
                assert(all[a] == grams[a]);
                assert(all[b] == grams[b]);
            }
        } else {
            assert forall|a: int, b: int| row.start <= a < b < row.start + row.count implies
                #[trigger] all[a] < #[trigger] all[b] by {
                assert(all[a] == more[a - grams.len()]);
                assert(all[b] == more[b - grams.len()]);
            }
        }
    }
    assert forall|j: int, k: int| 0 <= j < k < now.len() && k == j + 1 implies (
    #[trigger] now[k]).start == (#[trigger] now[j]).start + now[j].count by {
        assert(now[j] == rows[j]);
        if k < rows.len() {
            assert(now[k] == rows[k]);
        }
    }
    assert forall|i: int| 0 <= i < all.len() implies #[trigger] all[i] <= MAX_GRAM by {
        if i < grams.len() {
            assert(all[i] == grams[i]);
        } else {
            assert(all[i] == more[i - grams.len()]);
        }
    }
    if rows.len() > 0 {
        assert(now[0] == rows[0]);
    }
}

/// What a segment of a well-formed index is.
pub proof fn segments_row(rows: Seq<RowModel>, grams: Seq<u32>, k: int)
    requires
        segments_ok(rows, grams),
        0 <= k < rows.len(),
    ensures
        row_ok(rows[k], grams),
        k + 1 < rows.len() ==> rows[k + 1].start == rows[k].start + rows[k].count,
        k == 0 ==> rows[k].start == 0,
        k + 1 == rows.len() ==> rows[k].start + rows[k].count == grams.len(),
        forall|i: int| 0 <= i < grams.len() ==> #[trigger] grams[i] <= MAX_GRAM,
{
    reveal(segments_ok);
    if k + 1 < rows.len() {
        assert(rows[k + 1].start == rows[k].start + rows[k].count);
    }
}

impl SegmentsModel {
    /// Where the trigrams of a row end.
    pub open spec fn end_of(self, k: int) -> int {
        self.rows[k].start + self.rows[k].count
    }

    /// Segments follow one another, each in order.
    pub open spec fn wf(self) -> bool {
        &&& self.archive.len() == 32
        &&& self.rows.len() <= MAX_INDEX_MEMBERS
        &&& self.grams.len() <= MAX_INDEX_GRAMS
        &&& segments_ok(self.rows, self.grams)
    }

    /// Whether a row lists a trigram.
    pub open spec fn lists(self, k: int, gram: u32) -> bool {
        exists|i: int|
            self.rows[k].start <= i < self.end_of(k) && #[trigger] self.grams[i] == gram
    }

    /// What a row says of a needle.
    pub open spec fn probed(self, k: int, needle: Seq<u8>) -> IndexDecision {
        if needle.len() < 3 {
            IndexDecision::Fallback
        } else if forall|p: int|
            0 <= p < 3 ==> self.lists(
                k,
                #[trigger] trigram_at(needle, probe_at(needle.len() as int, p)),
            ) {
            IndexDecision::Verify
        } else {
            IndexDecision::Excluded
        }
    }

    /// What the index says of raw bytes in a member.
    pub open spec fn raw_answer(self, ordinal: int, needle: Seq<u8>) -> IndexDecision {
        if 0 <= ordinal < self.rows.len() && self.rows[ordinal].coverage.has_segment() {
            self.probed(ordinal, needle)
        } else {
            IndexDecision::Fallback
        }
    }

    /// What the index says of text in a member.
    pub open spec fn text_answer(self, ordinal: int, needle: Option<Seq<u8>>) -> IndexDecision {
        if 0 <= ordinal < self.rows.len() && self.rows[ordinal].coverage is Utf8 && needle is Some {
            self.probed(ordinal, needle->Some_0)
        } else {
            IndexDecision::Fallback
        }
    }

    /// Why a directory does not belong to the index, if so.
    pub open spec fn directory_error(self, directory: DirectoryModel) -> Option<SnapshotIndexError> {
        directory_error(self.owner, self.archive, self.rows.len(), directory)
    }
}

/// Why a directory does not belong to what was saved of it, if so.
pub open spec fn directory_error(
    owner: ArenaOwnerId,
    archive: Seq<u8>,
    rows: nat,
    directory: DirectoryModel,
) -> Option<SnapshotIndexError> {
    if owner != directory.owner {
        Some(SnapshotIndexError::OwnerMismatch)
    } else if archive != directory.digest || rows != directory.members.len() {
        Some(SnapshotIndexError::SourceMismatch)
    } else {
        None
    }
}

/// The trigram of bytes at a position.
pub fn gram_at(bytes: &[u8], i: usize) -> (r: u32)
    requires
        i + 3 <= bytes@.len(),
    ensures
        r == trigram_at(bytes@, i as int),
        r <= MAX_GRAM,
{
    bytes[i] as u32 * 65_536 + bytes[i + 1] as u32 * 256 + bytes[i + 2] as u32
}

/// A set of trigrams that a search says a source cannot be without: what the
/// source's bytes list completely.
pub open spec fn complete(index: SegmentsModel, k: int, source: Seq<u8>) -> bool {
    forall|i: int|
        0 <= i && i + 3 <= source.len() ==> index.lists(k, #[trigger] trigram_at(source, i))
}

/// Whether a needle occurs in a source.
pub open spec fn occurs(source: Seq<u8>, needle: Seq<u8>) -> bool {
    exists|at: int|
        0 <= at && at + needle.len() <= source.len() && #[trigger] source.subrange(
            at,
            at + needle.len(),
        ) == needle
}

/// An exclusion is always right: where a complete segment of a member's bytes
/// excludes a needle, the needle does not occur in them.
pub proof fn exclusion_is_sound(
    index: SegmentsModel,
    ordinal: int,
    source: Seq<u8>,
    needle: Seq<u8>,
)
    requires
        0 <= ordinal < index.rows.len(),
        complete(index, ordinal, source),
        index.raw_answer(ordinal, needle) is Excluded || index.text_answer(
            ordinal,
            Some(needle),
        ) is Excluded,
    ensures
        !occurs(source, needle),
{
    if occurs(source, needle) {
        let at = choose|at: int|
            0 <= at && at + needle.len() <= source.len() && #[trigger] source.subrange(
                at,
                at + needle.len(),
            ) == needle;
        assert forall|p: int| 0 <= p < 3 implies index.lists(
            ordinal,
            #[trigger] trigram_at(needle, probe_at(needle.len() as int, p)),
        ) by {
            let i = probe_at(needle.len() as int, p);
            let part = source.subrange(at, at + needle.len());
            assert(part[i] == source[at + i]);
            assert(part[i + 1] == source[at + i + 1]);
            assert(part[i + 2] == source[at + i + 2]);
            assert(trigram_at(source, at + i) == trigram_at(needle, i));
        }
    }
}

impl SnapshotIndex {
    pub fn owner(&self) -> (r: ArenaOwnerId)
        ensures
            r == self@.owner,
    {
        self.owner
    }

    pub fn archive_digest(&self) -> (r: Sha256Digest)
        ensures
            r.data() == self@.archive,
    {
        self.archive
    }

    pub fn stats(&self) -> (r: SavedIndexStats)
        ensures
            r == self@.stats,
    {
        self.stats
    }

    pub fn validate_directory(&self, directory: &SnapshotDirectory) -> (r: Result<
        (),
        SnapshotIndexError,
    >)
        ensures
            r == (match self@.directory_error(directory@) {
                Some(e) => Err::<(), SnapshotIndexError>(e),
                None => Ok(()),
            }),
    {
        if self.owner != directory.owner {
            return Err(SnapshotIndexError::OwnerMismatch);
        }
        if !self.archive.same(&directory.digest) || self.rows.len() != directory.members.len() {
            return Err(SnapshotIndexError::SourceMismatch);
        }
        Ok(())
    }

    /// Whether a row lists a trigram.
    fn has_gram(&self, k: usize, gram: u32) -> (r: bool)
        requires
            self@.wf(),
            k < self@.rows.len(),
        ensures
            r == self@.lists(k as int, gram),
    {
        assert(self@.rows[k as int] == self.rows@[k as int]@);
        let ghost row = self@.rows[k as int];
        proof {
            segments_row(self@.rows, self@.grams, k as int);
        }
        let mut low: usize = self.rows[k].start;
        let mut high: usize = self.rows[k].start + self.rows[k].count;
        while low < high
            invariant
                row == self@.rows[k as int],
                row.start <= low <= high <= row.start + row.count <= self.grams@.len(),
                increasing(self.grams@, row.start as int, row.start + row.count),
                forall|i: int| row.start <= i < low ==> #[trigger] self.grams@[i] < gram,
                forall|i: int|
                    high <= i < row.start + row.count ==> #[trigger] self.grams@[i] > gram,
            decreases high - low,
        {
            let middle: usize = low + (high - low) / 2;
            let found: u32 = self.grams[middle];
            if found == gram {
                assert(self@.grams[middle as int] == gram);
                return true;
            }
            if found < gram {
                low = middle + 1;
            } else {
                high = middle;
            }
        }
        false
    }

    fn probe(&self, k: usize, needle: &[u8]) -> (r: IndexDecision)
        requires
            self@.wf(),
            k < self@.rows.len(),
        ensures
            r == self@.probed(k as int, needle@),
    {
        let n: usize = needle.len();
        if n < 3 {
            return IndexDecision::Fallback;
        }
        let first: u32 = gram_at(needle, 0);
        let middle: u32 = gram_at(needle, (n - 3) / 2);
        let last: u32 = gram_at(needle, n - 3);
        assert(trigram_at(needle@, probe_at(n as int, 0)) == first);
        assert(trigram_at(needle@, probe_at(n as int, 1)) == middle);
        assert(trigram_at(needle@, probe_at(n as int, 2)) == last);
        if !self.has_gram(k, first) || !self.has_gram(k, middle) || !self.has_gram(k, last) {
            return IndexDecision::Excluded;
        }
        assert forall|p: int| 0 <= p < 3 implies self@.lists(
            k as int,
            #[trigger] trigram_at(needle@, probe_at(n as int, p)),
        ) by {
            assert(p == 0 || p == 1 || p == 2);
        }
        IndexDecision::Verify
    }

    /// For UTF-8 text only. Other encodings and an absent text must be searched
    /// in the ordinary way.
    pub fn text_decision(&self, ordinal: usize, text: Option<&str>) -> (r: IndexDecision)
        requires
            self@.wf(),
        ensures
            r == self@.text_answer(
                ordinal as int,
                match text {
                    Some(t) => Some(vstd::utf8::encode_utf8(t@)),
                    None => None,
                },
            ),
    {
        if ordinal >= self.rows.len() {
            return IndexDecision::Fallback;
        }
        assert(self@.rows[ordinal as int] == self.rows@[ordinal as int]@);
        match text {
            Some(text) => match self.rows[ordinal].coverage {
                Coverage::Utf8 => self.probe(ordinal, text.as_bytes()),
                _ => IndexDecision::Fallback,
            },
            None => IndexDecision::Fallback,
        }
    }

    /// For the same raw bytes that the host verifies.
    pub fn raw_decision(&self, ordinal: usize, bytes: &[u8]) -> (r: IndexDecision)
        requires
            self@.wf(),
        ensures
            r == self@.raw_answer(ordinal as int, bytes@),
    {
        if ordinal >= self.rows.len() {
            return IndexDecision::Fallback;
        }
        assert(self@.rows[ordinal as int] == self.rows@[ordinal as int]@);
        if !self.rows[ordinal].coverage.indexed() {
            return IndexDecision::Fallback;
        }
        self.probe(ordinal, bytes)
    }
}

} // verus!
