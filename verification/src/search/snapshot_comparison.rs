//! Comparing two saved snapshots.
//!
//! Records are aligned by equal paths, not by identities. A missing record
//! proves an addition or removal only with equal policies and a closed opposite
//! membership. What could not be saved is never taken as empty. Renames are not
//! inferred, and no live source is consulted.
pub mod walks;

use vstd::layout::size_of;
use vstd::prelude::*;
use vstd::utf8::{encode_utf8, encode_utf8_decode_utf8};

use crate::capture::{same_bytes, SourceCapture};
use crate::envelope::Sha256Digest;
use crate::identity::QueryGeneration;
use crate::memory::wide_size;
use crate::model::{group_views, maybe};
use crate::search::archive::{
    order_paths, precedes, precedes_is_total, precedes_is_transitive, DirectoryModel,
    MemberModel, PagedMember, PagedMemberData, PagedSnapshotError, PathOrder, SnapshotDirectory,
};
use crate::search::member_scan::VerifiedMember;
use crate::search::reader::{
    index_charge, DetectedEncoding, IndexModel, ReaderError,
    ReaderLimits, ReadingAnchor, ReadingSeek, ReadingTarget, SourceReader,
};
use crate::search::reading_window::{
    gave_up, is_window, window_answers, windowed, ReadingWindow, ReadingWindowOptions, WindowMap,
};
use crate::search::source::CaptureRequest;

verus! {

broadcast use group_views;

/// Why a comparison failed; `A` is what the host's engine says of a failure.
#[derive(Clone, Copy, Debug, PartialEq, Eq)]
pub enum SnapshotCompareError<A = ()> {
    Archive(PagedSnapshotError),
    Analysis(A),
    OwnerMismatch,
    Stale,
    InvalidPair,
    ResourceDenied,
    Canceled,
}

impl<A> SnapshotCompareError<A> {
    /// The stable code of an error, where it is one of this library's.
    pub open spec fn code_spec(self) -> Option<Seq<char>> {
        match self {
            SnapshotCompareError::Archive(_) => None,
            SnapshotCompareError::Analysis(_) => None,
            SnapshotCompareError::OwnerMismatch => Some("SNAPSHOT_DIFF_OWNER_MISMATCH"@),
            SnapshotCompareError::Stale => Some("SNAPSHOT_DIFF_STALE"@),
            SnapshotCompareError::InvalidPair => Some("SNAPSHOT_DIFF_UNAVAILABLE_PAIR"@),
            SnapshotCompareError::ResourceDenied => Some("SNAPSHOT_DIFF_RESOURCE_DENIED"@),
            SnapshotCompareError::Canceled => Some("SNAPSHOT_DIFF_CANCELED"@),
        }
    }

    pub fn code(&self) -> (r: Option<&'static str>)
        ensures
            match self.code_spec() {
                Some(code) => r matches Some(text) && text@ == code,
                None => r is None,
            },
    {
        match self {
            SnapshotCompareError::Archive(_) => None,
            SnapshotCompareError::Analysis(_) => None,
            SnapshotCompareError::OwnerMismatch => Some("SNAPSHOT_DIFF_OWNER_MISMATCH"),
            SnapshotCompareError::Stale => Some("SNAPSHOT_DIFF_STALE"),
            SnapshotCompareError::InvalidPair => Some("SNAPSHOT_DIFF_UNAVAILABLE_PAIR"),
            SnapshotCompareError::ResourceDenied => Some("SNAPSHOT_DIFF_RESOURCE_DENIED"),
            SnapshotCompareError::Canceled => Some("SNAPSHOT_DIFF_CANCELED"),
        }
    }
}

#[derive(Clone, Copy, Debug, PartialEq, Eq, Structural)]
pub enum SnapshotChangeKind {
    Unchanged,
    Changed,
    Added,
    Removed,
    OnlyBefore,
    OnlyAfter,
    Unavailable,
}

impl SnapshotChangeKind {
    pub open spec fn name_spec(self) -> Seq<char> {
        match self {
            SnapshotChangeKind::Unchanged => "unchanged"@,
            SnapshotChangeKind::Changed => "changed"@,
            SnapshotChangeKind::Added => "added"@,
            SnapshotChangeKind::Removed => "removed"@,
            SnapshotChangeKind::OnlyBefore => "only-before"@,
            SnapshotChangeKind::OnlyAfter => "only-after"@,
            SnapshotChangeKind::Unavailable => "unavailable"@,
        }
    }

    pub fn name(self) -> (r: &'static str)
        ensures
            r@ == self.name_spec(),
    {
        match self {
            SnapshotChangeKind::Unchanged => "unchanged",
            SnapshotChangeKind::Changed => "changed",
            SnapshotChangeKind::Added => "added",
            SnapshotChangeKind::Removed => "removed",
            SnapshotChangeKind::OnlyBefore => "only-before",
            SnapshotChangeKind::OnlyAfter => "only-after",
            SnapshotChangeKind::Unavailable => "unavailable",
        }
    }
}

#[derive(Clone, Copy, Debug, PartialEq, Eq, Structural)]
pub struct SnapshotComparisonStats {
    pub compared_paths: usize,
    pub unchanged: usize,
    pub changed: usize,
    pub added: usize,
    pub removed: usize,
    pub only_before: usize,
    pub only_after: usize,
    pub unavailable: usize,
}

impl SnapshotComparisonStats {
    pub open spec fn zero() -> SnapshotComparisonStats {
        SnapshotComparisonStats {
            compared_paths: 0,
            unchanged: 0,
            changed: 0,
            added: 0,
            removed: 0,
            only_before: 0,
            only_after: 0,
            unavailable: 0,
        }
    }

    /// Every path that was compared is counted under one kind.
    pub open spec fn adds_up(self) -> bool {
        self.compared_paths == self.unchanged + self.changed + self.added + self.removed
            + self.only_before + self.only_after + self.unavailable
    }

    pub open spec fn counted(self, kind: SnapshotChangeKind) -> SnapshotComparisonStats {
        let next = SnapshotComparisonStats {
            compared_paths: (self.compared_paths + 1) as usize,
            ..self
        };
        match kind {
            SnapshotChangeKind::Unchanged => SnapshotComparisonStats {
                unchanged: (self.unchanged + 1) as usize,
                ..next
            },
            SnapshotChangeKind::Changed => SnapshotComparisonStats {
                changed: (self.changed + 1) as usize,
                ..next
            },
            SnapshotChangeKind::Added => SnapshotComparisonStats {
                added: (self.added + 1) as usize,
                ..next
            },
            SnapshotChangeKind::Removed => SnapshotComparisonStats {
                removed: (self.removed + 1) as usize,
                ..next
            },
            SnapshotChangeKind::OnlyBefore => SnapshotComparisonStats {
                only_before: (self.only_before + 1) as usize,
                ..next
            },
            SnapshotChangeKind::OnlyAfter => SnapshotComparisonStats {
                only_after: (self.only_after + 1) as usize,
                ..next
            },
            SnapshotChangeKind::Unavailable => SnapshotComparisonStats {
                unavailable: (self.unavailable + 1) as usize,
                ..next
            },
        }
    }

    pub fn known_differences(self) -> (r: usize)
        requires
            self.changed + self.added + self.removed <= usize::MAX,
        ensures
            r == self.changed + self.added + self.removed,
    {
        self.changed + self.added + self.removed
    }

    pub fn uncertain_paths(self) -> (r: usize)
        requires
            self.only_before + self.only_after + self.unavailable <= usize::MAX,
        ensures
            r == self.only_before + self.only_after + self.unavailable,
    {
        self.only_before + self.only_after + self.unavailable
    }

    fn count(&mut self, kind: SnapshotChangeKind)
        requires
            old(self).adds_up(),
            old(self).compared_paths < usize::MAX,
        ensures
            *final(self) == old(self).counted(kind),
            final(self).adds_up(),
    {
        self.compared_paths = self.compared_paths + 1;
        match kind {
            SnapshotChangeKind::Unchanged => {
                self.unchanged = self.unchanged + 1;
            },
            SnapshotChangeKind::Changed => {
                self.changed = self.changed + 1;
            },
            SnapshotChangeKind::Added => {
                self.added = self.added + 1;
            },
            SnapshotChangeKind::Removed => {
                self.removed = self.removed + 1;
            },
            SnapshotChangeKind::OnlyBefore => {
                self.only_before = self.only_before + 1;
            },
            SnapshotChangeKind::OnlyAfter => {
                self.only_after = self.only_after + 1;
            },
            SnapshotChangeKind::Unavailable => {
                self.unavailable = self.unavailable + 1;
            },
        }
    }
}

/// How one path stands in the two snapshots.
#[derive(Clone, Copy, Debug)]
pub struct SnapshotChange {
    pub before_archive: Sha256Digest,
    pub after_archive: Sha256Digest,
    pub generation: QueryGeneration,
    pub before: Option<usize>,
    pub after: Option<usize>,
    pub kind: SnapshotChangeKind,
}

/// Why two directories are not those of a comparison, if so.
pub open spec fn pair_error(
    before_archive: Seq<u8>,
    after_archive: Seq<u8>,
    expected: QueryGeneration,
    before: DirectoryModel,
    after: DirectoryModel,
    generation: QueryGeneration,
) -> Option<SnapshotCompareError> {
    if before.owner != generation.owner || after.owner != generation.owner {
        Some(SnapshotCompareError::OwnerMismatch)
    } else if before.digest != before_archive || after.digest != after_archive || generation
        != expected {
        Some(SnapshotCompareError::Stale)
    } else {
        None
    }
}

impl SnapshotChange {
    pub open spec fn error(
        self,
        before: DirectoryModel,
        after: DirectoryModel,
        generation: QueryGeneration,
    ) -> Option<SnapshotCompareError> {
        pair_error(
            self.before_archive.data(),
            self.after_archive.data(),
            self.generation,
            before,
            after,
            generation,
        )
    }

    pub fn before_ordinal(self) -> (r: Option<usize>)
        ensures
            r == self.before,
    {
        self.before
    }

    pub fn after_ordinal(self) -> (r: Option<usize>)
        ensures
            r == self.after,
    {
        self.after
    }

    pub fn kind(self) -> (r: SnapshotChangeKind)
        ensures
            r == self.kind,
    {
        self.kind
    }

    pub fn generation(self) -> (r: QueryGeneration)
        ensures
            r == self.generation,
    {
        self.generation
    }

    pub fn validate(
        self,
        before: &SnapshotDirectory,
        after: &SnapshotDirectory,
        generation: QueryGeneration,
    ) -> (r: Result<(), SnapshotCompareError>)
        ensures
            r == (match self.error(before@, after@, generation) {
                Some(e) => Err::<(), SnapshotCompareError>(e),
                None => Ok(()),
            }),
    {
        if before.owner != generation.owner || after.owner != generation.owner {
            return Err(SnapshotCompareError::OwnerMismatch);
        }
        if !before.digest.same(&self.before_archive) || !after.digest.same(&self.after_archive)
            || generation != self.generation {
            return Err(SnapshotCompareError::Stale);
        }
        Ok(())
    }

    /// The path that a change is about.
    pub open spec fn path_spec(self, before: DirectoryModel, after: DirectoryModel) -> Option<
        Seq<u8>,
    > {
        if self.before matches Some(i) && i < before.members.len() {
            Some(before.members[self.before->0 as int].path)
        } else if self.after matches Some(i) && i < after.members.len() {
            Some(after.members[self.after->0 as int].path)
        } else {
            None
        }
    }

    pub fn path<'a>(self, before: &'a SnapshotDirectory, after: &'a SnapshotDirectory) -> (r:
        Result<&'a Vec<u8>, SnapshotCompareError>)
        ensures
            match self.error(before@, after@, self.generation) {
                Some(e) => r matches Err(f) && f == e,
                None => match self.path_spec(before@, after@) {
                    Some(path) => r matches Ok(found) && found@ == path,
                    None => r matches Err(SnapshotCompareError::InvalidPair),
                },
            },
    {
        match self.validate(before, after, self.generation) {
            Ok(()) => {},
            Err(e) => {
                return Err(e);
            },
        }
        if let Some(i) = self.before {
            if i < before.members.len() {
                assert(before@.members[i as int] == before.members@[i as int]@);
                return Ok(&before.members[i].path);
            }
        }
        if let Some(i) = self.after {
            if i < after.members.len() {
                assert(after@.members[i as int] == after.members@[i as int]@);
                return Ok(&after.members[i].path);
            }
        }
        Err(SnapshotCompareError::InvalidPair)
    }
}

/// A comparison that visits one path after the other.
#[derive(Clone, Copy, Debug)]
pub struct SnapshotComparison {
    pub before_archive: Sha256Digest,
    pub after_archive: Sha256Digest,
    pub generation: QueryGeneration,
    pub before: usize,
    pub after: usize,
    pub policies_match: bool,
    pub membership_comparable: bool,
    pub finished: bool,
    pub stats: SnapshotComparisonStats,
}

/// What two records of the same path say.
pub open spec fn same_path_kind(a: MemberModel, b: MemberModel) -> SnapshotChangeKind {
    match (a.data, b.data) {
        (
            PagedMemberData::Captured { byte_length: n, digest: x },
            PagedMemberData::Captured { byte_length: m, digest: y },
        ) => if x == y && n == m {
            SnapshotChangeKind::Unchanged
        } else {
            SnapshotChangeKind::Changed
        },
        _ => SnapshotChangeKind::Unavailable,
    }
}

/// What a record that has no counterpart says.
pub open spec fn lone_kind(
    member: MemberModel,
    proved: bool,
    known: SnapshotChangeKind,
    open: SnapshotChangeKind,
) -> SnapshotChangeKind {
    if member.data is Unavailable {
        SnapshotChangeKind::Unavailable
    } else if proved {
        known
    } else {
        open
    }
}

impl SnapshotComparison {
    pub open spec fn wf(self, before: DirectoryModel, after: DirectoryModel) -> bool {
        &&& before.members.len() + after.members.len() <= usize::MAX
        &&& self.before <= before.members.len()
        &&& self.after <= after.members.len()
        &&& self.stats.adds_up()
        &&& self.stats.compared_paths <= self.before + self.after
    }

    /// The change at the positions, and the comparison behind it.
    pub open spec fn stepped(self, before: DirectoryModel, after: DirectoryModel) -> (
        SnapshotComparison,
        Option<SnapshotChange>,
    ) {
        let i = self.before as int;
        let j = self.after as int;
        let blank = SnapshotChange {
            before_archive: self.before_archive,
            after_archive: self.after_archive,
            generation: self.generation,
            before: None,
            after: None,
            kind: SnapshotChangeKind::Unavailable,
        };
        let left = i < before.members.len();
        let right = j < after.members.len();
        if self.finished {
            (self, None)
        } else if !left && !right {
            (SnapshotComparison { finished: true, ..self }, None)
        } else if left && right && before.members[i].path == after.members[j].path {
            let kind = same_path_kind(before.members[i], after.members[j]);
            (
                SnapshotComparison {
                    before: (i + 1) as usize,
                    after: (j + 1) as usize,
                    stats: self.stats.counted(kind),
                    ..self
                },
                Some(
                    SnapshotChange {
                        before: Some(self.before),
                        after: Some(self.after),
                        kind,
                        ..blank
                    },
                ),
            )
        } else if left && (!right || precedes(before.members[i].path, after.members[j].path)) {
            let kind = lone_kind(
                before.members[i],
                self.policies_match && after.discovery_complete,
                SnapshotChangeKind::Removed,
                SnapshotChangeKind::OnlyBefore,
            );
            (
                SnapshotComparison {
                    before: (i + 1) as usize,
                    stats: self.stats.counted(kind),
                    ..self
                },
                Some(SnapshotChange { before: Some(self.before), kind, ..blank }),
            )
        } else {
            let kind = lone_kind(
                after.members[j],
                self.policies_match && before.discovery_complete,
                SnapshotChangeKind::Added,
                SnapshotChangeKind::OnlyAfter,
            );
            (
                SnapshotComparison {
                    after: (j + 1) as usize,
                    stats: self.stats.counted(kind),
                    ..self
                },
                Some(SnapshotChange { after: Some(self.after), kind, ..blank }),
            )
        }
    }

    pub fn new(
        before: &SnapshotDirectory,
        after: &SnapshotDirectory,
        generation: QueryGeneration,
    ) -> (r: Result<Self, SnapshotCompareError>)
        ensures
            if before@.owner != generation.owner || after@.owner != generation.owner {
                r matches Err(SnapshotCompareError::OwnerMismatch)
            } else {
                let same = before@.policy == after@.policy;
                r matches Ok(c) && c.before_archive == before.digest && c.after_archive
                    == after.digest && c.generation == generation && c.before == 0 && c.after == 0
                    && c.policies_match == same && c.membership_comparable == (same
                    && before@.discovery_complete && after@.discovery_complete) && !c.finished
                    && c.stats == SnapshotComparisonStats::zero()
            },
    {
        if before.owner != generation.owner || after.owner != generation.owner {
            return Err(SnapshotCompareError::OwnerMismatch);
        }
        let policies_match = same_text(before.policy.as_str(), after.policy.as_str());
        Ok(
            SnapshotComparison {
                before_archive: before.digest,
                after_archive: after.digest,
                generation,
                before: 0,
                after: 0,
                policies_match,
                membership_comparable: policies_match && before.discovery_complete
                    && after.discovery_complete,
                finished: false,
                stats: SnapshotComparisonStats {
                    compared_paths: 0,
                    unchanged: 0,
                    changed: 0,
                    added: 0,
                    removed: 0,
                    only_before: 0,
                    only_after: 0,
                    unavailable: 0,
                },
            },
        )
    }

    pub fn stats(&self) -> (r: SnapshotComparisonStats)
        ensures
            r == self.stats,
    {
        self.stats
    }

    pub fn policies_match(&self) -> (r: bool)
        ensures
            r == self.policies_match,
    {
        self.policies_match
    }

    pub fn membership_comparable(&self) -> (r: bool)
        ensures
            r == self.membership_comparable,
    {
        self.membership_comparable
    }

    pub fn finished(&self) -> (r: bool)
        ensures
            r == self.finished,
    {
        self.finished
    }

    /// Compares the next path. No source bytes are loaded.
    pub fn next<C: FnOnce() -> bool>(
        &mut self,
        before: &SnapshotDirectory,
        after: &SnapshotDirectory,
        generation: QueryGeneration,
        canceled: C,
    ) -> (r: Result<Option<SnapshotChange>, SnapshotCompareError>)
        requires
            old(self).wf(before@, after@),
            call_requires(canceled, ()),
        ensures
            final(self).wf(before@, after@),
            match pair_error(
                old(self).before_archive.data(),
                old(self).after_archive.data(),
                old(self).generation,
                before@,
                after@,
                generation,
            ) {
                Some(e) => r == Err::<Option<SnapshotChange>, SnapshotCompareError>(e)
                    && *final(self) == *old(self),
                None => {
                    ||| call_ensures(canceled, (), true) && r == Err::<
                        Option<SnapshotChange>,
                        SnapshotCompareError,
                    >(SnapshotCompareError::Canceled) && *final(self) == *old(self)
                    ||| call_ensures(canceled, (), false) && (r matches Ok(change) && (
                        *final(self),
                        change,
                    ) == old(self).stepped(before@, after@))
                },
            },
    {
        let mut change = SnapshotChange {
            before_archive: self.before_archive,
            after_archive: self.after_archive,
            generation: self.generation,
            before: None,
            after: None,
            kind: SnapshotChangeKind::Unavailable,
        };
        match change.validate(before, after, generation) {
            Ok(()) => {},
            Err(e) => {
                return Err(e);
            },
        }
        if canceled() {
            return Err(SnapshotCompareError::Canceled);
        }
        if self.finished {
            return Ok(None);
        }
        let i: usize = self.before;
        let j: usize = self.after;
        let left = i < before.members.len();
        let right = j < after.members.len();
        if !left && !right {
            self.finished = true;
            return Ok(None);
        }
        if left {
            assert(before@.members[i as int] == before.members@[i as int]@);
        }
        if right {
            assert(after@.members[j as int] == after.members@[j as int]@);
        }
        let order = if left && right {
            proof {
                precedes_is_total(before@.members[i as int].path, after@.members[j as int].path);
            }
            order_paths(&before.members[i].path, &after.members[j].path)
        } else if left {
            PathOrder::Before
        } else {
            PathOrder::After
        };
        match order {
            PathOrder::Same => {
                change.before = Some(i);
                change.after = Some(j);
                change.kind = kind_of_pair(&before.members[i], &after.members[j]);
                self.before = i + 1;
                self.after = j + 1;
            },
            PathOrder::Before => {
                change.before = Some(i);
                change.kind = kind_of_lone(
                    &before.members[i],
                    self.policies_match && after.discovery_complete,
                    SnapshotChangeKind::Removed,
                    SnapshotChangeKind::OnlyBefore,
                );
                self.before = i + 1;
            },
            PathOrder::After => {
                change.after = Some(j);
                change.kind = kind_of_lone(
                    &after.members[j],
                    self.policies_match && before.discovery_complete,
                    SnapshotChangeKind::Added,
                    SnapshotChangeKind::OnlyAfter,
                );
                self.after = j + 1;
            },
        }
        self.stats.count(change.kind);
        Ok(Some(change))
    }
}

fn kind_of_pair(a: &PagedMember, b: &PagedMember) -> (r: SnapshotChangeKind)
    ensures
        r == same_path_kind(a@, b@),
{
    match (a.data, b.data) {
        (
            PagedMemberData::Captured { byte_length: n, digest: x },
            PagedMemberData::Captured { byte_length: m, digest: y },
        ) => if x.same(&y) && n == m {
            SnapshotChangeKind::Unchanged
        } else {
            SnapshotChangeKind::Changed
        },
        _ => SnapshotChangeKind::Unavailable,
    }
}

fn kind_of_lone(
    member: &PagedMember,
    proved: bool,
    known: SnapshotChangeKind,
    open: SnapshotChangeKind,
) -> (r: SnapshotChangeKind)
    ensures
        r == lone_kind(member@, proved, known, open),
{
    match member.data {
        PagedMemberData::Unavailable => SnapshotChangeKind::Unavailable,
        PagedMemberData::Captured { byte_length: _, digest: _ } => if proved {
            known
        } else {
            open
        },
    }
}

/// Whether two texts are the same.
pub fn same_text(a: &str, b: &str) -> (r: bool)
    ensures
        r == (a@ == b@),
{
    let x = a.as_bytes();
    let y = b.as_bytes();
    proof {
        encode_utf8_decode_utf8(a@);
        encode_utf8_decode_utf8(b@);
    }
    if x.len() != y.len() {
        return false;
    }
    let mut i: usize = 0;
    while i < x.len()
        invariant
            i <= x@.len(),
            x@ == encode_utf8(a@),
            y@ == encode_utf8(b@),
            x@.len() == y@.len(),
            forall|j: int| 0 <= j < i ==> x@[j] == y@[j],
        decreases x.len() - i,
    {
        if x[i] != y[i] {
            return false;
        }
        i = i + 1;
    }
    assert(x@ =~= y@);
    true
}

/// Members whose paths come in order, each once.
pub open spec fn in_path_order(members: Seq<MemberModel>) -> bool {
    forall|i: int, j: int|
        0 <= i < j < members.len() ==> precedes(
            #[trigger] members[i].path,
            #[trigger] members[j].path,
        )
}

impl SnapshotComparison {
    /// What has been visited comes before what has not, on both sides.
    pub open spec fn aligned(self, before: DirectoryModel, after: DirectoryModel) -> bool {
        &&& in_path_order(before.members)
        &&& in_path_order(after.members)
        &&& forall|i: int, j: int|
            0 <= i < self.before && self.after <= j < after.members.len() ==> precedes(
                #[trigger] before.members[i].path,
                #[trigger] after.members[j].path,
            )
        &&& forall|i: int, j: int|
            self.before <= i < before.members.len() && 0 <= j < self.after ==> precedes(
                #[trigger] after.members[j].path,
                #[trigger] before.members[i].path,
            )
    }
}

/// Every step keeps what was visited apart from what was not.
pub proof fn steps_stay_aligned(
    c: SnapshotComparison,
    before: DirectoryModel,
    after: DirectoryModel,
)
    requires
        c.wf(before, after),
        c.aligned(before, after),
    ensures
        c.stepped(before, after).0.aligned(before, after),
{
    let next = c.stepped(before, after).0;
    assert forall|i: int, j: int|
        0 <= i < next.before && next.after <= j < after.members.len() implies precedes(
        #[trigger] before.members[i].path,
        #[trigger] after.members[j].path,
    ) by {
        if i >= c.before {
            let here = c.after as int;
            precedes_is_total(before.members[i].path, after.members[here].path);
            if j > here {
                assert(precedes(after.members[here].path, after.members[j].path));
                if before.members[i].path != after.members[here].path {
                    precedes_is_transitive(
                        before.members[i].path,
                        after.members[here].path,
                        after.members[j].path,
                    );
                }
            }
        }
    }
    assert forall|i: int, j: int|
        next.before <= i < before.members.len() && 0 <= j < next.after implies precedes(
        #[trigger] after.members[j].path,
        #[trigger] before.members[i].path,
    ) by {
        if j >= c.after {
            let here = c.before as int;
            precedes_is_total(before.members[here].path, after.members[j].path);
            if i > here {
                assert(precedes(before.members[here].path, before.members[i].path));
                if before.members[here].path != after.members[j].path {
                    precedes_is_transitive(
                        after.members[j].path,
                        before.members[here].path,
                        before.members[i].path,
                    );
                }
            }
        }
    }
}

/// A path that is reported on one side only is on no record of the other side,
/// and one that is reported on both sides is the same path on both.
pub proof fn reports_are_about_the_right_paths(
    c: SnapshotComparison,
    before: DirectoryModel,
    after: DirectoryModel,
)
    requires
        c.wf(before, after),
        c.aligned(before, after),
    ensures
        c.stepped(before, after).1 matches Some(change) ==> match (change.before, change.after) {
            (Some(i), Some(j)) => before.members[i as int].path == after.members[j as int].path,
            (Some(i), None) => forall|j: int|
                0 <= j < after.members.len() ==> (#[trigger] after.members[j]).path
                    != before.members[i as int].path,
            (None, Some(j)) => forall|i: int|
                0 <= i < before.members.len() ==> (#[trigger] before.members[i]).path
                    != after.members[j as int].path,
            (None, None) => false,
        },
{
    if let Some(change) = c.stepped(before, after).1 {
        if change.after is None {
            let i = c.before as int;
            assert forall|j: int| 0 <= j < after.members.len() implies (
            #[trigger] after.members[j]).path != before.members[i].path by {
                precedes_is_total(before.members[i].path, before.members[i].path);
                if j < c.after {
                    assert(precedes(after.members[j].path, before.members[i].path));
                } else {
                    let here = c.after as int;
                    if j > here {
                        assert(precedes(after.members[here].path, after.members[j].path));
                        precedes_is_transitive(
                            before.members[i].path,
                            after.members[here].path,
                            after.members[j].path,
                        );
                    }
                }
            }
        } else if change.before is None {
            let j = c.after as int;
            assert forall|i: int| 0 <= i < before.members.len() implies (
            #[trigger] before.members[i]).path != after.members[j].path by {
                precedes_is_total(after.members[j].path, after.members[j].path);
                if i < c.before {
                    assert(precedes(before.members[i].path, after.members[j].path));
                } else {
                    let here = c.before as int;
                    precedes_is_total(before.members[here].path, after.members[j].path);
                    if i > here {
                        assert(precedes(before.members[here].path, before.members[i].path));
                        precedes_is_transitive(
                            after.members[j].path,
                            before.members[here].path,
                            before.members[i].path,
                        );
                    }
                }
            }
        }
    }
}

/// An addition or a removal is claimed only with equal policies and a closed
/// opposite membership, and nothing is claimed of what could not be saved.
pub proof fn claims_need_closed_membership(
    c: SnapshotComparison,
    before: DirectoryModel,
    after: DirectoryModel,
)
    ensures
        c.stepped(before, after).1 matches Some(change) ==> {
            &&& change.kind is Removed ==> c.policies_match && after.discovery_complete
            &&& change.kind is Added ==> c.policies_match && before.discovery_complete
            &&& (change.before matches Some(i) && before.members[i as int].data is Unavailable)
                ==> change.kind is Unavailable
            &&& (change.after matches Some(j) && after.members[j as int].data is Unavailable)
                ==> change.kind is Unavailable
        },
{
}

/// One of the two snapshots.
#[derive(Clone, Copy, Debug, PartialEq, Eq, Structural)]
pub enum ComparisonSide {
    Before,
    After,
}

/// One version of a source that is compared.
#[derive(Debug)]
pub struct Side {
    pub source: SourceCapture,
    pub request: CaptureRequest,
}

/// The two versions of one source. Reading them never opens an archive or a
/// live path again.
#[derive(Debug)]
pub struct SnapshotPair {
    pub before: Side,
    pub after: Side,
    pub change: SnapshotChange,
}

/// Bytes charged for the two versions.
pub open spec fn pair_charge(old: int, new: int, old_path: int, new_path: int) -> int {
    old + new + (old_path + new_path) * 16 + size_of::<SnapshotPair>() + 512
}

/// The members that a change compares, when it can be compared at all.
pub open spec fn pair_members(
    change: SnapshotChange,
    before: DirectoryModel,
    after: DirectoryModel,
    requests: (CaptureRequest, CaptureRequest),
    generation: QueryGeneration,
    allocations: (u64, u64),
) -> Result<(usize, usize, usize, usize), SnapshotCompareError> {
    if change.error(before, after, generation) is Some {
        Err(change.error(before, after, generation)->0)
    } else if requests.0.file.owner != generation.owner || requests.1.file.owner
        != generation.owner || requests.0.range is Some || requests.1.range is Some || requests.0
        == requests.1 || allocations.0 == allocations.1 {
        Err(SnapshotCompareError::InvalidPair)
    } else {
        match (change.before, change.after) {
            (Some(i), Some(j)) => if i < before.members.len() && j < after.members.len() {
                let a = before.members[i as int];
                let b = after.members[j as int];
                match (a.data, b.data) {
                    (
                        PagedMemberData::Captured { byte_length: n, .. },
                        PagedMemberData::Captured { byte_length: m, .. },
                    ) => if a.path == b.path {
                        Ok((i, j, n, m))
                    } else {
                        Err(SnapshotCompareError::InvalidPair)
                    },
                    _ => Err(SnapshotCompareError::InvalidPair),
                }
            } else {
                Err(SnapshotCompareError::InvalidPair)
            },
            _ => Err(SnapshotCompareError::InvalidPair),
        }
    }
}

/// Whether one version may be loaded so.
pub open spec fn side_loaded<
    L: FnOnce(usize) -> Result<VerifiedMember, PagedSnapshotError>,
    K: Fn(CaptureRequest, usize) -> bool,
    S: Fn(&Vec<u8>) -> String,
>(
    r: Result<Side, SnapshotCompareError>,
    ordinal: usize,
    request: CaptureRequest,
    path: Seq<u8>,
    load: L,
    accepts: K,
    label: S,
) -> bool {
    exists|answer: Result<VerifiedMember, PagedSnapshotError>|
        #[trigger] call_ensures(load, (ordinal,), answer) && match answer {
            Err(e) => r matches Err(SnapshotCompareError::Archive(why)) && why == e,
            Ok(member) => {
                ||| call_ensures(accepts, (request, member@.bytes.len() as usize), false) && (
                r matches Err(SnapshotCompareError::InvalidPair))
                ||| call_ensures(accepts, (request, member@.bytes.len() as usize), true) && (
                r matches Ok(side) && is_side(side, member@.bytes, request, path, label))
            },
        }
}

/// A version holds exactly the bytes that were loaded, under the identity that
/// was asked for.
pub open spec fn is_side<S: Fn(&Vec<u8>) -> String>(
    side: Side,
    bytes: Seq<u8>,
    request: CaptureRequest,
    path: Seq<u8>,
    label: S,
) -> bool {
    &&& side.request == request
    &&& side.source@.owner == request.file.owner
    &&& side.source@.file == request.file
    &&& side.source@.revision == request.revision
    &&& side.source@.bytes == bytes
    &&& exists|native: &Vec<u8>|
        native@ == path && #[trigger] call_ensures(label, (native,), side.source.logical_path)
}

/// Whether both versions may be loaded so, once they were granted.
pub open spec fn sides_loaded<
    L: FnOnce(usize) -> Result<VerifiedMember, PagedSnapshotError>,
    M: FnOnce(usize) -> Result<VerifiedMember, PagedSnapshotError>,
    K: Fn(CaptureRequest, usize) -> bool,
    S: Fn(&Vec<u8>) -> String,
    C: FnMut() -> bool,
>(
    r: Result<SnapshotPair, SnapshotCompareError>,
    change: SnapshotChange,
    ordinals: (usize, usize),
    requests: (CaptureRequest, CaptureRequest),
    path: Seq<u8>,
    load_before: L,
    load_after: M,
    accepts: K,
    label: S,
    canceled: C,
) -> bool {
    exists|old: Result<Side, SnapshotCompareError>|
        #[trigger] side_loaded(old, ordinals.0, requests.0, path, load_before, accepts, label)
            && match old {
            Err(e) => r matches Err(f) && f == e,
            Ok(a) => exists|new: Result<Side, SnapshotCompareError>|
                #[trigger] side_loaded(
                    new,
                    ordinals.1,
                    requests.1,
                    path,
                    load_after,
                    accepts,
                    label,
                ) && match new {
                    Err(e) => r matches Err(f) && f == e,
                    Ok(b) => {
                        ||| call_ensures(canceled, (), true) && (r matches Err(SnapshotCompareError::Canceled))
                        ||| call_ensures(canceled, (), false) && (r matches Ok(pair) && pair
                            == (SnapshotPair { before: a, after: b, change }))
                    },
                },
        }
}

fn load_side<
    L: FnOnce(usize) -> Result<VerifiedMember, PagedSnapshotError>,
    K: Fn(CaptureRequest, usize) -> bool,
    S: Fn(&Vec<u8>) -> String,
>(
    ordinal: usize,
    request: CaptureRequest,
    path: &Vec<u8>,
    load: L,
    accepts: &K,
    label: &S,
) -> (r: Result<Side, SnapshotCompareError>)
    requires
        call_requires(load, (ordinal,)),
        forall|q: CaptureRequest, n: usize| call_requires(*accepts, (q, n)),
        forall|native: &Vec<u8>| call_requires(*label, (native,)),
    ensures
        side_loaded(r, ordinal, request, path@, load, *accepts, *label),
{
    let answer = load(ordinal);
    assert(call_ensures(load, (ordinal,), answer));
    let member = match answer {
        Ok(member) => member,
        Err(e) => {
            return Err(SnapshotCompareError::Archive(e));
        },
    };
    let length: usize = member.bytes.len();
    if !accepts(request, length) {
        return Err(SnapshotCompareError::InvalidPair);
    }
    let logical_path = label(path);
    let side = Side {
        source: SourceCapture {
            owner: request.file.owner,
            file: request.file,
            revision: request.revision,
            logical_path,
            bytes: member.bytes,
        },
        request,
    };
    assert(is_side(side, answer->Ok_0@.bytes, request, path@, *label));
    Ok(side)
}

impl SnapshotPair {
    /// Loads the two versions of a change. The host loads and verifies each
    /// member, says whether it can stand for the request, and makes a label of
    /// its path.
    pub fn load<
        A: FnOnce(u64) -> bool,
        L: FnOnce(usize) -> Result<VerifiedMember, PagedSnapshotError>,
        M: FnOnce(usize) -> Result<VerifiedMember, PagedSnapshotError>,
        K: Fn(CaptureRequest, usize) -> bool,
        S: Fn(&Vec<u8>) -> String,
        C: FnMut() -> bool,
    >(
        before: &SnapshotDirectory,
        after: &SnapshotDirectory,
        change: SnapshotChange,
        requests: (CaptureRequest, CaptureRequest),
        generation: QueryGeneration,
        allocations: (u64, u64),
        reserve: A,
        load_before: L,
        load_after: M,
        accepts: K,
        label: S,
        mut canceled: C,
    ) -> (r: Result<Self, SnapshotCompareError>)
        requires
            forall|charge: u64| call_requires(reserve, (charge,)),
            forall|n: usize| call_requires(load_before, (n,)),
            forall|n: usize| call_requires(load_after, (n,)),
            forall|q: CaptureRequest, n: usize| call_requires(accepts, (q, n)),
            forall|native: &Vec<u8>| call_requires(label, (native,)),
            call_requires(canceled, ()),
        ensures
            match pair_members(change, before@, after@, requests, generation, allocations) {
                Err(e) => r matches Err(f) && f == e,
                Ok((i, j, n, m)) => {
                    let path = before@.members[i as int].path;
                    let charge = pair_charge(
                        n as int,
                        m as int,
                        path.len() as int,
                        path.len() as int,
                    );
                    if charge > usize::MAX {
                        r matches Err(SnapshotCompareError::ResourceDenied)
                    } else {
                        ||| call_ensures(canceled, (), true) && (r matches Err(SnapshotCompareError::Canceled))
                        ||| call_ensures(canceled, (), false) && call_ensures(
                            reserve,
                            (charge as u64,),
                            false,
                        ) && (r matches Err(SnapshotCompareError::ResourceDenied))
                        ||| call_ensures(canceled, (), false) && call_ensures(
                            reserve,
                            (charge as u64,),
                            true,
                        ) && sides_loaded(
                            r,
                            change,
                            (i, j),
                            requests,
                            path,
                            load_before,
                            load_after,
                            accepts,
                            label,
                            canceled,
                        )
                    }
                },
            },
    {
        match change.validate(before, after, generation) {
            Ok(()) => {},
            Err(e) => {
                return Err(e);
            },
        }
        if requests.0.file.owner != generation.owner || requests.1.file.owner != generation.owner
            || requests.0.range.is_some() || requests.1.range.is_some() || requests.0
            == requests.1 || allocations.0 == allocations.1 {
            return Err(SnapshotCompareError::InvalidPair);
        }
        let (i, j): (usize, usize) = match (change.before, change.after) {
            (Some(i), Some(j)) => (i, j),
            _ => {
                return Err(SnapshotCompareError::InvalidPair);
            },
        };
        if i >= before.members.len() || j >= after.members.len() {
            return Err(SnapshotCompareError::InvalidPair);
        }
        assert(before@.members[i as int] == before.members@[i as int]@);
        assert(after@.members[j as int] == after.members@[j as int]@);
        let old = &before.members[i];
        let new = &after.members[j];
        let (n, m): (usize, usize) = match (old.data, new.data) {
            (
                PagedMemberData::Captured { byte_length: n, digest: _ },
                PagedMemberData::Captured { byte_length: m, digest: _ },
            ) => (n, m),
            _ => {
                return Err(SnapshotCompareError::InvalidPair);
            },
        };
        if !same_bytes(&old.path, &new.path) {
            return Err(SnapshotCompareError::InvalidPair);
        }
        let charge: u128 = n as u128 + m as u128 + (old.path.len() as u128 + new.path.len() as u128)
            * 16 + wide_size::<SnapshotPair>() + 512;
        if charge > usize::MAX as u128 {
            return Err(SnapshotCompareError::ResourceDenied);
        }
        if canceled() {
            return Err(SnapshotCompareError::Canceled);
        }
        if !reserve(charge as u64) {
            return Err(SnapshotCompareError::ResourceDenied);
        }
        let first = load_side(i, requests.0, &old.path, load_before, &accepts, &label);
        let ghost a = first;
        let old_side = match first {
            Ok(side) => side,
            Err(e) => {
                return Err(e);
            },
        };
        let second = load_side(j, requests.1, &new.path, load_after, &accepts, &label);
        let ghost b = second;
        let new_side = match second {
            Ok(side) => side,
            Err(e) => {
                return Err(e);
            },
        };
        if canceled() {
            return Err(SnapshotCompareError::Canceled);
        }
        Ok(SnapshotPair { before: old_side, after: new_side, change })
    }

    pub fn change(&self) -> (r: SnapshotChange)
        ensures
            r == self.change,
    {
        self.change
    }

    pub open spec fn side_spec(self, side: ComparisonSide) -> Side {
        match side {
            ComparisonSide::Before => self.before,
            ComparisonSide::After => self.after,
        }
    }

    fn side(&self, side: ComparisonSide) -> (r: &Side)
        ensures
            *r == self.side_spec(side),
    {
        match side {
            ComparisonSide::Before => &self.before,
            ComparisonSide::After => &self.after,
        }
    }

    pub fn request(&self, side: ComparisonSide) -> (r: CaptureRequest)
        ensures
            r == self.side_spec(side).request,
    {
        self.side(side).request
    }

    pub fn bytes(&self, side: ComparisonSide) -> (r: &Vec<u8>)
        ensures
            r@ == self.side_spec(side).source@.bytes,
    {
        &self.side(side).source.bytes
    }

    /// Compares the two versions with the host's engine, within its limits and in
    /// the generation of the change alone.
    pub fn compare<T, L, E, B: FnOnce(&SnapshotPair, QueryGeneration, L) -> Result<T, E>>(
        &self,
        generation: QueryGeneration,
        limits: L,
        build: B,
    ) -> (r: Result<T, SnapshotCompareError<E>>)
        requires
            call_requires(build, (self, generation, limits)),
        ensures
            if generation != self.change.generation {
                r matches Err(SnapshotCompareError::Stale)
            } else {
                match r {
                    Ok(found) => call_ensures(build, (self, generation, limits), Ok(found)),
                    Err(SnapshotCompareError::Analysis(e)) => call_ensures(
                        build,
                        (self, generation, limits),
                        Err(e),
                    ),
                    Err(_) => false,
                }
            },
    {
        if generation != self.change.generation {
            return Err(SnapshotCompareError::Stale);
        }
        match build(self, generation, limits) {
            Ok(found) => Ok(found),
            Err(e) => Err(SnapshotCompareError::Analysis(e)),
        }
    }

    /// Prepares reading. `encoding` is what the first bytes tell.
    pub fn reader<A: FnOnce(u64) -> bool>(
        &self,
        side: ComparisonSide,
        encoding: DetectedEncoding,
        limits: ReaderLimits,
        reserve: A,
    ) -> (r: Result<ComparisonReader<'_>, ReaderError>)
        requires
            self.side_spec(side).source@.bytes.len() < usize::MAX,
            forall|charge: u64| call_requires(reserve, (charge,)),
        ensures
            ({
                let charge = index_charge(limits.capacity(self.side_spec(side).source@.bytes.len() as int));
                if !limits.valid() || charge > usize::MAX {
                    r matches Err(e) && e == ReaderError::InvalidLimits
                } else {
                    exists|granted: bool|
                        #[trigger] call_ensures(reserve, (charge as u64,), granted) && match r {
                            Ok(reader) => granted && reader.inner.source@ == self.side_spec(side).source@
                                && reader.inner.index@ == IndexModel::fresh(
                                self.side_spec(side).source@,
                                encoding,
                                limits,
                            ) && reader.inner.wf(),
                            Err(e) => !granted && e == ReaderError::ResourceDenied,
                        }
                }
            }),
    {
        match SourceReader::new(&self.side(side).source, encoding, limits, reserve) {
            Ok(inner) => Ok(ComparisonReader { inner }),
            Err(e) => Err(e),
        }
    }
}

/// Reads one version. Only borrowed results leave it.
#[derive(Debug)]
pub struct ComparisonReader<'a> {
    pub inner: SourceReader<'a>,
}

impl<'a> ComparisonReader<'a> {
    pub fn seek(&self, target: ReadingTarget, generation: QueryGeneration) -> (r: Result<
        ReadingSeek<'a>,
        ReaderError,
    >)
        requires
            self.inner.wf(),
        ensures
            match self.inner.index@.request(self.inner.source@, target, generation) {
                Ok(parts) => r matches Ok(seek) && seek.source == self.inner.source && seek.parts
                    == parts && seek.wf(),
                Err(e) => r matches Err(f) && f == e,
            },
    {
        self.inner.seek(target, generation)
    }

    pub fn window<
        A: FnOnce(u64) -> bool,
        D: FnOnce(usize, usize, DetectedEncoding) -> Option<WindowMap>,
        C: FnMut() -> bool,
    >(
        &self,
        anchor: ReadingAnchor,
        generation: QueryGeneration,
        options: ReadingWindowOptions,
        reserve: A,
        decode: D,
        canceled: C,
    ) -> (r: Result<ReadingWindow<'a>, ReaderError>)
        requires
            forall|charge: u64| call_requires(reserve, (charge,)),
            forall|from: usize, to: usize, e: DetectedEncoding|
                from <= to <= self.inner.source@.bytes.len() ==> call_requires(decode, (from, to, e)),
            call_requires(canceled, ()),
        ensures
            r matches Ok(window) ==> window@.wf() && window.source == self.inner.source,
            gave_up(r, canceled) || exists|granted: bool, decoded: Option<WindowMap>|
                #[trigger] window_answers(
                    self.inner.index@,
                    self.inner.source@,
                    anchor,
                    generation,
                    options,
                    granted,
                    decoded,
                    reserve,
                    decode,
                ) && is_window(
                    r,
                    windowed(
                        self.inner.index@,
                        self.inner.source@,
                        anchor,
                        generation,
                        options,
                        granted,
                        maybe(decoded),
                    ),
                ),
    {
        self.inner.window(anchor, generation, options, reserve, decode, canceled)
    }
}

} // verus!
