//! Reading trails: selections of saved sources, each with a note.
//!
//! A selection names exact bytes of an exact archive. A changed archive never
//! receives an old note because it holds an equal path or similar text.
pub mod places;

use vstd::layout::size_of;
use vstd::prelude::*;

use crate::capture::text_len;
use crate::envelope::{put_raw, Sha256Digest};
use crate::identity::{ByteRange, FileId, QueryGeneration, SourceRevision};
use crate::memory::wide_size;
use crate::model::group_views;
use crate::search::archive::{
    first_at, DirectoryModel, PagedMemberData, PagedSnapshotError, SnapshotDirectory,
};
use crate::search::member_scan::VerifiedMember;
use crate::search::paged_snapshot::{is_loaded, PagedCapture, PagedReader, PagedSearchError};
use crate::search::reader::{
    index_charge, DetectedEncoding, IndexModel, ReaderError, ReaderLimits,
};

verus! {

broadcast use group_views;

/// Why a trail could not be read or written.
#[derive(Clone, Copy, Debug, PartialEq, Eq, Structural)]
pub enum TrailError {
    Text,
    Limit,
    ResourceDenied,
    Canceled,
    MissingItem,
    Failed,
}

#[derive(Clone, Copy, Debug, PartialEq, Eq, Structural)]
pub enum TrailReadError {
    Format(TrailError),
    Archive(PagedSnapshotError),
    Capture(PagedSearchError),
    OtherArchive,
    MissingMember,
    UnavailableMember,
    ChangedSource,
    InvalidRange,
    StaleDelivery,
    OwnerMismatch,
    GenerationExhausted,
}

impl TrailReadError {
    /// The stable code of an error, where it is one of this library's.
    pub open spec fn code_spec(self) -> Option<Seq<char>> {
        match self {
            TrailReadError::Format(_) => None,
            TrailReadError::Archive(_) => None,
            TrailReadError::Capture(e) => e.code_spec(),
            TrailReadError::OtherArchive => Some("TRAIL_OTHER_ARCHIVE"@),
            TrailReadError::MissingMember => Some("TRAIL_MEMBER_MISSING"@),
            TrailReadError::UnavailableMember => Some("TRAIL_MEMBER_UNAVAILABLE"@),
            TrailReadError::ChangedSource => Some("TRAIL_SOURCE_CHANGED"@),
            TrailReadError::InvalidRange => Some("TRAIL_INVALID_RANGE"@),
            TrailReadError::StaleDelivery => Some("TRAIL_STALE_DELIVERY"@),
            TrailReadError::OwnerMismatch => Some("TRAIL_OWNER_MISMATCH"@),
            TrailReadError::GenerationExhausted => Some("TRAIL_GENERATION_EXHAUSTED"@),
        }
    }

    pub fn code(&self) -> (r: Option<&'static str>)
        ensures
            match self.code_spec() {
                Some(code) => r matches Some(text) && text@ == code,
                None => r is None,
            },
    {
        match self {
            TrailReadError::Format(_) => None,
            TrailReadError::Archive(_) => None,
            TrailReadError::Capture(e) => e.code(),
            TrailReadError::OtherArchive => Some("TRAIL_OTHER_ARCHIVE"),
            TrailReadError::MissingMember => Some("TRAIL_MEMBER_MISSING"),
            TrailReadError::UnavailableMember => Some("TRAIL_MEMBER_UNAVAILABLE"),
            TrailReadError::ChangedSource => Some("TRAIL_SOURCE_CHANGED"),
            TrailReadError::InvalidRange => Some("TRAIL_INVALID_RANGE"),
            TrailReadError::StaleDelivery => Some("TRAIL_STALE_DELIVERY"),
            TrailReadError::OwnerMismatch => Some("TRAIL_OWNER_MISMATCH"),
            TrailReadError::GenerationExhausted => Some("TRAIL_GENERATION_EXHAUSTED"),
        }
    }
}

/// A selection of a saved source, with the reason for it.
#[derive(Debug)]
pub struct TrailEntry {
    pub archive: Sha256Digest,
    pub source: Sha256Digest,
    pub source_length: u64,
    pub path: Vec<u8>,
    pub range: ByteRange,
    pub rationale: String,
}

/// A trail that the host has decoded.
#[derive(Debug)]
pub struct TrailView {
    pub title: String,
    pub digest: Sha256Digest,
    pub entries: Vec<TrailEntry>,
}

/// The saved bytes that a path names, when a range of them can be selected.
pub open spec fn selectable(directory: DirectoryModel, path: Seq<u8>, range: ByteRange) -> Result<
    (usize, usize, Seq<u8>),
    TrailReadError,
> {
    match first_at(directory.members, path, 0) {
        None => Err(TrailReadError::MissingMember),
        Some(ordinal) => match directory.members[ordinal as int].data {
            PagedMemberData::Unavailable => Err(TrailReadError::UnavailableMember),
            PagedMemberData::Captured { byte_length, digest } => if range.end > byte_length {
                Err(TrailReadError::InvalidRange)
            } else {
                Ok((ordinal, byte_length, digest))
            },
        },
    }
}

/// Whether a selection may be made so, when the host loads its member.
pub open spec fn is_pinned<
    L: FnOnce(usize) -> Result<VerifiedMember, PagedSnapshotError>,
    C: FnOnce() -> bool,
>(
    r: Result<TrailEntry, TrailReadError>,
    archive: Sha256Digest,
    path: Seq<u8>,
    range: ByteRange,
    rationale: Seq<char>,
    ordinal: usize,
    length: usize,
    digest: Seq<u8>,
    load: L,
    canceled: C,
) -> bool {
    exists|answer: Result<VerifiedMember, PagedSnapshotError>|
        #[trigger] call_ensures(load, (ordinal,), answer) && match answer {
            Err(e) => r matches Err(f) && f == TrailReadError::Archive(e),
            Ok(member) => if member@.source.data() != digest || member@.bytes.len() != length {
                r matches Err(f) && f == TrailReadError::ChangedSource
            } else {
                match r {
                    Err(f) => f == TrailReadError::Archive(PagedSnapshotError::Canceled)
                        && call_ensures(canceled, (), true),
                    Ok(entry) => call_ensures(canceled, (), false) && entry.archive == archive
                        && entry.source.data() == digest && entry.source_length == length
                        && entry.path@ == path && entry.range == range && entry.rationale@
                        == rationale,
                }
            },
        }
}

/// Selects a range of a saved source, once the source was loaded and verified.
/// A note may take at most `max_note` bytes.
pub fn pin_selection<
    L: FnOnce(usize) -> Result<VerifiedMember, PagedSnapshotError>,
    C: FnOnce() -> bool,
>(
    directory: &SnapshotDirectory,
    native_path: &Vec<u8>,
    range: ByteRange,
    rationale: String,
    max_note: usize,
    load: L,
    canceled: C,
) -> (r: Result<TrailEntry, TrailReadError>)
    requires
        forall|n: usize| call_requires(load, (n,)),
        call_requires(canceled, ()),
    ensures
        if text_len(rationale@) > max_note {
            r matches Err(e) && e == TrailReadError::Format(TrailError::Text)
        } else {
            match selectable(directory@, native_path@, range) {
                Err(e) => r matches Err(f) && f == e,
                Ok((ordinal, length, digest)) => is_pinned(
                    r,
                    directory.digest,
                    native_path@,
                    range,
                    rationale@,
                    ordinal,
                    length,
                    digest,
                    load,
                    canceled,
                ),
            }
        },
{
    if rationale.as_str().as_bytes().len() > max_note {
        return Err(TrailReadError::Format(TrailError::Text));
    }
    let ordinal = match directory.find_path(native_path) {
        Some(ordinal) => ordinal,
        None => {
            return Err(TrailReadError::MissingMember);
        },
    };
    assert(directory@.members[ordinal as int] == directory.members@[ordinal as int]@);
    let member = &directory.members[ordinal];
    let (length, source): (usize, Sha256Digest) = match member.data {
        PagedMemberData::Captured { byte_length, digest } => (byte_length, digest),
        PagedMemberData::Unavailable => {
            return Err(TrailReadError::UnavailableMember);
        },
    };
    if range.end > length as u64 {
        return Err(TrailReadError::InvalidRange);
    }
    assert(selectable(directory@, native_path@, range) == Ok::<
        (usize, usize, Seq<u8>),
        TrailReadError,
    >((ordinal, length, source.data())));
    let answer = load(ordinal);
    assert(call_ensures(load, (ordinal,), answer));
    let verified = match answer {
        Ok(verified) => verified,
        Err(e) => {
            return Err(TrailReadError::Archive(e));
        },
    };
    if !verified.source.same(&source) || verified.bytes.len() != length {
        return Err(TrailReadError::ChangedSource);
    }
    if canceled() {
        return Err(TrailReadError::Archive(PagedSnapshotError::Canceled));
    }
    let mut path: Vec<u8> = Vec::new();
    put_raw(&mut path, member.path.as_slice());
    assert(path@ =~= native_path@);
    Ok(
        TrailEntry {
            archive: directory.digest,
            source,
            source_length: length as u64,
            path,
            range,
            rationale,
        },
    )
}

/// Bytes charged for listing `count` selections.
pub open spec fn trail_charge(count: int) -> int {
    count * size_of::<&TrailEntry>() + size_of::<Vec<&TrailEntry>>()
}

/// The selections of a trail and one more.
pub open spec fn extended(previous: Option<&TrailView>, selection: &TrailEntry) -> Seq<TrailEntry> {
    match previous {
        Some(view) => view.entries@.push(*selection),
        None => seq![*selection],
    }
}

/// Whether the host writes exactly these selections, in this order.
pub open spec fn was_written<
    T,
    E: FnOnce(&str, Option<Sha256Digest>, &Vec<&TrailEntry>) -> Result<T, TrailError>,
>(
    previous: Option<&TrailView>,
    title: Seq<char>,
    selection: &TrailEntry,
    r: Result<T, TrailError>,
    encode: E,
) -> bool {
    exists|name: &str, entries: &Vec<&TrailEntry>|
        entries@.len() == extended(previous, selection).len() && (forall|i: int|
            0 <= i < entries@.len() ==> *(#[trigger] entries@[i]) == extended(
                previous,
                selection,
            )[i]) && name@ == (match previous {
            Some(view) => view.title@,
            None => title,
        }) && #[trigger] call_ensures(
            encode,
            (name, earlier_digest(previous), entries),
            r,
        )
}

/// The digest of the trail that is continued.
pub open spec fn earlier_digest(previous: Option<&TrailView>) -> Option<Sha256Digest> {
    match previous {
        Some(view) => Some(view.digest),
        None => None,
    }
}

/// Writes a new trail: all earlier selections with their notes, and one more.
/// Repeated selections stay apart. A trail that would be too long is refused,
/// not shortened. A trail holds at most `max_items` selections.
pub fn append_selection<
    T,
    A: FnOnce(u64) -> bool,
    E: FnOnce(&str, Option<Sha256Digest>, &Vec<&TrailEntry>) -> Result<T, TrailError>,
    C: Fn() -> bool,
>(
    previous: Option<&TrailView>,
    title: &str,
    selection: &TrailEntry,
    max_items: usize,
    allocations: (u64, u64),
    reserve: A,
    encode: E,
    canceled: C,
) -> (r: Result<T, TrailError>)
    requires
        forall|charge: u64| call_requires(reserve, (charge,)),
        forall|name: &str, earlier: Option<Sha256Digest>, entries: &Vec<&TrailEntry>|
            call_requires(encode, (name, earlier, entries)),
        call_requires(canceled, ()),
    ensures
        ({
            let count = extended(previous, selection).len() as int;
            let charge = trail_charge(count);
            if count > max_items || allocations.0 == allocations.1 || charge > usize::MAX {
                r matches Err(e) && e == TrailError::Limit
            } else {
                ||| call_ensures(reserve, (charge as u64,), false) && (r matches Err(e) && e
                    == TrailError::ResourceDenied)
                ||| call_ensures(reserve, (charge as u64,), true) && (r matches Err(e) && e
                    == TrailError::Canceled) && call_ensures(canceled, (), true)
                ||| call_ensures(reserve, (charge as u64,), true) && was_written(
                    previous,
                    title@,
                    selection,
                    r,
                    encode,
                )
            }
        }),
{
    let earlier: usize = match previous {
        Some(view) => view.entries.len(),
        None => 0,
    };
    if earlier >= max_items || allocations.0 == allocations.1 {
        return Err(TrailError::Limit);
    }
    let count: usize = earlier + 1;
    let row: u128 = wide_size::<&TrailEntry>();
    let rows: u128 = match (count as u128).checked_mul(row) {
        Some(rows) => rows,
        None => {
            return Err(TrailError::Limit);
        },
    };
    if rows > usize::MAX as u128 {
        return Err(TrailError::Limit);
    }
    let charge: u128 = rows + wide_size::<Vec<&TrailEntry>>();
    if charge > usize::MAX as u128 {
        return Err(TrailError::Limit);
    }
    if !reserve(charge as u64) {
        return Err(TrailError::ResourceDenied);
    }
    let mut entries: Vec<&TrailEntry> = Vec::new();
    if let Some(view) = previous {
        let mut i: usize = 0;
        #[verifier::loop_isolation(false)]
        while i < earlier
            invariant
                i <= earlier == view.entries@.len(),
                entries@.len() == i,
                forall|j: int| 0 <= j < i ==> *(#[trigger] entries@[j]) == view.entries@[j],
            decreases earlier - i,
        {
            if canceled() {
                return Err(TrailError::Canceled);
            }
            entries.push(&view.entries[i]);
            i = i + 1;
        }
    }
    entries.push(selection);
    let name: &str = match previous {
        Some(view) => view.title.as_str(),
        None => title,
    };
    let before: Option<Sha256Digest> = match previous {
        Some(view) => Some(view.digest),
        None => None,
    };
    let r = encode(name, before, &entries);
    assert(call_ensures(encode, (name, earlier_digest(previous), &entries), r));
    assert(was_written(previous, title@, selection, r, encode));
    r
}

/// The member that a selection names, when it is still the same.
pub open spec fn resolved(entry: TrailEntry, directory: DirectoryModel) -> Result<
    usize,
    TrailReadError,
> {
    if entry.archive.data() != directory.digest {
        Err(TrailReadError::OtherArchive)
    } else {
        match first_at(directory.members, entry.path@, 0) {
            None => Err(TrailReadError::MissingMember),
            Some(ordinal) => match directory.members[ordinal as int].data {
                PagedMemberData::Unavailable => Err(TrailReadError::UnavailableMember),
                PagedMemberData::Captured { byte_length, digest } => if digest
                    != entry.source.data() || byte_length != entry.source_length {
                    Err(TrailReadError::ChangedSource)
                } else if entry.range.end > byte_length {
                    Err(TrailReadError::InvalidRange)
                } else {
                    Ok(ordinal)
                },
            },
        }
    }
}

/// Finds what a selection names, by what is known of the archive. That its bytes
/// can still be read is not claimed.
pub fn resolve_selection(entry: &TrailEntry, directory: &SnapshotDirectory) -> (r: Result<
    usize,
    TrailReadError,
>)
    ensures
        r == resolved(*entry, directory@),
        r matches Ok(ordinal) ==> ordinal < directory@.members.len(),
{
    if !entry.archive.same(&directory.digest) {
        return Err(TrailReadError::OtherArchive);
    }
    let ordinal: usize = match directory.find_path(&entry.path) {
        Some(ordinal) => ordinal,
        None => {
            return Err(TrailReadError::MissingMember);
        },
    };
    assert(directory@.members[ordinal as int] == directory.members@[ordinal as int]@);
    match directory.members[ordinal].data {
        PagedMemberData::Unavailable => Err(TrailReadError::UnavailableMember),
        PagedMemberData::Captured { byte_length, digest } => {
            if !digest.same(&entry.source) || byte_length as u64 != entry.source_length {
                return Err(TrailReadError::ChangedSource);
            }
            if entry.range.end > byte_length as u64 {
                return Err(TrailReadError::InvalidRange);
            }
            Ok(ordinal)
        },
    }
}

/// A place in a trail. Every move makes a new generation.
#[derive(Debug)]
pub struct TrailNavigator<'a> {
    pub view: &'a TrailView,
    pub current: Option<usize>,
    pub generation: QueryGeneration,
}

impl<'a> TrailNavigator<'a> {
    pub open spec fn wf(self) -> bool {
        self.current matches Some(i) ==> i < self.view.entries@.len()
    }

    /// The navigator after selecting a place.
    pub open spec fn selected(self, ordinal: usize) -> Result<TrailNavigator<'a>, TrailReadError> {
        if ordinal >= self.view.entries@.len() {
            Err(TrailReadError::Format(TrailError::MissingItem))
        } else if self.current == Some(ordinal) {
            Ok(self)
        } else if self.generation.value == u64::MAX {
            Err(TrailReadError::GenerationExhausted)
        } else {
            Ok(
                TrailNavigator {
                    view: self.view,
                    current: Some(ordinal),
                    generation: QueryGeneration {
                        owner: self.generation.owner,
                        value: (self.generation.value + 1) as u64,
                    },
                },
            )
        }
    }

    /// The navigator after a move to a place, if there is one to move to.
    pub open spec fn moved(self, to: Option<usize>) -> Result<
        (TrailNavigator<'a>, bool),
        TrailReadError,
    > {
        match to {
            None => Ok((self, false)),
            Some(ordinal) => match self.selected(ordinal) {
                Ok(next) => Ok((next, true)),
                Err(e) => Err(e),
            },
        }
    }

    pub open spec fn following(self) -> Option<usize> {
        match self.current {
            Some(i) => if i + 1 < self.view.entries@.len() {
                Some((i + 1) as usize)
            } else {
                None
            },
            None => None,
        }
    }

    pub open spec fn preceding(self) -> Option<usize> {
        match self.current {
            Some(i) => if i > 0 {
                Some((i - 1) as usize)
            } else {
                None
            },
            None => None,
        }
    }

    pub fn new(view: &'a TrailView, generation: QueryGeneration) -> (r: Self)
        ensures
            r.wf(),
            r == (TrailNavigator {
                view,
                current: if view.entries@.len() == 0 {
                    None
                } else {
                    Some(0usize)
                },
                generation,
            }),
    {
        TrailNavigator {
            view,
            current: if view.entries.len() == 0 {
                None
            } else {
                Some(0)
            },
            generation,
        }
    }

    pub fn generation(&self) -> (r: QueryGeneration)
        ensures
            r == self.generation,
    {
        self.generation
    }

    pub fn current_ordinal(&self) -> (r: Option<usize>)
        ensures
            r == self.current,
    {
        self.current
    }

    pub fn select(&mut self, ordinal: usize) -> (r: Result<(), TrailReadError>)
        requires
            old(self).wf(),
        ensures
            final(self).wf(),
            match old(self).selected(ordinal) {
                Ok(next) => r is Ok && *final(self) == next,
                Err(e) => r == Err::<(), TrailReadError>(e) && *final(self) == *old(self),
            },
    {
        if ordinal >= self.view.entries.len() {
            return Err(TrailReadError::Format(TrailError::MissingItem));
        }
        if let Some(at) = self.current {
            if at == ordinal {
                return Ok(());
            }
        }
        if self.generation.value == u64::MAX {
            return Err(TrailReadError::GenerationExhausted);
        }
        self.current = Some(ordinal);
        self.generation = QueryGeneration {
            owner: self.generation.owner,
            value: self.generation.value + 1,
        };
        Ok(())
    }

    pub fn next(&mut self) -> (r: Result<bool, TrailReadError>)
        requires
            old(self).wf(),
        ensures
            final(self).wf(),
            match old(self).moved(old(self).following()) {
                Ok((next, went)) => r == Ok::<bool, TrailReadError>(went) && *final(self) == next,
                Err(e) => r == Err::<bool, TrailReadError>(e) && *final(self) == *old(self),
            },
    {
        let ordinal: usize = match self.current {
            Some(i) => {
                let count: usize = self.view.entries.len();
                if count - i <= 1 {
                    return Ok(false);
                }
                i + 1
            },
            None => {
                return Ok(false);
            },
        };
        match self.select(ordinal) {
            Ok(()) => Ok(true),
            Err(e) => Err(e),
        }
    }

    pub fn previous(&mut self) -> (r: Result<bool, TrailReadError>)
        requires
            old(self).wf(),
        ensures
            final(self).wf(),
            match old(self).moved(old(self).preceding()) {
                Ok((next, went)) => r == Ok::<bool, TrailReadError>(went) && *final(self) == next,
                Err(e) => r == Err::<bool, TrailReadError>(e) && *final(self) == *old(self),
            },
    {
        let ordinal: usize = match self.current {
            Some(i) => {
                if i == 0 {
                    return Ok(false);
                }
                i - 1
            },
            None => {
                return Ok(false);
            },
        };
        match self.select(ordinal) {
            Ok(()) => Ok(true),
            Err(e) => Err(e),
        }
    }

    pub fn target(&self) -> (r: Option<TrailTarget<'a>>)
        requires
            self.wf(),
        ensures
            match self.current {
                Some(i) => r matches Some(target) && *target.entry == self.view.entries@[i as int]
                    && target.ordinal == i && target.trail == self.view.digest && target.generation
                    == self.generation,
                None => r is None,
            },
    {
        match self.current {
            Some(ordinal) => Some(
                TrailTarget {
                    entry: &self.view.entries[ordinal],
                    ordinal,
                    trail: self.view.digest,
                    generation: self.generation,
                },
            ),
            None => None,
        }
    }
}

/// Going on and coming back leads to the same place.
pub proof fn previous_undoes_next(navigator: TrailNavigator)
    requires
        navigator.wf(),
        navigator.following() is Some,
        navigator.view.entries@.len() <= usize::MAX,
        navigator.generation.value + 2 <= u64::MAX,
    ensures
        ({
            let there = navigator.moved(navigator.following())->Ok_0.0;
            let back = there.moved(there.preceding());
            back matches Ok((navigator_back, went)) && went && navigator_back.current
                == navigator.current && navigator_back.view == navigator.view
        }),
{
}

/// A target that was taken before a move is no longer the current one.
pub proof fn moves_make_targets_stale(
    navigator: TrailNavigator,
    ordinal: usize,
    target: TrailTarget,
)
    requires
        navigator.wf(),
        target.generation == navigator.generation,
        navigator.current != Some(ordinal),
        navigator.selected(ordinal) is Ok,
    ensures
        target.delivery_error(
            target.trail.data(),
            navigator.selected(ordinal)->Ok_0.generation,
        ) == Some(TrailReadError::StaleDelivery),
{
}

/// Appending keeps every earlier selection where it was, and adds one.
pub proof fn appending_keeps_every_visit(view: &TrailView, selection: &TrailEntry, i: int)
    requires
        0 <= i < view.entries@.len(),
    ensures
        extended(Some(view), selection)[i] == view.entries@[i],
        extended(Some(view), selection).len() == view.entries@.len() + 1,
        extended(Some(view), selection).last() == *selection,
{
}

/// A selection to be opened.
#[derive(Clone, Copy, Debug)]
pub struct TrailTarget<'a> {
    pub entry: &'a TrailEntry,
    pub ordinal: usize,
    pub trail: Sha256Digest,
    pub generation: QueryGeneration,
}

/// Whether a selection may be opened so, once its member is found.
pub open spec fn target_opened<
    'a,
    L: FnOnce(usize) -> Result<VerifiedMember, PagedSnapshotError>,
    A: FnOnce(u64) -> bool,
    S: FnOnce(&Vec<u8>) -> String,
    C: Fn() -> bool,
>(
    r: Result<TrailCapture<'a>, TrailReadError>,
    target: TrailTarget<'a>,
    directory: DirectoryModel,
    ordinal: usize,
    file: FileId,
    revision: SourceRevision,
    allocations: (u64, u64),
    load: L,
    reserve: A,
    label: S,
    canceled: C,
) -> bool {
    exists|loaded: Result<PagedCapture, PagedSearchError>|
        #[trigger] is_loaded(
            loaded,
            directory,
            ordinal,
            file,
            revision,
            allocations,
            load,
            reserve,
            label,
            canceled,
        ) && match loaded {
            Err(e) => r matches Err(f) && f == TrailReadError::Capture(e),
            Ok(capture) => if capture.digest.data() != target.entry.source.data()
                || capture.source@.bytes.len() != target.entry.source_length {
                r matches Err(f) && f == TrailReadError::ChangedSource
            } else if target.entry.range.start > target.entry.range.end
                || target.entry.range.end > capture.source@.bytes.len() {
                r matches Err(f) && f == TrailReadError::InvalidRange
            } else {
                ||| call_ensures(canceled, (), true) && (r matches Err(f) && f
                    == TrailReadError::Archive(PagedSnapshotError::Canceled))
                ||| call_ensures(canceled, (), false) && (r matches Ok(opened) && opened.target
                    == target && opened.capture == capture)
            },
        }
}

impl<'a> TrailTarget<'a> {
    pub fn entry(self) -> (r: &'a TrailEntry)
        ensures
            r == self.entry,
    {
        self.entry
    }

    pub fn ordinal(self) -> (r: usize)
        ensures
            r == self.ordinal,
    {
        self.ordinal
    }

    pub fn trail_digest(self) -> (r: Sha256Digest)
        ensures
            r == self.trail,
    {
        self.trail
    }

    pub fn generation(self) -> (r: QueryGeneration)
        ensures
            r == self.generation,
    {
        self.generation
    }

    pub open spec fn delivery_error(self, trail: Seq<u8>, generation: QueryGeneration) -> Option<
        TrailReadError,
    > {
        if self.trail.data() != trail || self.generation != generation {
            Some(TrailReadError::StaleDelivery)
        } else {
            None
        }
    }

    pub fn validate_delivery(self, trail: &Sha256Digest, generation: QueryGeneration) -> (r: Result<
        (),
        TrailReadError,
    >)
        ensures
            match self.delivery_error(trail.data(), generation) {
                Some(e) => r == Err::<(), TrailReadError>(e),
                None => r is Ok,
            },
    {
        if !self.trail.same(trail) || self.generation != generation {
            return Err(TrailReadError::StaleDelivery);
        }
        Ok(())
    }

    /// Opens a selection under fresh identities. The host holds the archive; a
    /// path grants nothing.
    pub fn open<
        L: FnOnce(usize) -> Result<VerifiedMember, PagedSnapshotError>,
        A: FnOnce(u64) -> bool,
        S: FnOnce(&Vec<u8>) -> String,
        C: Fn() -> bool,
    >(
        self,
        directory: &SnapshotDirectory,
        active_trail: &Sha256Digest,
        generation: QueryGeneration,
        file: FileId,
        revision: SourceRevision,
        allocations: (u64, u64),
        load: L,
        reserve: A,
        label: S,
        canceled: C,
    ) -> (r: Result<TrailCapture<'a>, TrailReadError>)
        requires
            forall|n: usize| call_requires(load, (n,)),
            forall|charge: u64| call_requires(reserve, (charge,)),
            forall|path: &Vec<u8>| call_requires(label, (path,)),
            call_requires(canceled, ()),
        ensures
            r matches Ok(opened) ==> opened.wf(),
            match self.delivery_error(active_trail.data(), generation) {
                Some(e) => r matches Err(f) && f == e,
                None => if file.owner != self.generation.owner || revision.owner != file.owner
                    || directory@.owner != file.owner {
                    r matches Err(f) && f == TrailReadError::OwnerMismatch
                } else {
                    match resolved(*self.entry, directory@) {
                        Err(e) => r matches Err(f) && f == e,
                        Ok(ordinal) => target_opened(
                            r,
                            self,
                            directory@,
                            ordinal,
                            file,
                            revision,
                            allocations,
                            load,
                            reserve,
                            label,
                            canceled,
                        ),
                    }
                },
            },
    {
        match self.validate_delivery(active_trail, generation) {
            Ok(()) => {},
            Err(e) => {
                return Err(e);
            },
        }
        if file.owner != self.generation.owner || revision.owner != file.owner || directory.owner
            != file.owner {
            return Err(TrailReadError::OwnerMismatch);
        }
        let ordinal: usize = match resolve_selection(self.entry, directory) {
            Ok(ordinal) => ordinal,
            Err(e) => {
                return Err(e);
            },
        };
        let host = &canceled;
        let asks = || -> (stop: bool)
            ensures
                call_ensures(*host, (), stop),
            { host() };
        let loaded = PagedCapture::load(
            directory,
            ordinal,
            file,
            revision,
            allocations,
            load,
            reserve,
            label,
            asks,
        );
        assert(is_loaded(
            loaded,
            directory@,
            ordinal,
            file,
            revision,
            allocations,
            load,
            reserve,
            label,
            canceled,
        ));
        let capture = match loaded {
            Ok(capture) => capture,
            Err(e) => {
                return Err(TrailReadError::Capture(e));
            },
        };
        if !capture.digest.same(&self.entry.source) || capture.source.bytes.len() as u64
            != self.entry.source_length {
            return Err(TrailReadError::ChangedSource);
        }
        if self.entry.range.start > self.entry.range.end || self.entry.range.end
            > capture.source.bytes.len() as u64 {
            return Err(TrailReadError::InvalidRange);
        }
        if canceled() {
            return Err(TrailReadError::Archive(PagedSnapshotError::Canceled));
        }
        Ok(TrailCapture { target: self, capture })
    }
}

/// A selection with the exact source it was made in.
#[derive(Debug)]
pub struct TrailCapture<'a> {
    pub target: TrailTarget<'a>,
    pub capture: PagedCapture,
}

impl<'a> TrailCapture<'a> {
    /// The selected range lies in the source.
    pub open spec fn wf(self) -> bool {
        self.target.entry.range.start <= self.target.entry.range.end
            <= self.capture.source@.bytes.len()
    }

    pub fn target(&self) -> (r: TrailTarget<'a>)
        ensures
            r == self.target,
    {
        self.target
    }

    pub fn selected_bytes(&self) -> (r: &[u8])
        requires
            self.wf(),
        ensures
            r@ == self.capture.source@.bytes.subrange(
                self.target.entry.range.start as int,
                self.target.entry.range.end as int,
            ),
    {
        let n: usize = self.capture.source.bytes.len();
        assert(self.target.entry.range.end <= n);
        vstd::slice::slice_subrange(
            self.capture.source.bytes.as_slice(),
            self.target.entry.range.start as usize,
            self.target.entry.range.end as usize,
        )
    }

    /// Prepares reading. `encoding` is what the first bytes tell.
    pub fn reader<A: FnOnce(u64) -> bool>(
        &self,
        encoding: DetectedEncoding,
        limits: ReaderLimits,
        reserve: A,
    ) -> (r: Result<PagedReader<'_>, ReaderError>)
        requires
            self.capture.source@.bytes.len() < usize::MAX,
            forall|charge: u64| call_requires(reserve, (charge,)),
        ensures
            ({
                let charge = index_charge(limits.capacity(self.capture.source@.bytes.len() as int));
                if !limits.valid() || charge > usize::MAX {
                    r matches Err(e) && e == ReaderError::InvalidLimits
                } else {
                    exists|granted: bool|
                        #[trigger] call_ensures(reserve, (charge as u64,), granted) && match r {
                            Ok(reader) => granted && reader.inner.source@ == self.capture.source@
                                && reader.inner.index@ == IndexModel::fresh(
                                self.capture.source@,
                                encoding,
                                limits,
                            ) && reader.inner.wf(),
                            Err(e) => !granted && e == ReaderError::ResourceDenied,
                        }
                }
            }),
    {
        self.capture.reader(encoding, limits, reserve)
    }
}

} // verus!
