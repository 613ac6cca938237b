//! Saving the captures of a workspace, and reading them back.
//!
//! A save is built from captures that are held, not from a second reading of the
//! sources. Saved identities are never trusted: the host supplies fresh ones.
pub mod reading_back;

use vstd::layout::size_of;
use vstd::prelude::*;
use vstd::utf8::{decode_utf8, valid_utf8};

use crate::capture::{byte_len, text_len, CaptureModel, SourceCapture};
use crate::envelope::{put_raw, text_from_utf8, Sha256Digest};
use crate::identity::{FileId, SourceRevision};
use crate::memory::wide_size;
use crate::model::{group_views, views};
use crate::search::extent_navigation::SearchManifestId;
use crate::search::reader::{
    index_charge, DetectedEncoding, IndexModel, ReaderError, ReaderLimits, SourceReader,
};
use crate::search::source::{CaptureRequest, SourceError};
use crate::search::workspace::captures::{
    CaptureSlot, ManifestLimits, MembershipState, WorkspaceCaptureFailure, WorkspaceCaptures,
};
use crate::search::workspace::{WorkspaceCatalog, WorkspaceError};

verus! {

broadcast use group_views;

/// Why saving or reading back failed; `F` is what the host says of a failed
/// archive, `I` what it says of a failed index.
#[derive(Clone, Copy, Debug, PartialEq, Eq)]
pub enum SavedSourceError<F = (), I = ()> {
    Format(F),
    Workspace(WorkspaceError),
    Index(I),
    OwnerMismatch,
    IdentityExhausted,
    ResourceDenied,
    Canceled,
    MissingCapture,
}

impl<F, I> SavedSourceError<F, I> {
    /// The stable code of an error, where it is one of this library's.
    pub open spec fn code_spec(self) -> Option<Seq<char>> {
        match self {
            SavedSourceError::Format(_) => None,
            SavedSourceError::Workspace(e) => e.code_spec(),
            SavedSourceError::Index(_) => None,
            SavedSourceError::OwnerMismatch => Some("SNAPSHOT_OWNER_MISMATCH"@),
            SavedSourceError::IdentityExhausted => Some("SNAPSHOT_IDENTITY_EXHAUSTED"@),
            SavedSourceError::ResourceDenied => Some("SNAPSHOT_RESOURCE_DENIED"@),
            SavedSourceError::Canceled => Some("SNAPSHOT_CANCELED"@),
            SavedSourceError::MissingCapture => Some("SNAPSHOT_MISSING_CAPTURE"@),
        }
    }

    pub fn code(&self) -> (r: Option<&'static str>)
        ensures
            match self.code_spec() {
                Some(code) => r matches Some(text) && text@ == code,
                None => r is None,
            },
    {
        match self {
            SavedSourceError::Format(_) => None,
            SavedSourceError::Workspace(e) => e.code(),
            SavedSourceError::Index(_) => None,
            SavedSourceError::OwnerMismatch => Some("SNAPSHOT_OWNER_MISMATCH"),
            SavedSourceError::IdentityExhausted => Some("SNAPSHOT_IDENTITY_EXHAUSTED"),
            SavedSourceError::ResourceDenied => Some("SNAPSHOT_RESOURCE_DENIED"),
            SavedSourceError::Canceled => Some("SNAPSHOT_CANCELED"),
            SavedSourceError::MissingCapture => Some("SNAPSHOT_MISSING_CAPTURE"),
        }
    }
}

/// What is saved of a file.
#[derive(Clone, Copy, Debug)]
pub enum SnapshotData<'a> {
    Captured(&'a Vec<u8>),
    Unavailable(WorkspaceCaptureFailure),
}

/// A file to be saved.
#[derive(Clone, Copy, Debug)]
pub struct SnapshotEntry<'a> {
    pub path: &'a Vec<u8>,
    pub observed_bytes: u64,
    pub data: SnapshotData<'a>,
}

/// Whether an entry saves the `i`th file: its exact bytes, or why there are none.
pub open spec fn saves(entry: SnapshotEntry, captures: WorkspaceCaptures, i: int) -> bool {
    &&& entry.path@ == captures.catalog@.entries[i].path
    &&& match captures.slots@[i] {
        CaptureSlot::Ready(capture) => entry.observed_bytes == capture.bytes@.len() && (
        entry.data matches SnapshotData::Captured(bytes) && bytes@ == capture.bytes@),
        CaptureSlot::Unavailable(reason) => entry.observed_bytes
            == captures.catalog@.entries[i].observed_bytes && entry.data
            == SnapshotData::Unavailable(reason),
        CaptureSlot::Pending => false,
    }
}

/// Whether entries save every file, in order.
pub open spec fn saves_all(entries: Seq<SnapshotEntry>, captures: WorkspaceCaptures) -> bool {
    &&& entries.len() == captures.slots@.len()
    &&& forall|i: int| 0 <= i < entries.len() ==> saves(#[trigger] entries[i], captures, i)
}

/// Bytes charged for listing `files` files.
pub open spec fn export_charge(files: int) -> int {
    files * size_of::<SnapshotEntry>() + size_of::<Vec<SnapshotEntry>>()
}

/// Whether the host makes an archive of exactly these captures.
pub open spec fn was_encoded<
    T,
    F,
    E: FnOnce(bool, &str, &Vec<SnapshotEntry<'_>>) -> Result<T, F>,
>(captures: WorkspaceCaptures, made: Result<T, F>, encode: E) -> bool {
    exists|policy: &str, entries: &Vec<SnapshotEntry<'_>>|
        saves_all(entries@, captures) && policy_of(captures.catalog, policy@)
            && #[trigger] call_ensures(
            encode,
            (captures.catalog@.discovery_complete, policy, entries),
            made,
        )
}

/// Whether this is the name of a catalog's policy.
pub open spec fn policy_of(catalog: &WorkspaceCatalog, name: Seq<char>) -> bool {
    name == match catalog@.policy_key {
        Some(key) => key,
        None => if catalog@.include_excluded {
            "all-regular-files/no-rule-files-v1"@
        } else {
            "product-defaults/no-rule-files-v1"@
        },
    }
}

/// Makes an archive of finished captures. Incomplete discovery and unavailable
/// files are kept as such. The host encodes the entries.
pub fn export_workspace<
    T,
    F,
    A: FnOnce(u64) -> bool,
    V: FnMut() -> Option<SourceError>,
    E: FnOnce(bool, &str, &Vec<SnapshotEntry<'_>>) -> Result<T, F>,
    C: FnMut() -> bool,
>(
    captures: &WorkspaceCaptures<'_>,
    mut refused: V,
    reserve: A,
    encode: E,
    mut canceled: C,
) -> (r: Result<T, SavedSourceError<F>>)
    requires
        captures.wf(),
        call_requires(refused, ()),
        forall|charge: u64| call_requires(reserve, (charge,)),
        forall|complete: bool, policy: &str, entries: &Vec<SnapshotEntry<'_>>|
            call_requires(encode, (complete, policy, entries)),
        call_requires(canceled, ()),
    ensures
        ({
            let charge = export_charge(captures.slots@.len() as int);
            match r {
                Ok(bytes) => captures.done() && charge <= usize::MAX && call_ensures(
                    reserve,
                    (charge as u64,),
                    true,
                ) && was_encoded(*captures, Ok(bytes), encode) && call_ensures(refused, (), None)
                    && call_ensures(canceled, (), false),
                Err(SavedSourceError::Workspace(WorkspaceError::Source(e))) => call_ensures(
                    refused,
                    (),
                    Some(e),
                ),
                Err(SavedSourceError::Workspace(e)) => e is Pending
                    && !captures.done(),
                Err(SavedSourceError::ResourceDenied) => captures.done() && (charge > usize::MAX
                    || call_ensures(reserve, (charge as u64,), false)),
                Err(SavedSourceError::Canceled) => captures.done() && call_ensures(
                    canceled,
                    (),
                    true,
                ),
                Err(SavedSourceError::Format(e)) => captures.done() && was_encoded(
                    *captures,
                    Err::<T, F>(e),
                    encode,
                ),
                Err(_) => false,
            }
        }),
{
    let catalog: &WorkspaceCatalog = captures.catalog;
    if let Some(e) = refused() {
        return Err(SavedSourceError::Workspace(WorkspaceError::Source(e)));
    }
    if !captures.finished() {
        return Err(SavedSourceError::Workspace(WorkspaceError::Pending));
    }
    let count: usize = captures.slots.len();
    let row: u128 = wide_size::<SnapshotEntry>();
    let wide: u128 = count as u128;
    assert(count == catalog.entries.len());
    assert(0 <= wide * row <= 65_536 * 0xffff_ffff_ffff_ffff) by (nonlinear_arith)
        requires
            0 <= wide <= 65_536,
            0 <= row <= 0xffff_ffff_ffff_ffff,
    ;
    let charge: u128 = wide * row + wide_size::<Vec<SnapshotEntry>>();
    if charge > usize::MAX as u128 {
        return Err(SavedSourceError::ResourceDenied);
    }
    if !reserve(charge as u64) {
        return Err(SavedSourceError::ResourceDenied);
    }
    let ghost asked = canceled;
    let mut entries: Vec<SnapshotEntry<'_>> = Vec::new();
    let mut i: usize = 0;
    #[verifier::loop_isolation(false)]
    while i < count
        invariant
            i <= count == captures.slots@.len(),
            captures.wf(),
            captures.done(),
            catalog == captures.catalog,
            call_requires(canceled, ()),
            canceled == asked,
            entries@.len() == i,
            forall|j: int| 0 <= j < i ==> saves(#[trigger] entries@[j], *captures, j),
        decreases count - i,
    {
        if canceled() {
            return Err(SavedSourceError::Canceled);
        }
        assert(catalog@.entries[i as int] == catalog.entries@[i as int]@);
        let entry = &catalog.entries[i];
        let saved = match &captures.slots[i] {
            CaptureSlot::Ready(capture) => SnapshotEntry {
                path: &entry.path,
                observed_bytes: capture.bytes.len() as u64,
                data: SnapshotData::Captured(&capture.bytes),
            },
            CaptureSlot::Unavailable(reason) => SnapshotEntry {
                path: &entry.path,
                observed_bytes: entry.observed_bytes,
                data: SnapshotData::Unavailable(*reason),
            },
            CaptureSlot::Pending => {
                return Err(SavedSourceError::MissingCapture);
            },
        };
        assert(saves(saved, *captures, i as int));
        entries.push(saved);
        i = i + 1;
    }
    let policy = catalog.policy_name();
    let made = encode(catalog.discovery_complete, policy, &entries);
    assert(saves_all(entries@, *captures));
    assert(policy_of(captures.catalog, policy@));
    assert(was_encoded(*captures, made, encode)) by {
        assert(call_ensures(
            encode,
            (captures.catalog@.discovery_complete, policy, &entries),
            made,
        ));
    }
    let bytes = match made {
        Ok(bytes) => bytes,
        Err(e) => {
            return Err(SavedSourceError::Format(e));
        },
    };
    if let Some(e) = refused() {
        return Err(SavedSourceError::Workspace(WorkspaceError::Source(e)));
    }
    if canceled() {
        return Err(SavedSourceError::Canceled);
    }
    Ok(bytes)
}

/// What an archive holds of a file.
#[derive(Debug)]
pub enum SavedData {
    Captured(Vec<u8>),
    Unavailable(String),
}

/// A file of an archive.
#[derive(Debug)]
pub struct SavedEntry {
    pub path: Vec<u8>,
    pub observed_bytes: u64,
    pub data: SavedData,
}

/// What the host found when it opened an archive.
#[derive(Debug)]
pub struct SnapshotView {
    pub len: usize,
    pub path_bytes: usize,
    pub source_bytes: usize,
    pub discovery_complete: bool,
    pub policy: String,
    pub digest: Sha256Digest,
}

/// A file read back from an archive. Its path names nothing live.
#[derive(Debug)]
pub struct SavedMember {
    pub file: FileId,
    pub path: Vec<u8>,
    pub observed_bytes: u64,
    pub source: Option<SourceCapture>,
    pub unavailable: Option<String>,
}

impl SavedMember {
    pub fn file_id(&self) -> (r: FileId)
        ensures
            r == self.file,
    {
        self.file
    }

    pub fn path(&self) -> (r: &Vec<u8>)
        ensures
            r@ == self.path@,
    {
        &self.path
    }

    pub fn observed_bytes(&self) -> (r: u64)
        ensures
            r == self.observed_bytes,
    {
        self.observed_bytes
    }

    pub fn capture(&self) -> (r: Option<&SourceCapture>)
        ensures
            match self.source {
                Some(source) => r matches Some(found) && *found == source,
                None => r is None,
            },
    {
        match &self.source {
            Some(source) => Some(source),
            None => None,
        }
    }

    pub fn unavailable_reason(&self) -> (r: Option<&str>)
        ensures
            match self.unavailable {
                Some(reason) => r matches Some(found) && found@ == reason@,
                None => r is None,
            },
    {
        match &self.unavailable {
            Some(reason) => Some(reason.as_str()),
            None => None,
        }
    }
}

/// An archive's files, under fresh identities.
#[derive(Debug)]
pub struct SavedWorkspace {
    pub id: SearchManifestId,
    pub first_file: FileId,
    pub complete: bool,
    pub policy: String,
    pub digest: Sha256Digest,
    pub members: Vec<SavedMember>,
}

/// Bytes charged for reading an archive back.
pub open spec fn restore_charge(view: SnapshotView) -> int {
    view.path_bytes * 16 + view.source_bytes + view.len * (size_of::<SavedMember>() + 256)
        + size_of::<SavedWorkspace>() + text_len(view.policy@)
}

/// Whether a file is shown under this label: its path's text, or what the host
/// makes of a path that is no text.
pub open spec fn is_label<S: Fn(&Vec<u8>) -> String>(
    label: Seq<char>,
    path: Seq<u8>,
    escape: S,
) -> bool {
    if valid_utf8(path) {
        label == decode_utf8(path)
    } else {
        exists|native: &Vec<u8>, text: String|
            native@ == path && label == text@ && #[trigger] call_ensures(escape, (native,), text)
    }
}

/// Whether a member is an entry read back, with its exact bytes, under the
/// `i`th of the fresh identities.
pub open spec fn is_restored<S: Fn(&Vec<u8>) -> String>(
    member: SavedMember,
    entry: SavedEntry,
    first_file: FileId,
    first_revision: SourceRevision,
    i: int,
    escape: S,
) -> bool {
    let file = FileId { owner: first_file.owner, value: (first_file.value + i) as u64 };
    &&& member.file == file
    &&& member.path@ == entry.path@
    &&& member.observed_bytes == entry.observed_bytes
    &&& match entry.data {
        SavedData::Captured(bytes) => {
            &&& member.unavailable is None
            &&& member.source matches Some(source)
            &&& source@.owner == file.owner
            &&& source@.file == file
            &&& source@.revision == (SourceRevision {
                owner: file.owner,
                value: (first_revision.value + i) as u64,
            })
            &&& source@.bytes == bytes@
            &&& is_label(source@.logical_path, entry.path@, escape)
        },
        SavedData::Unavailable(reason) => {
            &&& member.source is None
            &&& member.unavailable matches Some(kept)
            &&& kept@ == reason@
        },
    }
}

/// Whether a member is what the host decoded at its place, read back.
pub open spec fn member_restored<
    F,
    S: Fn(&Vec<u8>) -> String,
    E: Fn(usize) -> Result<SavedEntry, F>,
>(
    member: SavedMember,
    first_file: FileId,
    first_revision: SourceRevision,
    i: usize,
    entry: E,
    escape: S,
) -> bool {
    exists|found: SavedEntry|
        #[trigger] call_ensures(entry, (i,), Ok(found)) && is_restored(
            member,
            found,
            first_file,
            first_revision,
            i as int,
            escape,
        )
}

/// Why an archive cannot be read back under these identities, if so.
pub open spec fn restore_error<F>(
    view: SnapshotView,
    id: SearchManifestId,
    first_file: FileId,
    first_revision: SourceRevision,
) -> Option<SavedSourceError<F>> {
    if id.owner != first_file.owner || id.owner != first_revision.owner {
        Some(SavedSourceError::OwnerMismatch)
    } else if view.len > 0 && (first_file.value + view.len - 1 > u64::MAX || first_revision.value
        + view.len - 1 > u64::MAX) {
        Some(SavedSourceError::IdentityExhausted)
    } else if restore_charge(view) > usize::MAX {
        Some(SavedSourceError::ResourceDenied)
    } else {
        None
    }
}

fn label_of<S: Fn(&Vec<u8>) -> String>(path: &Vec<u8>, escape: &S) -> (r: String)
    requires
        forall|native: &Vec<u8>| call_requires(*escape, (native,)),
    ensures
        is_label(r@, path@, *escape),
{
    let mut copy: Vec<u8> = Vec::new();
    put_raw(&mut copy, path.as_slice());
    assert(copy@ =~= path@);
    match text_from_utf8(copy) {
        Some(text) => text,
        None => {
            let label = escape(path);
            assert(call_ensures(*escape, (path,), label));
            label
        },
    }
}

impl SavedWorkspace {
    pub open spec fn wf(self) -> bool {
        &&& self.first_file.owner == self.id.owner
        &&& self.members@.len() > 0 ==> self.first_file.value + self.members@.len() - 1 <= u64::MAX
        &&& forall|i: int|
            0 <= i < self.members@.len() ==> (#[trigger] self.members@[i]).file == (FileId {
                owner: self.id.owner,
                value: (self.first_file.value + i) as u64,
            })
    }

    /// Reads an archive back. The host decodes each entry and says whether its
    /// bytes can stand for a request.
    pub fn restore<
        F,
        A: FnOnce(u64) -> bool,
        E: Fn(usize) -> Result<SavedEntry, F>,
        K: Fn(CaptureRequest, usize) -> Result<(), F>,
        S: Fn(&Vec<u8>) -> String,
        C: FnMut() -> bool,
    >(
        view: SnapshotView,
        id: SearchManifestId,
        first_file: FileId,
        first_revision: SourceRevision,
        reserve: A,
        entry: E,
        accepts: K,
        escape: S,
        mut canceled: C,
    ) -> (r: Result<Self, SavedSourceError<F>>)
        requires
            forall|charge: u64| call_requires(reserve, (charge,)),
            forall|i: usize| call_requires(entry, (i,)),
            forall|request: CaptureRequest, n: usize| call_requires(accepts, (request, n)),
            forall|native: &Vec<u8>| call_requires(escape, (native,)),
            call_requires(canceled, ()),
        ensures
            match restore_error::<F>(view, id, first_file, first_revision) {
                Some(e) => r matches Err(f) && f == e,
                None => match r {
                    Ok(saved) => {
                        &&& call_ensures(reserve, (restore_charge(view) as u64,), true)
                        &&& saved.wf()
                        &&& saved.id == id
                        &&& saved.first_file == first_file
                        &&& saved.complete == view.discovery_complete
                        &&& saved.policy@ == view.policy@
                        &&& saved.digest == view.digest
                        &&& saved.members@.len() == view.len
                        &&& forall|i: usize|
                            i < view.len ==> member_restored(
                                #[trigger] saved.members@[i as int],
                                first_file,
                                first_revision,
                                i,
                                entry,
                                escape,
                            )
                    },
                    Err(SavedSourceError::Canceled) => call_ensures(canceled, (), true),
                    Err(SavedSourceError::ResourceDenied) => call_ensures(
                        reserve,
                        (restore_charge(view) as u64,),
                        false,
                    ),
                    Err(SavedSourceError::Format(e)) => some_entry_refused(
                        first_file,
                        first_revision,
                        view.len,
                        entry,
                        accepts,
                        e,
                    ),
                    Err(_) => false,
                },
            },
    {
        if id.owner != first_file.owner || id.owner != first_revision.owner {
            return Err(SavedSourceError::OwnerMismatch);
        }
        if view.len > 0 && ((view.len - 1) as u64 > u64::MAX - first_file.value || (view.len
            - 1) as u64 > u64::MAX - first_revision.value) {
            return Err(SavedSourceError::IdentityExhausted);
        }
        let row: u128 = wide_size::<SavedMember>() + 256;
        let rows: u128 = match (view.len as u128).checked_mul(row) {
            Some(rows) => rows,
            None => {
                return Err(SavedSourceError::ResourceDenied);
            },
        };
        if rows > usize::MAX as u128 {
            return Err(SavedSourceError::ResourceDenied);
        }
        let charge: u128 = view.path_bytes as u128 * 16 + view.source_bytes as u128 + rows
            + wide_size::<SavedWorkspace>() + byte_len(&view.policy) as u128;
        if charge > usize::MAX as u128 {
            return Err(SavedSourceError::ResourceDenied);
        }
        if canceled() {
            return Err(SavedSourceError::Canceled);
        }
        if !reserve(charge as u64) {
            return Err(SavedSourceError::ResourceDenied);
        }
        let ghost asked = canceled;
        let mut members: Vec<SavedMember> = Vec::new();
        let count: usize = view.len;
        let mut i: usize = 0;
        #[verifier::loop_isolation(false)]
        while i < count
            invariant
                i <= count == view.len,
                restore_error::<F>(view, id, first_file, first_revision) is None,
                id.owner == first_file.owner,
                first_file.value + view.len - 1 <= u64::MAX || view.len == 0,
                first_revision.value + view.len - 1 <= u64::MAX || view.len == 0,
                forall|i: usize| call_requires(entry, (i,)),
                forall|request: CaptureRequest, n: usize| call_requires(accepts, (request, n)),
                forall|native: &Vec<u8>| call_requires(escape, (native,)),
                call_requires(canceled, ()),
                canceled == asked,
                members@.len() == i,
                forall|j: usize|
                    j < i ==> member_restored(
                        #[trigger] members@[j as int],
                        first_file,
                        first_revision,
                        j,
                        entry,
                        escape,
                    ),
            decreases count - i,
        {
            if canceled() {
                return Err(SavedSourceError::Canceled);
            }
            let answer = entry(i);
            assert(call_ensures(entry, (i,), answer));
            let found = match answer {
                Ok(found) => found,
                Err(e) => {
                    assert(refused_entry(first_file, first_revision, i, entry, accepts, e));
                    return Err(SavedSourceError::Format(e));
                },
            };
            let ghost decoded = found;
            let file = FileId { owner: id.owner, value: first_file.value + i as u64 };
            let revision = SourceRevision {
                owner: id.owner,
                value: first_revision.value + i as u64,
            };
            let SavedEntry { path, observed_bytes, data } = found;
            let member = match data {
                SavedData::Captured(bytes) => {
                    let request = CaptureRequest { file, revision, range: None };
                    if let Err(e) = accepts(request, bytes.len()) {
                        assert(refused_entry(first_file, first_revision, i, entry, accepts, e));
                        return Err(SavedSourceError::Format(e));
                    }
                    let logical_path = label_of(&path, &escape);
                    SavedMember {
                        file,
                        path,
                        observed_bytes,
                        source: Some(
                            SourceCapture { owner: id.owner, file, revision, logical_path, bytes },
                        ),
                        unavailable: None,
                    }
                },
                SavedData::Unavailable(reason) => SavedMember {
                    file,
                    path,
                    observed_bytes,
                    source: None,
                    unavailable: Some(reason),
                },
            };
            assert(is_restored(member, decoded, first_file, first_revision, i as int, escape));
            assert(member_restored(member, first_file, first_revision, i, entry, escape));
            members.push(member);
            i = i + 1;
        }
        if canceled() {
            return Err(SavedSourceError::Canceled);
        }
        assert forall|j: int| 0 <= j < members@.len() implies (#[trigger] members@[j]).file == (
        FileId { owner: id.owner, value: (first_file.value + j) as u64 }) by {
            let k = j as usize;
            assert(member_restored(members@[k as int], first_file, first_revision, k, entry, escape));
        }
        Ok(
            SavedWorkspace {
                id,
                first_file,
                complete: view.discovery_complete,
                policy: view.policy,
                digest: view.digest,
                members,
            },
        )
    }

    pub fn id(&self) -> (r: SearchManifestId)
        ensures
            r == self.id,
    {
        self.id
    }

    pub fn discovery_complete(&self) -> (r: bool)
        ensures
            r == self.complete,
    {
        self.complete
    }

    pub fn policy(&self) -> (r: &str)
        ensures
            r@ == self.policy@,
    {
        self.policy.as_str()
    }

    pub fn digest(&self) -> (r: Sha256Digest)
        ensures
            r == self.digest,
    {
        self.digest
    }

    pub fn members(&self) -> (r: &Vec<SavedMember>)
        ensures
            *r == self.members,
    {
        &self.members
    }

    /// The place of a file.
    pub open spec fn place(self, file: FileId) -> Option<int> {
        let at = file.value - self.first_file.value;
        if file.owner == self.id.owner && 0 <= at < self.members@.len() {
            Some(at)
        } else {
            None
        }
    }

    pub fn member(&self, file: FileId) -> (r: Option<&SavedMember>)
        ensures
            match self.place(file) {
                Some(i) => r matches Some(found) && *found == self.members@[i],
                None => r is None,
            },
    {
        if file.owner != self.id.owner || file.value < self.first_file.value {
            return None;
        }
        let at: u64 = file.value - self.first_file.value;
        if at >= self.members.len() as u64 {
            return None;
        }
        Some(&self.members[at as usize])
    }

    /// Prepares reading a saved file. `encoding` is what its first bytes tell.
    pub fn reader<A: FnOnce(u64) -> bool>(
        &self,
        file: FileId,
        encoding: DetectedEncoding,
        limits: ReaderLimits,
        reserve: A,
    ) -> (r: Result<SourceReader<'_>, ReaderError>)
        requires
            forall|i: int|
                0 <= i < self.members@.len() ==> ((#[trigger] self.members@[i]).source matches Some(
                    source,
                ) ==> source@.bytes.len() < usize::MAX),
            forall|charge: u64| call_requires(reserve, (charge,)),
        ensures
            match self.source_of(file) {
                None => r matches Err(e) && e == ReaderError::StaleSource,
                Some(source) => {
                    let charge = index_charge(limits.capacity(source.bytes.len() as int));
                    if !limits.valid() || charge > usize::MAX {
                        r matches Err(e) && e == ReaderError::InvalidLimits
                    } else {
                        exists|granted: bool|
                            #[trigger] call_ensures(reserve, (charge as u64,), granted) && match r {
                                Ok(reader) => granted && reader.source@ == source
                                    && reader.index@ == IndexModel::fresh(
                                    source,
                                    encoding,
                                    limits,
                                ) && reader.wf(),
                                Err(e) => !granted && e == ReaderError::ResourceDenied,
                            }
                    }
                },
            },
    {
        match self.member(file) {
            Some(member) => match &member.source {
                Some(source) => SourceReader::new(source, encoding, limits, reserve),
                None => Err(ReaderError::StaleSource),
            },
            None => Err(ReaderError::StaleSource),
        }
    }

    /// The saved bytes of a file.
    pub open spec fn source_of(self, file: FileId) -> Option<CaptureModel> {
        match self.place(file) {
            Some(i) => match self.members@[i].source {
                Some(source) => Some(source@),
                None => None,
            },
            None => None,
        }
    }

    /// Hands the saved files to a search.
    pub fn search_inputs<A: FnOnce(u64) -> bool, C: FnMut() -> bool>(
        &self,
        reserve: A,
        mut canceled: C,
    ) -> (r: Result<SavedSearchInputs<'_>, SavedSourceError>)
        requires
            forall|charge: u64| call_requires(reserve, (charge,)),
            call_requires(canceled, ()),
        ensures
            ({
                let charge = saved_inputs_charge(self.members@.len() as int);
                if charge > usize::MAX {
                    r matches Err(SavedSourceError::ResourceDenied)
                } else {
                    exists|granted: bool|
                        #[trigger] call_ensures(reserve, (charge as u64,), granted) && match r {
                            Ok(inputs) => granted && inputs.workspace == self && views(
                                inputs.documents@,
                            ) == saved_upto(self.members@, self.members@.len() as int)
                                && inputs.unavailable@ == missing_upto(
                                self.members@,
                                self.members@.len() as int,
                            ),
                            Err(e) => if granted {
                                e is Canceled && call_ensures(canceled, (), true)
                            } else {
                                e is ResourceDenied
                            },
                        }
                }
            }),
    {
        let count: usize = self.members.len();
        let row: u128 = wide_size::<SavedDocument>() + wide_size::<FileId>();
        let rows: u128 = match (count as u128).checked_mul(row) {
            Some(rows) => rows,
            None => {
                return Err(SavedSourceError::ResourceDenied);
            },
        };
        if rows > usize::MAX as u128 {
            return Err(SavedSourceError::ResourceDenied);
        }
        let charge: u128 = rows + wide_size::<SavedSearchInputs>();
        if charge > usize::MAX as u128 {
            return Err(SavedSourceError::ResourceDenied);
        }
        let granted = reserve(charge as u64);
        assert(call_ensures(reserve, (saved_inputs_charge(count as int) as u64,), granted));
        if !granted {
            return Err(SavedSourceError::ResourceDenied);
        }
        let ghost asked = canceled;
        let mut documents: Vec<SavedDocument> = Vec::new();
        let mut unavailable: Vec<FileId> = Vec::new();
        let mut i: usize = 0;
        #[verifier::loop_isolation(false)]
        while i < count
            invariant
                i <= count == self.members@.len(),
                saved_inputs_charge(count as int) <= usize::MAX,
                call_ensures(reserve, (saved_inputs_charge(count as int) as u64,), true),
                call_requires(canceled, ()),
                canceled == asked,
                views(documents@) == saved_upto(self.members@, i as int),
                unavailable@ == missing_upto(self.members@, i as int),
            decreases count - i,
        {
            if canceled() {
                return Err(SavedSourceError::Canceled);
            }
            let member = &self.members[i];
            match &member.source {
                Some(source) => documents.push(SavedDocument { file: member.file, source }),
                None => unavailable.push(member.file),
            }
            i = i + 1;
        }
        Ok(SavedSearchInputs { workspace: self, documents, unavailable })
    }
}

/// Whether the host gives this reason against one of the entries.
pub open spec fn some_entry_refused<
    F,
    E: Fn(usize) -> Result<SavedEntry, F>,
    K: Fn(CaptureRequest, usize) -> Result<(), F>,
>(
    first_file: FileId,
    first_revision: SourceRevision,
    len: usize,
    entry: E,
    accepts: K,
    reason: F,
) -> bool {
    exists|i: usize|
        i < len && #[trigger] refused_entry(first_file, first_revision, i, entry, accepts, reason)
}

/// Whether the host could not decode an entry, or refused its bytes, and why.
pub open spec fn refused_entry<
    F,
    E: Fn(usize) -> Result<SavedEntry, F>,
    K: Fn(CaptureRequest, usize) -> Result<(), F>,
>(
    first_file: FileId,
    first_revision: SourceRevision,
    i: usize,
    entry: E,
    accepts: K,
    reason: F,
) -> bool {
    ||| call_ensures(entry, (i,), Err(reason))
    ||| exists|found: SavedEntry|
        #[trigger] call_ensures(entry, (i,), Ok(found)) && (
        found.data matches SavedData::Captured(bytes) && call_ensures(
            accepts,
            (
                CaptureRequest {
                    file: FileId {
                        owner: first_file.owner,
                        value: (first_file.value + i) as u64,
                    },
                    revision: SourceRevision {
                        owner: first_file.owner,
                        value: (first_revision.value + i) as u64,
                    },
                    range: None,
                },
                bytes@.len() as usize,
            ),
            Err(reason),
        ))
}

/// A saved file, as a search sees it.
#[derive(Debug)]
pub struct SavedDocument<'a> {
    pub file: FileId,
    pub source: &'a SourceCapture,
}

/// The model of a saved file.
pub struct SavedModel {
    pub file: FileId,
    pub source: CaptureModel,
}

impl<'a> View for SavedDocument<'a> {
    type V = SavedModel;

    open spec fn view(&self) -> SavedModel {
        SavedModel { file: self.file, source: self.source@ }
    }
}

/// The files with bytes among the first `n`.
pub open spec fn saved_upto(members: Seq<SavedMember>, n: int) -> Seq<SavedModel>
    decreases n,
{
    if n <= 0 || n > members.len() {
        Seq::empty()
    } else {
        match members[n - 1].source {
            Some(source) => saved_upto(members, n - 1).push(
                SavedModel { file: members[n - 1].file, source: source@ },
            ),
            None => saved_upto(members, n - 1),
        }
    }
}

/// The files without bytes among the first `n`.
pub open spec fn missing_upto(members: Seq<SavedMember>, n: int) -> Seq<FileId>
    decreases n,
{
    if n <= 0 || n > members.len() {
        Seq::empty()
    } else {
        match members[n - 1].source {
            Some(_) => missing_upto(members, n - 1),
            None => missing_upto(members, n - 1).push(members[n - 1].file),
        }
    }
}

/// Bytes charged for handing `files` saved files to a search.
pub open spec fn saved_inputs_charge(files: int) -> int {
    files * (size_of::<SavedDocument>() + size_of::<FileId>()) + size_of::<SavedSearchInputs>()
}

/// What a search is given of an archive.
#[derive(Debug)]
pub struct SavedSearchInputs<'a> {
    pub workspace: &'a SavedWorkspace,
    pub documents: Vec<SavedDocument<'a>>,
    pub unavailable: Vec<FileId>,
}

impl<'a> SavedSearchInputs<'a> {
    /// Whether the saved scope was complete.
    pub open spec fn saved_membership(self) -> MembershipState {
        if self.workspace.complete {
            MembershipState::Closed
        } else {
            MembershipState::Discovering
        }
    }

    /// Makes the host's manifest of the inputs. Closed means that the saved scope
    /// was complete, not that the sources are as they were.
    pub fn manifest<
        T,
        I,
        M: FnOnce(SearchManifestId, &Self, MembershipState, ManifestLimits) -> Result<T, I>,
    >(&self, make: M) -> (r: Result<T, SavedSourceError<(), I>>)
        requires
            forall|membership: MembershipState, limits: ManifestLimits|
                call_requires(make, (self.workspace.id, self, membership, limits)),
        ensures
            ({
                let membership = self.saved_membership();
                let limits = ManifestLimits {
                    max_files: self.workspace.members@.len() as usize,
                    max_path_bytes: 131_072,
                };
                match r {
                    Ok(made) => call_ensures(
                        make,
                        (self.workspace.id, self, membership, limits),
                        Ok(made),
                    ),
                    Err(SavedSourceError::Index(e)) => call_ensures(
                        make,
                        (self.workspace.id, self, membership, limits),
                        Err(e),
                    ),
                    Err(_) => false,
                }
            }),
    {
        let membership = if self.workspace.complete {
            MembershipState::Closed
        } else {
            MembershipState::Discovering
        };
        let limits = ManifestLimits {
            max_files: self.workspace.members.len(),
            max_path_bytes: 131_072,
        };
        match make(self.workspace.id, self, membership, limits) {
            Ok(made) => Ok(made),
            Err(e) => Err(SavedSourceError::Index(e)),
        }
    }

    /// Makes the host's index of the inputs from their manifest.
    pub fn index<
        T,
        U,
        L,
        I,
        M: FnOnce(SearchManifestId, &Self, MembershipState, ManifestLimits) -> Result<T, I>,
        B: FnOnce(T, L) -> Result<U, I>,
    >(&self, limits: L, make: M, build: B) -> (r: Result<U, SavedSourceError<(), I>>)
        requires
            forall|membership: MembershipState, bounds: ManifestLimits|
                call_requires(make, (self.workspace.id, self, membership, bounds)),
            forall|made: T| call_requires(build, (made, limits)),
        ensures
            ({
                let membership = self.saved_membership();
                let bounds = ManifestLimits {
                    max_files: self.workspace.members@.len() as usize,
                    max_path_bytes: 131_072,
                };
                ||| (r matches Err(SavedSourceError::Index(e)) && call_ensures(
                    make,
                    (self.workspace.id, self, membership, bounds),
                    Err(e),
                ))
                ||| exists|made: T| #[trigger]
                    call_ensures(make, (self.workspace.id, self, membership, bounds), Ok(made))
                        && saved_index_made(made, limits, build, r)
            }),
    {
        let ghost membership = self.saved_membership();
        let ghost bounds = ManifestLimits {
            max_files: self.workspace.members@.len() as usize,
            max_path_bytes: 131_072,
        };
        match self.manifest(make) {
            Err(e) => Err(e),
            Ok(made) => {
                assert(call_ensures(
                    make,
                    (self.workspace.id, self, membership, bounds),
                    Ok::<T, I>(made),
                ));
                let built = build(made, limits);
                assert(call_ensures(build, (made, limits), built));
                match built {
                    Ok(found) => Ok(found),
                    Err(e) => Err(SavedSourceError::Index(e)),
                }
            },
        }
    }
}

/// Whether the host's engine makes this of a manifest.
pub open spec fn saved_index_made<T, U, L, I, B: FnOnce(T, L) -> Result<U, I>>(
    made: T,
    limits: L,
    build: B,
    r: Result<U, SavedSourceError<(), I>>,
) -> bool {
    match r {
        Ok(found) => call_ensures(build, (made, limits), Ok(found)),
        Err(SavedSourceError::Index(e)) => call_ensures(build, (made, limits), Err(e)),
        Err(_) => false,
    }
}

/// Every saved file is found again under its identity.
pub proof fn members_are_found(saved: SavedWorkspace, i: int)
    requires
        saved.wf(),
        0 <= i < saved.members@.len(),
    ensures
        saved.place(saved.members@[i].file) == Some(i),
{
}

/// No file of an archive goes unmentioned: a search sees its bytes, or that
/// there are none.
pub proof fn saved_inputs_cover_the_files(members: Seq<SavedMember>, n: int)
    requires
        0 <= n <= members.len(),
    ensures
        saved_upto(members, n).len() + missing_upto(members, n).len() == n,
    decreases n,
{
    if n > 0 {
        saved_inputs_cover_the_files(members, n - 1);
    }
}

} // verus!
