//! Capturing the files of a workspace, one at a time.
//!
//! A file that is too large, or that the host could not capture whole, stays
//! unavailable under its identity.
pub mod inputs;

use vstd::layout::size_of;
use vstd::prelude::*;

use crate::identity::{FileId, SourceRevision};
use crate::memory::wide_size;
use crate::model::{group_views, views};
use crate::search::extent_navigation::SearchManifestId;
use crate::search::source::{CaptureRequest, CompleteCapture, SourceError};
use crate::search::workspace::{
    CatalogModel, WorkspaceCatalog, WorkspaceError, WorkspaceStage,
};

verus! {

broadcast use group_views;

#[derive(Clone, Copy, Debug, PartialEq, Eq, Structural)]
pub enum WorkspaceCaptureFailure {
    FileLimit,
    SourceLimit,
    Source(SourceError),
    InvalidCapture,
}

impl WorkspaceCaptureFailure {
    /// The stable code of a failure, where it is one of this library's.
    pub open spec fn code_spec(self) -> Option<Seq<char>> {
        match self {
            WorkspaceCaptureFailure::FileLimit => Some("WORKSPACE_FILE_BYTE_LIMIT"@),
            WorkspaceCaptureFailure::SourceLimit => Some("WORKSPACE_TOTAL_SOURCE_LIMIT"@),
            WorkspaceCaptureFailure::Source(_) => None,
            WorkspaceCaptureFailure::InvalidCapture => Some("WORKSPACE_INVALID_CAPTURE"@),
        }
    }

    pub fn code(self) -> (r: Option<&'static str>)
        ensures
            match self.code_spec() {
                Some(code) => r matches Some(text) && text@ == code,
                None => r is None,
            },
    {
        match self {
            WorkspaceCaptureFailure::FileLimit => Some("WORKSPACE_FILE_BYTE_LIMIT"),
            WorkspaceCaptureFailure::SourceLimit => Some("WORKSPACE_TOTAL_SOURCE_LIMIT"),
            WorkspaceCaptureFailure::Source(_) => None,
            WorkspaceCaptureFailure::InvalidCapture => Some("WORKSPACE_INVALID_CAPTURE"),
        }
    }
}

/// What has become of one file.
#[derive(Debug)]
pub enum CaptureSlot {
    Pending,
    Ready(CompleteCapture),
    Unavailable(WorkspaceCaptureFailure),
}

/// The captures of a frozen catalog's files.
#[derive(Debug)]
pub struct WorkspaceCaptures<'catalog> {
    pub catalog: &'catalog WorkspaceCatalog,
    pub first_revision: SourceRevision,
    pub slots: Vec<CaptureSlot>,
    pub next: usize,
    pub bytes: usize,
    pub canceled: bool,
}

/// How many bytes are captured in the first `n` slots.
pub open spec fn captured_upto(slots: Seq<CaptureSlot>, n: int) -> nat
    decreases n,
{
    if n <= 0 || n > slots.len() {
        0
    } else {
        captured_upto(slots, n - 1) + match slots[n - 1] {
            CaptureSlot::Ready(capture) => capture.bytes@.len(),
            _ => 0,
        }
    }
}

/// Which revision of which file stands at a place.
pub open spec fn request_at(
    catalog: CatalogModel,
    first_revision: SourceRevision,
    i: int,
) -> CaptureRequest {
    CaptureRequest {
        file: FileId { owner: catalog.owner, value: (catalog.first_file.value + i) as u64 },
        revision: SourceRevision {
            owner: catalog.owner,
            value: (first_revision.value + i) as u64,
        },
        range: None,
    }
}

/// Bytes charged for the captures of `files` files.
pub open spec fn captures_charge(max_source_bytes: int, files: int) -> int {
    max_source_bytes * 2 + files * (size_of::<CaptureSlot>() + 32) + size_of::<WorkspaceCaptures>()
}

/// Bytes charged for handing `files` files to a search.
pub open spec fn inputs_charge(files: int) -> int {
    files * (size_of::<SearchDocument>() + size_of::<FileId>()) + size_of::<WorkspaceSearchInputs>()
}

proof fn lemma_captured_kept(a: Seq<CaptureSlot>, b: Seq<CaptureSlot>, n: int)
    requires
        0 <= n <= a.len(),
        a.len() == b.len(),
        forall|i: int| 0 <= i < n ==> a[i] == b[i],
    ensures
        captured_upto(a, n) == captured_upto(b, n),
    decreases n,
{
    if n > 0 {
        lemma_captured_kept(a, b, n - 1);
    }
}

impl<'catalog> WorkspaceCaptures<'catalog> {
    pub open spec fn wf(self) -> bool {
        &&& self.catalog@.wf()
        &&& self.catalog@.stage is Ready
        &&& self.slots@.len() == self.catalog@.entries.len()
        &&& self.next <= self.slots@.len()
        &&& self.first_revision.owner == self.catalog@.owner
        &&& self.first_revision.value != 0
        &&& self.slots@.len() > 0 ==> self.first_revision.value + self.slots@.len() - 1 <= u64::MAX
        &&& self.bytes == captured_upto(self.slots@, self.next as int)
        &&& self.bytes <= self.catalog@.limits.max_source_bytes
        &&& forall|i: int|
            0 <= i < self.slots@.len() ==> (i < self.next <==> !((#[trigger] self.slots@[i])
                is Pending))
        &&& forall|i: int|
            0 <= i < self.slots@.len() ==> ((#[trigger] self.slots@[i]) matches CaptureSlot::Ready(
                capture,
            ) ==> capture.request == request_at(self.catalog@, self.first_revision, i)
                && capture.bytes@.len() <= self.catalog@.limits.max_file_bytes)
    }

    pub open spec fn done(self) -> bool {
        !self.canceled && self.next == self.slots@.len()
    }

    /// Prepares capturing the files of a frozen catalog. `grant` is what forbids
    /// its root, if something does.
    pub fn new<A: FnOnce(u64) -> bool>(
        catalog: &'catalog WorkspaceCatalog,
        grant: Option<SourceError>,
        first_revision: SourceRevision,
        reserve: A,
    ) -> (r: Result<Self, WorkspaceError>)
        requires
            catalog@.wf(),
            first_revision.value != 0,
            forall|charge: u64| call_requires(reserve, (charge,)),
        ensures
            ({
                let files = catalog@.entries.len() as int;
                let charge = captures_charge(catalog@.limits.max_source_bytes as int, files);
                if grant is Some {
                    r matches Err(WorkspaceError::Source(why)) && why == grant->0
                } else if !(catalog@.stage is Ready) {
                    r matches Err(WorkspaceError::Pending)
                } else if first_revision.owner != catalog@.owner {
                    r matches Err(WorkspaceError::OwnerMismatch)
                } else if files > 0 && first_revision.value + files - 1 > u64::MAX {
                    r matches Err(WorkspaceError::IdentityExhausted)
                } else if charge > usize::MAX {
                    r matches Err(WorkspaceError::InvalidLimits)
                } else {
                    exists|granted: bool|
                        #[trigger] call_ensures(reserve, (charge as u64,), granted) && match r {
                            Ok(captures) => granted && captures.wf() && captures.catalog == catalog
                                && captures.first_revision == first_revision && captures.next == 0
                                && captures.bytes == 0 && !captures.canceled,
                            Err(e) => !granted && e is ResourceDenied,
                        }
                }
            }),
    {
        if let Some(e) = grant {
            return Err(WorkspaceError::Source(e));
        }
        if catalog.stage != WorkspaceStage::Ready {
            return Err(WorkspaceError::Pending);
        }
        if first_revision.owner != catalog.owner {
            return Err(WorkspaceError::OwnerMismatch);
        }
        let files: usize = catalog.entries.len();
        if files > 0 && (files - 1) as u64 > u64::MAX - first_revision.value {
            return Err(WorkspaceError::IdentityExhausted);
        }
        let row: u128 = wide_size::<CaptureSlot>() + 32;
        let count: u128 = files as u128;
        assert(0 <= count * row <= 65_536 * 0x2_0000_0000_0000_0000) by (nonlinear_arith)
            requires
                0 <= count <= 65_536,
                0 <= row <= 0x2_0000_0000_0000_0000,
        ;
        let charge: u128 = catalog.limits.max_source_bytes as u128 * 2 + count * row + wide_size::<
            WorkspaceCaptures,
        >();
        if charge > usize::MAX as u128 {
            return Err(WorkspaceError::InvalidLimits);
        }
        let granted = reserve(charge as u64);
        assert(call_ensures(
            reserve,
            (captures_charge(catalog@.limits.max_source_bytes as int, files as int) as u64,),
            granted,
        ));
        if !granted {
            return Err(WorkspaceError::ResourceDenied);
        }
        let mut slots: Vec<CaptureSlot> = Vec::new();
        let mut i: usize = 0;
        while i < files
            invariant
                i <= files,
                slots@.len() == i,
                forall|j: int| 0 <= j < i ==> (#[trigger] slots@[j]) is Pending,
            decreases files - i,
        {
            slots.push(CaptureSlot::Pending);
            i = i + 1;
        }
        Ok(
            WorkspaceCaptures {
                catalog,
                first_revision,
                slots,
                next: 0,
                bytes: 0,
                canceled: false,
            },
        )
    }

    pub fn catalog(&self) -> (r: &'catalog WorkspaceCatalog)
        ensures
            r == self.catalog,
    {
        self.catalog
    }

    pub fn captured_bytes(&self) -> (r: usize)
        ensures
            r == self.bytes,
    {
        self.bytes
    }

    pub fn examined_files(&self) -> (r: usize)
        ensures
            r == self.next,
    {
        self.next
    }

    pub fn finished(&self) -> (r: bool)
        ensures
            r == self.done(),
    {
        !self.canceled && self.next == self.slots.len()
    }

    pub fn failure(&self, ordinal: usize) -> (r: Option<WorkspaceCaptureFailure>)
        ensures
            r == (if ordinal < self.slots@.len() {
                match self.slots@[ordinal as int] {
                    CaptureSlot::Unavailable(reason) => Some(reason),
                    _ => None,
                }
            } else {
                None
            }),
    {
        if ordinal >= self.slots.len() {
            return None;
        }
        match &self.slots[ordinal] {
            CaptureSlot::Unavailable(reason) => Some(*reason),
            _ => None,
        }
    }

    pub fn file_failure(&self, file: FileId) -> (r: Option<WorkspaceCaptureFailure>)
        requires
            self.wf(),
        ensures
            r == (match self.catalog@.ordinal_of(file) {
                Some(i) => match self.slots@[i as int] {
                    CaptureSlot::Unavailable(reason) => Some(reason),
                    _ => None,
                },
                None => None,
            }),
    {
        match self.catalog.ordinal(file) {
            Some(i) => self.failure(i),
            None => None,
        }
    }

    pub fn capture(&self, file: FileId) -> (r: Option<&CompleteCapture>)
        requires
            self.wf(),
        ensures
            match self.catalog@.ordinal_of(file) {
                Some(i) => match self.slots@[i as int] {
                    CaptureSlot::Ready(capture) => r matches Some(found) && *found == capture,
                    _ => r is None,
                },
                None => r is None,
            },
    {
        match self.catalog.ordinal(file) {
            Some(i) => match &self.slots[i] {
                CaptureSlot::Ready(capture) => Some(capture),
                _ => None,
            },
            None => None,
        }
    }

    pub fn cancel(&mut self)
        ensures
            *final(self) == (WorkspaceCaptures { canceled: true, ..*old(self) }),
    {
        self.canceled = true;
    }

    /// How many bytes the next file may take.
    pub open spec fn allowance(self) -> usize {
        let remaining = self.catalog@.limits.max_source_bytes - self.bytes;
        if self.catalog@.limits.max_file_bytes <= remaining {
            self.catalog@.limits.max_file_bytes
        } else {
            remaining as usize
        }
    }

    /// Whether the next file's observed size forbids capturing it.
    pub open spec fn oversized(self) -> Option<WorkspaceCaptureFailure> {
        let observed = self.catalog@.entries[self.next as int].observed_bytes;
        if observed > self.catalog@.limits.max_file_bytes {
            Some(WorkspaceCaptureFailure::FileLimit)
        } else if observed > self.catalog@.limits.max_source_bytes - self.bytes {
            Some(WorkspaceCaptureFailure::SourceLimit)
        } else {
            None
        }
    }

    /// What becomes of the next file when the host answers so.
    pub open spec fn slot_of(self, answer: Result<CompleteCapture, SourceError>) -> CaptureSlot {
        match answer {
            Ok(capture) => if capture.request == request_at(
                self.catalog@,
                self.first_revision,
                self.next as int,
            ) && capture.bytes@.len() <= self.allowance() {
                CaptureSlot::Ready(capture)
            } else {
                CaptureSlot::Unavailable(WorkspaceCaptureFailure::InvalidCapture)
            },
            Err(e) => CaptureSlot::Unavailable(WorkspaceCaptureFailure::Source(e)),
        }
    }

    /// Whether these captures are `before` with the next file settled.
    pub open spec fn settles(self, before: WorkspaceCaptures<'catalog>, slot: CaptureSlot) -> bool {
        &&& self.catalog == before.catalog
        &&& self.first_revision == before.first_revision
        &&& self.canceled == before.canceled
        &&& self.slots@ == before.slots@.update(before.next as int, slot)
        &&& self.next == before.next + 1
        &&& self.bytes == before.bytes + match slot {
            CaptureSlot::Ready(capture) => capture.bytes@.len(),
            _ => 0,
        }
    }

    fn settle(&mut self, slot: CaptureSlot)
        requires
            old(self).wf(),
            old(self).next < old(self).slots@.len(),
            !(slot is Pending),
            slot matches CaptureSlot::Ready(capture) ==> capture.request == request_at(
                old(self).catalog@,
                old(self).first_revision,
                old(self).next as int,
            ) && capture.bytes@.len() <= old(self).allowance(),
        ensures
            final(self).wf(),
            final(self).settles(*old(self), slot),
    {
        let ghost before = self.slots@;
        if let CaptureSlot::Ready(capture) = &slot {
            self.bytes = self.bytes + capture.bytes.len();
        }
        self.slots.set(self.next, slot);
        self.next = self.next + 1;
        proof {
            lemma_captured_kept(before, self.slots@, self.next - 1);
        }
    }

    /// Captures the next file. The host must keep to the bytes it is allowed.
    pub fn step<
        C: FnMut() -> bool,
        V: FnMut() -> Option<SourceError>,
        K: FnOnce(CaptureRequest, &Vec<u8>, usize) -> Result<CompleteCapture, SourceError>,
    >(&mut self, mut canceled: C, mut refused: V, capture: K) -> (r: Result<bool, WorkspaceError>)
        requires
            old(self).wf(),
            call_requires(canceled, ()),
            call_requires(refused, ()),
            forall|request: CaptureRequest, path: &Vec<u8>, allowed: usize|
                call_requires(capture, (request, path, allowed)),
        ensures
            final(self).wf(),
            is_capture_step(*old(self), *final(self), r, canceled, refused, capture),
    {
        if self.canceled || canceled() {
            self.cancel();
            return Err(WorkspaceError::Canceled);
        }
        if let Some(e) = refused() {
            return Err(WorkspaceError::Source(e));
        }
        if self.next == self.slots.len() {
            return Ok(true);
        }
        let ghost before = *self;
        let next: usize = self.next;
        let catalog: &WorkspaceCatalog = self.catalog;
        assert(catalog@.entries[next as int] == catalog.entries@[next as int]@);
        let entry = &catalog.entries[next];
        let request = CaptureRequest {
            file: FileId { owner: catalog.owner, value: catalog.first_file.value + next as u64 },
            revision: SourceRevision {
                owner: catalog.owner,
                value: self.first_revision.value + next as u64,
            },
            range: None,
        };
        let remaining: usize = catalog.limits.max_source_bytes - self.bytes;
        let allowed: usize = if catalog.limits.max_file_bytes <= remaining {
            catalog.limits.max_file_bytes
        } else {
            remaining
        };
        let slot = if entry.observed_bytes > catalog.limits.max_file_bytes as u64 {
            CaptureSlot::Unavailable(WorkspaceCaptureFailure::FileLimit)
        } else if entry.observed_bytes > remaining as u64 {
            CaptureSlot::Unavailable(WorkspaceCaptureFailure::SourceLimit)
        } else {
            let answer = capture(request, &entry.path, allowed);
            assert(call_ensures(capture, (request, &entry.path, allowed), answer));
            assert(was_asked(before, answer, capture));
            match answer {
                Ok(captured) => if captured.request == request && captured.bytes.len() <= allowed {
                    CaptureSlot::Ready(captured)
                } else {
                    CaptureSlot::Unavailable(WorkspaceCaptureFailure::InvalidCapture)
                },
                Err(SourceError::Canceled) => {
                    self.cancel();
                    return Err(WorkspaceError::Canceled);
                },
                Err(e) => CaptureSlot::Unavailable(WorkspaceCaptureFailure::Source(e)),
            }
        };
        let ghost settled = slot;
        assert(slot_found(before, settled, capture));
        if canceled() {
            self.cancel();
            return Err(WorkspaceError::Canceled);
        }
        if let Some(e) = refused() {
            return Err(WorkspaceError::Source(e));
        }
        self.settle(slot);
        assert(self.settles(before, settled));
        Ok(self.finished())
    }

    /// Hands the captures to a search. What is pending or unavailable, and what
    /// was not discovered, keeps the membership open.
    pub fn search_inputs<A: FnOnce(u64) -> bool>(
        &self,
        grant: Option<SourceError>,
        reserve: A,
    ) -> (r: Result<WorkspaceSearchInputs<'_>, WorkspaceError>)
        requires
            self.wf(),
            forall|charge: u64| call_requires(reserve, (charge,)),
        ensures
            ({
                let charge = inputs_charge(self.slots@.len() as int);
                if self.canceled {
                    r matches Err(WorkspaceError::Canceled)
                } else if grant is Some {
                    r matches Err(WorkspaceError::Source(why)) && why == grant->0
                } else if charge > usize::MAX {
                    r matches Err(WorkspaceError::InvalidLimits)
                } else {
                    exists|granted: bool|
                        #[trigger] call_ensures(reserve, (charge as u64,), granted) && match r {
                            Ok(inputs) => granted && inputs.catalog == self.catalog && views(
                                inputs.documents@,
                            ) == documents_upto(
                                self.catalog@,
                                self.slots@,
                                self.slots@.len() as int,
                            ) && inputs.unavailable@ == unavailable_upto(
                                self.catalog@,
                                self.slots@,
                                self.slots@.len() as int,
                            ) && inputs.membership == (if self.catalog@.discovery_complete
                                && self.done() {
                                MembershipState::Closed
                            } else {
                                MembershipState::Discovering
                            }),
                            Err(e) => !granted && e is ResourceDenied,
                        }
                }
            }),
    {
        if self.canceled {
            return Err(WorkspaceError::Canceled);
        }
        if let Some(e) = grant {
            return Err(WorkspaceError::Source(e));
        }
        let count: usize = self.slots.len();
        let row: u128 = wide_size::<SearchDocument>() + wide_size::<FileId>();
        let wide: u128 = count as u128;
        assert(count == self.catalog.entries.len());
        assert(0 <= wide * row <= 65_536 * 0x2_0000_0000_0000_0000) by (nonlinear_arith)
            requires
                0 <= wide <= 65_536,
                0 <= row <= 0x2_0000_0000_0000_0000,
        ;
        let charge: u128 = wide * row + wide_size::<WorkspaceSearchInputs>();
        if charge > usize::MAX as u128 {
            return Err(WorkspaceError::InvalidLimits);
        }
        let granted = reserve(charge as u64);
        assert(call_ensures(reserve, (inputs_charge(count as int) as u64,), granted));
        if !granted {
            return Err(WorkspaceError::ResourceDenied);
        }
        let mut documents: Vec<SearchDocument> = Vec::new();
        let mut unavailable: Vec<FileId> = Vec::new();
        let catalog: &WorkspaceCatalog = self.catalog;
        let mut i: usize = 0;
        while i < count
            invariant
                i <= count == self.slots@.len(),
                self.wf(),
                catalog == self.catalog,
                views(documents@) == documents_upto(catalog@, self.slots@, i as int),
                unavailable@ == unavailable_upto(catalog@, self.slots@, i as int),
            decreases count - i,
        {
            let file = FileId { owner: catalog.owner, value: catalog.first_file.value + i as u64 };
            assert(catalog@.entries[i as int] == catalog.entries@[i as int]@);
            match &self.slots[i] {
                CaptureSlot::Ready(capture) => documents.push(
                    SearchDocument { file, path: &catalog.entries[i].search_key, capture },
                ),
                _ => unavailable.push(file),
            }
            i = i + 1;
        }
        let membership = if catalog.discovery_complete && self.finished() {
            MembershipState::Closed
        } else {
            MembershipState::Discovering
        };
        Ok(WorkspaceSearchInputs { catalog, documents, unavailable, membership })
    }
}

/// Whether the host answers so when asked for the next file.
pub open spec fn was_asked<
    K: FnOnce(CaptureRequest, &Vec<u8>, usize) -> Result<CompleteCapture, SourceError>,
>(
    before: WorkspaceCaptures,
    answer: Result<CompleteCapture, SourceError>,
    capture: K,
) -> bool {
    exists|path: &Vec<u8>|
        path@ == before.catalog@.entries[before.next as int].path && #[trigger] call_ensures(
            capture,
            (
                request_at(before.catalog@, before.first_revision, before.next as int),
                path,
                before.allowance(),
            ),
            answer,
        )
}

/// Whether this may become of the next file.
pub open spec fn slot_found<
    K: FnOnce(CaptureRequest, &Vec<u8>, usize) -> Result<CompleteCapture, SourceError>,
>(before: WorkspaceCaptures, slot: CaptureSlot, capture: K) -> bool {
    match before.oversized() {
        Some(reason) => slot == CaptureSlot::Unavailable(reason),
        None => exists|answer: Result<CompleteCapture, SourceError>|
            #[trigger] was_asked(before, answer, capture) && !(answer matches Err(
                SourceError::Canceled,
            )) && slot == before.slot_of(answer),
    }
}

/// Whether captures may take a step so.
pub open spec fn is_capture_step<
    C: FnMut() -> bool,
    V: FnMut() -> Option<SourceError>,
    K: FnOnce(CaptureRequest, &Vec<u8>, usize) -> Result<CompleteCapture, SourceError>,
>(
    before: WorkspaceCaptures,
    after: WorkspaceCaptures,
    r: Result<bool, WorkspaceError>,
    canceled: C,
    refused: V,
    capture: K,
) -> bool {
    let stopped = r == Err::<bool, WorkspaceError>(WorkspaceError::Canceled) && after
        == (WorkspaceCaptures { canceled: true, ..before });
    ||| (before.canceled || call_ensures(canceled, (), true)) && stopped
    ||| !before.canceled && exists|e: SourceError|
        #[trigger] call_ensures(refused, (), Some(e)) && r == Err::<bool, WorkspaceError>(
            WorkspaceError::Source(e),
        ) && after == before
    ||| !before.canceled && call_ensures(canceled, (), false) && call_ensures(refused, (), None)
        && if before.next == before.slots@.len() {
        r == Ok::<bool, WorkspaceError>(true) && after == before
    } else {
        ||| before.oversized() is None && stopped && was_asked(
            before,
            Err(SourceError::Canceled),
            capture,
        )
        ||| exists|slot: CaptureSlot|
            #[trigger] slot_found(before, slot, capture) && after.settles(before, slot) && r == Ok::<
                bool,
                WorkspaceError,
            >(after.done())
    }
}

/// Whether all files of a scope are known.
#[derive(Clone, Copy, Debug, PartialEq, Eq, Structural)]
pub enum MembershipState {
    Discovering,
    Closed,
}

/// A captured file, as a search sees it.
#[derive(Debug)]
pub struct SearchDocument<'source> {
    pub file: FileId,
    pub path: &'source String,
    pub capture: &'source CompleteCapture,
}

/// The model of a captured file.
pub struct DocumentModel {
    pub file: FileId,
    pub path: Seq<char>,
    pub capture: CompleteCapture,
}

impl<'source> View for SearchDocument<'source> {
    type V = DocumentModel;

    open spec fn view(&self) -> DocumentModel {
        DocumentModel { file: self.file, path: self.path@, capture: *self.capture }
    }
}

/// The captured files among the first `n`.
pub open spec fn documents_upto(catalog: CatalogModel, slots: Seq<CaptureSlot>, n: int) -> Seq<
    DocumentModel,
>
    decreases n,
{
    if n <= 0 || n > slots.len() {
        Seq::empty()
    } else {
        match slots[n - 1] {
            CaptureSlot::Ready(capture) => documents_upto(catalog, slots, n - 1).push(
                DocumentModel {
                    file: FileId {
                        owner: catalog.owner,
                        value: (catalog.first_file.value + n - 1) as u64,
                    },
                    path: catalog.entries[n - 1].search_key,
                    capture,
                },
            ),
            _ => documents_upto(catalog, slots, n - 1),
        }
    }
}

/// The files among the first `n` that are not captured.
pub open spec fn unavailable_upto(catalog: CatalogModel, slots: Seq<CaptureSlot>, n: int) -> Seq<
    FileId,
>
    decreases n,
{
    if n <= 0 || n > slots.len() {
        Seq::empty()
    } else {
        match slots[n - 1] {
            CaptureSlot::Ready(_) => unavailable_upto(catalog, slots, n - 1),
            _ => unavailable_upto(catalog, slots, n - 1).push(
                FileId {
                    owner: catalog.owner,
                    value: (catalog.first_file.value + n - 1) as u64,
                },
            ),
        }
    }
}

/// What a search is given of a workspace.
#[derive(Debug)]
pub struct WorkspaceSearchInputs<'source> {
    pub catalog: &'source WorkspaceCatalog,
    pub documents: Vec<SearchDocument<'source>>,
    pub unavailable: Vec<FileId>,
    pub membership: MembershipState,
}

/// How large a manifest may be.
#[derive(Clone, Copy, Debug, PartialEq, Eq, Structural)]
pub struct ManifestLimits {
    pub max_files: usize,
    pub max_path_bytes: usize,
}

impl<'source> WorkspaceSearchInputs<'source> {
    /// Makes the host's manifest of the inputs. `grant` is what forbids the
    /// root, if something does.
    pub fn manifest<T, E, M: FnOnce(SearchManifestId, &Self, ManifestLimits) -> Result<T, E>>(
        &self,
        grant: Option<SourceError>,
        make: M,
    ) -> (r: Result<T, WorkspaceError<E>>)
        requires
            forall|limits: ManifestLimits| call_requires(make, (self.catalog@.id, self, limits)),
        ensures
            match grant {
                Some(e) => r matches Err(WorkspaceError::Source(why)) && why == e,
                None => {
                    let limits = ManifestLimits {
                        max_files: self.catalog@.limits.max_files,
                        max_path_bytes: 16_384,
                    };
                    match r {
                        Ok(made) => call_ensures(
                            make,
                            (self.catalog@.id, self, limits),
                            Ok(made),
                        ),
                        Err(WorkspaceError::Index(e)) => call_ensures(
                            make,
                            (self.catalog@.id, self, limits),
                            Err(e),
                        ),
                        Err(_) => false,
                    }
                },
            },
    {
        if let Some(e) = grant {
            return Err(WorkspaceError::Source(e));
        }
        let limits = ManifestLimits {
            max_files: self.catalog.limits.max_files,
            max_path_bytes: 16_384,
        };
        match make(self.catalog.id, self, limits) {
            Ok(made) => Ok(made),
            Err(e) => Err(WorkspaceError::Index(e)),
        }
    }

    /// Makes the host's index of the inputs from their manifest.
    pub fn index<
        T,
        U,
        L,
        E,
        M: FnOnce(SearchManifestId, &Self, ManifestLimits) -> Result<T, E>,
        B: FnOnce(T, L) -> Result<U, E>,
    >(&self, grant: Option<SourceError>, limits: L, make: M, build: B) -> (r: Result<
        U,
        WorkspaceError<E>,
    >)
        requires
            forall|bounds: ManifestLimits| call_requires(make, (self.catalog@.id, self, bounds)),
            forall|made: T| call_requires(build, (made, limits)),
        ensures
            match grant {
                Some(e) => r matches Err(WorkspaceError::Source(why)) && why == e,
                None => {
                    let bounds = ManifestLimits {
                        max_files: self.catalog@.limits.max_files,
                        max_path_bytes: 16_384,
                    };
                    ||| (r matches Err(WorkspaceError::Index(e)) && call_ensures(
                        make,
                        (self.catalog@.id, self, bounds),
                        Err(e),
                    ))
                    ||| exists|made: T| #[trigger]
                        call_ensures(make, (self.catalog@.id, self, bounds), Ok(made))
                            && index_made(made, limits, build, r)
                },
            },
    {
        match self.manifest(grant, make) {
            Err(e) => Err(e),
            Ok(made) => match build(made, limits) {
                Ok(found) => Ok(found),
                Err(e) => Err(WorkspaceError::Index(e)),
            },
        }
    }
}

/// Whether the host's engine makes this of a manifest.
pub open spec fn index_made<T, U, L, E, B: FnOnce(T, L) -> Result<U, E>>(
    made: T,
    limits: L,
    build: B,
    r: Result<U, WorkspaceError<E>>,
) -> bool {
    match r {
        Ok(found) => call_ensures(build, (made, limits), Ok(found)),
        Err(WorkspaceError::Index(e)) => call_ensures(build, (made, limits), Err(e)),
        Err(_) => false,
    }
}

/// Every file of a workspace is either handed to a search whole or named as
/// unavailable.
pub proof fn inputs_cover_the_files(catalog: CatalogModel, slots: Seq<CaptureSlot>, n: int)
    requires
        0 <= n <= slots.len(),
    ensures
        documents_upto(catalog, slots, n).len() + unavailable_upto(catalog, slots, n).len() == n,
    decreases n,
{
    if n > 0 {
        inputs_cover_the_files(catalog, slots, n - 1);
    }
}

/// A finished capture of a file holds at most the bytes that the limits allow,
/// and all captures together do too.
pub proof fn captures_respect_limits(captures: WorkspaceCaptures, i: int)
    requires
        captures.wf(),
        0 <= i < captures.slots@.len(),
        captures.slots@[i] is Ready,
    ensures
        captures.slots@[i]->Ready_0.bytes@.len() <= captures.catalog@.limits.max_file_bytes,
        captured_upto(captures.slots@, captures.next as int)
            <= captures.catalog@.limits.max_source_bytes,
{
}

} // verus!
