//! A workspace: the files found under a root, and what was captured of them.
//!
//! The host walks the root and supplies captures. Identities follow the order of
//! the native paths, not that of the walk. What could not be discovered or
//! captured stays unknown; it never becomes an empty or shortened source.
pub mod captures;
pub mod pages;

use std::cmp::Ordering;

use vstd::layout::size_of;
use vstd::prelude::*;
use vstd::utf8::{decode_utf8, valid_utf8};

use crate::capture::same_bytes;
use crate::envelope::{le_bytes, put_le, put_raw, text_from_utf8};
use crate::identity::{ArenaOwnerId, FileId};
use crate::memory::wide_size;
use crate::model::{group_views, maybe, views};
use crate::search::archive::{
    order_of, order_paths, precedes, precedes_is_total, precedes_is_transitive, PathOrder,
};
use crate::search::extent_navigation::SearchManifestId;
use crate::search::source::SourceError;

verus! {

broadcast use group_views;

/// Bytes set aside for a walk.
pub const DISCOVERY_SCRATCH: u64 = 16_777_216;

pub const MAX_WORKSPACE_FILES: usize = 65_536;

pub const MAX_WORKSPACE_PATH_BYTES: usize = 2048;

#[derive(Clone, Copy, Debug, PartialEq, Eq, Structural)]
pub struct WorkspaceLimits {
    pub max_files: usize,
    pub max_total_path_bytes: usize,
    pub max_discovery_pages: usize,
    pub max_file_bytes: usize,
    pub max_source_bytes: usize,
}

impl Default for WorkspaceLimits {
    fn default() -> (r: Self)
        ensures
            r == (WorkspaceLimits {
                max_files: 4096,
                max_total_path_bytes: 524_288,
                max_discovery_pages: 4096,
                max_file_bytes: 1_048_576,
                max_source_bytes: 33_554_432,
            }),
    {
        WorkspaceLimits {
            max_files: 4096,
            max_total_path_bytes: 524_288,
            max_discovery_pages: 4096,
            max_file_bytes: 1_048_576,
            max_source_bytes: 33_554_432,
        }
    }
}

impl WorkspaceLimits {
    pub open spec fn valid(self) -> bool {
        &&& 1 <= self.max_files <= MAX_WORKSPACE_FILES
        &&& self.max_total_path_bytes <= 16_777_216
        &&& 1 <= self.max_discovery_pages <= 65_536
        &&& self.max_file_bytes <= 1_048_576
        &&& self.max_source_bytes <= 536_870_912
    }
}

#[derive(Clone, Copy, Debug, PartialEq, Eq, Structural)]
pub enum WorkspaceStage {
    Discovering,
    Ready,
    Canceled,
}

#[derive(Clone, Copy, Debug, PartialEq, Eq, Structural)]
pub enum WorkspaceLimit {
    Files,
    Paths,
    DiscoveryPages,
}

/// Why work on a workspace failed; `I` is what the host says of a failed index,
/// `R` what it says of rule files.
#[derive(Clone, Copy, Debug, PartialEq, Eq)]
pub enum WorkspaceError<I = (), R = ()> {
    Source(SourceError),
    Index(I),
    Rules(R),
    InvalidLimits,
    OwnerMismatch,
    IdentityExhausted,
    AllocationFailed,
    ResourceDenied,
    Pending,
    Canceled,
    DuplicatePath,
}

impl<I, R> WorkspaceError<I, R> {
    /// The stable code of an error, where it is one of this library's.
    pub open spec fn code_spec(self) -> Option<Seq<char>> {
        match self {
            WorkspaceError::Source(_) => None,
            WorkspaceError::Index(_) => None,
            WorkspaceError::Rules(_) => None,
            WorkspaceError::InvalidLimits => Some("WORKSPACE_INVALID_LIMITS"@),
            WorkspaceError::OwnerMismatch => Some("WORKSPACE_OWNER_MISMATCH"@),
            WorkspaceError::IdentityExhausted => Some("WORKSPACE_IDENTITY_EXHAUSTED"@),
            WorkspaceError::AllocationFailed => Some("WORKSPACE_ALLOCATION_FAILED"@),
            WorkspaceError::ResourceDenied => Some("WORKSPACE_RESOURCE_DENIED"@),
            WorkspaceError::Pending => Some("WORKSPACE_PENDING"@),
            WorkspaceError::Canceled => Some("WORKSPACE_CANCELED"@),
            WorkspaceError::DuplicatePath => Some("WORKSPACE_DUPLICATE_PATH"@),
        }
    }

    pub fn code(&self) -> (r: Option<&'static str>)
        ensures
            match self.code_spec() {
                Some(code) => r matches Some(text) && text@ == code,
                None => r is None,
            },
    {
        match self {
            WorkspaceError::Source(_) => None,
            WorkspaceError::Index(_) => None,
            WorkspaceError::Rules(_) => None,
            WorkspaceError::InvalidLimits => Some("WORKSPACE_INVALID_LIMITS"),
            WorkspaceError::OwnerMismatch => Some("WORKSPACE_OWNER_MISMATCH"),
            WorkspaceError::IdentityExhausted => Some("WORKSPACE_IDENTITY_EXHAUSTED"),
            WorkspaceError::AllocationFailed => Some("WORKSPACE_ALLOCATION_FAILED"),
            WorkspaceError::ResourceDenied => Some("WORKSPACE_RESOURCE_DENIED"),
            WorkspaceError::Pending => Some("WORKSPACE_PENDING"),
            WorkspaceError::Canceled => Some("WORKSPACE_CANCELED"),
            WorkspaceError::DuplicatePath => Some("WORKSPACE_DUPLICATE_PATH"),
        }
    }
}

/// What a walk has come across so far, besides its entries.
#[derive(Clone, Copy, Debug, PartialEq, Eq, Structural)]
pub struct DiscoveryAggregate {
    pub unavailable: u64,
    pub cycles: u64,
    pub depth_limited: u64,
    pub path_limited: u64,
    pub queue_refused: u64,
}

impl DiscoveryAggregate {
    /// Whether nothing was left out.
    pub open spec fn clean(self) -> bool {
        &&& self.unavailable == 0
        &&& self.cycles == 0
        &&& self.depth_limited == 0
        &&& self.path_limited == 0
        &&& self.queue_refused == 0
    }
}

#[derive(Clone, Copy, Debug, PartialEq, Eq, Structural)]
pub enum DiscoveryKind {
    File,
    Other,
}

/// What the walk found at one path.
#[derive(Debug)]
pub struct DiscoveredEntry<P = Vec<u8>> {
    pub kind: DiscoveryKind,
    pub excluded: bool,
    pub path: P,
    pub observed_len: Option<u64>,
}

/// The model of a discovered entry.
pub type FoundModel = DiscoveredEntry<Seq<u8>>;

impl View for DiscoveredEntry {
    type V = DiscoveredEntry<Seq<u8>>;

    open spec fn view(&self) -> DiscoveredEntry<Seq<u8>> {
        DiscoveredEntry {
            kind: self.kind,
            excluded: self.excluded,
            path: self.path@,
            observed_len: self.observed_len,
        }
    }
}

/// One page of a walk.
#[derive(Debug)]
pub struct DiscoveryPage {
    pub entries: Vec<DiscoveredEntry>,
    pub aggregate: DiscoveryAggregate,
    /// No page follows.
    pub done: bool,
    /// The walk has seen all there is.
    pub complete: bool,
}

/// A rule file that the walk has read.
#[derive(Debug)]
pub struct RuleObservation<B = Vec<u8>> {
    pub path: B,
    pub bytes: B,
}

impl View for RuleObservation {
    type V = RuleObservation<Seq<u8>>;

    open spec fn view(&self) -> RuleObservation<Seq<u8>> {
        RuleObservation { path: self.path@, bytes: self.bytes@ }
    }
}

/// The rules that a walk has honored.
#[derive(Debug)]
pub struct RepositoryRules<O = Vec<RuleObservation>> {
    pub complete: bool,
    pub observations: O,
}

/// The model of the rules.
pub type RulesModel = RepositoryRules<Seq<RuleObservation<Seq<u8>>>>;

impl View for RepositoryRules {
    type V = RepositoryRules<Seq<RuleObservation<Seq<u8>>>>;

    open spec fn view(&self) -> RepositoryRules<Seq<RuleObservation<Seq<u8>>>> {
        RepositoryRules { complete: self.complete, observations: views(self.observations@) }
    }
}

/// A file of the workspace.
#[derive(Debug)]
pub struct WorkspaceEntry<P = Vec<u8>, K = String> {
    pub path: P,
    pub observed_bytes: u64,
    /// What queries see of the path.
    pub search_key: K,
}

/// The model of a file.
pub type EntryModel = WorkspaceEntry<Seq<u8>, Seq<char>>;

impl View for WorkspaceEntry {
    type V = WorkspaceEntry<Seq<u8>, Seq<char>>;

    open spec fn view(&self) -> WorkspaceEntry<Seq<u8>, Seq<char>> {
        WorkspaceEntry {
            path: self.path@,
            observed_bytes: self.observed_bytes,
            search_key: self.search_key@,
        }
    }
}

impl WorkspaceEntry {
    pub fn path(&self) -> (r: &Vec<u8>)
        ensures
            r@ == self@.path,
    {
        &self.path
    }

    pub fn observed_bytes(&self) -> (r: u64)
        ensures
            r == self@.observed_bytes,
    {
        self.observed_bytes
    }
}

/// The files of a workspace, as far as they were discovered.
#[derive(Debug)]
pub struct WorkspaceCatalog<E = Vec<WorkspaceEntry>, T = Option<String>> {
    pub owner: ArenaOwnerId,
    pub id: SearchManifestId,
    pub first_file: FileId,
    pub limits: WorkspaceLimits,
    pub include_excluded: bool,
    pub policy_key: T,
    pub entries: E,
    pub stage: WorkspaceStage,
    pub aggregate: DiscoveryAggregate,
    pub pages: usize,
    pub path_bytes: usize,
    pub discovery_complete: bool,
    pub limit: Option<WorkspaceLimit>,
    pub discovery_error: Option<SourceError>,
}

/// The model of a catalog.
pub type CatalogModel = WorkspaceCatalog<Seq<EntryModel>, Option<Seq<char>>>;

impl View for WorkspaceCatalog {
    type V = WorkspaceCatalog<Seq<EntryModel>, Option<Seq<char>>>;

    open spec fn view(&self) -> WorkspaceCatalog<Seq<EntryModel>, Option<Seq<char>>> {
        WorkspaceCatalog {
            owner: self.owner,
            id: self.id,
            first_file: self.first_file,
            limits: self.limits,
            include_excluded: self.include_excluded,
            policy_key: maybe(self.policy_key),
            entries: views(self.entries@),
            stage: self.stage,
            aggregate: self.aggregate,
            pages: self.pages,
            path_bytes: self.path_bytes,
            discovery_complete: self.discovery_complete,
            limit: self.limit,
            discovery_error: self.discovery_error,
        }
    }
}

/// Bytes charged for a catalog.
pub open spec fn catalog_charge(limits: WorkspaceLimits) -> int {
    limits.max_total_path_bytes * 64 + limits.max_files * size_of::<WorkspaceEntry>()
        + DISCOVERY_SCRATCH + size_of::<WorkspaceCatalog>()
}

/// Files in the order of their paths, each path once.
pub open spec fn sorted_once(entries: Seq<EntryModel>) -> bool {
    forall|i: int, j: int|
        0 <= i < j < entries.len() ==> precedes(
            #[trigger] entries[i].path,
            #[trigger] entries[j].path,
        )
}

/// Files in the order of their paths.
pub open spec fn sorted(entries: Seq<EntryModel>) -> bool {
    forall|i: int, j: int|
        0 <= i < j < entries.len() ==> !precedes(
            #[trigger] entries[j].path,
            #[trigger] entries[i].path,
        )
}

/// What queries see of a path: its text, or a label where it is no text.
pub open spec fn is_key<E: Fn(&Vec<u8>) -> String>(
    key: Seq<char>,
    path: Seq<u8>,
    escape: E,
) -> bool {
    if valid_utf8(path) {
        key == decode_utf8(path)
    } else {
        exists|native: &Vec<u8>, label: String|
            native@ == path && key == label@ && #[trigger] call_ensures(escape, (native,), label)
    }
}

impl CatalogModel {
    pub open spec fn wf(self) -> bool {
        &&& self.limits.valid()
        &&& self.id.owner == self.owner
        &&& self.first_file.owner == self.owner
        &&& self.first_file.value != 0
        &&& self.first_file.value + self.limits.max_files - 1 <= u64::MAX
        &&& self.entries.len() <= self.limits.max_files
        &&& self.path_bytes <= self.limits.max_total_path_bytes
        &&& self.pages <= self.limits.max_discovery_pages
        &&& self.stage is Ready ==> sorted_once(self.entries)
    }

    /// The catalog after cancellation.
    pub open spec fn canceled(self) -> CatalogModel {
        WorkspaceCatalog { stage: WorkspaceStage::Canceled, ..self }
    }

    /// Whether this catalog is `earlier` with the files of `found` from the
    /// `i`th on, up to the limits. `stopped` tells whether a limit was reached.
    pub open spec fn collects<E: Fn(&Vec<u8>) -> String>(
        self,
        earlier: CatalogModel,
        found: Seq<FoundModel>,
        i: int,
        stopped: bool,
        escape: E,
    ) -> bool
        decreases found.len() - i,
    {
        if i < 0 || i >= found.len() {
            self == earlier && !stopped
        } else if !(found[i].kind is File) || found[i].excluded {
            self.collects(earlier, found, i + 1, stopped, escape)
        } else if earlier.entries.len() == earlier.limits.max_files {
            stopped && self == (WorkspaceCatalog {
                limit: Some(WorkspaceLimit::Files),
                ..earlier
            })
        } else if found[i].path.len() > earlier.limits.max_total_path_bytes - earlier.path_bytes {
            stopped && self == (WorkspaceCatalog {
                limit: Some(WorkspaceLimit::Paths),
                ..earlier
            })
        } else {
            exists|key: Seq<char>|
                #[trigger] is_key(key, found[i].path, escape) && self.collects(
                    earlier.with_file(found[i], key),
                    found,
                    i + 1,
                    stopped,
                    escape,
                )
        }
    }

    /// The catalog with one more file.
    pub open spec fn with_file(self, found: FoundModel, key: Seq<char>) -> CatalogModel {
        WorkspaceCatalog {
            entries: self.entries.push(
                WorkspaceEntry {
                    path: found.path,
                    observed_bytes: match found.observed_len {
                        Some(n) => n,
                        None => 0,
                    },
                    search_key: key,
                },
            ),
            path_bytes: (self.path_bytes + found.path.len()) as usize,
            ..self
        }
    }

    /// Whether this catalog is `earlier` once no more files come: sorted, and
    /// refused if a path came twice.
    pub open spec fn freezes<F: FnOnce(&Vec<u8>) -> String>(
        self,
        earlier: CatalogModel,
        closed: bool,
        rules: Option<RulesModel>,
        r: Result<WorkspaceStage, WorkspaceError>,
        fingerprint: F,
    ) -> bool {
        &&& self.entries.to_multiset() == earlier.entries.to_multiset()
        &&& sorted(self.entries)
        &&& if sorted_once(self.entries) {
            &&& r == Ok::<WorkspaceStage, WorkspaceError>(WorkspaceStage::Ready)
            &&& self == (WorkspaceCatalog {
                entries: self.entries,
                stage: WorkspaceStage::Ready,
                policy_key: self.policy_key,
                discovery_complete: closed && earlier.limit is None && earlier.discovery_error
                    is None && earlier.aggregate.clean() && (rules matches Some(read)
                    ==> read.complete),
                ..earlier
            })
            &&& match rules {
                None => self.policy_key == earlier.policy_key,
                Some(read) => self.policy_key matches Some(key) && is_fingerprint(
                    key,
                    read,
                    fingerprint,
                ),
            }
        } else {
            &&& r == Err::<WorkspaceStage, WorkspaceError>(WorkspaceError::DuplicatePath)
            &&& self == (WorkspaceCatalog {
                entries: self.entries,
                stage: WorkspaceStage::Canceled,
                ..earlier
            })
        }
    }
}

/// The bytes that stand for rule files, from the `i`th on.
pub open spec fn observed_from(observations: Seq<RuleObservation<Seq<u8>>>, i: int) -> Seq<u8>
    decreases observations.len() - i,
{
    if i < 0 || i >= observations.len() {
        Seq::empty()
    } else {
        le_bytes(observations[i].path.len(), 8) + observations[i].path + le_bytes(
            observations[i].bytes.len(),
            8,
        ) + observations[i].bytes + observed_from(observations, i + 1)
    }
}

/// The bytes that a policy's fingerprint is taken of: every rule file, in order.
pub open spec fn policy_bytes(rules: RulesModel) -> Seq<u8> {
    policy_magic() + seq![
        if rules.complete {
            1u8
        } else {
            0u8
        },
    ] + le_bytes(rules.observations.len(), 8) + observed_from(rules.observations, 0)
}

/// `fcb/repository-rules/v1` and a zero.
pub open spec fn policy_magic() -> Seq<u8> {
    seq![
        102u8,
        99,
        98,
        47,
        114,
        101,
        112,
        111,
        115,
        105,
        116,
        111,
        114,
        121,
        45,
        114,
        117,
        108,
        101,
        115,
        47,
        118,
        49,
        0,
    ]
}

/// Whether a name is that of the rules: the host's hash of their bytes, behind
/// a fixed prefix.
pub open spec fn is_fingerprint<F: FnOnce(&Vec<u8>) -> String>(
    key: Seq<char>,
    rules: RulesModel,
    fingerprint: F,
) -> bool {
    exists|bytes: &Vec<u8>, hash: String|
        bytes@ == policy_bytes(rules) && key == "repository-rules-v1:"@ + hash@
            && #[trigger] call_ensures(fingerprint, (bytes,), hash)
}

fn rule_bytes(rules: &RepositoryRules) -> (r: Vec<u8>)
    ensures
        r@ == policy_bytes(rules@),
{
    let mut out: Vec<u8> = vec![
        102, 99, 98, 47, 114, 101, 112, 111, 115, 105, 116, 111, 114, 121, 45, 114, 117, 108, 101,
        115, 47, 118, 49, 0,
    ];
    assert(out@ =~= policy_magic());
    if rules.complete {
        out.push(1);
    } else {
        out.push(0);
    }
    let n: usize = rules.observations.len();
    put_le(&mut out, n as u64, 8);
    let ghost all = out@ + observed_from(rules@.observations, 0);
    let mut i: usize = 0;
    while i < n
        invariant
            i <= n == rules.observations@.len(),
            all == out@ + observed_from(rules@.observations, i as int),
        decreases n - i,
    {
        let ghost before = out@;
        let observation = &rules.observations[i];
        assert(rules@.observations[i as int] == rules.observations@[i as int]@);
        put_le(&mut out, observation.path.len() as u64, 8);
        put_raw(&mut out, observation.path.as_slice());
        put_le(&mut out, observation.bytes.len() as u64, 8);
        put_raw(&mut out, observation.bytes.as_slice());
        i = i + 1;
        assert(out@ + observed_from(rules@.observations, i as int) =~= before + observed_from(
            rules@.observations,
            i - 1,
        ));
    }
    assert(out@ =~= all);
    assert(policy_bytes(rules@) =~= all);
    out
}

/// The name of a policy that honors rule files.
fn policy_fingerprint<F: FnOnce(&Vec<u8>) -> String>(rules: &RepositoryRules, fingerprint: F) -> (r:
    String)
    requires
        forall|bytes: &Vec<u8>| call_requires(fingerprint, (bytes,)),
    ensures
        is_fingerprint(r@, rules@, fingerprint),
{
    let bytes = rule_bytes(rules);
    let hash = fingerprint(&bytes);
    assert(call_ensures(fingerprint, (&bytes,), hash));
    let prefix = "repository-rules-v1:";
    prefix.to_string().concat(hash.as_str())
}

/// Which of two files comes first.
fn order_entries(a: &WorkspaceEntry, b: &WorkspaceEntry) -> (r: Ordering)
    ensures
        r == (match order_of(a@.path, b@.path) {
            PathOrder::Before => Ordering::Less,
            PathOrder::Same => Ordering::Equal,
            PathOrder::After => Ordering::Greater,
        }),
{
    match order_paths(&a.path, &b.path) {
        PathOrder::Before => Ordering::Less,
        PathOrder::Same => Ordering::Equal,
        PathOrder::After => Ordering::Greater,
    }
}

/// `slice::sort_unstable_by`, with the order of the paths: the same files, none
/// before one that it should follow. Where paths are equal, the order is left
/// unsaid.
#[verifier::external_body]
fn sort_entries(entries: &mut Vec<WorkspaceEntry>)
    ensures
        views(final(entries)@).to_multiset() == views(old(entries)@).to_multiset(),
        final(entries)@.len() == old(entries)@.len(),
        sorted(views(final(entries)@)),
{
    entries.sort_unstable_by(|a, b| order_entries(a, b));
}

/// Sorted files have no path twice exactly when no two neighbors share one.
proof fn lemma_neighbors(entries: Seq<EntryModel>)
    requires
        sorted(entries),
        forall|i: int, j: int|
            0 <= i < entries.len() && j == i + 1 && j < entries.len() ==> (
            #[trigger] entries[i]).path != (#[trigger] entries[j]).path,
    ensures
        sorted_once(entries),
{
    assert forall|i: int, j: int| 0 <= i < j < entries.len() implies precedes(
        #[trigger] entries[i].path,
        #[trigger] entries[j].path,
    ) by {
        lemma_climb(entries, i, j);
    }
}

proof fn lemma_climb(entries: Seq<EntryModel>, i: int, j: int)
    requires
        sorted(entries),
        forall|i: int, j: int|
            0 <= i < entries.len() && j == i + 1 && j < entries.len() ==> (
            #[trigger] entries[i]).path != (#[trigger] entries[j]).path,
        0 <= i < j < entries.len(),
    ensures
        precedes(entries[i].path, entries[j].path),
    decreases j - i,
{
    let near = entries[j - 1];
    precedes_is_total(near.path, entries[j].path);
    assert(!precedes(entries[j].path, near.path));
    assert(near.path != entries[j].path);
    if i < j - 1 {
        lemma_climb(entries, i, j - 1);
        precedes_is_transitive(entries[i].path, near.path, entries[j].path);
    }
}

fn has_duplicate(entries: &Vec<WorkspaceEntry>) -> (r: bool)
    requires
        sorted(views(entries@)),
    ensures
        r == !sorted_once(views(entries@)),
{
    let n: usize = entries.len();
    let mut i: usize = 1;
    while i < n
        invariant
            1 <= i,
            i <= n || n == 0,
            n == entries@.len(),
            sorted(views(entries@)),
            forall|a: int, b: int|
                0 <= a && b == a + 1 && b < i && b < n ==> (#[trigger] views(entries@)[a]).path
                    != (#[trigger] views(entries@)[b]).path,
        decreases n - i,
    {
        assert(views(entries@)[i - 1] == entries@[i - 1]@);
        assert(views(entries@)[i as int] == entries@[i as int]@);
        if same_bytes(&entries[i - 1].path, &entries[i].path) {
            proof {
                let all = views(entries@);
                precedes_is_total(all[i - 1].path, all[i - 1].path);
                if sorted_once(all) {
                    assert(precedes(all[i - 1].path, all[i as int].path));
                }
            }
            return true;
        }
        i = i + 1;
    }
    proof {
        lemma_neighbors(views(entries@));
    }
    false
}

/// What queries see of a path.
fn key_of<E: Fn(&Vec<u8>) -> String>(path: &Vec<u8>, escape: &E) -> (r: String)
    requires
        forall|native: &Vec<u8>| call_requires(*escape, (native,)),
    ensures
        is_key(r@, path@, *escape),
{
    let mut copy: Vec<u8> = Vec::new();
    put_raw(&mut copy, path.as_slice());
    assert(copy@ =~= path@);
    match text_from_utf8(copy) {
        Some(text) => text,
        None => {
            let label = escape(path);
            assert(call_ensures(*escape, (path,), label));
            label
        },
    }
}

/// What the walk answers when it is asked for a page.
#[derive(Debug)]
pub enum DiscoveryReply {
    Page(DiscoveryPage),
    Failed(SourceError),
}

impl WorkspaceCatalog {
    /// A catalog of what lies under a root, to be filled by a walk. `grant` is
    /// what forbids the root, if something does; `root_path` is the length of
    /// the root's path.
    pub fn open<A: FnOnce(u64) -> bool>(
        owner: ArenaOwnerId,
        grant: Option<SourceError>,
        root_path: usize,
        id: SearchManifestId,
        first_file: FileId,
        limits: WorkspaceLimits,
        include_excluded: bool,
        reserve: A,
    ) -> (r: Result<Self, WorkspaceError>)
        requires
            first_file.value != 0,
            forall|charge: u64| call_requires(reserve, (charge,)),
        ensures
            if grant is Some {
                r matches Err(WorkspaceError::Source(why)) && why == grant->0
            } else if id.owner != owner || first_file.owner != owner {
                r matches Err(WorkspaceError::OwnerMismatch)
            } else if !limits.valid() || root_path > 16_384 {
                r matches Err(WorkspaceError::InvalidLimits)
            } else if first_file.value + limits.max_files - 1 > u64::MAX {
                r matches Err(WorkspaceError::IdentityExhausted)
            } else if catalog_charge(limits) > usize::MAX {
                r matches Err(WorkspaceError::InvalidLimits)
            } else {
                exists|granted: bool|
                    #[trigger] call_ensures(reserve, (catalog_charge(limits) as u64,), granted)
                        && match r {
                        Ok(catalog) => granted && catalog@.wf() && catalog@ == opened(
                            owner,
                            id,
                            first_file,
                            limits,
                            include_excluded,
                        ),
                        Err(e) => !granted && e is ResourceDenied,
                    }
            },
    {
        WorkspaceCatalog::prepare(
            owner,
            grant,
            root_path,
            id,
            first_file,
            limits,
            include_excluded,
            reserve,
        )
    }

    fn prepare<R, A: FnOnce(u64) -> bool>(
        owner: ArenaOwnerId,
        grant: Option<SourceError>,
        root_path: usize,
        id: SearchManifestId,
        first_file: FileId,
        limits: WorkspaceLimits,
        include_excluded: bool,
        reserve: A,
    ) -> (r: Result<Self, WorkspaceError<(), R>>)
        requires
            first_file.value != 0,
            forall|charge: u64| call_requires(reserve, (charge,)),
        ensures
            if grant is Some {
                r matches Err(WorkspaceError::Source(why)) && why == grant->0
            } else if id.owner != owner || first_file.owner != owner {
                r matches Err(WorkspaceError::OwnerMismatch)
            } else if !limits.valid() || root_path > 16_384 {
                r matches Err(WorkspaceError::InvalidLimits)
            } else if first_file.value + limits.max_files - 1 > u64::MAX {
                r matches Err(WorkspaceError::IdentityExhausted)
            } else if catalog_charge(limits) > usize::MAX {
                r matches Err(WorkspaceError::InvalidLimits)
            } else {
                exists|granted: bool|
                    #[trigger] call_ensures(reserve, (catalog_charge(limits) as u64,), granted)
                        && match r {
                        Ok(catalog) => granted && catalog@.wf() && catalog@ == opened(
                            owner,
                            id,
                            first_file,
                            limits,
                            include_excluded,
                        ),
                        Err(e) => !granted && e is ResourceDenied,
                    }
            },
    {
        if let Some(e) = grant {
            return Err(WorkspaceError::Source(e));
        }
        if id.owner != owner || first_file.owner != owner {
            return Err(WorkspaceError::OwnerMismatch);
        }
        if limits.max_files < 1 || limits.max_files > MAX_WORKSPACE_FILES
            || limits.max_total_path_bytes > 16_777_216 || limits.max_discovery_pages < 1
            || limits.max_discovery_pages > 65_536 || limits.max_file_bytes > 1_048_576
            || limits.max_source_bytes > 536_870_912 || root_path > 16_384 {
            return Err(WorkspaceError::InvalidLimits);
        }
        let extra: u64 = limits.max_files as u64 - 1;
        if extra > u64::MAX - first_file.value {
            return Err(WorkspaceError::IdentityExhausted);
        }
        let row: u128 = wide_size::<WorkspaceEntry>();
        let files: u128 = limits.max_files as u128;
        assert(0 <= files * row <= 65_536 * 0xffff_ffff_ffff_ffff) by (nonlinear_arith)
            requires
                0 <= files <= 65_536,
                0 <= row <= 0xffff_ffff_ffff_ffff,
        ;
        let charge: u128 = limits.max_total_path_bytes as u128 * 64 + files * row
            + DISCOVERY_SCRATCH as u128 + wide_size::<WorkspaceCatalog>();
        if charge > usize::MAX as u128 {
            return Err(WorkspaceError::InvalidLimits);
        }
        let granted = reserve(charge as u64);
        assert(call_ensures(reserve, (catalog_charge(limits) as u64,), granted));
        if !granted {
            return Err(WorkspaceError::ResourceDenied);
        }
        let catalog = WorkspaceCatalog {
            owner,
            id,
            first_file,
            limits,
            include_excluded,
            policy_key: None,
            entries: Vec::new(),
            stage: WorkspaceStage::Discovering,
            aggregate: DiscoveryAggregate {
                unavailable: 0,
                cycles: 0,
                depth_limited: 0,
                path_limited: 0,
                queue_refused: 0,
            },
            pages: 0,
            path_bytes: 0,
            discovery_complete: false,
            limit: None,
            discovery_error: None,
        };
        assert(catalog@.entries =~= Seq::<EntryModel>::empty());
        Ok(catalog)
    }

    /// A catalog whose walk honors rule files. `rule_name` names the policy
    /// until the rules are known; `walk` says why such a walk could not start.
    pub fn open_rule_aware<
        R,
        A: FnOnce(u64) -> bool,
        W: FnOnce() -> Option<WorkspaceError<(), R>>,
    >(
        owner: ArenaOwnerId,
        grant: Option<SourceError>,
        root_path: usize,
        id: SearchManifestId,
        first_file: FileId,
        limits: WorkspaceLimits,
        rule_name: String,
        allocations: (u64, u64),
        reserve: A,
        walk: W,
    ) -> (r: Result<Self, WorkspaceError<(), R>>)
        requires
            first_file.value != 0,
            forall|charge: u64| call_requires(reserve, (charge,)),
            call_requires(walk, ()),
        ensures
            if allocations.0 == allocations.1 {
                r matches Err(WorkspaceError::InvalidLimits)
            } else if grant is Some {
                r matches Err(WorkspaceError::Source(why)) && why == grant->0
            } else if id.owner != owner || first_file.owner != owner {
                r matches Err(WorkspaceError::OwnerMismatch)
            } else if !limits.valid() || root_path > 16_384 {
                r matches Err(WorkspaceError::InvalidLimits)
            } else if first_file.value + limits.max_files - 1 > u64::MAX {
                r matches Err(WorkspaceError::IdentityExhausted)
            } else if catalog_charge(limits) > usize::MAX {
                r matches Err(WorkspaceError::InvalidLimits)
            } else {
                exists|granted: bool|
                    #[trigger] call_ensures(reserve, (catalog_charge(limits) as u64,), granted)
                        && match r {
                        Ok(catalog) => granted && call_ensures(walk, (), None) && catalog@.wf()
                            && catalog@ == (WorkspaceCatalog {
                            policy_key: Some(rule_name@),
                            ..opened(owner, id, first_file, limits, false)
                        }),
                        Err(e) => if granted {
                            call_ensures(walk, (), Some(e))
                        } else {
                            e is ResourceDenied
                        },
                    }
            },
    {
        if allocations.0 == allocations.1 {
            return Err(WorkspaceError::InvalidLimits);
        }
        let mut catalog = match WorkspaceCatalog::prepare(
            owner,
            grant,
            root_path,
            id,
            first_file,
            limits,
            false,
            reserve,
        ) {
            Ok(catalog) => catalog,
            Err(e) => {
                return Err(e);
            },
        };
        if let Some(e) = walk() {
            return Err(e);
        }
        catalog.policy_key = Some(rule_name);
        Ok(catalog)
    }

    pub fn id(&self) -> (r: SearchManifestId)
        ensures
            r == self@.id,
    {
        self.id
    }

    pub fn stage(&self) -> (r: WorkspaceStage)
        ensures
            r == self@.stage,
    {
        self.stage
    }

    pub fn limits(&self) -> (r: WorkspaceLimits)
        ensures
            r == self@.limits,
    {
        self.limits
    }

    pub fn entries(&self) -> (r: &Vec<WorkspaceEntry>)
        ensures
            views(r@) == self@.entries,
    {
        &self.entries
    }

    pub fn aggregate(&self) -> (r: DiscoveryAggregate)
        ensures
            r == self@.aggregate,
    {
        self.aggregate
    }

    pub fn discovery_pages(&self) -> (r: usize)
        ensures
            r == self@.pages,
    {
        self.pages
    }

    pub fn discovery_complete(&self) -> (r: bool)
        ensures
            r == self@.discovery_complete,
    {
        self.discovery_complete
    }

    pub fn stopped_by_limit(&self) -> (r: Option<WorkspaceLimit>)
        ensures
            r == self@.limit,
    {
        self.limit
    }

    pub fn discovery_error(&self) -> (r: Option<SourceError>)
        ensures
            r == self@.discovery_error,
    {
        self.discovery_error
    }

    pub fn reads_rule_files(&self) -> (r: bool)
        ensures
            r == (self@.policy_key is Some),
    {
        self.policy_key.is_some()
    }

    /// The name of what was looked for. Once frozen, the name of a policy with
    /// rule files holds the hash of exactly those files.
    pub fn policy_name(&self) -> (r: &str)
        ensures
            r@ == (match self@.policy_key {
                Some(key) => key,
                None => if self@.include_excluded {
                    "all-regular-files/no-rule-files-v1"@
                } else {
                    "product-defaults/no-rule-files-v1"@
                },
            }),
    {
        match &self.policy_key {
            Some(key) => key.as_str(),
            None => if self.include_excluded {
                "all-regular-files/no-rule-files-v1"
            } else {
                "product-defaults/no-rule-files-v1"
            },
        }
    }

    /// The file at a place in the frozen catalog.
    pub fn file_id(&self, ordinal: usize) -> (r: Option<FileId>)
        requires
            self@.wf(),
        ensures
            r == self@.file_at(ordinal as int),
    {
        if self.stage != WorkspaceStage::Ready || ordinal >= self.entries.len() {
            return None;
        }
        Some(FileId { owner: self.owner, value: self.first_file.value + ordinal as u64 })
    }

    /// The place of a file in the frozen catalog.
    pub fn ordinal(&self, file: FileId) -> (r: Option<usize>)
        requires
            self@.wf(),
        ensures
            r == self@.ordinal_of(file),
    {
        if self.stage != WorkspaceStage::Ready || file.owner != self.owner || file.value
            < self.first_file.value {
            return None;
        }
        let at: u64 = file.value - self.first_file.value;
        if at >= self.entries.len() as u64 {
            return None;
        }
        Some(at as usize)
    }

    pub fn entry(&self, file: FileId) -> (r: Option<&WorkspaceEntry>)
        requires
            self@.wf(),
        ensures
            match self@.ordinal_of(file) {
                Some(i) => r matches Some(entry) && entry@ == self@.entries[i as int],
                None => r is None,
            },
    {
        match self.ordinal(file) {
            Some(i) => {
                assert(self@.entries[i as int] == self.entries@[i as int]@);
                Some(&self.entries[i])
            },
            None => None,
        }
    }

    pub fn cancel(&mut self)
        ensures
            final(self)@ == old(self)@.canceled(),
    {
        self.stage = WorkspaceStage::Canceled;
    }

    fn collect<E: Fn(&Vec<u8>) -> String>(&mut self, found: &Vec<DiscoveredEntry>, escape: &E) -> (r:
        bool)
        requires
            old(self)@.wf(),
            old(self)@.stage is Discovering,
            forall|native: &Vec<u8>| call_requires(*escape, (native,)),
        ensures
            final(self)@.wf(),
            final(self)@.stage is Discovering,
            final(self)@.collects(old(self)@, views(found@), 0, r, *escape),
    {
        let n: usize = found.len();
        let mut i: usize = 0;
        let ghost start = self@;
        let ghost all = views(found@);
        while i < n
            invariant
                i <= n == found@.len(),
                all == views(found@),
                start == old(self)@,
                self@.wf(),
                self@.stage is Discovering,
                forall|native: &Vec<u8>| call_requires(*escape, (native,)),
                forall|last: CatalogModel, stopped: bool|
                    #[trigger] last.collects(self@, all, i as int, stopped, *escape)
                        ==> last.collects(start, all, 0, stopped, *escape),
            decreases n - i,
        {
            let ghost before = self@;
            let entry = &found[i];
            assert(all[i as int] == entry@);
            if entry.kind != DiscoveryKind::File || entry.excluded {
                assert forall|last: CatalogModel, stopped: bool|
                    #[trigger] last.collects(
                        self@,
                        all,
                        i + 1,
                        stopped,
                        *escape,
                    ) implies last.collects(start, all, 0, stopped, *escape) by {
                    assert(last.collects(before, all, i as int, stopped, *escape));
                }
                i = i + 1;
                continue;
            }
            if self.entries.len() == self.limits.max_files {
                self.limit = Some(WorkspaceLimit::Files);
                assert(self@.collects(before, all, i as int, true, *escape));
                return true;
            }
            let bytes: usize = entry.path.len();
            if bytes > self.limits.max_total_path_bytes - self.path_bytes {
                self.limit = Some(WorkspaceLimit::Paths);
                assert(self@.collects(before, all, i as int, true, *escape));
                return true;
            }
            self.path_bytes = self.path_bytes + bytes;
            let search_key = key_of(&entry.path, escape);
            let observed_bytes: u64 = match entry.observed_len {
                Some(n) => n,
                None => 0,
            };
            let path = copy_path(&entry.path);
            let ghost key = search_key@;
            self.entries.push(WorkspaceEntry { path, observed_bytes, search_key });
            assert(self@ == before.with_file(all[i as int], key));
            assert(is_key(key, all[i as int].path, *escape));
            assert forall|last: CatalogModel, stopped: bool|
                #[trigger] last.collects(self@, all, i + 1, stopped, *escape) implies last.collects(
                start,
                all,
                0,
                stopped,
                *escape,
            ) by {
                assert(last.collects(before, all, i as int, stopped, *escape));
            }
            i = i + 1;
        }
        assert(self@.collects(self@, all, i as int, false, *escape));
        false
    }

    fn freeze<R: FnOnce() -> Option<RepositoryRules>, F: FnOnce(&Vec<u8>) -> String>(
        &mut self,
        closed: bool,
        rules: R,
        fingerprint: F,
    ) -> (r: Result<WorkspaceStage, WorkspaceError>)
        requires
            old(self)@.wf(),
            call_requires(rules, ()),
            forall|bytes: &Vec<u8>| call_requires(fingerprint, (bytes,)),
        ensures
            final(self)@.wf(),
            is_frozen(old(self)@, final(self)@, closed, r, rules, fingerprint),
    {
        let ghost before = self@;
        sort_entries(&mut self.entries);
        if has_duplicate(&self.entries) {
            self.cancel();
            proof {
                let ghost after = self@;
                assert forall|read: Option<RepositoryRules>|
                    #[trigger] after.freezes(
                        before,
                        closed,
                        maybe(read),
                        Err(WorkspaceError::DuplicatePath),
                        fingerprint,
                    ) by {}
                assert(after.freezes(
                    before,
                    closed,
                    maybe::<RepositoryRules>(None),
                    Err(WorkspaceError::DuplicatePath),
                    fingerprint,
                ));
            }
            return Err(WorkspaceError::DuplicatePath);
        }
        let a = self.aggregate;
        let mut complete = closed && self.limit.is_none() && self.discovery_error.is_none()
            && a.unavailable == 0 && a.cycles == 0 && a.depth_limited == 0 && a.path_limited == 0
            && a.queue_refused == 0;
        let read = rules();
        assert(call_ensures(rules, (), read));
        if let Some(read) = &read {
            complete = complete && read.complete;
            self.policy_key = Some(policy_fingerprint(read, fingerprint));
        }
        self.discovery_complete = complete;
        self.stage = WorkspaceStage::Ready;
        assert(self@.freezes(before, closed, maybe(read), Ok(WorkspaceStage::Ready), fingerprint));
        Ok(self.stage)
    }

    /// Takes one page of the walk.
    pub fn step<
        C: FnMut() -> bool,
        V: FnMut() -> Option<SourceError>,
        N: FnOnce() -> DiscoveryReply,
        E: Fn(&Vec<u8>) -> String,
        R: FnOnce() -> Option<RepositoryRules>,
        F: FnOnce(&Vec<u8>) -> String,
    >(
        &mut self,
        mut canceled: C,
        mut refused: V,
        next: N,
        escape: E,
        rules: R,
        fingerprint: F,
    ) -> (r: Result<WorkspaceStage, WorkspaceError>)
        requires
            old(self)@.wf(),
            call_requires(canceled, ()),
            call_requires(refused, ()),
            call_requires(next, ()),
            forall|native: &Vec<u8>| call_requires(escape, (native,)),
            call_requires(rules, ()),
            forall|bytes: &Vec<u8>| call_requires(fingerprint, (bytes,)),
        ensures
            final(self)@.wf(),
            is_step(
                old(self)@,
                final(self)@,
                r,
                canceled,
                refused,
                next,
                escape,
                rules,
                fingerprint,
            ),
    {
        let ghost before = self@;
        if canceled() {
            self.cancel();
            return Err(WorkspaceError::Canceled);
        }
        if let Some(e) = refused() {
            self.cancel();
            return Err(WorkspaceError::Source(e));
        }
        if self.stage != WorkspaceStage::Discovering {
            return Ok(self.stage);
        }
        if self.pages == self.limits.max_discovery_pages {
            self.limit = Some(WorkspaceLimit::DiscoveryPages);
            return self.freeze(false, rules, fingerprint);
        }
        self.pages = self.pages + 1;
        let reply = next();
        assert(call_ensures(next, (), reply));
        let page = match reply {
            DiscoveryReply::Page(page) => page,
            DiscoveryReply::Failed(SourceError::Canceled) => {
                self.cancel();
                return Err(WorkspaceError::Canceled);
            },
            DiscoveryReply::Failed(SourceError::GrantRevoked) => {
                self.cancel();
                return Err(WorkspaceError::Source(SourceError::GrantRevoked));
            },
            DiscoveryReply::Failed(e) => {
                self.discovery_error = Some(e);
                return self.freeze(false, rules, fingerprint);
            },
        };
        self.aggregate = page.aggregate;
        let closed = page.done && page.complete;
        let ghost ready = self@;
        let stopped = self.collect(&page.entries, &escape);
        let ghost filled = self@;
        assert(filled.collects(ready, views(page.entries@), 0, stopped, escape));
        if stopped {
            let r = self.freeze(false, rules, fingerprint);
            assert(page_taken(
                before,
                filled,
                self@,
                r,
                page,
                stopped,
                canceled,
                refused,
                escape,
                rules,
                fingerprint,
            ));
            return r;
        }
        if canceled() {
            self.cancel();
            assert(page_taken(
                before,
                filled,
                self@,
                Err(WorkspaceError::Canceled),
                page,
                stopped,
                canceled,
                refused,
                escape,
                rules,
                fingerprint,
            ));
            return Err(WorkspaceError::Canceled);
        }
        if let Some(e) = refused() {
            assert(page_taken(
                before,
                filled,
                self@,
                Err(WorkspaceError::Source(e)),
                page,
                stopped,
                canceled,
                refused,
                escape,
                rules,
                fingerprint,
            ));
            return Err(WorkspaceError::Source(e));
        }
        if page.done {
            let r = self.freeze(closed, rules, fingerprint);
            assert(page_taken(
                before,
                filled,
                self@,
                r,
                page,
                stopped,
                canceled,
                refused,
                escape,
                rules,
                fingerprint,
            ));
            r
        } else {
            let r = Ok(self.stage);
            assert(page_taken(
                before,
                filled,
                self@,
                r,
                page,
                stopped,
                canceled,
                refused,
                escape,
                rules,
                fingerprint,
            ));
            r
        }
    }
}

fn copy_path(path: &Vec<u8>) -> (r: Vec<u8>)
    ensures
        r@ == path@,
{
    let mut copy: Vec<u8> = Vec::new();
    put_raw(&mut copy, path.as_slice());
    assert(copy@ =~= path@);
    copy
}

/// A catalog before its walk.
pub open spec fn opened(
    owner: ArenaOwnerId,
    id: SearchManifestId,
    first_file: FileId,
    limits: WorkspaceLimits,
    include_excluded: bool,
) -> CatalogModel {
    WorkspaceCatalog {
        owner,
        id,
        first_file,
        limits,
        include_excluded,
        policy_key: None,
        entries: Seq::empty(),
        stage: WorkspaceStage::Discovering,
        aggregate: DiscoveryAggregate {
            unavailable: 0,
            cycles: 0,
            depth_limited: 0,
            path_limited: 0,
            queue_refused: 0,
        },
        pages: 0,
        path_bytes: 0,
        discovery_complete: false,
        limit: None,
        discovery_error: None,
    }
}

impl CatalogModel {
    /// The file at a place in the frozen catalog.
    pub open spec fn file_at(self, ordinal: int) -> Option<FileId> {
        if self.stage is Ready && 0 <= ordinal < self.entries.len() {
            Some(FileId { owner: self.owner, value: (self.first_file.value + ordinal) as u64 })
        } else {
            None
        }
    }

    /// The place of a file in the frozen catalog.
    pub open spec fn ordinal_of(self, file: FileId) -> Option<usize> {
        let at = file.value - self.first_file.value;
        if self.stage is Ready && file.owner == self.owner && 0 <= at < self.entries.len() {
            Some(at as usize)
        } else {
            None
        }
    }
}

/// Whether a catalog may be frozen so.
pub open spec fn is_frozen<
    R: FnOnce() -> Option<RepositoryRules>,
    F: FnOnce(&Vec<u8>) -> String,
>(
    before: CatalogModel,
    after: CatalogModel,
    closed: bool,
    r: Result<WorkspaceStage, WorkspaceError>,
    rules: R,
    fingerprint: F,
) -> bool {
    ||| r is Err && after.freezes(before, closed, None, r, fingerprint)
    ||| r is Ok && exists|read: Option<RepositoryRules>|
        #[trigger] call_ensures(rules, (), read) && after.freezes(
            before,
            closed,
            maybe(read),
            r,
            fingerprint,
        )
}

/// Whether a page may be taken so, once its files are in `filled`.
pub open spec fn page_taken<
    C: FnMut() -> bool,
    V: FnMut() -> Option<SourceError>,
    E: Fn(&Vec<u8>) -> String,
    R: FnOnce() -> Option<RepositoryRules>,
    F: FnOnce(&Vec<u8>) -> String,
>(
    before: CatalogModel,
    filled: CatalogModel,
    after: CatalogModel,
    r: Result<WorkspaceStage, WorkspaceError>,
    page: DiscoveryPage,
    stopped: bool,
    canceled: C,
    refused: V,
    escape: E,
    rules: R,
    fingerprint: F,
) -> bool {
    let ready = WorkspaceCatalog {
        pages: (before.pages + 1) as usize,
        aggregate: page.aggregate,
        ..before
    };
    &&& filled.collects(ready, views(page.entries@), 0, stopped, escape)
    &&& if stopped {
        is_frozen(filled, after, false, r, rules, fingerprint)
    } else {
        ||| call_ensures(canceled, (), true) && r == Err::<WorkspaceStage, WorkspaceError>(
            WorkspaceError::Canceled,
        ) && after == filled.canceled()
        ||| call_ensures(canceled, (), false) && exists|e: SourceError|
            #[trigger] call_ensures(refused, (), Some(e)) && r == Err::<
                WorkspaceStage,
                WorkspaceError,
            >(WorkspaceError::Source(e)) && after == filled
        ||| call_ensures(canceled, (), false) && call_ensures(refused, (), None) && if page.done {
            is_frozen(filled, after, page.complete, r, rules, fingerprint)
        } else {
            r == Ok::<WorkspaceStage, WorkspaceError>(filled.stage) && after == filled
        }
    }
}

/// Whether a catalog may take a step so.
pub open spec fn is_step<
    C: FnMut() -> bool,
    V: FnMut() -> Option<SourceError>,
    N: FnOnce() -> DiscoveryReply,
    E: Fn(&Vec<u8>) -> String,
    R: FnOnce() -> Option<RepositoryRules>,
    F: FnOnce(&Vec<u8>) -> String,
>(
    before: CatalogModel,
    after: CatalogModel,
    r: Result<WorkspaceStage, WorkspaceError>,
    canceled: C,
    refused: V,
    next: N,
    escape: E,
    rules: R,
    fingerprint: F,
) -> bool {
    ||| call_ensures(canceled, (), true) && r == Err::<WorkspaceStage, WorkspaceError>(
        WorkspaceError::Canceled,
    ) && after == before.canceled()
    ||| call_ensures(canceled, (), false) && exists|e: SourceError|
        #[trigger] call_ensures(refused, (), Some(e)) && r == Err::<WorkspaceStage, WorkspaceError>(
            WorkspaceError::Source(e),
        ) && after == before.canceled()
    ||| call_ensures(canceled, (), false) && call_ensures(refused, (), None) && if !(
    before.stage is Discovering) {
        r == Ok::<WorkspaceStage, WorkspaceError>(before.stage) && after == before
    } else if before.pages == before.limits.max_discovery_pages {
        is_frozen(
            WorkspaceCatalog { limit: Some(WorkspaceLimit::DiscoveryPages), ..before },
            after,
            false,
            r,
            rules,
            fingerprint,
        )
    } else {
        let counted = WorkspaceCatalog { pages: (before.pages + 1) as usize, ..before };
        exists|reply: DiscoveryReply|
            #[trigger] call_ensures(next, (), reply) && match reply {
                DiscoveryReply::Failed(SourceError::Canceled) => r == Err::<
                    WorkspaceStage,
                    WorkspaceError,
                >(WorkspaceError::Canceled) && after == counted.canceled(),
                DiscoveryReply::Failed(SourceError::GrantRevoked) => r == Err::<
                    WorkspaceStage,
                    WorkspaceError,
                >(WorkspaceError::Source(SourceError::GrantRevoked)) && after == counted.canceled(),
                DiscoveryReply::Failed(e) => is_frozen(
                    WorkspaceCatalog { discovery_error: Some(e), ..counted },
                    after,
                    false,
                    r,
                    rules,
                    fingerprint,
                ),
                DiscoveryReply::Page(page) => exists|filled: CatalogModel, stopped: bool|
                    #[trigger] page_taken(
                        before,
                        filled,
                        after,
                        r,
                        page,
                        stopped,
                        canceled,
                        refused,
                        escape,
                        rules,
                        fingerprint,
                    ),
            }
    }
}

/// A file that the catalog names is found again at its place, and no other file
/// is found there.
pub proof fn places_and_files_agree(catalog: CatalogModel, ordinal: usize, file: FileId)
    requires
        catalog.wf(),
    ensures
        catalog.file_at(ordinal as int) == Some(file) <==> catalog.ordinal_of(file) == Some(
            ordinal,
        ),
{
}

/// Only what was closed, ran into no limit, met no failure, left nothing out
/// and read all its rules counts as complete.
pub proof fn completeness_is_earned<F: FnOnce(&Vec<u8>) -> String>(
    before: CatalogModel,
    after: CatalogModel,
    closed: bool,
    rules: Option<RulesModel>,
    fingerprint: F,
)
    requires
        after.freezes(before, closed, rules, Ok(WorkspaceStage::Ready), fingerprint),
    ensures
        after.discovery_complete ==> closed && before.limit is None && before.discovery_error
            is None && before.aggregate.clean() && (rules matches Some(read) ==> read.complete),
{
}

/// A frozen catalog does not depend on the order in which the walk found its
/// files.
pub proof fn identities_follow_paths<F: FnOnce(&Vec<u8>) -> String>(
    first: CatalogModel,
    second: CatalogModel,
    one: CatalogModel,
    other: CatalogModel,
    closed: bool,
    rules: Option<RulesModel>,
    fingerprint: F,
)
    requires
        first.entries.to_multiset() == second.entries.to_multiset(),
        one.freezes(first, closed, rules, Ok(WorkspaceStage::Ready), fingerprint),
        other.freezes(second, closed, rules, Ok(WorkspaceStage::Ready), fingerprint),
    ensures
        one.entries == other.entries,
{
    lemma_same_order(one.entries, other.entries);
}

/// Two sequences of the same files in strict order are the same.
proof fn lemma_same_order(a: Seq<EntryModel>, b: Seq<EntryModel>)
    requires
        a.to_multiset() == b.to_multiset(),
        sorted_once(a),
        sorted_once(b),
    ensures
        a == b,
    decreases a.len(),
{
    broadcast use vstd::seq_lib::group_to_multiset_ensures;

    a.to_multiset_ensures();
    b.to_multiset_ensures();
    assert(a.len() == b.len());
    if a.len() > 0 {
        let x = a.last();
        let y = b.last();
        assert(a.contains(x) && b.contains(y));
        assert(b.to_multiset().contains(x));
        assert(a.to_multiset().contains(y));
        let i = choose|i: int| 0 <= i < b.len() && b[i] == x;
        let j = choose|j: int| 0 <= j < a.len() && a[j] == y;
        if i < b.len() - 1 && j < a.len() - 1 {
            assert(precedes(b[i].path, b[b.len() - 1].path));
            assert(precedes(a[j].path, a[a.len() - 1].path));
            precedes_is_total(x.path, y.path);
        }
        assert(x == y);
        assert(a =~= a.drop_last().push(x));
        assert(b =~= b.drop_last().push(x));
        assert(a.drop_last().to_multiset() =~= a.to_multiset().remove(x));
        assert(b.drop_last().to_multiset() =~= b.to_multiset().remove(x));
        lemma_same_order(a.drop_last(), b.drop_last());
    }
}

} // verus!
