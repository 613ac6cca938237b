//! What is known of a saved snapshot without reading its members.
pub mod paths;

use vstd::prelude::*;

use crate::capture::same_bytes;
use crate::envelope::Sha256Digest;
use crate::identity::ArenaOwnerId;
use crate::model::views;

verus! {

/// Why the host could not read a saved snapshot.
#[derive(Clone, Copy, Debug, PartialEq, Eq, Structural)]
pub enum PagedSnapshotError {
    Canceled,
    Failed,
}

/// Whether the bytes of a member were saved.
#[derive(Clone, Copy, Debug)]
pub enum PagedMemberData<D = Sha256Digest> {
    Captured { byte_length: usize, digest: D },
    Unavailable,
}

impl View for PagedMemberData {
    type V = PagedMemberData<Seq<u8>>;

    open spec fn view(&self) -> PagedMemberData<Seq<u8>> {
        match self {
            PagedMemberData::Captured { byte_length, digest } => PagedMemberData::Captured {
                byte_length: *byte_length,
                digest: digest.data(),
            },
            PagedMemberData::Unavailable => PagedMemberData::Unavailable,
        }
    }
}

/// A member of a snapshot.
#[derive(Debug)]
pub struct PagedMember<P = Vec<u8>, D = PagedMemberData> {
    pub path: P,
    pub observed_bytes: u64,
    pub data: D,
}

/// The model of a member.
pub type MemberModel = PagedMember<Seq<u8>, PagedMemberData<Seq<u8>>>;

impl View for PagedMember {
    type V = PagedMember<Seq<u8>, PagedMemberData<Seq<u8>>>;

    open spec fn view(&self) -> PagedMember<Seq<u8>, PagedMemberData<Seq<u8>>> {
        PagedMember {
            path: self.path@,
            observed_bytes: self.observed_bytes,
            data: self.data@,
        }
    }
}

/// The members of a snapshot and the digest of its archive.
#[derive(Debug)]
pub struct SnapshotDirectory<D = Sha256Digest, M = Vec<PagedMember>, T = String> {
    pub owner: ArenaOwnerId,
    pub digest: D,
    pub members: M,
    pub discovery_complete: bool,
    /// Which files were looked for.
    pub policy: T,
}

/// The model of a directory.
pub type DirectoryModel = SnapshotDirectory<Seq<u8>, Seq<MemberModel>, Seq<char>>;

impl View for SnapshotDirectory {
    type V = SnapshotDirectory<Seq<u8>, Seq<MemberModel>, Seq<char>>;

    open spec fn view(&self) -> SnapshotDirectory<Seq<u8>, Seq<MemberModel>, Seq<char>> {
        SnapshotDirectory {
            owner: self.owner,
            digest: self.digest.data(),
            members: views(self.members@),
            discovery_complete: self.discovery_complete,
            policy: self.policy@,
        }
    }
}

/// The members whose bytes were saved, from the `i`th on.
pub open spec fn captured_from(members: Seq<MemberModel>, i: int) -> nat
    decreases members.len() - i,
{
    if i < 0 || i >= members.len() {
        0
    } else {
        captured_from(members, i + 1) + if members[i].data is Captured {
            1nat
        } else {
            0nat
        }
    }
}

pub proof fn captured_bound(members: Seq<MemberModel>, i: int)
    requires
        0 <= i <= members.len(),
    ensures
        captured_from(members, i) <= members.len() - i,
    decreases members.len() - i,
{
    if i < members.len() {
        captured_bound(members, i + 1);
    }
}

impl SnapshotDirectory {
    pub fn len(&self) -> (r: usize)
        ensures
            r == self@.members.len(),
    {
        self.members.len()
    }

    pub fn captured_files(&self) -> (r: usize)
        ensures
            r == captured_from(self@.members, 0),
    {
        let mut count: usize = 0;
        let mut i: usize = 0;
        while i < self.members.len()
            invariant
                i <= self.members@.len(),
                count <= i,
                count + captured_from(self@.members, i as int) == captured_from(
                    self@.members,
                    0,
                ),
            decreases self.members.len() - i,
        {
            let ghost member = self@.members[i as int];
            assert(member == self.members@[i as int]@);
            match self.members[i].data {
                PagedMemberData::Captured { byte_length: _, digest: _ } => {
                    count = count + 1;
                },
                PagedMemberData::Unavailable => {},
            }
            i = i + 1;
        }
        count
    }
}

/// How two paths stand to each other.
#[derive(Clone, Copy, Debug, PartialEq, Eq, Structural)]
pub enum PathOrder {
    Before,
    Same,
    After,
}

/// Whether a path comes before another, byte by byte from a position on.
pub open spec fn precedes_from(a: Seq<u8>, b: Seq<u8>, i: int) -> bool
    decreases a.len() - i,
{
    if i >= b.len() || i < 0 {
        false
    } else if i >= a.len() {
        true
    } else if a[i] != b[i] {
        a[i] < b[i]
    } else {
        precedes_from(a, b, i + 1)
    }
}

/// Whether a path comes before another: at the first byte in which they differ,
/// or because the other goes on where it ends.
pub open spec fn precedes(a: Seq<u8>, b: Seq<u8>) -> bool {
    precedes_from(a, b, 0)
}

/// How two paths stand to each other.
pub open spec fn order_of(a: Seq<u8>, b: Seq<u8>) -> PathOrder {
    if a == b {
        PathOrder::Same
    } else if precedes(a, b) {
        PathOrder::Before
    } else {
        PathOrder::After
    }
}

pub fn order_paths(a: &Vec<u8>, b: &Vec<u8>) -> (r: PathOrder)
    ensures
        r == order_of(a@, b@),
{
    let mut i: usize = 0;
    while i < a.len() && i < b.len()
        invariant
            i <= a@.len(),
            i <= b@.len(),
            forall|j: int| 0 <= j < i ==> a@[j] == b@[j],
            precedes_from(a@, b@, i as int) == precedes(a@, b@),
        decreases a.len() - i,
    {
        if a[i] != b[i] {
            return if a[i] < b[i] {
                PathOrder::Before
            } else {
                PathOrder::After
            };
        }
        i = i + 1;
    }
    if a.len() == b.len() {
        assert(a@ =~= b@);
        PathOrder::Same
    } else if i < b.len() {
        PathOrder::Before
    } else {
        PathOrder::After
    }
}

/// No path comes before itself, and of two different paths one comes first.
pub proof fn precedes_is_total(a: Seq<u8>, b: Seq<u8>)
    ensures
        !precedes(a, a),
        !(precedes(a, b) && precedes(b, a)),
        a != b ==> precedes(a, b) || precedes(b, a),
{
    lemma_self(a, 0);
    lemma_pair(a, b, 0);
}

proof fn lemma_self(a: Seq<u8>, i: int)
    requires
        0 <= i,
    ensures
        !precedes_from(a, a, i),
    decreases a.len() - i,
{
    if i < a.len() {
        lemma_self(a, i + 1);
    }
}

proof fn lemma_pair(a: Seq<u8>, b: Seq<u8>, i: int)
    requires
        0 <= i <= a.len(),
        i <= b.len(),
        forall|j: int| 0 <= j < i ==> a[j] == b[j],
    ensures
        !(precedes_from(a, b, i) && precedes_from(b, a, i)),
        a != b ==> precedes_from(a, b, i) || precedes_from(b, a, i),
    decreases a.len() - i,
{
    if i < a.len() && i < b.len() {
        if a[i] == b[i] {
            lemma_pair(a, b, i + 1);
        }
    } else if a.len() == b.len() {
        assert(a =~= b);
    }
}

/// What comes before something comes before all that follows it.
pub proof fn precedes_is_transitive(a: Seq<u8>, b: Seq<u8>, c: Seq<u8>)
    requires
        precedes(a, b),
        precedes(b, c),
    ensures
        precedes(a, c),
{
    lemma_transitive(a, b, c, 0);
}

proof fn lemma_transitive(a: Seq<u8>, b: Seq<u8>, c: Seq<u8>, i: int)
    requires
        0 <= i,
        precedes_from(a, b, i),
        precedes_from(b, c, i),
    ensures
        precedes_from(a, c, i),
    decreases a.len() - i,
{
    if i < a.len() && i < b.len() && i < c.len() && a[i] == b[i] && b[i] == c[i] {
        lemma_transitive(a, b, c, i + 1);
    }
}

/// The first member from the `i`th on with a path.
pub open spec fn first_at(members: Seq<MemberModel>, path: Seq<u8>, i: int) -> Option<usize>
    decreases members.len() - i,
{
    if i < 0 || i >= members.len() {
        None
    } else if members[i].path == path {
        Some(i as usize)
    } else {
        first_at(members, path, i + 1)
    }
}

impl SnapshotDirectory {
    /// The member with a path.
    pub fn find_path(&self, path: &Vec<u8>) -> (r: Option<usize>)
        ensures
            r == first_at(self@.members, path@, 0),
            r matches Some(i) ==> i < self@.members.len() && self@.members[i as int].path == path@,
    {
        let mut i: usize = 0;
        while i < self.members.len()
            invariant
                i <= self.members@.len(),
                first_at(self@.members, path@, 0) == first_at(self@.members, path@, i as int),
            decreases self.members.len() - i,
        {
            assert(self@.members[i as int] == self.members@[i as int]@);
            if same_bytes(&self.members[i].path, path) {
                return Some(i);
            }
            i = i + 1;
        }
        None
    }
}

} // verus!
