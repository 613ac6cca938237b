//! Captured source bytes.
//!
//! A capture is immutable: its bytes belong to one revision of one file and
//! are never rebound to other bytes.
use vstd::prelude::*;
use vstd::utf8::encode_utf8;

use crate::identity::{ArenaOwnerId, FileId, SourceRevision};

verus! {

/// Why bytes could not become a capture.
#[derive(Clone, Copy, Debug, PartialEq, Eq, Structural)]
pub enum CaptureError {
    /// The file or the revision belongs to another arena.
    OwnerMismatch,
}

/// The bytes of one revision of one file, with the label it is shown under.
#[derive(Debug, PartialEq, Eq)]
pub struct SourceCapture<T = String, B = Vec<u8>> {
    pub owner: ArenaOwnerId,
    pub file: FileId,
    pub revision: SourceRevision,
    pub logical_path: T,
    pub bytes: B,
}

/// The model of a capture.
pub type CaptureModel = SourceCapture<Seq<char>, Seq<u8>>;

impl View for SourceCapture {
    type V = SourceCapture<Seq<char>, Seq<u8>>;

    open spec fn view(&self) -> SourceCapture<Seq<char>, Seq<u8>> {
        SourceCapture {
            owner: self.owner,
            file: self.file,
            revision: self.revision,
            logical_path: self.logical_path@,
            bytes: self.bytes@,
        }
    }
}

/// How many bytes a text takes.
pub open spec fn text_len(text: Seq<char>) -> nat {
    encode_utf8(text).len()
}

/// How many bytes a text takes.
pub fn byte_len(text: &String) -> (r: usize)
    ensures
        r == text_len(text@),
{
    text.as_str().as_bytes().len()
}

impl SourceCapture {
    pub fn from_bytes(
        owner: ArenaOwnerId,
        file: FileId,
        revision: SourceRevision,
        logical_path: String,
        bytes: Vec<u8>,
    ) -> (r: Result<Self, CaptureError>)
        ensures
            r is Err <==> file.owner != owner || revision.owner != owner,
            r matches Err(e) ==> e == CaptureError::OwnerMismatch,
            r matches Ok(capture) ==> capture@ == (SourceCapture {
                owner,
                file,
                revision,
                logical_path: logical_path@,
                bytes: bytes@,
            }),
    {
        if file.owner != owner || revision.owner != owner {
            Err(CaptureError::OwnerMismatch)
        } else {
            Ok(SourceCapture { owner, file, revision, logical_path, bytes })
        }
    }

    pub fn owner(&self) -> (r: ArenaOwnerId)
        ensures
            r == self@.owner,
    {
        self.owner
    }

    pub fn file(&self) -> (r: FileId)
        ensures
            r == self@.file,
    {
        self.file
    }

    pub fn revision(&self) -> (r: SourceRevision)
        ensures
            r == self@.revision,
    {
        self.revision
    }

    pub fn logical_path(&self) -> (r: &String)
        ensures
            r@ == self@.logical_path,
    {
        &self.logical_path
    }

    pub fn bytes(&self) -> (r: &Vec<u8>)
        ensures
            r@ == self@.bytes,
    {
        &self.bytes
    }
}

/// Whether two byte vectors hold the same bytes.
pub fn same_bytes(a: &Vec<u8>, b: &Vec<u8>) -> (r: bool)
    ensures
        r == (a@ == b@),
{
    if a.len() != b.len() {
        return false;
    }
    let mut i: usize = 0;
    while i < a.len()
        invariant
            i <= a.len() == b.len(),
            forall|j: int| 0 <= j < i ==> a@[j] == b@[j],
        decreases a.len() - i,
    {
        if a[i] != b[i] {
            return false;
        }
        i = i + 1;
    }
    assert(a@ =~= b@);
    true
}

} // verus!
