//! Words that the host uses of the sources it supplies.
use vstd::prelude::*;

use crate::identity::{ByteRange, FileId, SourceRevision};
use crate::search::reader::DetectedEncoding;

verus! {

/// Why the host could not supply a source.
#[derive(Clone, Copy, Debug, PartialEq, Eq, Structural)]
pub enum SourceError {
    Canceled,
    CaptureUnavailable,
    GrantRevoked,
    IdentityExhausted,
    MissingCapture,
    OwnerMismatch,
    ResourceDenied,
    SpecialObject,
    Unreadable,
}

/// Why the host's matcher could not go on.
#[derive(Clone, Copy, Debug, PartialEq, Eq, Structural)]
pub enum StreamError {
    EmptyNeedle,
    NeedleTooLong,
    Failed,
}

/// Which revision of which file is asked for, and which part of it.
#[derive(Clone, Copy, Debug, PartialEq, Eq, Structural)]
pub struct CaptureRequest {
    pub file: FileId,
    pub revision: SourceRevision,
    pub range: Option<ByteRange>,
}

impl CaptureRequest {
    pub fn new(file: FileId, revision: SourceRevision) -> (r: Result<Self, SourceError>)
        ensures
            r == (if file.owner != revision.owner {
                Err::<CaptureRequest, SourceError>(SourceError::OwnerMismatch)
            } else {
                Ok(CaptureRequest { file, revision, range: None })
            }),
    {
        if file.owner != revision.owner {
            Err(SourceError::OwnerMismatch)
        } else {
            Ok(CaptureRequest { file, revision, range: None })
        }
    }

    pub fn with_range(self, range: ByteRange) -> (r: Self)
        ensures
            r == (CaptureRequest { range: Some(range), ..self }),
    {
        CaptureRequest { range: Some(range), ..self }
    }

    pub fn file(self) -> (r: FileId)
        ensures
            r == self.file,
    {
        self.file
    }

    pub fn revision(self) -> (r: SourceRevision)
        ensures
            r == self.revision,
    {
        self.revision
    }
}

/// All bytes of one revision of one file.
#[derive(Debug)]
pub struct CompleteCapture {
    pub request: CaptureRequest,
    pub bytes: Vec<u8>,
}

impl CompleteCapture {
    pub fn request(&self) -> (r: CaptureRequest)
        ensures
            r == self.request,
    {
        self.request
    }

    pub fn bytes(&self) -> (r: &Vec<u8>)
        ensures
            r@ == self.bytes@,
    {
        &self.bytes
    }
}

/// What the host tells of an encoding.
#[derive(Clone, Copy, Debug, PartialEq, Eq, Structural)]
pub enum SourceEncoding {
    Known(DetectedEncoding),
    Unsupported,
}

impl SourceEncoding {
    /// Whether the text comes in units of two bytes.
    pub open spec fn wide(self) -> bool {
        self matches SourceEncoding::Known(encoding) && encoding.wide()
    }

    pub fn is_wide(self) -> (r: bool)
        ensures
            r == self.wide(),
    {
        match self {
            SourceEncoding::Known(DetectedEncoding::Utf16Le) => true,
            SourceEncoding::Known(DetectedEncoding::Utf16Be) => true,
            _ => false,
        }
    }
}

} // verus!
