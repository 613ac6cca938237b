//! Arena-scoped identities and byte ranges shared by every surface.
//!
//! An identity is a nonzero number inside one arena. Two identities are the
//! same only when both the arena and the number agree.
use vstd::prelude::*;

verus! {

/// Why an identity or a range could not be formed.
#[derive(Clone, Copy, Debug, PartialEq, Eq, Structural)]
pub enum IdentityError {
    /// Zero never names anything.
    Zero,
    /// A range would end before it starts.
    ReversedRange,
}

/// Owner of an arena.
#[derive(Clone, Copy, Debug, PartialEq, Eq, Structural)]
pub struct ArenaOwnerId {
    pub value: u64,
}

impl ArenaOwnerId {
    pub fn new(value: u64) -> (r: Result<Self, IdentityError>)
        ensures
            value == 0 ==> r == Err::<Self, IdentityError>(IdentityError::Zero),
            value != 0 ==> r == Ok::<Self, IdentityError>(ArenaOwnerId { value }),
    {
        if value == 0 {
            Err(IdentityError::Zero)
        } else {
            Ok(ArenaOwnerId { value })
        }
    }

    pub fn get(self) -> (r: u64)
        ensures
            r == self.value,
    {
        self.value
    }
}

/// A file inside one arena.
#[derive(Clone, Copy, Debug, PartialEq, Eq, Structural)]
pub struct FileId {
    pub owner: ArenaOwnerId,
    pub value: u64,
}

impl FileId {
    pub fn new(owner: ArenaOwnerId, value: u64) -> (r: Result<Self, IdentityError>)
        ensures
            value == 0 ==> r == Err::<Self, IdentityError>(IdentityError::Zero),
            value != 0 ==> r == Ok::<Self, IdentityError>(FileId { owner, value }),
    {
        if value == 0 {
            Err(IdentityError::Zero)
        } else {
            Ok(FileId { owner, value })
        }
    }

    pub fn owner(self) -> (r: ArenaOwnerId)
        ensures
            r == self.owner,
    {
        self.owner
    }

    pub fn get(self) -> (r: u64)
        ensures
            r == self.value,
    {
        self.value
    }
}

/// A captured revision of a file.
#[derive(Clone, Copy, Debug, PartialEq, Eq, Structural)]
pub struct SourceRevision {
    pub owner: ArenaOwnerId,
    pub value: u64,
}

impl SourceRevision {
    pub fn new(owner: ArenaOwnerId, value: u64) -> (r: Result<Self, IdentityError>)
        ensures
            value == 0 ==> r == Err::<Self, IdentityError>(IdentityError::Zero),
            value != 0 ==> r == Ok::<Self, IdentityError>(SourceRevision { owner, value }),
    {
        if value == 0 {
            Err(IdentityError::Zero)
        } else {
            Ok(SourceRevision { owner, value })
        }
    }

    pub fn owner(self) -> (r: ArenaOwnerId)
        ensures
            r == self.owner,
    {
        self.owner
    }

    pub fn get(self) -> (r: u64)
        ensures
            r == self.value,
    {
        self.value
    }
}

/// One attempt at answering a query.
#[derive(Clone, Copy, Debug, PartialEq, Eq, Structural)]
pub struct QueryGeneration {
    pub owner: ArenaOwnerId,
    pub value: u64,
}

impl QueryGeneration {
    pub fn new(owner: ArenaOwnerId, value: u64) -> (r: Result<Self, IdentityError>)
        ensures
            value == 0 ==> r == Err::<Self, IdentityError>(IdentityError::Zero),
            value != 0 ==> r == Ok::<Self, IdentityError>(QueryGeneration { owner, value }),
    {
        if value == 0 {
            Err(IdentityError::Zero)
        } else {
            Ok(QueryGeneration { owner, value })
        }
    }

    pub fn owner(self) -> (r: ArenaOwnerId)
        ensures
            r == self.owner,
    {
        self.owner
    }

    pub fn get(self) -> (r: u64)
        ensures
            r == self.value,
    {
        self.value
    }
}

/// A half-open range of source bytes whose start never passes its end.
#[derive(Clone, Copy, Debug, PartialEq, Eq, Structural)]
pub struct ByteRange {
    pub start: u64,
    pub end: u64,
}

impl ByteRange {
    /// The start does not pass the end.
    pub open spec fn ordered(self) -> bool {
        self.start <= self.end
    }

    pub fn new(start: u64, end: u64) -> (r: Result<Self, IdentityError>)
        ensures
            start > end ==> r == Err::<Self, IdentityError>(IdentityError::ReversedRange),
            start <= end ==> r == Ok::<Self, IdentityError>(ByteRange { start, end }),
    {
        if start > end {
            Err(IdentityError::ReversedRange)
        } else {
            Ok(ByteRange { start, end })
        }
    }

    pub fn start(self) -> (r: u64)
        ensures
            r == self.start,
    {
        self.start
    }

    pub fn end(self) -> (r: u64)
        ensures
            r == self.end,
    {
        self.end
    }

    /// How many bytes the range covers.
    pub fn length(self) -> (r: u64)
        requires
            self.ordered(),
        ensures
            r == self.end - self.start,
    {
        self.end - self.start
    }

    pub fn is_empty(self) -> (r: bool)
        ensures
            r == (self.start == self.end),
    {
        self.start == self.end
    }
}

} // verus!
