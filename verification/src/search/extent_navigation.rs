//! Opening extents of files that were not captured in full.
//!
//! The host reads an extent under a navigation request and delivers it. No label
//! is resolved, and nothing is read again.
use vstd::prelude::*;

use crate::capture::same_bytes;
use crate::identity::{ArenaOwnerId, FileId, QueryGeneration};
use crate::search::extents::{
    open_extent, ExtentView, ExtentViewError, FcbError, ObservedExtent,
};

verus! {

#[derive(Clone, Copy, Debug, PartialEq, Eq, Structural)]
pub enum ExtentActivationError {
    Source(FcbError),
    View(ExtentViewError),
    Atlas(AtlasNavigationError),
}

/// Why a place on the map does not lead to a file.
#[derive(Clone, Copy, Debug, PartialEq, Eq, Structural)]
pub enum AtlasNavigationError {
    /// What was delivered is of another file.
    WrongCapture,
    /// The map that was presented is not the one the place was chosen on.
    StaleTarget,
}

/// A root that paths are relative to.
#[derive(Clone, Copy, Debug, PartialEq, Eq, Structural)]
pub struct RootId {
    pub owner: ArenaOwnerId,
    pub value: u64,
}

/// An index of paths.
#[derive(Clone, Copy, Debug, PartialEq, Eq, Structural)]
pub struct SearchManifestId {
    pub owner: ArenaOwnerId,
    pub value: u64,
}

/// What a path search asked to be opened.
#[derive(Debug)]
pub struct PathNavigationTarget {
    pub index: SearchManifestId,
    pub generation: QueryGeneration,
    pub root: RootId,
    pub file: FileId,
    pub native_path: Vec<u8>,
}

/// Where the host found what it delivers.
#[derive(Debug)]
pub struct NativeSourceIdentity {
    pub root: RootId,
    pub path: Vec<u8>,
}

/// Why a delivery does not answer a request, if so.
pub open spec fn delivery_error(
    owner: ArenaOwnerId,
    target: PathNavigationTarget,
    active_index: SearchManifestId,
    active_generation: QueryGeneration,
    native: NativeSourceIdentity,
    extent: ObservedExtent,
) -> Option<ExtentActivationError> {
    if target.index != active_index || target.generation != active_generation {
        Some(ExtentActivationError::Source(FcbError::StaleGeneration))
    } else if target.file.owner != owner || native.root.owner != owner || native.root
        != target.root {
        Some(ExtentActivationError::Source(FcbError::OwnerMismatch))
    } else if extent@.request.file != target.file {
        Some(ExtentActivationError::Source(FcbError::SourceNotFound))
    } else if native.path@ != target.native_path@ {
        Some(ExtentActivationError::Source(FcbError::StaleGeneration))
    } else if extent@.request.file.owner != owner {
        Some(ExtentActivationError::View(ExtentViewError::Source(FcbError::OwnerMismatch)))
    } else {
        None
    }
}

/// Opens an extent that was delivered for a path.
pub fn open_path_extent(
    owner: ArenaOwnerId,
    target: &PathNavigationTarget,
    active_index: SearchManifestId,
    active_generation: QueryGeneration,
    native: &NativeSourceIdentity,
    extent: ObservedExtent,
) -> (r: Result<ExtentView, ExtentActivationError>)
    ensures
        match delivery_error(
            owner,
            *target,
            active_index,
            active_generation,
            *native,
            extent,
        ) {
            Some(e) => r matches Err(f) && f == e,
            None => r matches Ok(view) && view.extent == extent,
        },
{
    if target.index != active_index || target.generation != active_generation {
        return Err(ExtentActivationError::Source(FcbError::StaleGeneration));
    }
    if target.file.owner != owner || native.root.owner != owner || native.root != target.root {
        return Err(ExtentActivationError::Source(FcbError::OwnerMismatch));
    }
    if extent.request.file != target.file {
        return Err(ExtentActivationError::Source(FcbError::SourceNotFound));
    }
    if !same_bytes(&native.path, &target.native_path) {
        return Err(ExtentActivationError::Source(FcbError::StaleGeneration));
    }
    match open_extent(owner, extent) {
        Ok(view) => Ok(view),
        Err(e) => Err(ExtentActivationError::View(e)),
    }
}

/// Opens an extent that was delivered for a place on the map. `validated` is what
/// the host's map says of the place.
pub fn open_atlas_extent(
    owner: ArenaOwnerId,
    target: FileId,
    validated: Result<(), AtlasNavigationError>,
    extent: ObservedExtent,
) -> (r: Result<ExtentView, ExtentActivationError>)
    ensures
        match validated {
            Err(e) => r matches Err(f) && f == ExtentActivationError::Atlas(e),
            Ok(()) => if extent@.request.file != target {
                r matches Err(f) && f == ExtentActivationError::Atlas(
                    AtlasNavigationError::WrongCapture,
                )
            } else if target.owner != owner {
                r matches Err(f) && f == ExtentActivationError::View(
                    ExtentViewError::Source(FcbError::OwnerMismatch),
                )
            } else {
                r matches Ok(view) && view.extent == extent
            },
        },
{
    match validated {
        Err(e) => {
            return Err(ExtentActivationError::Atlas(e));
        },
        Ok(()) => {},
    }
    if extent.request.file != target {
        return Err(ExtentActivationError::Atlas(AtlasNavigationError::WrongCapture));
    }
    match open_extent(owner, extent) {
        Ok(view) => Ok(view),
        Err(e) => Err(ExtentActivationError::View(e)),
    }
}

} // verus!
