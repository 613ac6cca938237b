//! Sizes of types and shared handles.
use std::sync::Arc;

use vstd::layout::size_of;
use vstd::prelude::*;

verus! {

/// The size of a type, in arithmetic wide enough for sums of charges.
pub(crate) fn wide_size<T>() -> (r: u128)
    ensures
        r == size_of::<T>(),
        r <= usize::MAX,
{
    core::mem::size_of::<T>() as u128
}

/// Another handle to the same shared value, as `Arc::clone` of the standard
/// library gives: what it points at is what the first handle points at.
#[verifier::external_body]
pub(crate) fn share<T>(handle: &Arc<T>) -> (r: Arc<T>)
    ensures
        r == *handle,
{
    Arc::clone(handle)
}

/// Whether two handles share one value, as `Arc::ptr_eq` of the standard
/// library tells: if they do, they point at the same value. Handles to equal
/// values need not share one; when they do not, nothing is said.
#[verifier::external_body]
pub(crate) fn shares_with<T>(a: &Arc<T>, b: &Arc<T>) -> (r: bool)
    ensures
        r ==> *a == *b,
{
    Arc::ptr_eq(a, b)
}

} // verus!
