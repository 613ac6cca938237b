//! What a hit names in a member that was opened.
use vstd::prelude::*;

use super::{hit_part, PagedCapture, PagedHit};

verus! {

/// A hit is of this opening of this member, with these bytes.
pub open spec fn is_of(capture: PagedCapture, hit: PagedHit) -> bool {
    &&& hit.ordinal == capture.ordinal
    &&& hit.file == capture.source@.file
    &&& hit.revision == capture.source@.revision
    &&& hit.archive.data() == capture.archive.data()
    &&& hit.source.data() == capture.digest.data()
}

/// A hit gives the bytes of its range, one for one, in the member that it was found in,
/// and in no other.
pub proof fn hits_give_the_bytes_of_their_range(capture: PagedCapture, hit: PagedHit)
    ensures
        hit_part(capture, hit) is Ok <==> is_of(capture, hit) && hit.range.start <= hit.range.end
            <= capture.source@.bytes.len(),
        hit_part(capture, hit) matches Ok(bytes) ==> bytes.len() == hit.range.end - hit.range.start
            && forall|i: int|
            0 <= i < bytes.len() ==> #[trigger] bytes[i] == capture.source@.bytes[hit.range.start
                + i],
{
}

} // verus!
