//! What declarations and references lead to.
use vstd::prelude::*;

use super::{reference_range, symbol_range, ReferenceCandidate, SymbolCandidate};
use crate::identity::ByteRange;

verus! {

/// A declaration leads to its name, or to all of it if the name has no range of its own.
/// Only an identifier that no declaration has leads nowhere.
pub proof fn declarations_lead_to_their_names(candidates: Seq<SymbolCandidate>, id: u64, i: int)
    requires
        0 <= i,
    ensures
        symbol_range(candidates, id, i) is None <==> forall|k: int|
            i <= k < candidates.len() ==> (#[trigger] candidates[k]).id != id,
        symbol_range(candidates, id, i) matches Some(range) ==> exists|k: int|
            i <= k < candidates.len() && (#[trigger] candidates[k]).id == id && (
            candidates[k].name_range == Some(range) || candidates[k].name_range
                == None::<ByteRange> && candidates[k].range == range),
    decreases candidates.len() - i,
{
    if i < candidates.len() {
        declarations_lead_to_their_names(candidates, id, i + 1);
        assert(candidates[i].id == candidates[i].id);
    }
}

/// A reference leads to its range. Only an identifier that no reference has leads nowhere.
pub proof fn references_lead_to_their_ranges(
    candidates: Seq<ReferenceCandidate>,
    id: u64,
    i: int,
)
    requires
        0 <= i,
    ensures
        reference_range(candidates, id, i) is None <==> forall|k: int|
            i <= k < candidates.len() ==> (#[trigger] candidates[k]).id != id,
        reference_range(candidates, id, i) matches Some(range) ==> exists|k: int|
            i <= k < candidates.len() && (#[trigger] candidates[k]).id == id && candidates[k].range
                == range,
    decreases candidates.len() - i,
{
    if i < candidates.len() {
        references_lead_to_their_ranges(candidates, id, i + 1);
        assert(candidates[i].id == candidates[i].id);
    }
}

} // verus!
