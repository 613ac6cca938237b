//! How paths are ordered and found.
use vstd::prelude::*;

use super::{first_at, order_of, precedes, precedes_from, MemberModel};

verus! {

/// Two paths agree up to a place. There one of them ends and the other goes on, or has
/// the larger byte.
pub open spec fn parts_at(a: Seq<u8>, b: Seq<u8>, n: int) -> bool {
    &&& 0 <= n <= a.len()
    &&& n < b.len()
    &&& forall|i: int| 0 <= i < n ==> #[trigger] a[i] == b[i]
    &&& n < a.len() ==> a[n] < b[n]
}

proof fn lemma_parts(a: Seq<u8>, b: Seq<u8>, i: int)
    requires
        0 <= i <= a.len(),
        i <= b.len(),
        forall|j: int| 0 <= j < i ==> #[trigger] a[j] == b[j],
    ensures
        precedes_from(a, b, i) <==> exists|n: int| #[trigger] parts_at(a, b, n),
    decreases a.len() - i,
{
    if i < b.len() && i < a.len() && a[i] == b[i] {
        lemma_parts(a, b, i + 1);
    } else {
        if precedes_from(a, b, i) {
            assert(parts_at(a, b, i));
        }
        if exists|n: int| #[trigger] parts_at(a, b, n) {
            let n = choose|n: int| #[trigger] parts_at(a, b, n);
            if n > i {
                assert(a[i] == b[i]);
            }
        }
    }
}

/// One path is before another if it goes on with a smaller byte where they part, or ends
/// there. Of two paths that are not the same, one is before the other.
pub proof fn paths_are_ordered_by_their_bytes(a: Seq<u8>, b: Seq<u8>)
    ensures
        precedes(a, b) <==> exists|n: int| #[trigger] parts_at(a, b, n),
        order_of(a, b) is Same <==> a == b,
        order_of(a, b) is Before <==> exists|n: int| #[trigger] parts_at(a, b, n),
        order_of(a, b) is After <==> exists|n: int| #[trigger] parts_at(b, a, n),
{
    lemma_parts(a, b, 0);
    lemma_parts(b, a, 0);
    if exists|n: int| #[trigger] parts_at(a, b, n) {
        let n = choose|n: int| #[trigger] parts_at(a, b, n);
        assert(a != b);
        if exists|m: int| #[trigger] parts_at(b, a, m) {
            let m = choose|m: int| #[trigger] parts_at(b, a, m);
            if m < n {
                assert(a[m] == b[m]);
            } else if n < m {
                assert(b[n] == a[n]);
            }
        }
    }
    if a != b && !precedes(a, b) {
        super::precedes_is_total(a, b);
        assert(precedes(b, a));
    }
}

/// A path is found at the first member that has it, and is not found exactly if no member
/// has it.
pub proof fn paths_are_found(members: Seq<MemberModel>, path: Seq<u8>, i: int)
    requires
        0 <= i,
        members.len() <= usize::MAX,
    ensures
        match first_at(members, path, i) {
            Some(n) => i <= n < members.len() && members[n as int].path == path && forall|k: int|
                i <= k < n ==> (#[trigger] members[k]).path != path,
            None => forall|k: int|
                i <= k < members.len() ==> (#[trigger] members[k]).path != path,
        },
    decreases members.len() - i,
{
    if i < members.len() {
        paths_are_found(members, path, i + 1);
    }
}

} // verus!
