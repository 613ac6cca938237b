//! Ghost helpers shared by the models of the data types.
use vstd::prelude::*;

verus! {

/// The models of a sequence's items, in order.
pub open spec fn views<A: View>(s: Seq<A>) -> Seq<A::V> {
    Seq::new(s.len(), |i: int| s[i]@)
}

pub broadcast proof fn views_push<A: View>(s: Seq<A>, a: A)
    ensures
        #[trigger] views(s.push(a)) == views(s).push(a@),
{
    assert(views(s.push(a)) =~= views(s).push(a@));
}

pub broadcast proof fn views_take<A: View>(s: Seq<A>, n: int)
    requires
        0 <= n <= s.len(),
    ensures
        #[trigger] views(s.subrange(0, n)) == views(s).subrange(0, n),
{
    assert(views(s.subrange(0, n)) =~= views(s).subrange(0, n));
}

pub broadcast proof fn views_remove<A: View>(s: Seq<A>, n: int)
    requires
        0 <= n < s.len(),
    ensures
        #[trigger] views(s.remove(n)) == views(s).remove(n),
{
    assert(views(s.remove(n)) =~= views(s).remove(n));
}

pub broadcast proof fn views_update<A: View>(s: Seq<A>, n: int, a: A)
    requires
        0 <= n < s.len(),
    ensures
        #[trigger] views(s.update(n, a)) == views(s).update(n, a@),
{
    assert(views(s.update(n, a)) =~= views(s).update(n, a@));
}

pub broadcast proof fn views_add<A: View>(s: Seq<A>, t: Seq<A>)
    ensures
        #[trigger] views(s + t) == views(s) + views(t),
{
    assert(views(s + t) =~= views(s) + views(t));
}

pub broadcast proof fn views_empty<A: View>()
    ensures
        #[trigger] views(Seq::<A>::empty()) == Seq::<A::V>::empty(),
{
    assert(views(Seq::<A>::empty()) =~= Seq::<A::V>::empty());
}

pub broadcast group group_views {
    views_push,
    views_take,
    views_remove,
    views_update,
    views_add,
    views_empty,
}

/// Keeping from the `i`th item on: the item comes first if it is kept.
pub proof fn lemma_filter_from<A>(s: Seq<A>, keep: spec_fn(A) -> bool, i: int)
    requires
        0 <= i < s.len(),
    ensures
        s.skip(i).filter(keep) == (if keep(s[i]) {
            seq![s[i]] + s.skip(i + 1).filter(keep)
        } else {
            s.skip(i + 1).filter(keep)
        }),
{
    let one = seq![s[i]];
    assert(s.skip(i) =~= one + s.skip(i + 1));
    Seq::filter_distributes_over_add(one, s.skip(i + 1), keep);
    reveal(Seq::filter);
    reveal_with_fuel(Seq::filter, 2);
    assert(one.drop_last() =~= Seq::<A>::empty());
    if keep(s[i]) {
        assert(one.filter(keep) =~= one);
    } else {
        assert(one.filter(keep) =~= Seq::<A>::empty());
        assert(Seq::<A>::empty() + s.skip(i + 1).filter(keep) =~= s.skip(i + 1).filter(keep));
    }
}

/// Nothing is kept of nothing.
pub proof fn lemma_filter_end<A>(s: Seq<A>, keep: spec_fn(A) -> bool)
    ensures
        s.skip(s.len() as int).filter(keep) == Seq::<A>::empty(),
        s.skip(0) == s,
{
    reveal(Seq::filter);
    assert(s.skip(s.len() as int) =~= Seq::<A>::empty());
    assert(s.skip(0) =~= s);
}

/// The model of an optional value.
pub open spec fn maybe<A: View>(o: Option<A>) -> Option<A::V> {
    match o {
        Some(a) => Some(a@),
        None => None,
    }
}

} // verus!
