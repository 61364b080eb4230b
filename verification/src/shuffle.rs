//! Putting things in a random order.

use rand::seq::SliceRandom;
use vstd::prelude::*;

verus! {

/// Calls `rand::seq::SliceRandom::shuffle` on the items with the thread's
/// generator `rand::rng()`. The call only swaps elements of the slice, so
/// the items afterwards are the items before in some order; which order is
/// left open.
#[verifier::external_body]
pub(crate) fn shuffle<T>(items: &mut Vec<T>)
    ensures
        final(items)@.to_multiset() == old(items)@.to_multiset(),
        final(items)@.len() == old(items)@.len(),
{
    items.shuffle(&mut rand::rng());
}

/// Two sequences that hold the same items, in whatever order, still hold
/// the same items after each item was replaced by what a function makes
/// of it.
pub proof fn same_items_mapped<A, B>(a: Seq<A>, b: Seq<A>, f: spec_fn(A) -> B)
    requires
        a.to_multiset() == b.to_multiset(),
    ensures
        a.map_values(f).to_multiset() == b.map_values(f).to_multiset(),
    decreases a.len(),
{
    a.to_multiset_ensures();
    b.to_multiset_ensures();
    if a.len() == 0 {
        assert(b.len() == 0);
        assert(a.map_values(f) =~= b.map_values(f));
    } else {
        let x = a.last();
        assert(a[a.len() - 1] == x);
        assert(a.contains(x));
        vstd::seq_lib::to_multiset_contains(a, x);
        vstd::seq_lib::to_multiset_contains(b, x);
        assert(b.contains(x));
        let i = choose|i: int| 0 <= i < b.len() && b[i] == x;
        let a1 = a.drop_last();
        let b1 = b.remove(i);
        assert(a1 =~= a.remove(a.len() - 1));
        assert(a1.to_multiset() =~= b1.to_multiset());
        same_items_mapped(a1, b1, f);
        let am = a.map_values(f);
        let bm = b.map_values(f);
        am.to_multiset_ensures();
        bm.to_multiset_ensures();
        assert(am[am.len() - 1] == f(x));
        assert(bm[i] == f(x));
        assert(a1.map_values(f) =~= am.remove(am.len() - 1));
        assert(b1.map_values(f) =~= bm.remove(i));
        assert(am.to_multiset() =~= am.remove(am.len() - 1).to_multiset().insert(f(x)));
        assert(bm.to_multiset() =~= bm.remove(i).to_multiset().insert(f(x)));
    }
}

/// Two sequences that hold the same items, in whatever order, hold the
/// same items, and either both hold an item twice or neither does.
pub proof fn same_items_same_members<A>(a: Seq<A>, b: Seq<A>)
    requires
        a.to_multiset() == b.to_multiset(),
    ensures
        a.len() == b.len(),
        forall|x: A| a.contains(x) == b.contains(x),
        a.no_duplicates() == b.no_duplicates(),
{
    a.to_multiset_ensures();
    b.to_multiset_ensures();
    assert forall|x: A| a.contains(x) == b.contains(x) by {
        vstd::seq_lib::to_multiset_contains(a, x);
        vstd::seq_lib::to_multiset_contains(b, x);
    }
    if a.no_duplicates() {
        a.lemma_multiset_has_no_duplicates();
        b.lemma_multiset_has_no_duplicates_conv();
    }
    if b.no_duplicates() {
        b.lemma_multiset_has_no_duplicates();
        a.lemma_multiset_has_no_duplicates_conv();
    }
}

} // verus!
