//! Small facts about maps and sets that the proofs of the index share.

use vstd::prelude::*;

verus! {

/// Two maps with the same keys and the same value at each key are equal.
pub proof fn lemma_map_eq<K, V>(a: Map<K, V>, b: Map<K, V>)
    requires
        forall|k: K| #[trigger] a.dom().contains(k) ==> b.dom().contains(k),
        forall|k: K| #[trigger] b.dom().contains(k) ==> a.dom().contains(k) && a[k] == b[k],
    ensures
        a == b,
{
    assert(a.dom() =~= b.dom());
    assert(a =~= b);
}

/// A set other than the empty set has a member.
pub proof fn lemma_inhabited<A>(s: Set<A>)
    requires
        s !== Set::<A>::empty(),
    ensures
        exists|a: A| #[trigger] s.contains(a),
{
    if !(exists|a: A| #[trigger] s.contains(a)) {
        assert(s =~= Set::<A>::empty());
    }
}

} // verus!
