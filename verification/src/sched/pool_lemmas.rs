use vstd::prelude::*;
use vstd::multiset::Multiset;

verus! {

broadcast use {vstd::seq_lib::group_to_multiset_ensures, vstd::multiset::group_multiset_axioms};

/// Taking out element `k` by moving the last element into its place leaves the
/// same contents as removing element `k`.
pub proof fn lemma_swap_remove_contents(s: Seq<usize>, k: int)
    requires
        0 <= k < s.len(),
    ensures
        s.update(k, s.last()).drop_last().to_multiset() =~= s.to_multiset().remove(s[k]),
{
    let t = s.update(k, s.last());
    assert(t.remove(k) =~= s.remove(k));
    assert(t.drop_last() =~= t.remove(s.len() - 1));
    assert(t.to_multiset().remove(t[k]) =~= s.to_multiset().remove(s[k]));
    assert(t.to_multiset() =~= s.to_multiset().remove(s[k]).insert(s.last())) by {
        assert forall|v: usize| t.to_multiset().count(v) == s.to_multiset().remove(s[k]).insert(s.last()).count(v) by {
            assert(t.to_multiset().remove(t[k]).count(v) == s.to_multiset().remove(s[k]).count(v));
            assert(t.to_multiset().count(t[k]) > 0) by {
                assert(t.contains(t[k]));
            }
        }
    }
}

/// Dropping the first element removes it from the contents.
pub proof fn lemma_drop_first_contents(s: Seq<usize>)
    requires
        s.len() > 0,
    ensures
        s.drop_first().to_multiset() =~= s.to_multiset().remove(s[0]),
        s.subrange(1, s.len() as int) =~= s.drop_first(),
{
    assert(s.drop_first() =~= s.remove(0));
}

/// Every element of a sequence whose contents are distinct ids below `n` is below `n`.
pub proof fn lemma_elements_below(s: Seq<usize>, n: nat)
    requires
        forall|t: usize| #[trigger] s.to_multiset().count(t) <= (if t < n { 1nat } else { 0nat }),
    ensures
        forall|i: int| 0 <= i < s.len() ==> #[trigger] s[i] < n,
{
    assert forall|i: int| 0 <= i < s.len() implies #[trigger] s[i] < n by {
        assert(s.contains(s[i]));
        assert(s.to_multiset().count(s[i]) > 0);
    }
}

} // verus!
