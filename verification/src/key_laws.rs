//! The order laws that the standard ordered map needs of velocity keys.
use vstd::prelude::*;
use vstd::std_specs::cmp::OrdSpec;

verus! {

/// Velocity keys, triples of `u64`, follow the total order that the
/// specifications of the standard ordered map assume of their keys.
pub proof fn lemma_key_order_laws()
    ensures
        vstd::laws_cmp::obeys_cmp::<(u64, u64, u64)>(),
{
    broadcast use vstd::laws_cmp::group_laws_cmp;
}

/// Axis values, `u64`, follow the total order that the specifications of
/// the standard ordered map assume of their keys.
pub open spec fn axis_values_ordered() -> bool {
    vstd::laws_cmp::obeys_cmp::<u64>()
}

/// Axis values are ordered as the ordered map assumes.
pub proof fn lemma_axis_order_laws()
    ensures
        axis_values_ordered(),
{
    broadcast use vstd::laws_cmp::group_laws_cmp;
}

/// A sequence of `u64` that the ordered map calls increasing is strictly
/// increasing.
pub proof fn lemma_increasing_values(s: Seq<u64>)
    requires
        vstd::std_specs::btree::increasing_seq(s),
    ensures
        forall|i: int, j: int| 0 <= i < j < s.len() ==> s[i] < s[j],
{
    broadcast use vstd::laws_cmp::group_laws_cmp, vstd::std_specs::btree::group_btree_axioms;

    assert forall|i: int, j: int| 0 <= i < j < s.len() implies s[i] < s[j] by {
        assert(s[i].cmp_spec(&s[j]) is Less);
    }
}

} // verus!
