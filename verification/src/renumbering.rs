//! Renumbering the input records changes nothing but the numbering: the
//! same sets are accepted, and the order, axis lists and grid of an
//! accepted set are those of the original set, renumbered.
use vstd::prelude::*;
use crate::motion_index::{
    all_valid, axis_covers, axis_value, axis_values, cell_holds, describes, facts_keys,
    first_in_order, first_with_value, is_axis_representatives, is_grid, is_plane, is_row,
    record_fault, MotionIndex, RecordFacts,
};
use crate::record_order::{
    is_stable_order, key_lt, lemma_stable_order_exists, lemma_stable_order_unique, precedes,
    stable_order,
};

verus! {

/// Two records carry the same facts.
pub open spec fn same_facts(a: RecordFacts, b: RecordFacts) -> bool {
    &&& a.key == b.key
    &&& a.period_matches == b.period_matches
    &&& a.fps_matches == b.fps_matches
    &&& a.support_ratio_matches == b.support_ratio_matches
    &&& a.frame_offsets@ == b.frame_offsets@
}

/// `perm` is a permutation of the record indices and record `i` of
/// `renumbered` is record `perm[i]` of `entries`.
pub open spec fn is_renumbering(entries: Seq<RecordFacts>, renumbered: Seq<RecordFacts>, perm: Seq<usize>) -> bool {
    &&& renumbered.len() == entries.len()
    &&& perm.len() == entries.len()
    &&& forall|i: int| 0 <= i < perm.len() ==> #[trigger] perm[i] < entries.len()
    &&& forall|i: int, j: int| 0 <= i < j < perm.len() ==> #[trigger] perm[i] != #[trigger] perm[j]
    &&& forall|r: usize| r < entries.len() ==> #[trigger] perm.contains(r)
    &&& forall|i: int| 0 <= i < perm.len() ==> same_facts(#[trigger] renumbered[i], entries[perm[i] as int])
}

/// A set of records passes every check: each record's period, fps and
/// support ratio match, all frame offsets agree, and no triple repeats.
pub open spec fn passes_checks(entries: Seq<RecordFacts>) -> bool {
    &&& forall|r: int|
        0 <= r < entries.len() ==> (#[trigger] entries[r]).period_matches && entries[r].fps_matches
            && entries[r].support_ratio_matches
    &&& forall|r: int, s: int|
        0 <= r < entries.len() && 0 <= s < entries.len() ==> (#[trigger] entries[r]).frame_offsets@
            == (#[trigger] entries[s]).frame_offsets@
    &&& forall|r: int, s: int|
        0 <= r < entries.len() && 0 <= s < entries.len() && r != s ==> (#[trigger] entries[r]).key
            != (#[trigger] entries[s]).key
}

/// A non-empty set is accepted (no record is faulty in processing order)
/// exactly when it passes every check, in whatever order.
pub proof fn lemma_all_valid_iff_passes(entries: Seq<RecordFacts>)
    requires
        0 < entries.len() <= usize::MAX,
    ensures
        all_valid(entries) == passes_checks(entries),
{
    let keys = facts_keys(entries);
    lemma_stable_order_exists(keys);
    let o = stable_order(keys);
    assert forall|x: int| 0 <= x < entries.len() implies #[trigger] keys[x] == entries[x].key by {}
    if all_valid(entries) {
        assert forall|r: int| 0 <= r < entries.len() implies (#[trigger] entries[r]).period_matches
            && entries[r].fps_matches && entries[r].support_ratio_matches by {
            assert(o.contains(r as usize));
            let p = choose|p: int| 0 <= p < o.len() && o[p] == r as usize;
            assert(record_fault(entries, o, p) is None);
        }
        assert forall|r: int, s: int| 0 <= r < entries.len() && 0 <= s < entries.len() implies (
        #[trigger] entries[r]).frame_offsets@ == (#[trigger] entries[s]).frame_offsets@ by {
            assert(o.contains(r as usize));
            assert(o.contains(s as usize));
            let p = choose|p: int| 0 <= p < o.len() && o[p] == r as usize;
            let q = choose|q: int| 0 <= q < o.len() && o[q] == s as usize;
            assert(record_fault(entries, o, p) is None);
            assert(record_fault(entries, o, q) is None);
        }
        assert forall|r: int, s: int| 0 <= r < entries.len() && 0 <= s < entries.len() && r != s implies (
        #[trigger] entries[r]).key != (#[trigger] entries[s]).key by {
            assert(o.contains(r as usize));
            assert(o.contains(s as usize));
            let p = choose|p: int| 0 <= p < o.len() && o[p] == r as usize;
            let q = choose|q: int| 0 <= q < o.len() && o[q] == s as usize;
            if p < q {
                assert(record_fault(entries, o, q) is None);
                assert(entries[o[p] as int].key == entries[r].key);
            } else {
                assert(record_fault(entries, o, p) is None);
                assert(entries[o[q] as int].key == entries[s].key);
            }
        }
    }
    if passes_checks(entries) {
        assert forall|p: int| 0 <= p < entries.len() implies #[trigger] record_fault(entries, o, p) is None by {
            let r = o[p] as int;
            assert(entries[r].period_matches);
            assert(entries[r].frame_offsets@ == entries[o[0] as int].frame_offsets@);
            if exists|q: int| 0 <= q < p && #[trigger] entries[o[q] as int].key == entries[r].key {
                let q = choose|q: int| 0 <= q < p && #[trigger] entries[o[q] as int].key == entries[r].key;
                assert(precedes(keys, o[q] as int, o[p] as int));
                assert(o[q] != o[p]);
            }
        }
    }
}

/// Renumbering the records of a set does not change whether it is
/// accepted.
pub proof fn lemma_renumbered_acceptance(entries: Seq<RecordFacts>, renumbered: Seq<RecordFacts>, perm: Seq<usize>)
    requires
        is_renumbering(entries, renumbered, perm),
        entries.len() <= usize::MAX,
    ensures
        all_valid(entries) == all_valid(renumbered),
{
    if entries.len() > 0 {
        lemma_all_valid_iff_passes(entries);
        lemma_all_valid_iff_passes(renumbered);
        let n = entries.len() as int;
        if passes_checks(entries) {
            assert forall|r: int| 0 <= r < n implies (#[trigger] renumbered[r]).period_matches
                && renumbered[r].fps_matches && renumbered[r].support_ratio_matches by {
                assert(same_facts(renumbered[r], entries[perm[r] as int]));
            }
            assert forall|r: int, s: int| 0 <= r < n && 0 <= s < n implies (#[trigger] renumbered[r]).frame_offsets@
                == (#[trigger] renumbered[s]).frame_offsets@ by {
                assert(same_facts(renumbered[r], entries[perm[r] as int]));
                assert(same_facts(renumbered[s], entries[perm[s] as int]));
            }
            assert forall|r: int, s: int| 0 <= r < n && 0 <= s < n && r != s implies (#[trigger] renumbered[r]).key
                != (#[trigger] renumbered[s]).key by {
                assert(same_facts(renumbered[r], entries[perm[r] as int]));
                assert(same_facts(renumbered[s], entries[perm[s] as int]));
                if r < s {
                    assert(perm[r] != perm[s]);
                } else {
                    assert(perm[s] != perm[r]);
                }
            }
        }
        if passes_checks(renumbered) {
            assert forall|r: int| 0 <= r < n implies (#[trigger] entries[r]).period_matches
                && entries[r].fps_matches && entries[r].support_ratio_matches by {
                assert(perm.contains(r as usize));
                let i = choose|i: int| 0 <= i < perm.len() && #[trigger] perm[i] == r as usize;
                assert(same_facts(renumbered[i], entries[perm[i] as int]));
            }
            assert forall|r: int, s: int| 0 <= r < n && 0 <= s < n implies (#[trigger] entries[r]).frame_offsets@
                == (#[trigger] entries[s]).frame_offsets@ by {
                assert(perm.contains(r as usize));
                let i = choose|i: int| 0 <= i < perm.len() && #[trigger] perm[i] == r as usize;
                assert(perm.contains(s as usize));
                let j = choose|j: int| 0 <= j < perm.len() && #[trigger] perm[j] == s as usize;
                assert(same_facts(renumbered[i], entries[perm[i] as int]));
                assert(same_facts(renumbered[j], entries[perm[j] as int]));
            }
            assert forall|r: int, s: int| 0 <= r < n && 0 <= s < n && r != s implies (#[trigger] entries[r]).key
                != (#[trigger] entries[s]).key by {
                assert(perm.contains(r as usize));
                let i = choose|i: int| 0 <= i < perm.len() && #[trigger] perm[i] == r as usize;
                assert(perm.contains(s as usize));
                let j = choose|j: int| 0 <= j < perm.len() && #[trigger] perm[j] == s as usize;
                assert(same_facts(renumbered[i], entries[perm[i] as int]));
                assert(same_facts(renumbered[j], entries[perm[j] as int]));
            }
        }
    }
}

/// Two lists of axis representatives of the same records in the same
/// order have the same value at each common position.
proof fn lemma_rep_values_agree(
    keys: Seq<(u64, u64, u64)>,
    o: Seq<usize>,
    axis: int,
    a: Seq<usize>,
    b: Seq<usize>,
    i: int,
)
    requires
        is_axis_representatives(keys, o, axis, a),
        is_axis_representatives(keys, o, axis, b),
        0 <= i < a.len(),
        i < b.len(),
    ensures
        axis_value(keys[a[i] as int], axis) == axis_value(keys[b[i] as int], axis),
    decreases i,
{
    assert forall|k: int| 0 <= k < i implies axis_value(keys[#[trigger] a[k] as int], axis) == axis_value(
        keys[b[k] as int],
        axis,
    ) by {
        lemma_rep_values_agree(keys, o, axis, a, b, k);
    }
    let v = axis_value(keys[a[i] as int], axis);
    assert(a[i] < keys.len());
    assert(axis_covers(keys, b, axis, v));
    let j = choose|j: int| 0 <= j < b.len() && #[trigger] axis_value(keys[b[j] as int], axis) == v;
    if j < i {
        assert(axis_value(keys[a[j] as int], axis) < axis_value(keys[a[i] as int], axis));
    } else if j > i {
        let w = axis_value(keys[b[i] as int], axis);
        assert(b[i] < keys.len());
        assert(axis_covers(keys, a, axis, w));
        let m = choose|m: int| 0 <= m < a.len() && #[trigger] axis_value(keys[a[m] as int], axis) == w;
        if m < i {
            assert(axis_value(keys[b[m] as int], axis) < axis_value(keys[b[i] as int], axis));
        } else if m > i {
            assert(axis_value(keys[a[i] as int], axis) < axis_value(keys[a[m] as int], axis));
            assert(axis_value(keys[b[i] as int], axis) < axis_value(keys[b[j] as int], axis));
        }
    }
}

/// The axis representatives of a set of records in a given order are unique.
proof fn lemma_reps_unique(keys: Seq<(u64, u64, u64)>, o: Seq<usize>, axis: int, a: Seq<usize>, b: Seq<usize>)
    requires
        is_axis_representatives(keys, o, axis, a),
        is_axis_representatives(keys, o, axis, b),
    ensures
        a == b,
{
    if a.len() > b.len() {
        let i = b.len() as int;
        assert(a[i] < keys.len());
        assert(axis_covers(keys, b, axis, axis_value(keys[a[i] as int], axis)));
        let j = choose|j: int| 0 <= j < b.len() && #[trigger] axis_value(keys[b[j] as int], axis) == axis_value(keys[a[i] as int], axis);
        lemma_rep_values_agree(keys, o, axis, a, b, j);
        assert(axis_value(keys[a[j] as int], axis) < axis_value(keys[a[i] as int], axis));
    }
    if b.len() > a.len() {
        let i = a.len() as int;
        assert(b[i] < keys.len());
        assert(axis_covers(keys, a, axis, axis_value(keys[b[i] as int], axis)));
        let j = choose|j: int| 0 <= j < a.len() && #[trigger] axis_value(keys[a[j] as int], axis) == axis_value(keys[b[i] as int], axis);
        lemma_rep_values_agree(keys, o, axis, a, b, j);
        assert(axis_value(keys[b[j] as int], axis) < axis_value(keys[b[i] as int], axis));
    }
    assert forall|i: int| 0 <= i < a.len() implies a[i] == b[i] by {
        lemma_rep_values_agree(keys, o, axis, a, b, i);
        assert(first_in_order(keys, o, axis, a[i]));
        assert(first_in_order(keys, o, axis, b[i]));
        let pa = choose|pos: int| 0 <= pos < o.len() && #[trigger] o[pos] == a[i] && first_with_value(keys, o, axis, pos);
        let pb = choose|pos: int| 0 <= pos < o.len() && #[trigger] o[pos] == b[i] && first_with_value(keys, o, axis, pos);
        if pa < pb {
            assert(axis_value(keys[o[pa] as int], axis) != axis_value(keys[o[pb] as int], axis));
        } else if pb < pa {
            assert(axis_value(keys[o[pb] as int], axis) != axis_value(keys[o[pa] as int], axis));
        }
    }
    assert(a =~= b);
}

/// Renumbered representatives of the renumbered set are representatives
/// of the original set.
proof fn lemma_renumbered_reps(
    keys1: Seq<(u64, u64, u64)>,
    keys2: Seq<(u64, u64, u64)>,
    o1: Seq<usize>,
    o2: Seq<usize>,
    perm: Seq<usize>,
    axis: int,
    reps2: Seq<usize>,
)
    requires
        keys1.len() == keys2.len(),
        keys1.len() <= usize::MAX,
        perm.len() == keys2.len(),
        o1.len() == o2.len(),
        forall|i: int| 0 <= i < perm.len() ==> #[trigger] perm[i] < keys1.len(),
        forall|r: usize| r < keys1.len() ==> #[trigger] perm.contains(r),
        forall|i: int| 0 <= i < keys2.len() ==> #[trigger] keys2[i] == keys1[perm[i] as int],
        forall|p: int| 0 <= p < o2.len() ==> o2[p] < keys2.len() && #[trigger] o1[p] == perm[o2[p] as int],
        is_axis_representatives(keys2, o2, axis, reps2),
    ensures
        is_axis_representatives(keys1, o1, axis, reps2.map_values(|r: usize| perm[r as int])),
{
    let m = reps2.map_values(|r: usize| perm[r as int]);
    assert forall|i: int| 0 <= i < m.len() implies axis_value(keys1[#[trigger] m[i] as int], axis) == axis_value(keys2[reps2[i] as int], axis) by {
        assert(reps2[i] < keys2.len());
    }
    assert forall|i: int| 0 <= i < m.len() implies #[trigger] m[i] < keys1.len() by {
        assert(reps2[i] < keys2.len());
    }
    assert forall|i: int, j: int| 0 <= i < j < m.len() implies axis_value(keys1[#[trigger] m[i] as int], axis)
        < axis_value(keys1[#[trigger] m[j] as int], axis) by {
        assert(axis_value(keys2[reps2[i] as int], axis) < axis_value(keys2[reps2[j] as int], axis));
    }
    assert forall|r: int| 0 <= r < keys1.len() implies axis_covers(keys1, m, axis, #[trigger] axis_value(keys1[r], axis)) by {
        assert(perm.contains(r as usize));
        let i = choose|i: int| 0 <= i < perm.len() && #[trigger] perm[i] == r as usize;
        assert(axis_covers(keys2, reps2, axis, axis_value(keys2[i], axis)));
        let j = choose|j: int| 0 <= j < reps2.len() && #[trigger] axis_value(keys2[reps2[j] as int], axis) == axis_value(keys2[i], axis);
        assert(reps2[j] < keys2.len());
        assert(keys2[reps2[j] as int] == keys1[m[j] as int]);
        assert(keys2[i] == keys1[r]);
        assert(axis_value(keys1[m[j] as int], axis) == axis_value(keys1[r], axis));
    }
    assert forall|i: int| 0 <= i < m.len() implies first_in_order(keys1, o1, axis, #[trigger] m[i]) by {
        assert(first_in_order(keys2, o2, axis, reps2[i]));
        let pos = choose|pos: int| 0 <= pos < o2.len() && #[trigger] o2[pos] == reps2[i] && first_with_value(keys2, o2, axis, pos);
        assert(o1[pos] == m[i]);
        assert forall|q: int| 0 <= q < pos implies axis_value(keys1[#[trigger] o1[q] as int], axis) != axis_value(
            keys1[o1[pos] as int],
            axis,
        ) by {
            assert(axis_value(keys2[o2[q] as int], axis) != axis_value(keys2[o2[pos] as int], axis));
        }
        assert(first_with_value(keys1, o1, axis, pos));
    }
}

/// A cell of the original grid names record `perm[r]` exactly when the
/// same cell of the renumbered grid names record `r`.
pub open spec fn renumbered_cell(cell: Option<usize>, renumbered_cell: Option<usize>, perm: Seq<usize>) -> bool {
    match renumbered_cell {
        Some(r) => cell == Some(perm[r as int]),
        None => cell is None,
    }
}

/// Renumbering the records of an accepted set renumbers its index and
/// changes nothing else: the processing order, the axis representatives
/// and every grid cell name the same records under their new numbers.
pub proof fn lemma_renumbered_index(
    entries: Seq<RecordFacts>,
    renumbered: Seq<RecordFacts>,
    perm: Seq<usize>,
    index: MotionIndex,
    renumbered_index: MotionIndex,
)
    requires
        is_renumbering(entries, renumbered, perm),
        0 < entries.len() <= usize::MAX,
        all_valid(entries),
        describes(entries, index),
        describes(renumbered, renumbered_index),
    ensures
        index.order@ == renumbered_index.order@.map_values(|r: usize| perm[r as int]),
        index.dxs@ == renumbered_index.dxs@.map_values(|r: usize| perm[r as int]),
        index.dys@ == renumbered_index.dys@.map_values(|r: usize| perm[r as int]),
        index.dthetas@ == renumbered_index.dthetas@.map_values(|r: usize| perm[r as int]),
        index.cells@.len() == renumbered_index.cells@.len(),
        forall|ix: int|
            0 <= ix < index.cells@.len() ==> (#[trigger] index.cells@[ix])@.len()
                == renumbered_index.cells@[ix]@.len(),
        forall|ix: int, iy: int|
            0 <= ix < index.cells@.len() && 0 <= iy < index.cells@[ix]@.len() ==> (
            #[trigger] index.cells@[ix]@[iy])@.len() == renumbered_index.cells@[ix]@[iy]@.len(),
        forall|ix: int, iy: int, it: int|
            0 <= ix < index.cells@.len() && 0 <= iy < index.cells@[ix]@.len() && 0 <= it
                < index.cells@[ix]@[iy]@.len() ==> renumbered_cell(
                #[trigger] index.cells@[ix]@[iy]@[it],
                renumbered_index.cells@[ix]@[iy]@[it],
                perm,
            ),
{
    let n = entries.len() as int;
    let keys1 = facts_keys(entries);
    let keys2 = facts_keys(renumbered);
    lemma_all_valid_iff_passes(entries);
    assert forall|i: int| 0 <= i < n implies #[trigger] keys2[i] == keys1[perm[i] as int] by {
        assert(same_facts(renumbered[i], entries[perm[i] as int]));
    }
    assert forall|a: int, b: int| 0 <= a < n && 0 <= b < n && a != b implies #[trigger] keys1[a] != #[trigger] keys1[b] by {
        assert(entries[a].key != entries[b].key);
    }
    let o1 = index.order@;
    let o2 = renumbered_index.order@;
    let mapped = o2.map_values(|r: usize| perm[r as int]);
    assert forall|p: int| 0 <= p < mapped.len() implies #[trigger] mapped[p] < keys1.len() by {
        assert(o2[p] < keys2.len());
    }
    assert forall|r: usize| r < keys1.len() implies #[trigger] mapped.contains(r) by {
        assert(perm.contains(r));
        let i = choose|i: int| 0 <= i < perm.len() && #[trigger] perm[i] == r;
        assert(o2.contains(i as usize));
        let p = choose|p: int| 0 <= p < o2.len() && o2[p] == i as usize;
        assert(mapped[p] == r);
    }
    assert forall|p: int, q: int| 0 <= p < q < mapped.len() implies precedes(
        keys1,
        #[trigger] mapped[p] as int,
        #[trigger] mapped[q] as int,
    ) by {
        assert(precedes(keys2, o2[p] as int, o2[q] as int));
        let a = o2[p] as int;
        let b = o2[q] as int;
        assert(a != b);
        assert(perm[a] != perm[b]) by {
            if a < b {
                assert(perm[a] != perm[b]);
            } else {
                assert(perm[b] != perm[a]);
            }
        }
        assert(keys1[perm[a] as int] != keys1[perm[b] as int]);
        assert(key_lt(keys2[a], keys2[b]));
    }
    assert(is_stable_order(keys1, mapped));
    lemma_stable_order_unique(keys1, mapped);
    assert(o1 =~= mapped);
    assert forall|p: int| 0 <= p < o2.len() implies o2[p] < keys2.len() && #[trigger] o1[p] == perm[o2[p] as int] by {}

    lemma_renumbered_reps(keys1, keys2, o1, o2, perm, 0, renumbered_index.dxs@);
    lemma_reps_unique(keys1, o1, 0, index.dxs@, renumbered_index.dxs@.map_values(|r: usize| perm[r as int]));
    lemma_renumbered_reps(keys1, keys2, o1, o2, perm, 1, renumbered_index.dys@);
    lemma_reps_unique(keys1, o1, 1, index.dys@, renumbered_index.dys@.map_values(|r: usize| perm[r as int]));
    lemma_renumbered_reps(keys1, keys2, o1, o2, perm, 2, renumbered_index.dthetas@);
    lemma_reps_unique(keys1, o1, 2, index.dthetas@, renumbered_index.dthetas@.map_values(|r: usize| perm[r as int]));

    let xs = axis_values(keys1, index.dxs@, 0);
    let ys = axis_values(keys1, index.dys@, 1);
    let ts = axis_values(keys1, index.dthetas@, 2);
    assert(xs =~= axis_values(keys2, renumbered_index.dxs@, 0));
    assert(ys =~= axis_values(keys2, renumbered_index.dys@, 1));
    assert(ts =~= axis_values(keys2, renumbered_index.dthetas@, 2));
    let c1 = index.cells@;
    let c2 = renumbered_index.cells@;
    assert forall|ix: int, iy: int, it: int|
        0 <= ix < c1.len() && 0 <= iy < c1[ix]@.len() && 0 <= it < c1[ix]@[iy]@.len() implies renumbered_cell(
        #[trigger] c1[ix]@[iy]@[it],
        c2[ix]@[iy]@[it],
        perm,
    ) by {
        assert(is_plane(keys1, xs[ix], ys, ts, c1[ix]@));
        assert(is_plane(keys2, xs[ix], ys, ts, c2[ix]@));
        assert(is_row(keys1, xs[ix], ys[iy], ts, c1[ix]@[iy]@));
        assert(is_row(keys2, xs[ix], ys[iy], ts, c2[ix]@[iy]@));
        let k = (xs[ix], ys[iy], ts[it]);
        let a = c1[ix]@[iy]@[it];
        let b = c2[ix]@[iy]@[it];
        assert(cell_holds(keys1, k, a));
        assert(cell_holds(keys2, k, b));
        match b {
            Some(r) => {
                assert(keys1[perm[r as int] as int] == k);
                match a {
                    Some(q) => {
                        if q != perm[r as int] {
                            assert(keys1[q as int] != keys1[perm[r as int] as int]);
                        }
                    },
                    None => {
                        assert(keys1[perm[r as int] as int] != k);
                    },
                }
            },
            None => {
                match a {
                    Some(q) => {
                        assert(perm.contains(q));
                        let i = choose|i: int| 0 <= i < perm.len() && #[trigger] perm[i] == q;
                        assert(keys2[i] != k);
                    },
                    None => {},
                }
            },
        }
    }
    assert forall|ix: int| 0 <= ix < c1.len() implies (#[trigger] c1[ix])@.len() == c2[ix]@.len() by {
        assert(is_plane(keys1, xs[ix], ys, ts, c1[ix]@));
        assert(is_plane(keys2, xs[ix], ys, ts, c2[ix]@));
    }
    assert forall|ix: int, iy: int| 0 <= ix < c1.len() && 0 <= iy < c1[ix]@.len() implies (#[trigger] c1[ix]@[iy])@.len()
        == c2[ix]@[iy]@.len() by {
        assert(is_plane(keys1, xs[ix], ys, ts, c1[ix]@));
        assert(is_plane(keys2, xs[ix], ys, ts, c2[ix]@));
        assert(is_row(keys1, xs[ix], ys[iy], ts, c1[ix]@[iy]@));
        assert(is_row(keys2, xs[ix], ys[iy], ts, c2[ix]@[iy]@));
    }
}

} // verus!
