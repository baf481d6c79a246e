//! The order in which motion records are processed: ascending by their
//! velocity key `(dx, dy, dtheta)`, records with equal keys kept in their
//! input order.
use vstd::prelude::*;

verus! {

/// Lexicographic "less than" on velocity keys.
pub open spec fn key_lt(a: (u64, u64, u64), b: (u64, u64, u64)) -> bool {
    a.0 < b.0 || (a.0 == b.0 && (a.1 < b.1 || (a.1 == b.1 && a.2 < b.2)))
}

/// Record `x` is processed before record `y`: its key is smaller, or the
/// keys are equal and `x` came first in the input.
pub open spec fn precedes(keys: Seq<(u64, u64, u64)>, x: int, y: int) -> bool {
    key_lt(keys[x], keys[y]) || (keys[x] == keys[y] && x < y)
}

/// `order` lists every record index exactly once, in processing order.
pub open spec fn is_stable_order(keys: Seq<(u64, u64, u64)>, order: Seq<usize>) -> bool {
    &&& order.len() == keys.len()
    &&& forall|p: int| 0 <= p < order.len() ==> #[trigger] order[p] < keys.len()
    &&& forall|r: usize| r < keys.len() ==> #[trigger] order.contains(r)
    &&& forall|p: int, q: int|
        0 <= p < q < order.len() ==> precedes(keys, #[trigger] order[p] as int, #[trigger] order[q] as int)
}

/// The processing order of a list of keys (the one sequence that
/// `is_stable_order` admits, see `lemma_stable_order_unique`).
pub open spec fn stable_order(keys: Seq<(u64, u64, u64)>) -> Seq<usize> {
    choose|order: Seq<usize>| is_stable_order(keys, order)
}

/// Compares two keys lexicographically.
pub fn key_less(a: &(u64, u64, u64), b: &(u64, u64, u64)) -> (r: bool)
    ensures
        r == key_lt(*a, *b),
{
    a.0 < b.0 || (a.0 == b.0 && (a.1 < b.1 || (a.1 == b.1 && a.2 < b.2)))
}

/// Computes the processing order of the records with the given keys: a
/// stable sort of the record indices by key.
pub fn record_order(keys: &Vec<(u64, u64, u64)>) -> (order: Vec<usize>)
    ensures
        is_stable_order(keys@, order@),
        order@ == stable_order(keys@),
{
    let n = keys.len();
    let mut order: Vec<usize> = Vec::new();
    for i in 0..n
        invariant
            n == keys.len(),
            order.len() == i,
            forall|p: int| 0 <= p < order.len() ==> #[trigger] order[p] < i,
            forall|r: usize| r < i ==> #[trigger] order@.contains(r),
            forall|p: int, q: int|
                0 <= p < q < order.len() ==> precedes(keys@, #[trigger] order[p] as int, #[trigger] order[q] as int),
    {
        let mut pos: usize = 0;
        while pos < order.len() && !key_less(&keys[i], &keys[order[pos]])
            invariant
                n == keys.len(),
                i < n,
                order.len() == i,
                pos <= order.len(),
                forall|p: int| 0 <= p < order.len() ==> #[trigger] order[p] < i,
                forall|q: int| 0 <= q < pos ==> !key_lt(keys@[i as int], #[trigger] keys@[order[q] as int]),
            decreases order.len() - pos,
        {
            pos = pos + 1;
        }
        let ghost old_order = order@;
        order.insert(pos, i);
        proof {
            assert(order@ == old_order.insert(pos as int, i));
            assert forall|p: int| 0 <= p < order.len() implies #[trigger] order[p] < i + 1 by {
                if p < pos {
                    assert(order[p] == old_order[p]);
                } else if p > pos {
                    assert(order[p] == old_order[p - 1]);
                }
            }
            assert forall|r: usize| r < i + 1 implies #[trigger] order@.contains(r) by {
                if r == i {
                    assert(order@[pos as int] == i);
                } else {
                    assert(old_order.contains(r));
                    let p = choose|p: int| 0 <= p < old_order.len() && old_order[p] == r;
                    if p < pos {
                        assert(order@[p] == r);
                    } else {
                        assert(order@[p + 1] == r);
                    }
                }
            }
            assert forall|p: int, q: int| 0 <= p < q < order.len() implies precedes(
                keys@,
                #[trigger] order[p] as int,
                #[trigger] order[q] as int,
            ) by {
                if q < pos {
                    assert(order[p] == old_order[p] && order[q] == old_order[q]);
                } else if q == pos {
                    assert(order[p] == old_order[p]);
                    assert(!key_lt(keys@[i as int], keys@[old_order[p] as int]));
                } else if p > pos {
                    assert(order[p] == old_order[p - 1] && order[q] == old_order[q - 1]);
                } else if p == pos {
                    assert(order[q] == old_order[q - 1]);
                    assert(key_lt(keys@[i as int], keys@[old_order[pos as int] as int]));
                    if q - 1 > pos {
                        assert(precedes(keys@, old_order[pos as int] as int, old_order[q - 1] as int));
                    }
                } else {
                    assert(order[p] == old_order[p] && order[q] == old_order[q - 1]);
                }
            }
        }
    }
    proof {
        lemma_stable_order_unique(keys@, order@);
    }
    order
}

/// Two orders that both satisfy `is_stable_order` agree at every position.
proof fn lemma_orders_agree(keys: Seq<(u64, u64, u64)>, o1: Seq<usize>, o2: Seq<usize>, i: int)
    requires
        is_stable_order(keys, o1),
        is_stable_order(keys, o2),
        0 <= i < o1.len(),
    ensures
        o1[i] == o2[i],
    decreases i,
{
    assert forall|k: int| 0 <= k < i implies o1[k] == o2[k] by {
        lemma_orders_agree(keys, o1, o2, k);
    }
    assert(o2.contains(o1[i]));
    let j = choose|j: int| 0 <= j < o2.len() && o2[j] == o1[i];
    if j < i {
        assert(o1[j] == o2[j]);
        assert(precedes(keys, o1[j] as int, o1[i] as int));
    } else if j > i {
        assert(o1.contains(o2[i]));
        let m = choose|m: int| 0 <= m < o1.len() && o1[m] == o2[i];
        if m < i {
            assert(o1[m] == o2[m]);
            assert(precedes(keys, o2[m] as int, o2[i] as int));
        } else if m > i {
            assert(precedes(keys, o1[i] as int, o1[m] as int));
            assert(precedes(keys, o2[i] as int, o2[j] as int));
        }
    }
}

/// The processing order is unique: any sequence that satisfies
/// `is_stable_order` is `stable_order(keys)`.
pub proof fn lemma_stable_order_unique(keys: Seq<(u64, u64, u64)>, order: Seq<usize>)
    requires
        is_stable_order(keys, order),
    ensures
        stable_order(keys) == order,
{
    let other = stable_order(keys);
    assert(is_stable_order(keys, other));
    assert forall|i: int| 0 <= i < order.len() implies other[i] == order[i] by {
        lemma_orders_agree(keys, other, order, i);
    }
    assert(other =~= order);
}

/// The first position of `order` at or after `i` whose key is greater
/// than `k`, or the end of `order`.
pub open spec fn insert_pos(keys: Seq<(u64, u64, u64)>, order: Seq<usize>, k: (u64, u64, u64), i: int) -> int
    decreases order.len() - i,
{
    if i >= order.len() {
        order.len() as int
    } else if key_lt(k, keys[order[i] as int]) {
        i
    } else {
        insert_pos(keys, order, k, i + 1)
    }
}

proof fn lemma_insert_pos(keys: Seq<(u64, u64, u64)>, order: Seq<usize>, k: (u64, u64, u64), i: int)
    requires
        0 <= i <= order.len(),
        forall|q: int| 0 <= q < i ==> !key_lt(k, #[trigger] keys[order[q] as int]),
    ensures
        i <= insert_pos(keys, order, k, i) <= order.len(),
        forall|q: int|
            0 <= q < insert_pos(keys, order, k, i) ==> !key_lt(k, #[trigger] keys[order[q] as int]),
        insert_pos(keys, order, k, i) < order.len() ==> key_lt(
            k,
            keys[order[insert_pos(keys, order, k, i)] as int],
        ),
    decreases order.len() - i,
{
    if i < order.len() && !key_lt(k, keys[order[i] as int]) {
        lemma_insert_pos(keys, order, k, i + 1);
    }
}

/// Every list of keys that fits in memory has a processing order:
/// `stable_order(keys)` satisfies `is_stable_order`.
pub proof fn lemma_stable_order_exists(keys: Seq<(u64, u64, u64)>)
    requires
        keys.len() <= usize::MAX,
    ensures
        is_stable_order(keys, stable_order(keys)),
    decreases keys.len(),
{
    let n = keys.len() as int;
    if n == 0 {
        let empty = Seq::<usize>::empty();
        assert(is_stable_order(keys, empty));
        lemma_stable_order_unique(keys, empty);
    } else {
        let ks = keys.take(n - 1);
        lemma_stable_order_exists(ks);
        let o = stable_order(ks);
        assert forall|x: int| 0 <= x < n - 1 implies #[trigger] ks[x] == keys[x] by {}
        let k = keys[n - 1];
        let last = (n - 1) as usize;
        assert forall|p: int| 0 <= p < o.len() implies keys[#[trigger] o[p] as int] == ks[o[p] as int] by {}
        lemma_insert_pos(keys, o, k, 0);
        let pos = insert_pos(keys, o, k, 0);
        let o2 = o.insert(pos, last);
        assert forall|p: int| 0 <= p < o2.len() implies #[trigger] o2[p] < keys.len() by {
            if p < pos {
                assert(o2[p] == o[p]);
            } else if p > pos {
                assert(o2[p] == o[p - 1]);
            }
        }
        assert forall|r: usize| r < keys.len() implies #[trigger] o2.contains(r) by {
            if r == last {
                assert(o2[pos] == last);
            } else {
                assert(o.contains(r));
                let p = choose|p: int| 0 <= p < o.len() && o[p] == r;
                if p < pos {
                    assert(o2[p] == r);
                } else {
                    assert(o2[p + 1] == r);
                }
            }
        }
        assert forall|p: int, q: int| 0 <= p < q < o2.len() implies precedes(
            keys,
            #[trigger] o2[p] as int,
            #[trigger] o2[q] as int,
        ) by {
            if q < pos {
                assert(o2[p] == o[p] && o2[q] == o[q]);
                assert(precedes(ks, o[p] as int, o[q] as int));
            } else if q == pos {
                assert(o2[p] == o[p]);
                assert(!key_lt(k, keys[o[p] as int]));
            } else if p > pos {
                assert(o2[p] == o[p - 1] && o2[q] == o[q - 1]);
                assert(precedes(ks, o[p - 1] as int, o[q - 1] as int));
            } else if p == pos {
                assert(o2[q] == o[q - 1]);
                assert(key_lt(k, keys[o[pos] as int]));
                if q - 1 > pos {
                    assert(precedes(ks, o[pos] as int, o[q - 1] as int));
                }
            } else {
                assert(o2[p] == o[p] && o2[q] == o[q - 1]);
                assert(precedes(ks, o[p] as int, o[q - 1] as int));
            }
        }
        assert(is_stable_order(keys, o2));
        lemma_stable_order_unique(keys, o2);
    }
}

} // verus!
