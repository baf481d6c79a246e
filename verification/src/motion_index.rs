//! Validation of a set of motion records and the lookup grid built from
//! them: records are processed in key order, must agree with the first
//! processed record, must not repeat a velocity triple, and each cell of the
//! `dx x dy x dtheta` grid names the record for that triple, if any.
use vstd::prelude::*;
use crate::record_order::{is_stable_order, record_order, stable_order};
use crate::key_laws::{axis_values_ordered, lemma_axis_order_laws, lemma_increasing_values, lemma_key_order_laws};
use vstd::std_specs::btree::spec_btree_map_iter;
use vstd::std_specs::iter::IteratorSpec;
use std::collections::BTreeMap;

verus! {

/// What the checks of one motion record need: the order key of its
/// velocity triple, whether its period, fps and support ratio match those of
/// the first record in processing order, and its rounded frame offsets.
#[derive(Debug)]
pub struct RecordFacts {
    pub key: (u64, u64, u64),
    pub period_matches: bool,
    pub fps_matches: bool,
    pub support_ratio_matches: bool,
    pub frame_offsets: Vec<usize>,
}

/// Why a set of motion records is refused. `DuplicateEntry` names the
/// index (in the input) of the record that repeats an earlier triple.
#[derive(Clone, Copy, Debug, PartialEq, Eq, Structural)]
pub enum MotionError {
    EmptyDataset,
    PeriodMismatch,
    FpsMismatch,
    FrameOffsetsMismatch,
    SupportRatioMismatch,
    DuplicateEntry { record: usize },
}

/// The grid built from a valid set of records. `order` is the processing
/// order; `dxs`, `dys` and `dthetas` name, for each distinct value of that
/// axis in ascending order, the first record in processing order that has
/// it; `cells[ix][iy][itheta]` names the record whose triple is made of those
/// three values, or is `None` when no record has it.
#[derive(Debug)]
pub struct MotionIndex {
    pub order: Vec<usize>,
    pub dxs: Vec<usize>,
    pub dys: Vec<usize>,
    pub dthetas: Vec<usize>,
    pub cells: Vec<Vec<Vec<Option<usize>>>>,
}

/// The keys of a list of records.
pub open spec fn facts_keys(entries: Seq<RecordFacts>) -> Seq<(u64, u64, u64)> {
    entries.map_values(|e: RecordFacts| e.key)
}

/// One axis of a key: 0 for `dx`, 1 for `dy`, 2 for `dtheta`.
pub open spec fn axis_value(k: (u64, u64, u64), axis: int) -> u64 {
    if axis == 0 {
        k.0
    } else if axis == 1 {
        k.1
    } else {
        k.2
    }
}

/// The fault, if any, of the record at position `p` of the processing order.
pub open spec fn record_fault(entries: Seq<RecordFacts>, order: Seq<usize>, p: int) -> Option<
    MotionError,
> {
    let e = entries[order[p] as int];
    if !e.period_matches {
        Some(MotionError::PeriodMismatch)
    } else if !e.fps_matches {
        Some(MotionError::FpsMismatch)
    } else if !e.support_ratio_matches {
        Some(MotionError::SupportRatioMismatch)
    } else if e.frame_offsets@ != entries[order[0] as int].frame_offsets@ {
        Some(MotionError::FrameOffsetsMismatch)
    } else if exists|q: int| 0 <= q < p && #[trigger] entries[order[q] as int].key == e.key {
        Some(MotionError::DuplicateEntry { record: order[p] })
    } else {
        None
    }
}

/// The checks of one record come in a fixed order: period, then fps, then
/// support ratio, then frame offsets against the first record's, then a
/// repeated triple; the first that fails is the record's fault, and a
/// record that passes all five has none.
pub proof fn lemma_fault_precedence(entries: Seq<RecordFacts>, order: Seq<usize>, p: int)
    ensures
        !entries[order[p] as int].period_matches ==> record_fault(entries, order, p) == Some(
            MotionError::PeriodMismatch,
        ),
        entries[order[p] as int].period_matches && !entries[order[p] as int].fps_matches
            ==> record_fault(entries, order, p) == Some(MotionError::FpsMismatch),
        entries[order[p] as int].period_matches && entries[order[p] as int].fps_matches
            && !entries[order[p] as int].support_ratio_matches ==> record_fault(entries, order, p)
            == Some(MotionError::SupportRatioMismatch),
        entries[order[p] as int].period_matches && entries[order[p] as int].fps_matches
            && entries[order[p] as int].support_ratio_matches && entries[order[p] as int].frame_offsets@
            != entries[order[0] as int].frame_offsets@ ==> record_fault(entries, order, p) == Some(
            MotionError::FrameOffsetsMismatch,
        ),
        entries[order[p] as int].period_matches && entries[order[p] as int].fps_matches
            && entries[order[p] as int].support_ratio_matches && entries[order[p] as int].frame_offsets@
            == entries[order[0] as int].frame_offsets@ ==> (record_fault(entries, order, p) == Some(
            MotionError::DuplicateEntry { record: order[p] },
        ) <==> exists|q: int| 0 <= q < p && entries[order[q] as int].key == entries[order[p] as int].key),
        entries[order[p] as int].period_matches && entries[order[p] as int].fps_matches
            && entries[order[p] as int].support_ratio_matches && entries[order[p] as int].frame_offsets@
            == entries[order[0] as int].frame_offsets@ ==> (record_fault(entries, order, p) is None
            <==> !exists|q: int| 0 <= q < p && entries[order[q] as int].key == entries[order[p] as int].key),
{
}

/// `err` is the fault of the first faulty record in processing order.
pub open spec fn is_first_fault(entries: Seq<RecordFacts>, order: Seq<usize>, err: MotionError) -> bool {
    exists|p: int|
        0 <= p < entries.len() && #[trigger] record_fault(entries, order, p) == Some(err) && forall|q: int|
            0 <= q < p ==> #[trigger] record_fault(entries, order, q) is None
}

/// Some listed record has value `v` on `axis`.
pub open spec fn axis_covers(keys: Seq<(u64, u64, u64)>, reps: Seq<usize>, axis: int, v: u64) -> bool {
    exists|i: int| 0 <= i < reps.len() && #[trigger] axis_value(keys[reps[i] as int], axis) == v
}

/// No record before position `pos` of `order` has the same value on `axis`
/// as the record at `pos`.
pub open spec fn first_with_value(keys: Seq<(u64, u64, u64)>, order: Seq<usize>, axis: int, pos: int) -> bool {
    forall|q: int|
        0 <= q < pos ==> axis_value(keys[#[trigger] order[q] as int], axis) != axis_value(
            keys[order[pos] as int],
            axis,
        )
}

/// Record `r` is the first record in `order` with its value on `axis`.
pub open spec fn first_in_order(keys: Seq<(u64, u64, u64)>, order: Seq<usize>, axis: int, r: usize) -> bool {
    exists|pos: int| 0 <= pos < order.len() && #[trigger] order[pos] == r && first_with_value(keys, order, axis, pos)
}

/// `reps` lists, in ascending order of their value on `axis`, one record
/// per distinct value on that axis: the first one in `order` that has it.
pub open spec fn is_axis_representatives(
    keys: Seq<(u64, u64, u64)>,
    order: Seq<usize>,
    axis: int,
    reps: Seq<usize>,
) -> bool {
    &&& forall|i: int| 0 <= i < reps.len() ==> #[trigger] reps[i] < keys.len()
    &&& forall|i: int, j: int|
        0 <= i < j < reps.len() ==> axis_value(keys[#[trigger] reps[i] as int], axis) < axis_value(
            keys[#[trigger] reps[j] as int],
            axis,
        )
    &&& forall|r: int| 0 <= r < keys.len() ==> axis_covers(keys, reps, axis, #[trigger] axis_value(keys[r], axis))
    &&& forall|i: int| 0 <= i < reps.len() ==> first_in_order(keys, order, axis, #[trigger] reps[i])
}

/// `found` names the record whose key is `k`, or is `None` when none has it.
pub open spec fn cell_holds(keys: Seq<(u64, u64, u64)>, k: (u64, u64, u64), found: Option<usize>) -> bool {
    match found {
        Some(r) => r < keys.len() && keys[r as int] == k,
        None => forall|r: int| 0 <= r < keys.len() ==> #[trigger] keys[r] != k,
    }
}

/// The cells of a grid over the given axis values.
pub open spec fn is_grid(
    keys: Seq<(u64, u64, u64)>,
    xs: Seq<u64>,
    ys: Seq<u64>,
    ts: Seq<u64>,
    cells: Seq<Vec<Vec<Option<usize>>>>,
) -> bool {
    &&& cells.len() == xs.len()
    &&& forall|ix: int| 0 <= ix < xs.len() ==> is_plane(keys, xs[ix], ys, ts, #[trigger] cells[ix]@)
}

/// One `dx` plane of a grid.
pub open spec fn is_plane(keys: Seq<(u64, u64, u64)>, x: u64, ys: Seq<u64>, ts: Seq<u64>, plane: Seq<Vec<Option<usize>>>) -> bool {
    &&& plane.len() == ys.len()
    &&& forall|iy: int| 0 <= iy < ys.len() ==> is_row(keys, x, ys[iy], ts, #[trigger] plane[iy]@)
}

/// One `(dx, dy)` row of a grid.
pub open spec fn is_row(keys: Seq<(u64, u64, u64)>, x: u64, y: u64, ts: Seq<u64>, row: Seq<Option<usize>>) -> bool {
    &&& row.len() == ts.len()
    &&& forall|it: int| 0 <= it < ts.len() ==> cell_holds(keys, (x, y, ts[it]), #[trigger] row[it])
}

/// The values of the listed records on one axis.
pub open spec fn axis_values(keys: Seq<(u64, u64, u64)>, reps: Seq<usize>, axis: int) -> Seq<u64> {
    reps.map_values(|r: usize| axis_value(keys[r as int], axis))
}

/// `index` is the grid of the records `entries`.
pub open spec fn describes(entries: Seq<RecordFacts>, index: MotionIndex) -> bool {
    let keys = facts_keys(entries);
    &&& is_stable_order(keys, index.order@)
    &&& index.order@ == stable_order(keys)
    &&& is_axis_representatives(keys, index.order@, 0, index.dxs@)
    &&& is_axis_representatives(keys, index.order@, 1, index.dys@)
    &&& is_axis_representatives(keys, index.order@, 2, index.dthetas@)
    &&& is_grid(
        keys,
        axis_values(keys, index.dxs@, 0),
        axis_values(keys, index.dys@, 1),
        axis_values(keys, index.dthetas@, 2),
        index.cells@,
    )
}

fn offsets_equal(a: &Vec<usize>, b: &Vec<usize>) -> (r: bool)
    ensures
        r == (a@ == b@),
{
    if a.len() != b.len() {
        return false;
    }
    let mut i: usize = 0;
    while i < a.len()
        invariant
            a.len() == b.len(),
            i <= a.len(),
            forall|j: int| 0 <= j < i ==> a@[j] == b@[j],
        decreases a.len() - i,
    {
        if a[i] != b[i] {
            return false;
        }
        i = i + 1;
    }
    assert(a@ =~= b@);
    true
}

fn axis_value_of(k: &(u64, u64, u64), axis: usize) -> (v: u64)
    requires
        axis < 3,
    ensures
        v == axis_value(*k, axis as int),
{
    if axis == 0 {
        k.0
    } else if axis == 1 {
        k.1
    } else {
        k.2
    }
}

/// The record whose key is `k`, looked up in a map from keys to records.
fn find_record(keys: &Vec<(u64, u64, u64)>, by_key: &BTreeMap<(u64, u64, u64), usize>, k: (u64, u64, u64)) -> (found: Option<usize>)
    requires
        keys_map(keys@, by_key@),
    ensures
        cell_holds(keys@, k, found),
{
    broadcast use vstd::std_specs::btree::group_btree_axioms;

    proof {
        lemma_key_order_laws();
    }

    match by_key.get(&k) {
        Some(r) => Some(*r),
        None => {
            assert forall|q: int| 0 <= q < keys.len() implies #[trigger] keys@[q] != k by {
                assert(by_key@.contains_key(keys@[q]));
            }
            None
        },
    }
}

/// `m` maps the key of every record to that record.
pub open spec fn keys_map(keys: Seq<(u64, u64, u64)>, m: Map<(u64, u64, u64), usize>) -> bool {
    &&& forall|r: int| 0 <= r < keys.len() ==> #[trigger] m.contains_key(keys[r])
    &&& forall|k: (u64, u64, u64)| #[trigger] m.contains_key(k) ==> m[k] < keys.len() && keys[m[k] as int] == k
}

fn build_row(keys: &Vec<(u64, u64, u64)>, by_key: &BTreeMap<(u64, u64, u64), usize>, x: u64, y: u64, ts: &Vec<u64>) -> (row: Vec<Option<usize>>)
    requires
        keys_map(keys@, by_key@),
    ensures
        is_row(keys@, x, y, ts@, row@),
{
    let mut row: Vec<Option<usize>> = Vec::new();
    for it in 0..ts.len()
        invariant
            keys_map(keys@, by_key@),
            row.len() == it,
            forall|j: int| 0 <= j < it ==> cell_holds(keys@, (x, y, ts@[j]), #[trigger] row@[j]),
    {
        let found = find_record(keys, by_key, (x, y, ts[it]));
        row.push(found);
    }
    row
}

fn build_plane(keys: &Vec<(u64, u64, u64)>, by_key: &BTreeMap<(u64, u64, u64), usize>, x: u64, ys: &Vec<u64>, ts: &Vec<u64>) -> (plane: Vec<Vec<Option<usize>>>)
    requires
        keys_map(keys@, by_key@),
    ensures
        is_plane(keys@, x, ys@, ts@, plane@),
{
    let mut plane: Vec<Vec<Option<usize>>> = Vec::new();
    for iy in 0..ys.len()
        invariant
            keys_map(keys@, by_key@),
            plane.len() == iy,
            forall|j: int| 0 <= j < iy ==> is_row(keys@, x, ys@[j], ts@, #[trigger] plane@[j]@),
    {
        let row = build_row(keys, by_key, x, ys[iy], ts);
        plane.push(row);
    }
    plane
}

fn build_grid(keys: &Vec<(u64, u64, u64)>, by_key: &BTreeMap<(u64, u64, u64), usize>, xs: &Vec<u64>, ys: &Vec<u64>, ts: &Vec<u64>) -> (cells: Vec<Vec<Vec<Option<usize>>>>)
    requires
        keys_map(keys@, by_key@),
    ensures
        is_grid(keys@, xs@, ys@, ts@, cells@),
{
    let mut cells: Vec<Vec<Vec<Option<usize>>>> = Vec::new();
    for ix in 0..xs.len()
        invariant
            keys_map(keys@, by_key@),
            cells.len() == ix,
            forall|j: int| 0 <= j < ix ==> is_plane(keys@, xs@[j], ys@, ts@, #[trigger] cells@[j]@),
    {
        let plane = build_plane(keys, by_key, xs[ix], ys, ts);
        cells.push(plane);
    }
    cells
}

/// The values on one axis of the listed records.
fn values_of(keys: &Vec<(u64, u64, u64)>, reps: &Vec<usize>, axis: usize) -> (vals: Vec<u64>)
    requires
        axis < 3,
        forall|i: int| 0 <= i < reps.len() ==> #[trigger] reps[i] < keys.len(),
    ensures
        vals@ == axis_values(keys@, reps@, axis as int),
{
    let mut vals: Vec<u64> = Vec::new();
    for i in 0..reps.len()
        invariant
            axis < 3,
            forall|k: int| 0 <= k < reps.len() ==> #[trigger] reps[k] < keys.len(),
            vals.len() == i,
            forall|k: int| 0 <= k < i ==> #[trigger] vals@[k] == axis_value(keys@[reps@[k] as int], axis as int),
    {
        let v = axis_value_of(&keys[reps[i]], axis);
        vals.push(v);
    }
    assert(vals@ =~= axis_values(keys@, reps@, axis as int));
    vals
}

/// Lists, in ascending order of their value on `axis`, the first record in
/// `order` for each distinct value on that axis: the first record seen for
/// each value is kept in an ordered map, which is then read in key order.
fn axis_representatives(keys: &Vec<(u64, u64, u64)>, order: &Vec<usize>, axis: usize) -> (reps: Vec<usize>)
    requires
        axis < 3,
        is_stable_order(keys@, order@),
    ensures
        is_axis_representatives(keys@, order@, axis as int, reps@),
{
    broadcast use vstd::std_specs::btree::group_btree_axioms;

    proof {
        lemma_axis_order_laws();
    }
    let n = keys.len();
    let ghost ax = axis as int;
    let mut first: BTreeMap<u64, usize> = BTreeMap::new();
    for p in 0..n
        invariant
            n == keys.len(),
            axis < 3,
            ax == axis as int,
            axis_values_ordered(),
            is_stable_order(keys@, order@),
            forall|k: u64|
                #[trigger] first@.contains_key(k) ==> first@[k] < n && axis_value(keys@[first@[k] as int], ax) == k
                    && first_in_order(keys@, order@, ax, first@[k]),
            forall|q: int| 0 <= q < p ==> #[trigger] first@.contains_key(axis_value(keys@[order@[q] as int], ax)),
    {
        let r = order[p];
        let v = axis_value_of(&keys[r], axis);
        if !first.contains_key(&v) {
            proof {
                assert forall|q: int| 0 <= q < p implies axis_value(keys@[#[trigger] order@[q] as int], ax) != axis_value(
                    keys@[order@[p as int] as int],
                    ax,
                ) by {
                    assert(first@.contains_key(axis_value(keys@[order@[q] as int], ax)));
                }
                assert(first_with_value(keys@, order@, ax, p as int));
                assert(first_in_order(keys@, order@, ax, r));
            }
            first.insert(v, r);
        }
    }
    let in_key_order = first.iter();
    let ghost entries = spec_btree_map_iter(&first).remaining();
    let ghost values = entries.map_values(|kv: (&u64, &usize)| *kv.0);
    proof {
        assert(in_key_order == spec_btree_map_iter(&first));
        lemma_increasing_values(values);
    }
    let mut reps: Vec<usize> = Vec::new();
    for kv in it: in_key_order
        invariant
            entries == spec_btree_map_iter(&first).remaining(),
            it.seq() == entries,
            reps.len() == it.index(),
            forall|j: int| 0 <= j < reps.len() ==> reps@[j] == *(#[trigger] entries[j]).1,
    {
        reps.push(*kv.1);
    }
    proof {
        assert(reps.len() == entries.len());
        assert forall|j: int| 0 <= j < reps.len() implies #[trigger] reps@[j] < n && axis_value(keys@[reps@[j] as int], ax) == values[j]
            && first_in_order(keys@, order@, ax, reps@[j]) by {
            let k = *entries[j].0;
            assert(first@.contains_key(k) && first@[k] == *entries[j].1);
        }
        assert forall|i: int| 0 <= i < reps.len() implies #[trigger] reps@[i] < keys.len() by {}
        assert forall|i: int, j: int| 0 <= i < j < reps.len() implies axis_value(keys@[#[trigger] reps@[i] as int], ax)
            < axis_value(keys@[#[trigger] reps@[j] as int], ax) by {
            assert(values[i] < values[j]);
        }
        assert forall|r: int| 0 <= r < keys.len() implies axis_covers(keys@, reps@, ax, #[trigger] axis_value(keys@[r], ax)) by {
            let v = axis_value(keys@[r], ax);
            assert(order@.contains(r as usize));
            let q = choose|q: int| 0 <= q < order@.len() && order@[q] == r as usize;
            assert(first@.contains_key(axis_value(keys@[order@[q] as int], ax)));
            assert(entries.contains((&v, &first@[v])));
            let j = choose|j: int| 0 <= j < entries.len() && entries[j] == (&v, &first@[v]);
            assert(reps@[j] == first@[v]);
            assert(axis_value(keys@[reps@[j] as int], ax) == v);
        }
        assert forall|i: int| 0 <= i < reps.len() implies first_in_order(keys@, order@, ax, #[trigger] reps@[i]) by {}
    }
    reps
}

/// Checks a set of motion records and builds their lookup grid.
///
/// Records are processed in key order (`stable_order`). The first faulty
/// record in that order decides the error: its period, fps or support
/// ratio does not match the first record's, its frame offsets differ from
/// the first record's, or an earlier record has the same triple. With no
/// record at all the result is `EmptyDataset`.
pub fn index_records(entries: &Vec<RecordFacts>) -> (result: Result<MotionIndex, MotionError>)
    ensures
        entries.len() == 0 ==> result == Err::<MotionIndex, MotionError>(MotionError::EmptyDataset),
        entries.len() > 0 ==> (result is Ok <==> forall|p: int|
            0 <= p < entries.len() ==> #[trigger] record_fault(entries@, stable_order(facts_keys(entries@)), p) is None),
        entries.len() > 0 ==> (result matches Err(e) ==> is_first_fault(
            entries@,
            stable_order(facts_keys(entries@)),
            e,
        )),
        result matches Ok(index) ==> describes(entries@, index),
{
    let n = entries.len();
    if n == 0 {
        return Err(MotionError::EmptyDataset);
    }
    let mut keys: Vec<(u64, u64, u64)> = Vec::new();
    for i in 0..n
        invariant
            n == entries.len(),
            keys.len() == i,
            forall|j: int| 0 <= j < i ==> #[trigger] keys@[j] == entries@[j].key,
    {
        keys.push(entries[i].key);
    }
    assert(keys@ =~= facts_keys(entries@));
    let order = record_order(&keys);
    let ghost so = order@;
    let base = order[0];
    let mut by_key: BTreeMap<(u64, u64, u64), usize> = BTreeMap::new();
    let mut p: usize = 0;
    while p < n
        invariant
            n == entries.len(),
            0 < n,
            keys@ == facts_keys(entries@),
            is_stable_order(keys@, order@),
            so == order@,
            so == stable_order(keys@),
            base == order@[0],
            p <= n,
            forall|q: int| 0 <= q < p ==> #[trigger] record_fault(entries@, so, q) is None,
            forall|q: int| 0 <= q < p ==> #[trigger] by_key@.contains_key(keys@[so[q] as int]),
            forall|k: (u64, u64, u64)|
                #[trigger] by_key@.contains_key(k) ==> by_key@[k] < n && keys@[by_key@[k] as int] == k
                    && exists|q: int| 0 <= q < p && so[q] == by_key@[k],
        decreases n - p,
    {
        broadcast use vstd::std_specs::btree::group_btree_axioms;

        proof {
            lemma_key_order_laws();
        }

        let r = order[p];
        assert(r < n);
        if !entries[r].period_matches {
            assert(record_fault(entries@, so, p as int) == Some(MotionError::PeriodMismatch));
            return Err(MotionError::PeriodMismatch);
        }
        if !entries[r].fps_matches {
            assert(record_fault(entries@, so, p as int) == Some(MotionError::FpsMismatch));
            return Err(MotionError::FpsMismatch);
        }
        if !entries[r].support_ratio_matches {
            assert(record_fault(entries@, so, p as int) == Some(MotionError::SupportRatioMismatch));
            return Err(MotionError::SupportRatioMismatch);
        }
        if !offsets_equal(&entries[r].frame_offsets, &entries[base].frame_offsets) {
            assert(record_fault(entries@, so, p as int) == Some(MotionError::FrameOffsetsMismatch));
            return Err(MotionError::FrameOffsetsMismatch);
        }
        let ghost before = by_key@;
        let k = keys[r];
        assert(k == entries@[r as int].key);
        match by_key.insert(k, r) {
            Some(_) => {
                proof {
                    let q = choose|q: int| 0 <= q < p && so[q] == before[k];
                    assert(keys@[so[q] as int] == k);
                    assert(entries@[so[q] as int].key == entries@[r as int].key);
                    assert(record_fault(entries@, so, p as int) == Some(MotionError::DuplicateEntry { record: r }));
                }
                return Err(MotionError::DuplicateEntry { record: r });
            },
            None => {
                proof {
                    assert forall|q: int| 0 <= q < p implies #[trigger] entries@[so[q] as int].key != entries@[r as int].key by {
                        assert(keys@[so[q] as int] == entries@[so[q] as int].key);
                        assert(before.contains_key(keys@[so[q] as int]));
                    }
                    assert(record_fault(entries@, so, p as int) is None);
                    assert forall|k2: (u64, u64, u64)| #[trigger] by_key@.contains_key(k2) implies by_key@[k2] < n && keys@[by_key@[k2] as int] == k2
                        && exists|q: int| 0 <= q < p + 1 && so[q] == by_key@[k2] by {
                        if k2 != k {
                            let q = choose|q: int| 0 <= q < p && so[q] == before[k2];
                            assert(so[q] == by_key@[k2]);
                        } else {
                            assert(so[p as int] == by_key@[k2]);
                        }
                    }
                    assert forall|q: int| 0 <= q < p + 1 implies #[trigger] by_key@.contains_key(keys@[so[q] as int]) by {
                        if q < p {
                            assert(before.contains_key(keys@[so[q] as int]));
                        }
                    }
                }
            },
        }
        p = p + 1;
    }
    proof {
        assert forall|r: int| 0 <= r < keys.len() implies #[trigger] by_key@.contains_key(keys@[r]) by {
            assert(so.contains(r as usize));
            let q = choose|q: int| 0 <= q < so.len() && so[q] == r as usize;
            assert(by_key@.contains_key(keys@[so[q] as int]));
        }
        assert(keys_map(keys@, by_key@));
    }
    let dxs = axis_representatives(&keys, &order, 0);
    let dys = axis_representatives(&keys, &order, 1);
    let dthetas = axis_representatives(&keys, &order, 2);
    let xs = values_of(&keys, &dxs, 0);
    let ys = values_of(&keys, &dys, 1);
    let ts = values_of(&keys, &dthetas, 2);
    let cells = build_grid(&keys, &by_key, &xs, &ys, &ts);
    Ok(MotionIndex { order, dxs, dys, dthetas, cells })
}

/// The coefficient lists of a cell: those of the record the cell names,
/// each reversed, or none when the cell is empty (or names no listed record).
pub open spec fn is_cell_data<T>(coefficients: Seq<Vec<Vec<T>>>, cell: Option<usize>, data: Seq<Vec<T>>) -> bool {
    match cell {
        Some(r) if r < coefficients.len() => {
            &&& data.len() == coefficients[r as int]@.len()
            &&& forall|k: int| 0 <= k < data.len() ==> #[trigger] data[k]@ == coefficients[r as int]@[k]@.reverse()
        },
        _ => data.len() == 0,
    }
}

/// One `(dx, dy)` row of coefficient data.
pub open spec fn is_row_data<T>(coefficients: Seq<Vec<Vec<T>>>, row: Seq<Option<usize>>, data: Seq<Vec<Vec<T>>>) -> bool {
    &&& data.len() == row.len()
    &&& forall|it: int| 0 <= it < row.len() ==> is_cell_data(coefficients, row[it], #[trigger] data[it]@)
}

/// One `dx` plane of coefficient data.
pub open spec fn is_plane_data<T>(
    coefficients: Seq<Vec<Vec<T>>>,
    plane: Seq<Vec<Option<usize>>>,
    data: Seq<Vec<Vec<Vec<T>>>>,
) -> bool {
    &&& data.len() == plane.len()
    &&& forall|iy: int| 0 <= iy < plane.len() ==> is_row_data(coefficients, plane[iy]@, #[trigger] data[iy]@)
}

/// The coefficient data of a whole grid.
pub open spec fn is_grid_data<T>(
    coefficients: Seq<Vec<Vec<T>>>,
    cells: Seq<Vec<Vec<Option<usize>>>>,
    data: Seq<Vec<Vec<Vec<Vec<T>>>>>,
) -> bool {
    &&& data.len() == cells.len()
    &&& forall|ix: int| 0 <= ix < cells.len() ==> is_plane_data(coefficients, cells[ix]@, #[trigger] data[ix]@)
}

/// A list in reverse order.
fn reversed<T: Copy>(values: &Vec<T>) -> (out: Vec<T>)
    ensures
        out@ == values@.reverse(),
{
    let mut out: Vec<T> = Vec::new();
    let n = values.len();
    let mut i: usize = n;
    while i > 0
        invariant
            i <= n,
            n == values.len(),
            out.len() == n - i,
            forall|k: int| 0 <= k < out.len() ==> #[trigger] out@[k] == values@[n - 1 - k],
        decreases i,
    {
        i = i - 1;
        out.push(values[i]);
    }
    assert(out@ =~= values@.reverse());
    out
}

fn cell_data<T: Copy>(coefficients: &Vec<Vec<Vec<T>>>, cell: Option<usize>) -> (data: Vec<Vec<T>>)
    ensures
        is_cell_data(coefficients@, cell, data@),
{
    let mut data: Vec<Vec<T>> = Vec::new();
    match cell {
        Some(r) => {
            if r < coefficients.len() {
                let polys = &coefficients[r];
                for k in 0..polys.len()
                    invariant
                        polys@ == coefficients@[r as int]@,
                        data.len() == k,
                        forall|j: int| 0 <= j < k ==> #[trigger] data@[j]@ == polys@[j]@.reverse(),
                {
                    let poly = reversed(&polys[k]);
                    data.push(poly);
                }
            }
        },
        None => {},
    }
    data
}

fn row_data<T: Copy>(coefficients: &Vec<Vec<Vec<T>>>, row: &Vec<Option<usize>>) -> (data: Vec<Vec<Vec<T>>>)
    ensures
        is_row_data(coefficients@, row@, data@),
{
    let mut data: Vec<Vec<Vec<T>>> = Vec::new();
    for it in 0..row.len()
        invariant
            data.len() == it,
            forall|j: int| 0 <= j < it ==> is_cell_data(coefficients@, row@[j], #[trigger] data@[j]@),
    {
        let cell = cell_data(coefficients, row[it]);
        data.push(cell);
    }
    data
}

fn plane_data<T: Copy>(coefficients: &Vec<Vec<Vec<T>>>, plane: &Vec<Vec<Option<usize>>>) -> (data: Vec<Vec<Vec<Vec<T>>>>)
    ensures
        is_plane_data(coefficients@, plane@, data@),
{
    let mut data: Vec<Vec<Vec<Vec<T>>>> = Vec::new();
    for iy in 0..plane.len()
        invariant
            data.len() == iy,
            forall|j: int| 0 <= j < iy ==> is_row_data(coefficients@, plane@[j]@, #[trigger] data@[j]@),
    {
        let row = row_data(coefficients, &plane[iy]);
        data.push(row);
    }
    data
}

/// The coefficient table of a grid: cell `[ix][iy][itheta]` holds the
/// coefficient lists of the record it names, each reversed (highest degree
/// first, as Horner's method reads them), and nothing for an empty cell.
/// `coefficients[r]` are the lists of record `r`, lowest degree first.
pub fn grid_coefficients<T: Copy>(index: &MotionIndex, coefficients: &Vec<Vec<Vec<T>>>) -> (data: Vec<Vec<Vec<Vec<Vec<T>>>>>)
    ensures
        is_grid_data(coefficients@, index.cells@, data@),
{
    let mut data: Vec<Vec<Vec<Vec<Vec<T>>>>> = Vec::new();
    for ix in 0..index.cells.len()
        invariant
            data.len() == ix,
            forall|j: int| 0 <= j < ix ==> is_plane_data(coefficients@, index.cells@[j]@, #[trigger] data@[j]@),
    {
        let plane = plane_data(coefficients, &index.cells[ix]);
        data.push(plane);
    }
    data
}

/// No record of the set is faulty.
pub open spec fn all_valid(entries: Seq<RecordFacts>) -> bool {
    forall|p: int| 0 <= p < entries.len() ==> #[trigger] record_fault(entries, stable_order(facts_keys(entries)), p) is None
}

/// In a set of records that `index_records` accepts, no two records have
/// the same velocity triple.
pub proof fn lemma_valid_keys_distinct(entries: Seq<RecordFacts>, index: MotionIndex, a: usize, b: usize)
    requires
        describes(entries, index),
        all_valid(entries),
        0 <= a < entries.len(),
        0 <= b < entries.len(),
        a != b,
    ensures
        entries[a as int].key != entries[b as int].key,
{
    let keys = facts_keys(entries);
    let o = index.order@;
    assert(o.contains(a));
    assert(o.contains(b));
    let pa = choose|p: int| 0 <= p < o.len() && o[p] == a;
    let pb = choose|p: int| 0 <= p < o.len() && o[p] == b;
    if pa < pb {
        assert(record_fault(entries, o, pb) is None);
        assert(entries[o[pa] as int].key == entries[a as int].key);
    } else {
        assert(record_fault(entries, o, pa) is None);
        assert(entries[o[pb] as int].key == entries[b as int].key);
    }
}

/// In the grid of a set of records that `index_records` accepts, every
/// record is named by the cell of its own `dx`, `dy` and `dtheta`.
pub proof fn lemma_record_in_grid(entries: Seq<RecordFacts>, index: MotionIndex, r: usize)
    requires
        describes(entries, index),
        all_valid(entries),
        0 <= r < entries.len(),
    ensures
        exists|ix: int, iy: int, it: int|
            0 <= ix < index.dxs.len() && 0 <= iy < index.dys.len() && 0 <= it < index.dthetas.len()
                && #[trigger] index.cells@[ix]@[iy]@[it] == Some(r),
{
    let keys = facts_keys(entries);
    let xs = axis_values(keys, index.dxs@, 0);
    let ys = axis_values(keys, index.dys@, 1);
    let ts = axis_values(keys, index.dthetas@, 2);
    let k = keys[r as int];
    assert(axis_covers(keys, index.dxs@, 0, axis_value(keys[r as int], 0)));
    assert(axis_covers(keys, index.dys@, 1, axis_value(keys[r as int], 1)));
    assert(axis_covers(keys, index.dthetas@, 2, axis_value(keys[r as int], 2)));
    let ix = choose|i: int| 0 <= i < index.dxs@.len() && #[trigger] axis_value(keys[index.dxs@[i] as int], 0) == k.0;
    let iy = choose|i: int| 0 <= i < index.dys@.len() && #[trigger] axis_value(keys[index.dys@[i] as int], 1) == k.1;
    let it = choose|i: int| 0 <= i < index.dthetas@.len() && #[trigger] axis_value(keys[index.dthetas@[i] as int], 2) == k.2;
    assert(xs[ix] == k.0 && ys[iy] == k.1 && ts[it] == k.2);
    assert(is_plane(keys, xs[ix], ys, ts, index.cells@[ix]@));
    assert(is_row(keys, xs[ix], ys[iy], ts, index.cells@[ix]@[iy]@));
    let cell = index.cells@[ix]@[iy]@[it];
    assert(cell_holds(keys, (xs[ix], ys[iy], ts[it]), cell));
    assert((xs[ix], ys[iy], ts[it]) == k);
    match cell {
        Some(q) => {
            if q != r {
                lemma_valid_keys_distinct(entries, index, q, r);
            }
        },
        None => {
            assert(keys[r as int] != k);
        },
    }
    assert(index.cells@[ix]@[iy]@[it] == Some(r));
}

} // verus!
