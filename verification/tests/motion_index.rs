use open_duck_playground::{
    grid_coefficients, index_records, order_key, record_order, velocity_key, MotionError,
    RecordFacts,
};
use ordered_float::OrderedFloat;

fn key_of(dx: f64, dy: f64, dtheta: f64) -> (u64, u64, u64) {
    velocity_key(dx.to_bits(), dy.to_bits(), dtheta.to_bits())
}

fn facts(dx: f64, dy: f64, dtheta: f64, offsets: Vec<usize>) -> RecordFacts {
    RecordFacts {
        key: key_of(dx, dy, dtheta),
        period_matches: true,
        fps_matches: true,
        support_ratio_matches: true,
        frame_offsets: offsets,
    }
}

fn horner(coeffs: &[f64], t: f64) -> f64 {
    coeffs.iter().fold(0.0, |acc, c| acc * t + c)
}

#[test]
fn builds_and_queries_motion() {
    let entries = vec![facts(0.0, 0.0, 0.0, vec![0, 5]), facts(1.0, 0.0, 0.0, vec![0, 5])];
    let coefficients: Vec<Vec<Vec<f64>>> = vec![
        vec![vec![0.0, 1.0], vec![1.0, 0.0]],
        vec![vec![0.0, 2.0], vec![1.0, 1.0]],
    ];
    let index = index_records(&entries).unwrap();
    assert_eq!(index.order, vec![0, 1]);
    assert_eq!(index.dxs, vec![0, 1]);
    assert_eq!(index.dys, vec![0]);
    assert_eq!(index.dthetas, vec![0]);
    assert_eq!(index.cells, vec![vec![vec![Some(0)]], vec![vec![Some(1)]]]);
    let data = grid_coefficients(&index, &coefficients);
    // dx = 0.2 lies nearest to the first dx value, 0.0.
    let cell = &data[0][0][0];
    let t = (3 % 10) as f64 / 10.0;
    let values: Vec<f64> = cell.iter().map(|poly| horner(poly, t)).collect();
    assert_eq!(values.len(), 2);
    assert!(values[0] >= 0.0);
}

#[test]
fn empty_dataset_is_refused() {
    let entries: Vec<RecordFacts> = Vec::new();
    assert_eq!(index_records(&entries).unwrap_err(), MotionError::EmptyDataset);
}

#[test]
fn first_fault_in_key_order_decides() {
    // Input order puts the fps mismatch first; key order puts the period mismatch first.
    let mut fps_bad = facts(0.5, 0.0, 0.0, vec![0]);
    fps_bad.fps_matches = false;
    let mut period_bad = facts(0.2, 0.0, 0.0, vec![0]);
    period_bad.period_matches = false;
    let base = facts(-1.0, 0.0, 0.0, vec![0]);
    let entries = vec![fps_bad, period_bad, base];
    assert_eq!(index_records(&entries).unwrap_err(), MotionError::PeriodMismatch);
}

#[test]
fn each_fault_kind_is_reported() {
    let mut a = facts(1.0, 0.0, 0.0, vec![0, 5]);
    a.fps_matches = false;
    let entries = vec![facts(0.0, 0.0, 0.0, vec![0, 5]), a];
    assert_eq!(index_records(&entries).unwrap_err(), MotionError::FpsMismatch);

    let mut b = facts(1.0, 0.0, 0.0, vec![0, 5]);
    b.support_ratio_matches = false;
    let entries = vec![facts(0.0, 0.0, 0.0, vec![0, 5]), b];
    assert_eq!(index_records(&entries).unwrap_err(), MotionError::SupportRatioMismatch);

    let entries = vec![facts(0.0, 0.0, 0.0, vec![0, 5]), facts(1.0, 0.0, 0.0, vec![0, 6])];
    assert_eq!(index_records(&entries).unwrap_err(), MotionError::FrameOffsetsMismatch);

    let entries = vec![facts(0.0, 0.0, 0.0, vec![0, 5]), facts(1.0, 0.0, 0.0, vec![0])];
    assert_eq!(index_records(&entries).unwrap_err(), MotionError::FrameOffsetsMismatch);
}

#[test]
fn duplicate_triple_names_the_later_record() {
    let entries = vec![
        facts(1.0, 2.0, 3.0, vec![]),
        facts(0.0, 0.0, 0.0, vec![]),
        facts(1.0, 2.0, 3.0, vec![]),
    ];
    assert_eq!(
        index_records(&entries).unwrap_err(),
        MotionError::DuplicateEntry { record: 2 }
    );
    // Negative and positive zero are the same value.
    let entries = vec![facts(0.0, 0.0, 0.0, vec![]), facts(-0.0, 0.0, 0.0, vec![])];
    assert_eq!(
        index_records(&entries).unwrap_err(),
        MotionError::DuplicateEntry { record: 1 }
    );
}

#[test]
fn grid_covers_every_triple() {
    let entries = vec![
        facts(0.1, -0.2, 0.0, vec![1]),
        facts(-0.1, 0.2, 0.0, vec![1]),
        facts(0.1, 0.2, 0.5, vec![1]),
    ];
    let index = index_records(&entries).unwrap();
    // Key order: (-0.1, 0.2, 0.0), (0.1, -0.2, 0.0), (0.1, 0.2, 0.5).
    assert_eq!(index.order, vec![1, 0, 2]);
    assert_eq!(index.dxs, vec![1, 0]);
    assert_eq!(index.dys, vec![0, 1]);
    assert_eq!(index.dthetas, vec![1, 2]);
    assert_eq!(
        index.cells,
        vec![
            vec![vec![None, None], vec![Some(1), None]],
            vec![vec![Some(0), None], vec![None, Some(2)]],
        ]
    );
    let coefficients: Vec<Vec<Vec<i32>>> = vec![vec![vec![1, 2, 3]], vec![vec![4, 5]], vec![]];
    let data = grid_coefficients(&index, &coefficients);
    assert_eq!(data[0][1][0], vec![vec![5, 4]]);
    assert_eq!(data[1][0][0], vec![vec![3, 2, 1]]);
    assert!(data[1][1][1].is_empty());
    assert!(data[0][0][0].is_empty());
}

#[test]
fn axis_values_keep_the_first_record_in_key_order() {
    // -0.0 and 0.0 are one dx value; the first record in key order names it.
    let entries = vec![facts(0.0, 1.0, 0.0, vec![]), facts(-0.0, 0.0, 0.0, vec![])];
    let index = index_records(&entries).unwrap();
    assert_eq!(index.order, vec![1, 0]);
    assert_eq!(index.dxs, vec![1]);
    assert_eq!(index.dys, vec![1, 0]);
}

#[test]
fn record_order_is_stable() {
    let keys = vec![(2, 0, 0), (1, 5, 0), (2, 0, 0), (1, 4, 9), (0, 0, 0)];
    assert_eq!(record_order(&keys), vec![4, 3, 1, 0, 2]);
    let empty: Vec<(u64, u64, u64)> = Vec::new();
    assert!(record_order(&empty).is_empty());
}

#[test]
fn order_keys_follow_the_total_float_order() {
    let values = [
        f64::NEG_INFINITY,
        -1.5e300,
        -1.0,
        -f64::MIN_POSITIVE,
        -0.0,
        0.0,
        5e-324,
        0.25,
        1.0,
        f64::MAX,
        f64::INFINITY,
        f64::NAN,
        -f64::NAN,
    ];
    for a in values.iter() {
        for b in values.iter() {
            let by_key = order_key(a.to_bits()).cmp(&order_key(b.to_bits()));
            let by_float = OrderedFloat(*a).cmp(&OrderedFloat(*b));
            assert_eq!(by_key, by_float, "{} vs {}", a, b);
        }
    }
    assert_eq!(order_key(0.0f64.to_bits()), 0x8000_0000_0000_0000);
    assert_eq!(order_key(f64::NAN.to_bits()), u64::MAX);
    assert_eq!(order_key(1.0f64.to_bits()), 0x3FF0_0000_0000_0000 | 0x8000_0000_0000_0000);
    assert_eq!(order_key((-1.0f64).to_bits()), !0xBFF0_0000_0000_0000u64);
}

#[test]
fn renumbered_records_give_a_renumbered_index() {
    let entries = vec![
        facts(0.1, -0.2, 0.0, vec![1]),
        facts(-0.1, 0.2, 0.0, vec![1]),
        facts(0.1, 0.2, 0.5, vec![1]),
        facts(0.3, 0.2, 0.5, vec![1]),
    ];
    // Record i of `renumbered` is record perm[i] of `entries`.
    let perm = [3usize, 0, 2, 1];
    let renumbered: Vec<RecordFacts> = perm
        .iter()
        .map(|&r| RecordFacts {
            key: entries[r].key,
            period_matches: entries[r].period_matches,
            fps_matches: entries[r].fps_matches,
            support_ratio_matches: entries[r].support_ratio_matches,
            frame_offsets: entries[r].frame_offsets.clone(),
        })
        .collect();
    let index = index_records(&entries).unwrap();
    let other = index_records(&renumbered).unwrap();
    let map = |v: &Vec<usize>| v.iter().map(|&r| perm[r]).collect::<Vec<usize>>();
    assert_eq!(index.order, map(&other.order));
    assert_eq!(index.dxs, map(&other.dxs));
    assert_eq!(index.dys, map(&other.dys));
    assert_eq!(index.dthetas, map(&other.dthetas));
    for (plane, other_plane) in index.cells.iter().zip(other.cells.iter()) {
        for (row, other_row) in plane.iter().zip(other_plane.iter()) {
            let renamed: Vec<Option<usize>> = other_row.iter().map(|c| c.map(|r| perm[r])).collect();
            assert_eq!(row, &renamed);
        }
    }

    // A refused set stays refused in any order.
    // The frame offsets disagree.
    let refused = vec![facts(0.0, 0.0, 0.0, vec![1]), facts(0.3, 0.2, 0.5, vec![2])];
    assert!(index_records(&refused).is_err());
    let refused_swapped = vec![refused[1].clone_facts(), refused[0].clone_facts()];
    assert!(index_records(&refused_swapped).is_err());
}

trait CloneFacts {
    fn clone_facts(&self) -> RecordFacts;
}

impl CloneFacts for RecordFacts {
    fn clone_facts(&self) -> RecordFacts {
        RecordFacts {
            key: self.key,
            period_matches: self.period_matches,
            fps_matches: self.fps_matches,
            support_ratio_matches: self.support_ratio_matches,
            frame_offsets: self.frame_offsets.clone(),
        }
    }
}
