use hyperdemo::mountains::{
    mountain_candidates, mountain_range, peak_sizes, row_columns, select_peaks, Peak, KEEP_BELOW,
    MOUNTAIN_SEED,
};
use nannou::rand::rngs::SmallRng;
use nannou::rand::{RngCore, SeedableRng};

fn float_keeps(draw: u32) -> bool {
    (draw as f32 / u32::MAX as f32) < 0.8
}

#[test]
fn keep_threshold_matches_single_precision_test() {
    for d in [0u32, 1, 1000, KEEP_BELOW - 200, KEEP_BELOW - 1, KEEP_BELOW, KEEP_BELOW + 1, KEEP_BELOW + 300, u32::MAX] {
        assert_eq!(d < KEEP_BELOW, float_keeps(d), "draw {}", d);
    }
    let mut rng = SmallRng::seed_from_u64(7);
    for _ in 0..200000 {
        let d = rng.next_u32();
        assert_eq!(d < KEEP_BELOW, float_keeps(d));
    }
    for d in (KEEP_BELOW - 100000)..(KEEP_BELOW + 100000) {
        assert_eq!(d < KEEP_BELOW, float_keeps(d));
    }
}

#[test]
fn rows_step_from_minus_one_hundred() {
    assert_eq!(peak_sizes(), vec![1, 3, 5, 11, 17, 23]);
    let row = row_columns(23);
    assert_eq!(row, vec![-100, -77, -54, -31, -8, 15, 38, 61, 84]);
    assert_eq!(row_columns(1).len(), 200);
    assert_eq!(row_columns(11).len(), 19);
    assert_eq!(row_columns(500), vec![-100]);
    let expected: Vec<i32> = (-100..100).step_by(17).collect();
    assert_eq!(row_columns(17), expected);
}

#[test]
fn candidates_in_drawing_order() {
    let candidates = mountain_candidates();
    assert_eq!(candidates.len(), 200 + 67 + 40 + 19 + 12 + 9);
    assert_eq!(candidates[0], (1, -100));
    assert_eq!(candidates[199], (1, 99));
    assert_eq!(candidates[200], (3, -100));
    assert_eq!(candidates[candidates.len() - 1], (23, 84));
}

#[test]
fn selection_follows_the_draws() {
    let candidates = vec![(1, -100), (3, 5), (23, 84)];
    let draws = vec![0, u32::MAX, KEEP_BELOW - 1];
    let peaks = select_peaks(&candidates, &draws);
    assert_eq!(
        peaks,
        vec![
            Peak { size: 1, left: -99, apex: -98, right: -97 },
            Peak { size: 23, left: 23 + 84 * 23, apex: 23 + 85 * 23, right: 23 + 86 * 23 },
        ]
    );
    assert!(select_peaks(&candidates, &vec![KEEP_BELOW; 3]).is_empty());
}

#[test]
fn mountain_range_matches_the_seeded_draws() {
    let mut rng = SmallRng::seed_from_u64(MOUNTAIN_SEED);
    let mut rnd = || rng.next_u32() as f32 / u32::MAX as f32;
    let mut expected = Vec::new();
    for &sz in [1i32, 3, 5, 11, 17, 23].iter() {
        for i in (-100..100).step_by(sz as usize) {
            if rnd() < 0.8 {
                let x0 = (sz + i * sz) as i64;
                let x1 = (sz + (i + 2) * sz) as i64;
                expected.push(Peak { size: sz, left: x0, apex: (x0 + x1) / 2, right: x1 });
            }
        }
    }
    let peaks = mountain_range();
    assert_eq!(peaks, expected);
    assert!(peaks.len() < 347);
    assert!(peaks.len() > 200);
    assert_eq!(mountain_range(), peaks);
}
