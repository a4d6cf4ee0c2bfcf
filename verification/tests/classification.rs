//! The verdicts of the classifier and the counts that feed them.

use double_pendulum_classifier::classifier::{checkpoints, regular_verdict, Classification};
use double_pendulum_classifier::distinct::count_distinct;

#[test]
fn too_few_crossings_need_a_longer_integration() {
    assert_eq!(regular_verdict(0, 0), Classification::NeedsLongerIntegration);
    assert_eq!(regular_verdict(9, 9), Classification::NeedsLongerIntegration);
    assert_eq!(regular_verdict(9, 500), Classification::NeedsLongerIntegration);
}

#[test]
fn few_cells_are_periodic_and_many_quasiperiodic() {
    assert_eq!(regular_verdict(10, 1), Classification::Periodic);
    assert_eq!(regular_verdict(177, 10), Classification::Periodic);
    assert_eq!(regular_verdict(177, 11), Classification::Quasiperiodic);
    assert_eq!(regular_verdict(73, 73), Classification::Quasiperiodic);
}

#[test]
fn classifications_display_as_words() {
    assert_eq!(Classification::Chaotic.to_string(), "chaotic");
    assert_eq!(Classification::Periodic.to_string(), "periodic");
    assert_eq!(Classification::Quasiperiodic.to_string(), "quasiperiodic");
    assert_eq!(
        Classification::NeedsLongerIntegration.to_string(),
        "regular (need longer integration)"
    );
}

/// The cell keys that rounding to `decimals` places gives, as the section
/// counter computes them.
fn rounded_cells(points: &[[f64; 2]], decimals: i32) -> Vec<(i64, i64)> {
    let factor = 10f64.powi(decimals);
    points
        .iter()
        .map(|[a, b]| ((a * factor).round() as i64, (b * factor).round() as i64))
        .collect()
}

#[test]
fn unique_rounded_collapses_nearby_points() {
    let points = [
        [0.0014, 0.2000],
        [0.0016, 0.2000],
        [0.0014, 0.2001], // duplicates the first point after rounding
        [1.0000, -2.0000],
    ];
    assert_eq!(count_distinct(&rounded_cells(&points, 3)), 3);
}

#[test]
fn count_distinct_of_nothing_is_zero() {
    assert_eq!(count_distinct(&Vec::new()), 0);
}

#[test]
fn count_distinct_ignores_order_and_repeats() {
    let a = vec![(1, 2), (3, 4), (1, 2), (5, 6), (3, 4)];
    let b = vec![(5, 6), (3, 4), (1, 2)];
    assert_eq!(count_distinct(&a), 3);
    assert_eq!(count_distinct(&b), 3);
}

#[test]
fn count_distinct_tells_apart_extreme_cells() {
    let cells = vec![
        (i64::MIN, i64::MIN),
        (i64::MIN, i64::MAX),
        (i64::MAX, i64::MIN),
        (i64::MAX, i64::MAX),
        (0, -1),
        (-1, 0),
        (0, 0),
        (-1, -1),
    ];
    assert_eq!(count_distinct(&cells), 8);
    // Swapping the coordinates of a cell gives a different cell.
    assert_eq!(count_distinct(&vec![(1, 2), (2, 1)]), 2);
}

#[test]
fn checkpoints_are_the_multiples_of_the_stride() {
    let c = checkpoints(20000, 100);
    assert_eq!(c.len(), 199);
    assert_eq!(c[0], 100);
    assert_eq!(c[198], 19900);
    assert!(c.iter().enumerate().all(|(j, i)| *i == (j + 1) * 100));
}

#[test]
fn a_horizon_shorter_than_one_stride_has_no_checkpoint() {
    assert!(checkpoints(2, 100).is_empty());
    assert!(checkpoints(100, 100).is_empty());
    assert_eq!(checkpoints(101, 100), vec![100]);
    assert_eq!(checkpoints(7, 3), vec![3, 6]);
    assert_eq!(checkpoints(3, 1), vec![1, 2]);
    assert!(checkpoints(0, 1).is_empty());
}

#[test]
fn checkpoints_stop_before_the_index_would_overflow() {
    let c = checkpoints(usize::MAX, usize::MAX / 2 + 1);
    assert_eq!(c, vec![usize::MAX / 2 + 1]);
}
