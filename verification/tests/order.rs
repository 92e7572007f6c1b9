use lau_simd_vibe::order::{max_position, min_position};

/// Order key of a float: equal for equal floats, larger for larger floats,
/// `None` for NaN.
fn key(x: f64) -> Option<u64> {
    if x.is_nan() {
        return None;
    }
    let x = if x == 0.0 { 0.0f64 } else { x };
    let bits = x.to_bits();
    Some(if bits >> 63 == 1 { !bits } else { bits | (1u64 << 63) })
}

fn keys(values: &[f64]) -> Vec<Option<u64>> {
    values.iter().map(|v| key(*v)).collect()
}

#[test]
fn max_and_min_positions_of_ramp() {
    let values: Vec<f64> = (0..5).map(|i| i as f64 - 2.0).collect();
    let k = keys(&values);
    assert_eq!(values[max_position(&k)], 2.0);
    assert_eq!(values[min_position(&k)], -2.0);
}

#[test]
fn max_position_takes_first_of_ties() {
    assert_eq!(max_position(&[Some(3), Some(7), Some(7), Some(1)]), 1);
}

#[test]
fn min_position_takes_first_of_ties() {
    assert_eq!(min_position(&[Some(3), Some(1), Some(7), Some(1)]), 1);
}

#[test]
fn single_value_is_both_extremes() {
    assert_eq!(max_position(&[Some(9)]), 0);
    assert_eq!(min_position(&[None]), 0);
}

#[test]
fn unordered_first_value_is_kept() {
    assert_eq!(max_position(&[None, Some(5), Some(9)]), 0);
    assert_eq!(min_position(&[None, Some(5), Some(1)]), 0);
}

#[test]
fn unordered_later_value_is_skipped() {
    assert_eq!(max_position(&[Some(5), None, Some(7)]), 2);
    assert_eq!(min_position(&[Some(5), None, Some(3)]), 2);
}

#[test]
fn negative_zero_and_zero_are_equal_keys() {
    let k = keys(&[0.0, -0.0, -1.0]);
    assert_eq!(max_position(&k), 0);
    assert_eq!(min_position(&k), 2);
}
