use lau_simd_vibe::diffusion::VibeDiffusion;

fn exact_step(s: &[i64], rate: i64) -> Vec<i64> {
    let diff = VibeDiffusion;
    let n = s.len();
    (0..n)
        .map(|i| {
            let (p, q) = diff.neighbors(i, n);
            s[i] + rate * (s[p] - 2 * s[i] + s[q])
        })
        .collect()
}

#[test]
fn neighbors_interior_cell() {
    let diff = VibeDiffusion;
    assert_eq!(diff.neighbors(2, 8), (1, 3));
}

#[test]
fn neighbors_left_edge_clamps() {
    let diff = VibeDiffusion;
    assert_eq!(diff.neighbors(0, 4), (0, 1));
}

#[test]
fn neighbors_right_edge_clamps() {
    let diff = VibeDiffusion;
    assert_eq!(diff.neighbors(3, 4), (2, 3));
}

#[test]
fn neighbors_single_cell() {
    let diff = VibeDiffusion;
    assert_eq!(diff.neighbors(0, 1), (0, 0));
}

#[test]
fn exact_step_spike_at_edge_does_not_leak() {
    let before = [4i64, 0, 0, 0];
    let after = exact_step(&before, 1);
    assert_eq!(after, vec![0, 4, 0, 0]);
    assert_eq!(after.iter().sum::<i64>(), before.iter().sum::<i64>());
}

#[test]
fn exact_step_conserves_total() {
    let before = [3i64, -7, 12, 0, 5, 9, -2, 1];
    for rate in [-3i64, 0, 1, 2, 5] {
        let after = exact_step(&before, rate);
        assert_eq!(after.iter().sum::<i64>(), before.iter().sum::<i64>());
    }
}

#[test]
fn exact_step_flat_field_unchanged() {
    let flat = [5i64; 8];
    assert_eq!(exact_step(&flat, 3), flat.to_vec());
}
