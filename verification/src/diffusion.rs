//! Neumann (clamped) boundary scheme of the one-dimensional diffusion step.
use vstd::prelude::*;

verus! {

/// Discrete one-dimensional diffusion operator with clamped boundaries.
pub struct VibeDiffusion;

/// Index of the left neighbour of cell `i`: the cell
/// itself at the left edge.
pub open spec fn prev_index(i: int) -> int {
    if i == 0 { 0 } else { i - 1 }
}

/// Index of the right neighbour of cell `i` in a field of `n` cells: the cell
/// itself at the right edge.
pub open spec fn next_index(i: int, n: int) -> int {
    if i == n - 1 { n - 1 } else { i + 1 }
}

impl VibeDiffusion {
    /// The two cells that the diffusion stencil reads around cell `i` of a
    /// field of `n` cells; indices outside `[0, n)` clamp to the nearest valid
    /// index.
    pub fn neighbors(&self, i: usize, n: usize) -> (r: (usize, usize))
        requires
            i < n,
        ensures
            r.0 == prev_index(i as int),
            r.1 == next_index(i as int, n as int),
            r.0 < n,
            r.1 < n,
    {
        let prev = if i == 0 { 0 } else { i - 1 };
        let next = if i == n - 1 { n - 1 } else { i + 1 };
        (prev, next)
    }
}


/// Second difference of `s` at cell `i` under the clamped boundary scheme:
/// the term that the diffusion step scales by its rate.
pub open spec fn laplacian(s: Seq<int>, i: int) -> int {
    s[prev_index(i)] - 2 * s[i] + s[next_index(i, s.len() as int)]
}

/// Sum of the first `m` second differences of `s`.
pub open spec fn laplacian_prefix_sum(s: Seq<int>, m: int) -> int
    decreases m,
{
    if m <= 0 {
        0
    } else {
        laplacian_prefix_sum(s, m - 1) + laplacian(s, m - 1)
    }
}

/// Sum of the cells of `s`.
pub open spec fn total(s: Seq<int>) -> int
    decreases s.len(),
{
    if s.len() == 0 {
        0
    } else {
        total(s.drop_last()) + s.last()
    }
}

/// One diffusion step in exact arithmetic with an integer rate:
/// `new[i] = s[i] + rate * (s[i-1] - 2*s[i] + s[i+1])`, neighbours clamped.
pub open spec fn exact_step(s: Seq<int>, rate: int) -> Seq<int> {
    Seq::new(s.len(), |i: int| s[i] + rate * laplacian(s, i))
}

proof fn lemma_prefix_telescopes(s: Seq<int>, m: int)
    requires
        1 <= m < s.len(),
    ensures
        laplacian_prefix_sum(s, m) == s[m] - s[m - 1],
    decreases m,
{
    assert(laplacian_prefix_sum(s, m) == laplacian_prefix_sum(s, m - 1) + laplacian(s, m - 1));
    if m > 1 {
        lemma_prefix_telescopes(s, m - 1);
    } else {
        assert(laplacian_prefix_sum(s, 0) == 0);
    }
}

/// The second differences of the clamped scheme cancel: over a field of at
/// least one cell they sum to zero, so nothing enters or leaves through the
/// boundaries.
pub proof fn lemma_laplacian_sums_to_zero(s: Seq<int>)
    requires
        s.len() >= 1,
    ensures
        laplacian_prefix_sum(s, s.len() as int) == 0,
{
    let n = s.len() as int;
    assert(laplacian_prefix_sum(s, n) == laplacian_prefix_sum(s, n - 1) + laplacian(s, n - 1));
    if n >= 2 {
        lemma_prefix_telescopes(s, n - 1);
    } else {
        assert(laplacian_prefix_sum(s, 0) == 0);
    }
}

proof fn lemma_total_of_step_prefix(s: Seq<int>, rate: int, m: int)
    requires
        0 <= m <= s.len(),
    ensures
        total(exact_step(s, rate).take(m)) == total(s.take(m)) + rate * laplacian_prefix_sum(s, m),
    decreases m,
{
    if m > 0 {
        lemma_total_of_step_prefix(s, rate, m - 1);
        let t = exact_step(s, rate);
        assert(t.take(m).drop_last() =~= t.take(m - 1));
        assert(s.take(m).drop_last() =~= s.take(m - 1));
        let a = laplacian_prefix_sum(s, m - 1);
        let b = laplacian(s, m - 1);
        assert(rate * (a + b) == rate * a + rate * b) by (nonlinear_arith);
    }
}

/// The diffusion step conserves the total of the field in exact arithmetic,
/// whatever the rate.
pub proof fn lemma_step_conserves_total(s: Seq<int>, rate: int)
    requires
        s.len() >= 1,
    ensures
        total(exact_step(s, rate)) == total(s),
{
    lemma_total_of_step_prefix(s, rate, s.len() as int);
    lemma_laplacian_sums_to_zero(s);
    assert(exact_step(s, rate).take(s.len() as int) =~= exact_step(s, rate));
    assert(s.take(s.len() as int) =~= s);
    assert(rate * 0 == 0);
}

/// A constant field has no second difference anywhere, so the diffusion step
/// leaves it unchanged.
pub proof fn lemma_flat_field_is_fixed(s: Seq<int>, rate: int)
    requires
        s.len() >= 1,
        forall|i: int, j: int| 0 <= i < s.len() && 0 <= j < s.len() ==> s[i] == s[j],
    ensures
        forall|i: int| 0 <= i < s.len() ==> #[trigger] laplacian(s, i) == 0,
        exact_step(s, rate) == s,
{
    assert forall|i: int| 0 <= i < s.len() implies #[trigger] laplacian(s, i) == 0 by {
        assert(s[prev_index(i)] == s[i]);
        assert(s[next_index(i, s.len() as int)] == s[i]);
    }
    assert(exact_step(s, rate) =~= s);
}

} // verus!
