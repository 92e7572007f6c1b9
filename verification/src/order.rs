//! Extremum selection over order keys.
//!
//! A key stands for one value of a field: `Some(k)` for a value that is
//! ordered, where a larger `k` means a larger value, and `None` for a value
//! that compares neither above nor below anything (a NaN). A scan keeps the
//! first candidate and replaces it only by a value strictly beyond it.
use vstd::prelude::*;

verus! {

/// `a` stands strictly above `b`; false when either is unordered.
pub open spec fn key_above(a: Option<u64>, b: Option<u64>) -> bool {
    match (a, b) {
        (Some(x), Some(y)) => x > y,
        _ => false,
    }
}

/// `a` stands strictly below `b`; false when either is unordered.
pub open spec fn key_below(a: Option<u64>, b: Option<u64>) -> bool {
    match (a, b) {
        (Some(x), Some(y)) => x < y,
        _ => false,
    }
}

/// Position chosen by a left-to-right scan of `s[start..end)` that starts at
/// `start` and moves to a later position only when its key is strictly above
/// the current one.
pub open spec fn scan_max(s: Seq<Option<u64>>, start: int, end: int) -> int
    decreases end - start,
{
    if end <= start + 1 {
        start
    } else {
        let b = scan_max(s, start, end - 1);
        if key_above(s[end - 1], s[b]) {
            end - 1
        } else {
            b
        }
    }
}

/// Position chosen by the same scan when it moves only to a key strictly
/// below the current one.
pub open spec fn scan_min(s: Seq<Option<u64>>, start: int, end: int) -> int
    decreases end - start,
{
    if end <= start + 1 {
        start
    } else {
        let b = scan_min(s, start, end - 1);
        if key_below(s[end - 1], s[b]) {
            end - 1
        } else {
            b
        }
    }
}

/// Every key in `s[start..end)` is ordered.
pub open spec fn all_ordered(s: Seq<Option<u64>>, start: int, end: int) -> bool {
    forall|j: int| start <= j < end ==> (#[trigger] s[j]) is Some
}

/// `r` is the first position of a largest key in `s[start..end)`.
pub open spec fn is_first_max(s: Seq<Option<u64>>, start: int, end: int, r: int) -> bool {
    &&& start <= r < end
    &&& forall|j: int| start <= j < end ==> (#[trigger] s[j])->0 <= s[r]->0
    &&& forall|j: int| start <= j < r ==> (#[trigger] s[j])->0 < s[r]->0
}

/// `r` is the first position of a smallest key in `s[start..end)`.
pub open spec fn is_first_min(s: Seq<Option<u64>>, start: int, end: int, r: int) -> bool {
    &&& start <= r < end
    &&& forall|j: int| start <= j < end ==> (#[trigger] s[j])->0 >= s[r]->0
    &&& forall|j: int| start <= j < r ==> (#[trigger] s[j])->0 > s[r]->0
}

/// The scan for a maximum always lands inside the scanned range.
pub proof fn lemma_scan_max_in_range(s: Seq<Option<u64>>, start: int, end: int)
    requires
        start < end,
    ensures
        start <= scan_max(s, start, end) < end,
    decreases end - start,
{
    if end > start + 1 {
        lemma_scan_max_in_range(s, start, end - 1);
    }
}

/// The scan for a minimum always lands inside the scanned range.
pub proof fn lemma_scan_min_in_range(s: Seq<Option<u64>>, start: int, end: int)
    requires
        start < end,
    ensures
        start <= scan_min(s, start, end) < end,
    decreases end - start,
{
    if end > start + 1 {
        lemma_scan_min_in_range(s, start, end - 1);
    }
}

/// Over ordered keys the scan for a maximum finds the first largest key.
pub proof fn lemma_scan_max_is_first_max(s: Seq<Option<u64>>, start: int, end: int)
    requires
        0 <= start < end <= s.len(),
        all_ordered(s, start, end),
    ensures
        is_first_max(s, start, end, scan_max(s, start, end)),
    decreases end - start,
{
    if end > start + 1 {
        lemma_scan_max_is_first_max(s, start, end - 1);
        let b = scan_max(s, start, end - 1);
        assert(s[end - 1] is Some);
        assert(s[b] is Some);
    }
}

/// Over ordered keys the scan for a minimum finds the first smallest key.
pub proof fn lemma_scan_min_is_first_min(s: Seq<Option<u64>>, start: int, end: int)
    requires
        0 <= start < end <= s.len(),
        all_ordered(s, start, end),
    ensures
        is_first_min(s, start, end, scan_min(s, start, end)),
    decreases end - start,
{
    if end > start + 1 {
        lemma_scan_min_is_first_min(s, start, end - 1);
        let b = scan_min(s, start, end - 1);
        assert(s[end - 1] is Some);
        assert(s[b] is Some);
    }
}

fn above(a: Option<u64>, b: Option<u64>) -> (r: bool)
    ensures
        r == key_above(a, b),
{
    match (a, b) {
        (Some(x), Some(y)) => x > y,
        _ => false,
    }
}

fn below(a: Option<u64>, b: Option<u64>) -> (r: bool)
    ensures
        r == key_below(a, b),
{
    match (a, b) {
        (Some(x), Some(y)) => x < y,
        _ => false,
    }
}

/// Scan of `keys[start..]` for a maximum.
pub(crate) fn scan_max_from(keys: &[Option<u64>], start: usize) -> (r: usize)
    requires
        start < keys@.len(),
    ensures
        r == scan_max(keys@, start as int, keys@.len() as int),
        start <= r < keys@.len(),
{
    let n = keys.len();
    let mut best = start;
    let mut k = start + 1;
    while k < n
        invariant
            n == keys@.len(),
            start < k <= n,
            best == scan_max(keys@, start as int, k as int),
            start <= best < k,
        decreases n - k,
    {
        if above(keys[k], keys[best]) {
            best = k;
        }
        k = k + 1;
    }
    best
}

/// Scan of `keys[start..]` for a minimum.
pub(crate) fn scan_min_from(keys: &[Option<u64>], start: usize) -> (r: usize)
    requires
        start < keys@.len(),
    ensures
        r == scan_min(keys@, start as int, keys@.len() as int),
        start <= r < keys@.len(),
{
    let n = keys.len();
    let mut best = start;
    let mut k = start + 1;
    while k < n
        invariant
            n == keys@.len(),
            start < k <= n,
            best == scan_min(keys@, start as int, k as int),
            start <= best < k,
        decreases n - k,
    {
        if below(keys[k], keys[best]) {
            best = k;
        }
        k = k + 1;
    }
    best
}

/// Position of the value that a field's maximum reports: the scan starts at
/// the first value and moves to a later one only when it is strictly larger.
pub fn max_position(keys: &[Option<u64>]) -> (r: usize)
    requires
        keys@.len() >= 1,
    ensures
        r == scan_max(keys@, 0, keys@.len() as int),
        r < keys@.len(),
        all_ordered(keys@, 0, keys@.len() as int) ==> is_first_max(
            keys@,
            0,
            keys@.len() as int,
            r as int,
        ),
{
    let r = scan_max_from(keys, 0);
    proof {
        if all_ordered(keys@, 0, keys@.len() as int) {
            lemma_scan_max_is_first_max(keys@, 0, keys@.len() as int);
        }
    }
    r
}

/// Position of the value that a field's minimum reports: the scan starts at
/// the first value and moves to a later one only when it is strictly smaller.
pub fn min_position(keys: &[Option<u64>]) -> (r: usize)
    requires
        keys@.len() >= 1,
    ensures
        r == scan_min(keys@, 0, keys@.len() as int),
        r < keys@.len(),
        all_ordered(keys@, 0, keys@.len() as int) ==> is_first_min(
            keys@,
            0,
            keys@.len() as int,
            r as int,
        ),
{
    let r = scan_min_from(keys, 0);
    proof {
        if all_ordered(keys@, 0, keys@.len() as int) {
            lemma_scan_min_is_first_min(keys@, 0, keys@.len() as int);
        }
    }
    r
}

} // verus!
