//! K-means decision logic: the shape plan for degenerate inputs, the
//! cluster-count rule, nearest-centroid assignment over distance bit
//! patterns, the seeding pick, and the convergence test. Distances,
//! centroid means and the random draw of the seeding happen outside; each
//! decision here is verified for every value they can hand back.
//!
//! Distances and centroid shifts are sums of squares, so their bit
//! patterns carry a zero sign bit and order like the values themselves
//! under the total-order key (see `fbits`).

use vstd::prelude::*;

use crate::clamp_spec;
use crate::fbits::total_key;
use crate::fbits::total_key_spec;

verus! {

/// How a clustering request is to be answered, decided from the shape of
/// the input alone.
#[derive(Debug, Clone, Copy, PartialEq, Eq, Structural)]
pub enum KmeansPlan {
    /// No rows: the result is an empty single-column label matrix.
    NoRows,
    /// Rows but no features: one all-zero label per row.
    NoFeatures,
    /// Standardize, seed, iterate.
    Run,
}

pub fn kmeans_plan(n_samples: usize, n_features: usize) -> (r: KmeansPlan)
    ensures
        (n_samples == 0) <==> r is NoRows,
        (n_samples > 0 && n_features == 0) <==> r is NoFeatures,
        (n_samples > 0 && n_features > 0) <==> r is Run,
{
    if n_samples == 0 {
        KmeansPlan::NoRows
    } else if n_features == 0 {
        KmeansPlan::NoFeatures
    } else {
        KmeansPlan::Run
    }
}

/// `s` is the integer square root of `n`: `s^2 <= n < (s+1)^2`.
pub open spec fn floor_sqrt_of(n: int, s: int) -> bool {
    0 <= s && s * s <= n && n < (s + 1) * (s + 1)
}

/// `q` is `sqrt(n)` rounded to the nearest integer. With `s` the integer
/// square root, `sqrt(n) < s + 1/2` exactly when `n <= s^2 + s` (never a
/// tie, since `(s + 1/2)^2` is not an integer).
pub open spec fn rounds_sqrt(n: int, q: int) -> bool {
    exists|s: int|
        floor_sqrt_of(n, s) && q == if n <= s * s + s {
            s
        } else {
            s + 1
        }
}

/// The cluster-count heuristic used when no count is supplied: one
/// cluster for a single row, otherwise `round(sqrt(n))` clamped into
/// `[2, min(n, 8)]`.
pub open spec fn heuristic_k(n: int, r: int) -> bool {
    if n <= 1 {
        r == 1
    } else {
        exists|q: int|
            rounds_sqrt(n, q) && r == clamp_spec(
                q,
                2,
                if n < 8 {
                    n
                } else {
                    8
                },
            )
    }
}

/// Every non-negative integer has an integer square root.
proof fn lemma_floor_sqrt_exists(n: int) -> (s: int)
    requires
        n >= 0,
    ensures
        floor_sqrt_of(n, s),
    decreases n,
{
    if n == 0 {
        0
    } else {
        let s0 = lemma_floor_sqrt_exists(n - 1);
        if (s0 + 1) * (s0 + 1) <= n {
            assert(n == (s0 + 1) * (s0 + 1));
            assert((s0 + 1 + 1) * (s0 + 1 + 1) > n) by (nonlinear_arith)
                requires
                    n == (s0 + 1) * (s0 + 1),
                    s0 >= 0,
            ;
            s0 + 1
        } else {
            s0
        }
    }
}

/// The cluster count: a caller-supplied count is clamped into `[1, n]`,
/// an absent one is filled by the square-root heuristic.
pub fn choose_k(n_samples: usize, requested: Option<usize>) -> (r: usize)
    requires
        n_samples >= 1,
    ensures
        requested matches Some(k0) ==> r == clamp_spec(k0 as int, 1, n_samples as int),
        requested is None ==> heuristic_k(n_samples as int, r as int),
{
    match requested {
        Some(k0) => {
            if k0 < 1 {
                1
            } else if k0 > n_samples {
                n_samples
            } else {
                k0
            }
        },
        None => {
            if n_samples <= 1 {
                1
            } else if n_samples >= 57 {
                proof {
                    let s = lemma_floor_sqrt_exists(n_samples as int);
                    assert(s >= 7) by (nonlinear_arith)
                        requires
                            0 <= s,
                            (n_samples as int) < (s + 1) * (s + 1),
                            n_samples >= 57,
                    ;
                    let q: int = if n_samples as int <= s * s + s {
                        s
                    } else {
                        s + 1
                    };
                    if s == 7 {
                        assert(s * s + s == 56) by (nonlinear_arith)
                            requires
                                s == 7,
                        ;
                        assert(q == 8);
                    } else {
                        assert(s >= 8);
                        assert(s * s + s >= 8) by (nonlinear_arith)
                            requires
                                s >= 8,
                        ;
                    }
                    assert(q >= 8);
                    assert(rounds_sqrt(n_samples as int, q));
                    assert(clamp_spec(q, 2, 8) == 8);
                }
                8
            } else {
                let mut s: usize = 0;
                let mut next_sq: usize = 1;
                while next_sq <= n_samples
                    invariant
                        2 <= n_samples <= 56,
                        s <= 7,
                        s * s <= n_samples,
                        next_sq == (s + 1) * (s + 1),
                    decreases 56 - s,
                {
                    proof {
                        assert(s + 1 <= 7) by (nonlinear_arith)
                            requires
                                0 <= s,
                                (s + 1) * (s + 1) <= 56,
                        ;
                        assert((s + 2) * (s + 2) == (s + 1) * (s + 1) + 2 * (s + 1) + 1)
                            by (nonlinear_arith);
                        assert((s + 2) * (s + 2) <= 81) by (nonlinear_arith)
                            requires
                                0 <= s + 2 <= 9,
                        ;
                    }
                    s = s + 1;
                    next_sq = next_sq + 2 * s + 1;
                }
                proof {
                    assert(floor_sqrt_of(n_samples as int, s as int));
                    assert(s * s + s <= 56) by (nonlinear_arith)
                        requires
                            0 <= s <= 7,
                    ;
                }
                let q: usize = if n_samples <= s * s + s {
                    s
                } else {
                    s + 1
                };
                proof {
                    assert(rounds_sqrt(n_samples as int, q as int));
                }
                let hi: usize = if n_samples < 8 {
                    n_samples
                } else {
                    8
                };
                let r: usize = if q < 2 {
                    2
                } else if q > hi {
                    hi
                } else {
                    q
                };
                r
            }
        },
    }
}

/// `r` is the index of the nearest centroid: no distance is smaller under
/// the total-order key, and every earlier index is strictly farther (the
/// first minimum wins, making assignment deterministic).
pub open spec fn nearest_post(dists: Seq<u64>, r: int) -> bool {
    &&& 0 <= r < dists.len()
    &&& forall|j: int|
        0 <= j < dists.len() ==> total_key_spec(dists[r]) <= total_key_spec(
            #[trigger] dists[j],
        )
    &&& forall|j: int|
        0 <= j < r ==> total_key_spec(#[trigger] dists[j]) > total_key_spec(dists[r])
}

/// Index of the smallest distance in one row of centroid distances.
pub fn nearest_centroid(dists: &Vec<u64>) -> (r: usize)
    requires
        dists@.len() >= 1,
    ensures
        nearest_post(dists@, r as int),
{
    let n = dists.len();
    let mut best: usize = 0;
    let mut best_key: u64 = total_key(dists[0]);
    for j in 1..n
        invariant
            n == dists@.len(),
            best < j,
            best_key == total_key_spec(dists@[best as int]),
            forall|l: int|
                0 <= l < j ==> best_key <= total_key_spec(#[trigger] dists@[l]),
            forall|l: int|
                0 <= l < best ==> total_key_spec(#[trigger] dists@[l]) > best_key,
    {
        let kj = total_key(dists[j]);
        if kj < best_key {
            best = j;
            best_key = kj;
        }
    }
    best
}

/// One label per row, each the index of the row's nearest centroid: every
/// emitted label lies in `[0, k)` whatever distances the arithmetic
/// outside produced.
pub fn assign_labels(dist_rows: &Vec<Vec<u64>>, k: usize) -> (r: Vec<usize>)
    requires
        k >= 1,
        forall|i: int| 0 <= i < dist_rows@.len() ==> (#[trigger] dist_rows@[i])@.len() == k,
    ensures
        r@.len() == dist_rows@.len(),
        forall|i: int| 0 <= i < r@.len() ==> (#[trigger] r@[i]) < k,
        forall|i: int|
            0 <= i < r@.len() ==> nearest_post(dist_rows@[i]@, (#[trigger] r@[i]) as int),
{
    let n = dist_rows.len();
    let mut out: Vec<usize> = Vec::new();
    for i in 0..n
        invariant
            n == dist_rows@.len(),
            k >= 1,
            forall|l: int| 0 <= l < n ==> (#[trigger] dist_rows@[l])@.len() == k,
            out@.len() == i,
            forall|l: int| 0 <= l < i ==> (#[trigger] out@[l]) < k,
            forall|l: int|
                0 <= l < i ==> nearest_post(dist_rows@[l]@, (#[trigger] out@[l]) as int),
    {
        out.push(nearest_centroid(&dist_rows[i]));
    }
    out
}

/// `r` is the seeding pick for `target`: the first position whose
/// cumulative weight exceeds the target under the total-order key, or the
/// last position when none does. Whatever value the random draw outside
/// produced, the pick is a valid row index.
pub open spec fn pick_post(cum: Seq<u64>, target: u64, r: int) -> bool {
    &&& 0 <= r < cum.len()
    &&& forall|j: int|
        0 <= j < r ==> total_key_spec(#[trigger] cum[j]) <= total_key_spec(target)
    &&& (total_key_spec(cum[r]) > total_key_spec(target) || r == cum.len() - 1)
}

/// The probability-proportional seeding pick over cumulative squared
/// distances.
pub fn weighted_pick(cum: &Vec<u64>, target: u64) -> (r: usize)
    requires
        cum@.len() >= 1,
    ensures
        pick_post(cum@, target, r as int),
{
    let n = cum.len();
    let tk = total_key(target);
    for j in 0..n
        invariant
            n == cum@.len(),
            tk == total_key_spec(target),
            forall|l: int| 0 <= l < j ==> total_key_spec(#[trigger] cum@[l]) <= tk,
    {
        if total_key(cum[j]) > tk {
            return j;
        }
    }
    n - 1
}

/// The Lloyd-iteration stopping test: the centroid shift has fallen
/// strictly below the tolerance (both as non-negative distance values,
/// compared through the total-order key).
pub fn below_tolerance(shift: u64, tolerance: u64) -> (r: bool)
    ensures
        r == (total_key_spec(shift) < total_key_spec(tolerance)),
{
    total_key(shift) < total_key(tolerance)
}

} // verus!
