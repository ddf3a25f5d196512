//! PCA shape and ordering logic: stage planning (which degenerate inputs
//! yield which empty result), the finiteness screen over the eigenvalues,
//! the descending stable ordering of eigenpairs, and the selection of the
//! leading eigenvectors. The arithmetic (standardization, covariance,
//! the eigendecomposition itself, projection) happens outside and hands
//! its results in as bit patterns.

use vstd::prelude::*;

use crate::clamp_spec;
use crate::error::CoreError;
use crate::fbits::is_finite;
use crate::fbits::is_finite_bits;
use crate::fbits::total_key;
use crate::fbits::total_key_spec;
use crate::matrix::copy_column;
use crate::variance::seq_contains_usize;

verus! {

/// How a PCA request is to be answered, decided from the shape of the
/// input alone.
#[derive(Debug, Clone, Copy, PartialEq, Eq, Structural)]
pub enum PcaPlan {
    /// Fewer than two samples or no features: scores and components are
    /// both empty 0 x 0 results.
    Degenerate,
    /// The variance filter kept no feature: scores are `n x 0`, components
    /// `0 x d`.
    NoVariance,
    /// Reduce to this many components.
    Reduce { k: usize },
}

/// The effective maximum rank after mean-centering:
/// `min(kept_features, n_samples - 1)` (saturating at zero samples).
pub open spec fn k_max_spec(kept: int, n_samples: int) -> int {
    let nm1 = if n_samples >= 1 {
        n_samples - 1
    } else {
        0
    };
    if kept <= nm1 {
        kept
    } else {
        nm1
    }
}

/// The full contract of `pca_plan`.
pub open spec fn pca_plan_post(
    n_samples: int,
    n_features: int,
    kept_len: int,
    k: int,
    r: PcaPlan,
) -> bool {
    &&& ((n_samples < 2 || n_features == 0) <==> r is Degenerate)
    &&& ((n_samples >= 2 && n_features > 0 && kept_len == 0) <==> r is NoVariance)
    &&& (r matches PcaPlan::Reduce { k: kk } ==> k_max_spec(kept_len, n_samples) >= 1 && kk
        == clamp_spec(k, 1, k_max_spec(kept_len, n_samples)))
    &&& ((n_samples >= 2 && n_features > 0 && kept_len > 0) <==> r is Reduce)
}

/// Decides the PCA outcome from the input shape: degenerate shapes
/// early-return an explicit empty result rather than erroring, and an
/// admissible shape clamps the requested component count into
/// `[1, k_max]`.
pub fn pca_plan(n_samples: usize, n_features: usize, kept_len: usize, k: usize) -> (r: PcaPlan)
    requires
        kept_len <= n_features,
    ensures
        pca_plan_post(n_samples as int, n_features as int, kept_len as int, k as int, r),
{
    if n_samples < 2 || n_features == 0 {
        return PcaPlan::Degenerate;
    }
    if kept_len == 0 {
        return PcaPlan::NoVariance;
    }
    let k_max: usize = if kept_len <= n_samples - 1 {
        kept_len
    } else {
        n_samples - 1
    };
    let kk: usize = if k < 1 {
        1
    } else if k > k_max {
        k_max
    } else {
        k
    };
    PcaPlan::Reduce { k: kk }
}

/// A zero effective rank always yields one of the explicit empty
/// outcomes, never a reduction: an input with `k_max == 0` (a single
/// sample, or nothing kept) cannot fail, it returns empty.
pub proof fn lemma_zero_rank_returns_empty(
    n_samples: int,
    n_features: int,
    kept_len: int,
    k: int,
    r: PcaPlan,
)
    requires
        pca_plan_post(n_samples, n_features, kept_len, k, r),
        k_max_spec(kept_len, n_samples) == 0,
    ensures
        r is Degenerate || r is NoVariance,
{
    if r is Reduce {
        assert(k_max_spec(kept_len, n_samples) >= 1);
        assert(false);
    }
}

/// The eigenpair at original position `a` sorts before the one at `b`:
/// strictly larger eigenvalue first (by the total-order key, which agrees
/// with the value order on the finite eigenvalues that reach the sort),
/// original position as the stable tie-break.
pub open spec fn desc_prec(vals: Seq<u64>, a: int, b: int) -> bool {
    ||| total_key_spec(vals[a]) > total_key_spec(vals[b])
    ||| (total_key_spec(vals[a]) == total_key_spec(vals[b]) && a < b)
}

/// `p` is a permutation of the eigenvalue positions listing them in
/// descending eigenvalue order, stable by original position.
pub open spec fn order_eigen_post(vals: Seq<u64>, p: Seq<usize>) -> bool {
    &&& p.len() == vals.len()
    &&& forall|i: int| 0 <= i < p.len() ==> (#[trigger] p[i]) < vals.len()
    &&& forall|v: int| 0 <= v < vals.len() ==> seq_contains_usize(p, v)
    &&& forall|i: int, j: int| 0 <= i < j < p.len() ==> (#[trigger] p[i]) != (#[trigger] p[j])
    &&& forall|i: int, j: int|
        0 <= i < j < p.len() ==> desc_prec(vals, (#[trigger] p[i]) as int, (#[trigger] p[j]) as int)
}

/// A swap of two positions neither adds nor removes values.
proof fn lemma_swap_contains(s1: Seq<usize>, s2: Seq<usize>, i: int, m: int)
    requires
        0 <= i < s1.len(),
        0 <= m < s1.len(),
        s2 == s1.update(i, s1[m]).update(m, s1[i]),
    ensures
        forall|v: int| seq_contains_usize(s1, v) <==> seq_contains_usize(s2, v),
{
    assert forall|v: int| seq_contains_usize(s1, v) implies seq_contains_usize(s2, v) by {
        let l = choose|l: int| 0 <= l < s1.len() && s1[l] == v;
        if l == i {
            assert(s2[m] == v);
        } else if l == m {
            assert(s2[i] == v);
        } else {
            assert(s2[l] == v);
        }
    }
    assert forall|v: int| seq_contains_usize(s2, v) implies seq_contains_usize(s1, v) by {
        let l = choose|l: int| 0 <= l < s2.len() && s2[l] == v;
        if l == i {
            assert(s1[m] == v);
        } else if l == m {
            assert(s1[i] == v);
        } else {
            assert(s1[l] == v);
        }
    }
}

/// Sorts the eigenvalue positions by descending eigenvalue (stable by
/// position), or reports `NumericInstability` as soon as any eigenvalue
/// is non-finite — exactly when one is.
#[verifier::rlimit(60)]
pub fn order_eigen(vals: &Vec<u64>) -> (r: Result<Vec<usize>, CoreError>)
    ensures
        r is Err <==> exists|j: int|
            0 <= j < vals@.len() && !is_finite_bits(#[trigger] vals@[j]),
        r matches Err(e) ==> e is NumericInstability,
        r matches Ok(p) ==> order_eigen_post(vals@, p@),
{
    let n = vals.len();
    for j in 0..n
        invariant
            n == vals@.len(),
            forall|l: int| 0 <= l < j ==> is_finite_bits(#[trigger] vals@[l]),
    {
        if !is_finite(vals[j]) {
            return Err(CoreError::NumericInstability);
        }
    }
    let mut p: Vec<usize> = Vec::new();
    for j in 0..n
        invariant
            p@.len() == j,
            forall|l: int| 0 <= l < j ==> (#[trigger] p@[l]) == l,
    {
        p.push(j);
    }
    proof {
        assert forall|v: int| 0 <= v < n implies seq_contains_usize(p@, v) by {
            assert(p@[v] == v);
        }
    }
    let mut i: usize = 0;
    while i < n
        invariant
            n == vals@.len(),
            p@.len() == n,
            0 <= i <= n,
            forall|l: int| 0 <= l < n ==> (#[trigger] p@[l]) < n,
            forall|v: int| 0 <= v < n ==> seq_contains_usize(p@, v),
            forall|a: int, b: int| 0 <= a < b < n ==> (#[trigger] p@[a]) != (#[trigger] p@[b]),
            forall|a: int, b: int|
                0 <= a < b < i ==> desc_prec(vals@, (#[trigger] p@[a]) as int, (
                #[trigger] p@[b]) as int),
            forall|a: int, b: int|
                0 <= a < i && i <= b < n ==> desc_prec(vals@, (#[trigger] p@[a]) as int, (
                #[trigger] p@[b]) as int),
        decreases n - i,
    {
        let mut m: usize = i;
        let mut j: usize = i + 1;
        while j < n
            invariant
                n == vals@.len(),
                p@.len() == n,
                0 <= i < n,
                i <= m < n,
                m < j,
                i + 1 <= j <= n,
                forall|l: int| 0 <= l < n ==> (#[trigger] p@[l]) < n,
                forall|a: int, b: int|
                    0 <= a < b < n ==> (#[trigger] p@[a]) != (#[trigger] p@[b]),
                forall|b: int|
                    i <= b < j && b != m ==> desc_prec(vals@, p@[m as int] as int, (
                    #[trigger] p@[b]) as int),
            decreases n - j,
        {
            let kj = total_key(vals[p[j]]);
            let km = total_key(vals[p[m]]);
            if kj > km || (kj == km && p[j] < p[m]) {
                proof {
                    assert forall|b: int|
                        i <= b < j + 1 && b != j implies desc_prec(vals@, p@[j as int] as int, (
                    #[trigger] p@[b]) as int) by {
                        assert(desc_prec(vals@, p@[j as int] as int, p@[m as int] as int));
                        if b != m {
                            assert(desc_prec(vals@, p@[m as int] as int, p@[b] as int));
                        }
                    }
                }
                m = j;
            } else {
                proof {
                    if m as int != j as int {
                        assert(p@[m as int] != p@[j as int]);
                    }
                    assert(desc_prec(vals@, p@[m as int] as int, p@[j as int] as int));
                }
            }
            j = j + 1;
        }
        if m != i {
            let ghost p_before = p@;
            let a = p[i];
            let b = p[m];
            p.set(i, b);
            p.set(m, a);
            proof {
                lemma_swap_contains(p_before, p@, i as int, m as int);
                assert forall|x: int, y: int| 0 <= x < y < n implies (#[trigger] p@[x]) != (
                #[trigger] p@[y]) by {
                    if x == i as int {
                        if y == m as int {
                        } else {
                            assert(p@[y] == p_before[y]);
                        }
                    } else if x == m as int {
                        assert(p@[y] == p_before[y]);
                    } else if y == i as int {
                        assert(p@[x] == p_before[x]);
                    } else if y == m as int {
                        assert(p@[x] == p_before[x]);
                    }
                }
            }
        }
        proof {
            assert forall|a: int, b: int|
                0 <= a < i + 1 && i + 1 <= b < n implies desc_prec(vals@, (
            #[trigger] p@[a]) as int, (#[trigger] p@[b]) as int) by {
                if a < i {
                } else {
                    assert(a == i as int);
                    if b == m as int {
                    }
                }
            }
        }
        i = i + 1;
    }
    Ok(p)
}

/// The leading `k` eigenvectors in sorted order: row `i` of the result is
/// the eigenvector stored at position `p[i]`.
pub fn take_components(eigvecs: &Vec<Vec<u64>>, p: &Vec<usize>, k: usize) -> (r: Vec<Vec<u64>>)
    requires
        k <= p@.len(),
        forall|i: int| 0 <= i < p@.len() ==> (#[trigger] p@[i]) < eigvecs@.len(),
    ensures
        r@.len() == k,
        forall|i: int| 0 <= i < k ==> (#[trigger] r@[i])@ == eigvecs@[p@[i] as int]@,
{
    let mut out: Vec<Vec<u64>> = Vec::new();
    for i in 0..k
        invariant
            k <= p@.len(),
            forall|l: int| 0 <= l < p@.len() ==> (#[trigger] p@[l]) < eigvecs@.len(),
            out@.len() == i,
            forall|l: int| 0 <= l < i ==> (#[trigger] out@[l])@ == eigvecs@[p@[l] as int]@,
    {
        out.push(copy_column(&eigvecs[p[i]]));
    }
    out
}

} // verus!
