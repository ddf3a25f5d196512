//! The variance filter: per-column sample variances (computed outside and
//! handed in as bit patterns) decide which features survive, the survivors
//! are selected out, and component loadings computed on the survivors are
//! later re-expanded to the original feature width with exact zero loadings
//! at every dropped index.

use vstd::prelude::*;

use crate::fbits::EPS_BITS;
use crate::fbits::F64_EXP_MASK;
use crate::fbits::F64_SIGN_MASK;
use crate::fbits::is_finite;
use crate::fbits::keeps;

verus! {

/// Whether `s` lists the value `j`.
pub open spec fn seq_contains_usize(s: Seq<usize>, j: int) -> bool {
    exists|l: int| 0 <= l < s.len() && s[l] == j
}

/// The kept-index list is sound (each listed column exists and is kept),
/// strictly ascending, and complete (every kept column is listed). The
/// list is the old-to-new index mapping: position in the list is the new
/// index.
pub open spec fn kept_indices_post(vars: Seq<u64>, kept: Seq<usize>) -> bool {
    &&& forall|k: int|
        0 <= k < kept.len() ==> (#[trigger] kept[k]) < vars.len() && keeps(
            vars[kept[k] as int],
        )
    &&& forall|k: int, l: int| 0 <= k < l < kept.len() ==> kept[k] < kept[l]
    &&& forall|j: int|
        0 <= j < vars.len() && keeps(#[trigger] vars[j]) ==> seq_contains_usize(kept, j)
}

/// A column survives when its variance is finite, non-negative and at
/// least `1e-12`.
pub fn keep_variance(v: u64) -> (r: bool)
    ensures
        r == keeps(v),
{
    is_finite(v) && v & F64_SIGN_MASK == 0 && v >= EPS_BITS
}

/// Ascending indices of the columns whose variance survives the filter.
pub fn kept_indices(vars: &Vec<u64>) -> (r: Vec<usize>)
    ensures
        kept_indices_post(vars@, r@),
{
    let n = vars.len();
    let mut out: Vec<usize> = Vec::new();
    for j in 0..n
        invariant
            n == vars@.len(),
            forall|k: int|
                0 <= k < out@.len() ==> (#[trigger] out@[k]) < j && keeps(
                    vars@[out@[k] as int],
                ),
            forall|k: int, l: int| 0 <= k < l < out@.len() ==> out@[k] < out@[l],
            forall|i: int|
                0 <= i < j && keeps(#[trigger] vars@[i]) ==> seq_contains_usize(out@, i),
    {
        if keep_variance(vars[j]) {
            let ghost old_out = out@;
            out.push(j);
            proof {
                assert forall|i: int|
                    0 <= i < j + 1 && keeps(#[trigger] vars@[i]) implies seq_contains_usize(
                    out@,
                    i,
                ) by {
                    if i < j {
                        let l = choose|l: int| 0 <= l < old_out.len() && old_out[l] == i;
                        assert(out@[l] == i);
                    } else {
                        assert(out@[out@.len() - 1] == i);
                    }
                }
            }
        }
    }
    out
}

/// The surviving columns in kept order: the reduced feature set handed to
/// the analytic stages.
pub fn select_columns(cols: &Vec<Vec<u64>>, kept: &Vec<usize>) -> (r: Vec<Vec<u64>>)
    requires
        forall|k: int| 0 <= k < kept@.len() ==> (#[trigger] kept@[k]) < cols@.len(),
    ensures
        r@.len() == kept@.len(),
        forall|k: int| 0 <= k < kept@.len() ==> (#[trigger] r@[k])@ == cols@[kept@[k] as int]@,
{
    let n = kept.len();
    let mut out: Vec<Vec<u64>> = Vec::new();
    for k in 0..n
        invariant
            n == kept@.len(),
            forall|l: int| 0 <= l < n ==> (#[trigger] kept@[l]) < cols@.len(),
            out@.len() == k,
            forall|l: int| 0 <= l < k ==> (#[trigger] out@[l])@ == cols@[kept@[l] as int]@,
    {
        out.push(crate::matrix::copy_column(&cols[kept[k]]));
    }
    out
}

/// The expansion is exact: every component row has the original feature
/// width, the loading of the `k`-th kept feature lands at its old index,
/// and every feature the filter dropped carries exactly the zero pattern
/// (the bits of `0.0`) in every row.
pub open spec fn expand_post(
    reduced: Seq<Seq<u64>>,
    kept: Seq<usize>,
    d: int,
    ex: Seq<Seq<u64>>,
) -> bool {
    &&& ex.len() == reduced.len()
    &&& forall|i: int| 0 <= i < ex.len() ==> (#[trigger] ex[i]).len() == d
    &&& forall|i: int, k: int|
        0 <= i < ex.len() && 0 <= k < kept.len() ==> #[trigger] ex[i][kept[k] as int]
            == reduced[i][k]
    &&& forall|i: int, c: int|
        0 <= i < ex.len() && 0 <= c < d && !seq_contains_usize(kept, c)
            ==> #[trigger] ex[i][c] == 0u64
}

/// Re-expands component rows computed on the kept features back to the
/// original `d`-feature width, zero-filling the loadings of every dropped
/// feature.
pub fn expand_components(reduced: &Vec<Vec<u64>>, kept: &Vec<usize>, d: usize) -> (r: Vec<
    Vec<u64>,
>)
    requires
        forall|i: int| 0 <= i < reduced@.len() ==> (#[trigger] reduced@[i])@.len() == kept@.len(),
        forall|k: int| 0 <= k < kept@.len() ==> (#[trigger] kept@[k]) < d,
        forall|k: int, l: int| 0 <= k < l < kept@.len() ==> kept@[k] < kept@[l],
    ensures
        expand_post(
            reduced@.map_values(|c: Vec<u64>| c@),
            kept@,
            d as int,
            r@.map_values(|c: Vec<u64>| c@),
        ),
{
    let nrows = reduced.len();
    let nk = kept.len();
    let mut out: Vec<Vec<u64>> = Vec::new();
    for i in 0..nrows
        invariant
            nrows == reduced@.len(),
            nk == kept@.len(),
            forall|l: int|
                0 <= l < reduced@.len() ==> (#[trigger] reduced@[l])@.len() == kept@.len(),
            forall|k: int| 0 <= k < kept@.len() ==> (#[trigger] kept@[k]) < d,
            forall|k: int, l: int| 0 <= k < l < kept@.len() ==> kept@[k] < kept@[l],
            out@.len() == i,
            forall|l: int| 0 <= l < i ==> (#[trigger] out@[l])@.len() == d,
            forall|l: int, k: int|
                0 <= l < i && 0 <= k < nk ==> #[trigger] out@[l]@[kept@[k] as int]
                    == reduced@[l]@[k],
            forall|l: int, c: int|
                0 <= l < i && 0 <= c < d && !seq_contains_usize(kept@, c)
                    ==> #[trigger] out@[l]@[c] == 0u64,
    {
        let mut row: Vec<u64> = vec![0u64; d];
        for k in 0..nk
            invariant
                nrows == reduced@.len(),
                nk == kept@.len(),
                i < nrows,
                forall|l: int|
                    0 <= l < reduced@.len() ==> (#[trigger] reduced@[l])@.len() == kept@.len(),
                forall|k0: int| 0 <= k0 < kept@.len() ==> (#[trigger] kept@[k0]) < d,
                forall|k0: int, l: int| 0 <= k0 < l < kept@.len() ==> kept@[k0] < kept@[l],
                row@.len() == d,
                forall|k0: int|
                    0 <= k0 < k ==> #[trigger] row@[kept@[k0] as int] == reduced@[i as int]@[k0],
                forall|c: int|
                    0 <= c < d && !(exists|k0: int|
                        0 <= k0 < k && kept@[k0] == c) ==> #[trigger] row@[c] == 0u64,
        {
            let ghost old_row = row@;
            row.set(kept[k], reduced[i][k]);
            proof {
                assert forall|k0: int|
                    0 <= k0 < k + 1 implies #[trigger] row@[kept@[k0] as int]
                    == reduced@[i as int]@[k0] by {
                    if k0 < k {
                        assert(kept@[k0] < kept@[k as int]);
                    }
                }
            }
        }
        out.push(row);
        proof {
            assert forall|c: int|
                0 <= c < d && !seq_contains_usize(kept@, c) implies #[trigger] out@[i as int]@[c]
                == 0u64 by {
                assert(!(exists|k0: int| 0 <= k0 < nk && kept@[k0] == c));
            }
        }
    }
    out
}

/// The loading of a dropped feature is exactly zero in every expanded
/// component row: if the variance filter dropped column `c` and the
/// reduced components were re-expanded through the filter's kept-index
/// mapping, then every component row carries the bit pattern of `0.0` at
/// index `c`.
pub proof fn lemma_dropped_feature_zero_loading(
    vars: Seq<u64>,
    kept: Seq<usize>,
    reduced: Seq<Seq<u64>>,
    ex: Seq<Seq<u64>>,
    d: int,
    i: int,
    c: int,
)
    requires
        kept_indices_post(vars, kept),
        expand_post(reduced, kept, d, ex),
        0 <= i < ex.len(),
        0 <= c < d,
        c < vars.len(),
        !keeps(vars[c]),
    ensures
        ex[i][c] == 0u64,
{
    if seq_contains_usize(kept, c) {
        let l = choose|l: int| 0 <= l < kept.len() && kept[l] == c;
        assert(keeps(vars[kept[l] as int]));
        assert(false);
    }
}

} // verus!
