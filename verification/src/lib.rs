//! Named-column numeric matrix analytics: windowed candle extraction,
//! variance-based feature pruning, PCA shape/ordering logic and K-means
//! decision logic.
//!
//! Numeric cells are carried as IEEE-754 double-precision bit patterns
//! (`u64`). The logic verified here — indexing, windowing, chunking, ordering,
//! finiteness screening and shape bookkeeping — is exactly the part of the
//! pipeline that does not depend on floating-point arithmetic; the arithmetic
//! kernels (standardization, covariance, eigendecomposition, distance sums)
//! run outside the verified core and hand their results back as bit patterns.

use vstd::prelude::*;

pub mod candles;
pub mod charts;
pub mod error;
pub mod fbits;
pub mod kmeans;
pub mod matrix;
pub mod pca;
pub mod timeops;
pub mod variance;
pub mod window;

verus! {

/// `x` clamped into `[lo, hi]`.
pub open spec fn clamp_spec(x: int, lo: int, hi: int) -> int {
    if x < lo {
        lo
    } else if x > hi {
        hi
    } else {
        x
    }
}

} // verus!
