//! The bit-pattern model of IEEE-754 double-precision values.
//!
//! Every numeric cell in this crate is a `u64` holding the bit pattern of a
//! double (`f64::to_bits` / `f64::from_bits` at the crate boundary). Two facts
//! about that encoding carry all the reasoning done here:
//!
//! * a double is non-finite (NaN or an infinity) exactly when its eleven
//!   exponent bits are all ones;
//! * mapping a pattern `b` to `!b` when its sign bit is set and to
//!   `b ^ 0x8000_0000_0000_0000` otherwise is strictly monotone with respect
//!   to the IEEE-754 `totalOrder` predicate, the order `f64::total_cmp` uses.
//!   In particular, for two non-negative values the raw patterns compare like
//!   the values themselves.

use vstd::prelude::*;

verus! {

/// Exponent mask of a double: eleven ones in bits 52..63.
pub const F64_EXP_MASK: u64 = 0x7ff0000000000000;

/// Sign mask of a double: bit 63.
pub const F64_SIGN_MASK: u64 = 0x8000000000000000;

/// Bit pattern of `1.0`.
pub const F64_ONE_BITS: u64 = 0x3ff0000000000000;

/// Bit pattern of `1e-12`, the variance / standard-deviation floor used by
/// the analytic stages.
pub const EPS_BITS: u64 = 0x3d719799812dea11;

/// A pattern denotes a finite double iff its exponent bits are not all ones.
pub open spec fn is_finite_bits(b: u64) -> bool {
    b & F64_EXP_MASK != F64_EXP_MASK
}

/// Non-finite values are flushed to `0u64`, the pattern of `+0.0`; finite
/// values pass through unchanged.
pub open spec fn sanitize_bits(b: u64) -> u64 {
    if is_finite_bits(b) {
        b
    } else {
        0u64
    }
}

/// Strictly monotone image of the IEEE-754 total order on `u64`:
/// `total_key(a) < total_key(b)` iff `a` sorts before `b` under
/// `f64::total_cmp`.
pub open spec fn total_key_spec(b: u64) -> u64 {
    if b & F64_SIGN_MASK == F64_SIGN_MASK {
        !b
    } else {
        b ^ F64_SIGN_MASK
    }
}

/// A variance (or standard deviation) is kept when it is finite,
/// non-negative and at least `1e-12`. For finite non-negative doubles the
/// raw patterns order like the values, so the comparison is a plain `u64`
/// comparison against the pattern of `1e-12`.
pub open spec fn keeps(v: u64) -> bool {
    &&& is_finite_bits(v)
    &&& v & F64_SIGN_MASK == 0
    &&& v >= EPS_BITS
}

pub fn is_finite(b: u64) -> (r: bool)
    ensures
        r == is_finite_bits(b),
{
    b & F64_EXP_MASK != F64_EXP_MASK
}

pub fn sanitize_value(b: u64) -> (r: u64)
    ensures
        r == sanitize_bits(b),
{
    if is_finite(b) {
        b
    } else {
        0u64
    }
}

pub fn total_key(b: u64) -> (r: u64)
    ensures
        r == total_key_spec(b),
{
    if b & F64_SIGN_MASK == F64_SIGN_MASK {
        !b
    } else {
        b ^ F64_SIGN_MASK
    }
}

/// A pattern denotes the double `0.0` iff it is one of the two signed-zero
/// patterns: the guard that keeps a row-over-row change at zero instead of
/// dividing by an exactly-zero previous value.
pub open spec fn is_zero_bits(b: u64) -> bool {
    b == 0u64 || b == F64_SIGN_MASK
}

pub fn is_zero_value(b: u64) -> (r: bool)
    ensures
        r == is_zero_bits(b),
{
    b == 0u64 || b == F64_SIGN_MASK
}

/// The divisor guard of the standardization stages: a usable standard
/// deviation is used as-is, a degenerate one (non-finite, negative or below
/// `1e-12`) is replaced by `1.0` so degenerate columns are not inflated.
pub fn std_or_one(std_bits: u64) -> (r: u64)
    ensures
        keeps(std_bits) ==> r == std_bits,
        !keeps(std_bits) ==> r == F64_ONE_BITS,
{
    if is_finite(std_bits) && std_bits & F64_SIGN_MASK == 0 && std_bits >= EPS_BITS {
        std_bits
    } else {
        F64_ONE_BITS
    }
}

/// One column scrubbed cell by cell: the defensive pass applied at ingestion
/// and at every analytic result boundary.
pub fn sanitize_column(col: &Vec<u64>) -> (r: Vec<u64>)
    ensures
        r@.len() == col@.len(),
        forall|i: int| 0 <= i < col@.len() ==> r@[i] == sanitize_bits(col@[i]),
{
    let mut out: Vec<u64> = Vec::new();
    let n = col.len();
    for i in 0..n
        invariant
            out@.len() == i,
            n == col@.len(),
            forall|j: int| 0 <= j < i ==> out@[j] == sanitize_bits(col@[j]),
    {
        out.push(sanitize_value(col[i]));
    }
    out
}

/// A whole column set scrubbed; shape is preserved exactly.
pub fn sanitize_columns(cols: &Vec<Vec<u64>>) -> (r: Vec<Vec<u64>>)
    ensures
        r@.len() == cols@.len(),
        forall|j: int| 0 <= j < cols@.len() ==> r@[j]@.len() == cols@[j]@.len(),
        forall|j: int, i: int|
            0 <= j < cols@.len() && 0 <= i < cols@[j]@.len() ==> r@[j]@[i] == sanitize_bits(
                cols@[j]@[i],
            ),
{
    let mut out: Vec<Vec<u64>> = Vec::new();
    let n = cols.len();
    for j in 0..n
        invariant
            out@.len() == j,
            n == cols@.len(),
            forall|l: int| 0 <= l < j ==> out@[l]@.len() == cols@[l]@.len(),
            forall|l: int, i: int|
                0 <= l < j && 0 <= i < cols@[l]@.len() ==> out@[l]@[i] == sanitize_bits(
                    cols@[l]@[i],
                ),
    {
        out.push(sanitize_column(&cols[j]));
    }
    out
}

} // verus!
