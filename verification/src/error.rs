//! Error taxonomy of the analytics core. Degenerate-but-valid situations
//! (an empty page window, too few rows or features) are deliberately not
//! errors: they are represented as valid empty outputs so that rendering
//! callers have one branch fewer to handle.

use vstd::prelude::*;

verus! {

#[derive(Debug, Clone)]
pub enum CoreError {
    /// A column name did not resolve to an index; the payload is the name
    /// that was looked up.
    NotFound(String),
    /// The eigendecomposition handed back a non-finite eigenvalue; never
    /// masked by substituting defaults.
    NumericInstability,
    /// An engine-level fit failure on degenerate input, with context.
    FitFailure(String),
}

} // verus!
