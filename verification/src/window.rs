//! Page windows: a page index and a page size mapped to an absolute
//! half-open row range, clipped to the number of rows.

use vstd::prelude::*;

verus! {

#[derive(Debug, Clone, Copy, PartialEq, Eq, Structural)]
pub struct PageSpec {
    pub page: usize,
    pub page_size: usize,
}

/// Absolute first row of the window before clipping: `page * page_size`.
pub open spec fn win_start(p: PageSpec) -> int {
    p.page * p.page_size
}

/// Absolute end row (exclusive) of the window, clipped to `n` rows.
pub open spec fn win_end(p: PageSpec, n: int) -> int {
    if win_start(p) + p.page_size <= n {
        win_start(p) + p.page_size
    } else {
        n
    }
}

/// The window of `p` over `n` rows as a concrete `(start, end)` pair.
/// A window that begins at or beyond the data (`page * page_size >= n`) is
/// empty, which the pair reports as `start == end`.
pub fn page_window(p: PageSpec, n: usize) -> (r: (usize, usize))
    ensures
        r.0 <= r.1 <= n,
        win_start(p) >= n ==> r.0 == r.1,
        win_start(p) < n ==> r.0 == win_start(p) && r.1 == win_end(p, n as int),
{
    let start = match p.page.checked_mul(p.page_size) {
        Some(s) => s,
        None => {
            return (n, n);
        },
    };
    if start >= n {
        return (n, n);
    }
    let end = match start.checked_add(p.page_size) {
        Some(e) => if e <= n {
            e
        } else {
            n
        },
        None => n,
    };
    (start, end)
}

} // verus!
