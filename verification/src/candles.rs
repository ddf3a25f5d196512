//! Windowed candle extraction: ordered row records read straight off five
//! matrix columns, either in one synchronous pass or split into disjoint,
//! order-preserving contiguous chunks filled by a worker pool.
//!
//! Both paths are specified against the same sequence
//! (`window_candles`), so the parallel-chunked output is proven identical
//! to the single-pass output for every matrix, column choice and window.

use vstd::prelude::*;

use rayon::iter::IntoParallelRefIterator;
use rayon::iter::ParallelIterator;

use crate::error::CoreError;
use crate::matrix::MyMmMatrix;
use crate::matrix::lemma_find_index_in_bounds;
use crate::matrix::spec_find_index;
use crate::window::PageSpec;
use crate::window::page_window;
use crate::window::win_end;
use crate::window::win_start;

verus! {

/// The five column indices a candle is read from: time, open, high, low,
/// close.
#[derive(Debug, Clone, Copy, PartialEq, Eq, Structural)]
pub struct Cols {
    pub t: usize,
    pub o: usize,
    pub h: usize,
    pub l: usize,
    pub c: usize,
}

/// One row record of five numeric values (as double bit patterns).
#[derive(Debug, Clone, Copy, PartialEq, Eq, Structural)]
pub struct Candle {
    pub t: u64,
    pub o: u64,
    pub h: u64,
    pub l: u64,
    pub c: u64,
}

/// A chart request: the matrix to read, the y-axis label to draw, and
/// whether the parallel extraction path is requested.
#[derive(Debug, Clone)]
pub struct LcMatrix {
    pub matrix: MyMmMatrix,
    pub y_axis: String,
    pub parallel: bool,
}

/// Worker count the chunked path plans for.
pub const EXTRACT_WORKERS: usize = 4;

/// All five candle columns lie inside the numeric matrix.
pub open spec fn cols_in_bounds(m: &MyMmMatrix, cols: Cols) -> bool {
    &&& cols.t < m.data_f64@.len()
    &&& cols.o < m.data_f64@.len()
    &&& cols.h < m.data_f64@.len()
    &&& cols.l < m.data_f64@.len()
    &&& cols.c < m.data_f64@.len()
}

/// The candle read from row `i`.
pub open spec fn candle_at(m: &MyMmMatrix, cols: Cols, i: int) -> Candle {
    Candle {
        t: m.data_f64@[cols.t as int]@[i],
        o: m.data_f64@[cols.o as int]@[i],
        h: m.data_f64@[cols.h as int]@[i],
        l: m.data_f64@[cols.l as int]@[i],
        c: m.data_f64@[cols.c as int]@[i],
    }
}

/// The ordered candles of rows `start..end`.
pub open spec fn candles_of(m: &MyMmMatrix, cols: Cols, start: int, end: int) -> Seq<Candle> {
    Seq::new((end - start) as nat, |k: int| candle_at(m, cols, start + k))
}

/// The candles a page window denotes: empty when the window begins at or
/// beyond the data, the clipped row range otherwise. This single sequence
/// is the specification of both the synchronous and the chunked path.
pub open spec fn window_candles(m: &MyMmMatrix, cols: Cols, page: PageSpec) -> Seq<Candle> {
    let n = m.nrows_f64 as int;
    if win_start(page) >= n {
        Seq::empty()
    } else {
        candles_of(m, cols, win_start(page), win_end(page, n))
    }
}

/// One synchronous pass over rows `start..end`, reading each candle
/// directly off the column views.
pub fn extract_range(m: &MyMmMatrix, cols: Cols, start: usize, end: usize) -> (r: Vec<Candle>)
    requires
        m.wf(),
        cols_in_bounds(m, cols),
        start <= end,
        end <= m.nrows_f64,
    ensures
        r@ == candles_of(m, cols, start as int, end as int),
{
    let mut out: Vec<Candle> = Vec::new();
    for i in start..end
        invariant
            m.wf(),
            cols_in_bounds(m, cols),
            start <= i <= end,
            end <= m.nrows_f64,
            out@.len() == i - start,
            forall|k: int|
                0 <= k < out@.len() ==> out@[k] == candle_at(m, cols, start + k),
    {
        out.push(
            Candle {
                t: m.data_f64[cols.t][i],
                o: m.data_f64[cols.o][i],
                h: m.data_f64[cols.h][i],
                l: m.data_f64[cols.l][i],
                c: m.data_f64[cols.c][i],
            },
        );
    }
    proof {
        assert(out@ =~= candles_of(m, cols, start as int, end as int));
    }
    out
}

/// Ordered contiguous ranges that exactly tile `start..end`: the first
/// begins at `start`, the last ends at `end`, neighbours touch, every
/// range is non-empty and stays inside the window.
pub open spec fn ranges_cover(rs: Seq<(usize, usize)>, start: int, end: int) -> bool {
    &&& (start == end ==> rs.len() == 0)
    &&& (start < end ==> rs.len() > 0 && rs[0].0 == start && rs[rs.len() - 1].1 == end)
    &&& forall|k: int|
        0 <= k < rs.len() ==> start <= (#[trigger] rs[k]).0 < rs[k].1 <= end
    &&& forall|k: int| 0 <= k < rs.len() - 1 ==> (#[trigger] rs[k]).1 == rs[k + 1].0
}

/// The work-splitting chunk size: `rows / (2 * workers)`, clamped into
/// `[8192, 65536]`.
pub open spec fn chunk_size_spec(rows: int, workers: int) -> int {
    let raw = rows / (2 * workers);
    if raw < 8192 {
        8192
    } else if raw > 65536 {
        65536
    } else {
        raw
    }
}

/// Splits `start..end` into the chunks the workers will fill: every chunk
/// has exactly the clamped size except the last, which takes the
/// remainder.
pub fn chunk_ranges(start: usize, end: usize, workers: usize) -> (r: Vec<(usize, usize)>)
    requires
        start <= end,
        1 <= workers <= usize::MAX / 2,
    ensures
        ranges_cover(r@, start as int, end as int),
        forall|k: int|
            0 <= k < r@.len() - 1 ==> (#[trigger] r@[k]).1 - r@[k].0 == chunk_size_spec(
                end - start,
                workers as int,
            ),
        forall|k: int|
            0 <= k < r@.len() ==> (#[trigger] r@[k]).1 - r@[k].0 <= chunk_size_spec(
                end - start,
                workers as int,
            ),
{
    let count = end - start;
    let raw = count / (2 * workers);
    let sz: usize = if raw < 8192 {
        8192
    } else if raw > 65536 {
        65536
    } else {
        raw
    };
    let mut out: Vec<(usize, usize)> = Vec::new();
    let mut pos = start;
    while pos < end
        invariant
            start <= pos <= end,
            sz == chunk_size_spec(end - start, workers as int),
            sz >= 1,
            pos == end ==> out@.len() > 0 || start == end,
            out@.len() == 0 ==> pos == start,
            out@.len() > 0 ==> out@[0].0 == start && out@[out@.len() - 1].1 == pos,
            forall|k: int|
                0 <= k < out@.len() ==> start <= (#[trigger] out@[k]).0 < out@[k].1 <= end,
            forall|k: int|
                0 <= k < out@.len() - 1 ==> (#[trigger] out@[k]).1 == out@[k + 1].0,
            forall|k: int|
                0 <= k < out@.len() && (#[trigger] out@[k]).1 < end ==> out@[k].1 - out@[k].0
                    == sz,
            forall|k: int| 0 <= k < out@.len() ==> (#[trigger] out@[k]).1 - out@[k].0 <= sz,
        decreases end - pos,
    {
        let next: usize = if end - pos <= sz {
            end
        } else {
            pos + sz
        };
        out.push((pos, next));
        pos = next;
    }
    proof {
        assert forall|k: int| 0 <= k < out@.len() - 1 implies (#[trigger] out@[k]).1 - out@[k].0
            == chunk_size_spec(end - start, workers as int) by {
            assert(out@[k].1 == out@[k + 1].0);
            assert(out@[k + 1].0 < out@[k + 1].1 <= end);
        }
    }
    out
}

/// Flattening of the per-range candle runs, in range order.
pub open spec fn concat_ranges(m: &MyMmMatrix, cols: Cols, rs: Seq<(usize, usize)>) -> Seq<
    Candle,
>
    decreases rs.len(),
{
    if rs.len() == 0 {
        Seq::empty()
    } else {
        candles_of(m, cols, rs[0].0 as int, rs[0].1 as int) + concat_ranges(
            m,
            cols,
            rs.skip(1),
        )
    }
}

/// Adjacent candle runs glue into one run.
proof fn lemma_candles_concat(m: &MyMmMatrix, cols: Cols, a: int, b: int, c: int)
    requires
        a <= b <= c,
    ensures
        candles_of(m, cols, a, c) == candles_of(m, cols, a, b) + candles_of(m, cols, b, c),
{
    assert(candles_of(m, cols, a, c) =~= candles_of(m, cols, a, b) + candles_of(m, cols, b, c));
}

/// The no-aliasing/ordering law of the chunked path: if ordered contiguous
/// chunks tile a window, the concatenation of their candle runs is exactly
/// the single-pass extraction of the window. Chunked and synchronous
/// extraction therefore agree on every input.
#[verifier::rlimit(50)]
pub proof fn lemma_chunks_rebuild_window(
    m: &MyMmMatrix,
    cols: Cols,
    rs: Seq<(usize, usize)>,
    start: int,
    end: int,
)
    requires
        start <= end,
        ranges_cover(rs, start, end),
    ensures
        concat_ranges(m, cols, rs) == candles_of(m, cols, start, end),
    decreases rs.len(),
{
    if rs.len() == 0 {
        assert(concat_ranges(m, cols, rs) =~= candles_of(m, cols, start, end));
    } else {
        let tail = rs.skip(1);
        let mid = rs[0].1 as int;
        assert forall|k: int| 0 <= k < tail.len() implies mid <= (#[trigger] tail[k]).0
            < tail[k].1 <= end by {
            assert(tail[k] == rs[k + 1]);
            assert(rs[k].1 == rs[k + 1].0);
            assert(rs[k].0 < rs[k].1);
            if k > 0 {
                lemma_ranges_monotone(rs, 0, k + 1);
            }
        }
        assert forall|k: int| 0 <= k < tail.len() - 1 implies (#[trigger] tail[k]).1 == tail[k
            + 1].0 by {
            assert(tail[k] == rs[k + 1]);
            assert(tail[k + 1] == rs[k + 2]);
        }
        if tail.len() > 0 {
            assert(tail[0] == rs[1]);
            assert(tail[tail.len() - 1] == rs[rs.len() - 1]);
        } else {
            assert(mid == end);
        }
        assert(ranges_cover(tail, mid, end));
        lemma_chunks_rebuild_window(m, cols, tail, mid, end);
        lemma_candles_concat(m, cols, start, mid, end);
    }
}

/// Earlier ranges of a tiling end no later than later ranges begin.
proof fn lemma_ranges_monotone(rs: Seq<(usize, usize)>, i: int, j: int)
    requires
        0 <= i < j < rs.len(),
        forall|k: int| 0 <= k < rs.len() ==> (#[trigger] rs[k]).0 < rs[k].1,
        forall|k: int| 0 <= k < rs.len() - 1 ==> (#[trigger] rs[k]).1 == rs[k + 1].0,
    ensures
        rs[i].1 <= rs[j].0,
    decreases j - i,
{
    if i + 1 == j {
        assert(rs[i].1 == rs[j].0);
    } else {
        lemma_ranges_monotone(rs, i, j - 1);
        assert(rs[j - 1].1 == rs[j].0);
        assert(rs[j - 1].0 < rs[j - 1].1);
    }
}

/// Relies on rayon's `par_iter`/`map`/`collect` over a slice: the indexed
/// parallel iterator applies the mapping to every element and collects
/// each result at the position of its source element, so the output vector
/// lists, in order, the verified per-range extraction of each range.
#[verifier::external_body]
fn par_extract_ranges(m: &MyMmMatrix, cols: Cols, ranges: &Vec<(usize, usize)>) -> (r: Vec<
    Vec<Candle>,
>)
    requires
        m.wf(),
        cols_in_bounds(m, cols),
        forall|k: int|
            0 <= k < ranges@.len() ==> (#[trigger] ranges@[k]).0 <= ranges@[k].1 && ranges@[k].1
                <= m.nrows_f64,
    ensures
        r@.len() == ranges@.len(),
        forall|k: int|
            0 <= k < ranges@.len() ==> (#[trigger] r@[k])@ == candles_of(
                m,
                cols,
                ranges@[k].0 as int,
                ranges@[k].1 as int,
            ),
{
    ranges.par_iter().map(|&(s, e)| extract_range(m, cols, s, e)).collect()
}

/// The chunked extraction path: the window is split into disjoint
/// contiguous chunks, each chunk is filled by its own worker from its own
/// row range only, and the chunks are concatenated in index order. The
/// result is the same candle sequence the synchronous pass produces.
pub fn candles_pages(m: &MyMmMatrix, cols: Cols, page: PageSpec) -> (r: Vec<Candle>)
    requires
        m.wf(),
        cols_in_bounds(m, cols),
    ensures
        r@ == window_candles(m, cols, page),
        win_start(page) >= m.nrows_f64 ==> r@.len() == 0,
{
    let (start, end) = page_window(page, m.nrows_f64);
    if start == end {
        let out: Vec<Candle> = Vec::new();
        proof {
            assert(window_candles(m, cols, page) =~= Seq::<Candle>::empty());
        }
        return out;
    }
    let ranges = chunk_ranges(start, end, EXTRACT_WORKERS);
    let chunks = par_extract_ranges(m, cols, &ranges);
    let mut out: Vec<Candle> = Vec::new();
    let nc = chunks.len();
    for k in 0..nc
        invariant
            m.wf(),
            cols_in_bounds(m, cols),
            start < end <= m.nrows_f64,
            nc == chunks@.len(),
            nc == ranges@.len(),
            ranges_cover(ranges@, start as int, end as int),
            forall|l: int|
                0 <= l < ranges@.len() ==> (#[trigger] chunks@[l])@ == candles_of(
                    m,
                    cols,
                    ranges@[l].0 as int,
                    ranges@[l].1 as int,
                ),
            out@ == candles_of(
                m,
                cols,
                start as int,
                if k == 0 {
                    start as int
                } else {
                    ranges@[k - 1].1 as int
                },
            ),
    {
        let chunk = &chunks[k];
        let cl = chunk.len();
        proof {
            if k > 0 {
                assert(ranges@[k - 1].1 == ranges@[k as int].0);
            }
        }
        for idx in 0..cl
            invariant
                m.wf(),
                cols_in_bounds(m, cols),
                k < nc,
                nc == chunks@.len(),
                nc == ranges@.len(),
                cl == chunks@[k as int]@.len(),
                chunk == &chunks[k as int],
                chunks@[k as int]@ == candles_of(
                    m,
                    cols,
                    ranges@[k as int].0 as int,
                    ranges@[k as int].1 as int,
                ),
                out@ == candles_of(m, cols, start as int, ranges@[k as int].0 as int)
                    + chunks@[k as int]@.take(idx as int),
        {
            out.push(chunk[idx]);
            proof {
                assert(chunks@[k as int]@.take(idx + 1) =~= chunks@[k as int]@.take(idx as int)
                    .push(chunks@[k as int]@[idx as int]));
                assert(out@ =~= candles_of(m, cols, start as int, ranges@[k as int].0 as int)
                    + chunks@[k as int]@.take(idx + 1));
            }
        }
        proof {
            assert(chunks@[k as int]@.take(cl as int) =~= chunks@[k as int]@);
            lemma_candles_concat(
                m,
                cols,
                start as int,
                ranges@[k as int].0 as int,
                ranges@[k as int].1 as int,
            );
        }
    }
    proof {
        assert(out@ == candles_of(m, cols, start as int, end as int));
        assert(window_candles(m, cols, page) =~= candles_of(m, cols, start as int, end as int));
    }
    out
}

/// The first of the five conventional chart column names (`bin`, `p0`,
/// `pmax`, `pmin`, `p1`) that the numeric name map fails to resolve, if
/// any.
pub open spec fn first_missing_col(m: &MyMmMatrix) -> Option<Seq<char>> {
    if spec_find_index(&m.colnames_enum_f64, "bin"@) is None {
        Some("bin"@)
    } else if spec_find_index(&m.colnames_enum_f64, "p0"@) is None {
        Some("p0"@)
    } else if spec_find_index(&m.colnames_enum_f64, "pmax"@) is None {
        Some("pmax"@)
    } else if spec_find_index(&m.colnames_enum_f64, "pmin"@) is None {
        Some("pmin"@)
    } else if spec_find_index(&m.colnames_enum_f64, "p1"@) is None {
        Some("p1"@)
    } else {
        None
    }
}

/// The column choice the conventional names resolve to (meaningful only
/// when `first_missing_col` is `None`).
pub open spec fn resolved_cols(m: &MyMmMatrix) -> Cols {
    Cols {
        t: spec_find_index(&m.colnames_enum_f64, "bin"@)->0,
        o: spec_find_index(&m.colnames_enum_f64, "p0"@)->0,
        h: spec_find_index(&m.colnames_enum_f64, "pmax"@)->0,
        l: spec_find_index(&m.colnames_enum_f64, "pmin"@)->0,
        c: spec_find_index(&m.colnames_enum_f64, "p1"@)->0,
    }
}

/// One page of candles for a chart request: the five conventional column
/// names are resolved once, then the page window is read through the
/// parallel-chunked path or the synchronous fallback — the two return the
/// same sequence. A name that does not resolve is reported as `NotFound`
/// carrying that name; an out-of-range window yields `Ok` with an empty
/// sequence.
pub fn get_candles_page(props: &LcMatrix, page: PageSpec) -> (r: Result<Vec<Candle>, CoreError>)
    requires
        props.matrix.wf(),
    ensures
        r is Ok <==> first_missing_col(&props.matrix) is None,
        r matches Ok(v) ==> v@ == window_candles(
            &props.matrix,
            resolved_cols(&props.matrix),
            page,
        ),
        r matches Err(e) ==> e matches CoreError::NotFound(nm) && Some(nm@) == first_missing_col(
            &props.matrix,
        ),
        r matches Ok(v) ==> (win_start(page) >= props.matrix.nrows_f64 ==> v@.len() == 0),
{
    let m = &props.matrix;
    let t = match m.find_index_f64("bin") {
        Some(i) => i,
        None => {
            return Err(CoreError::NotFound("bin".to_owned()));
        },
    };
    let o = match m.find_index_f64("p0") {
        Some(i) => i,
        None => {
            return Err(CoreError::NotFound("p0".to_owned()));
        },
    };
    let h = match m.find_index_f64("pmax") {
        Some(i) => i,
        None => {
            return Err(CoreError::NotFound("pmax".to_owned()));
        },
    };
    let l = match m.find_index_f64("pmin") {
        Some(i) => i,
        None => {
            return Err(CoreError::NotFound("pmin".to_owned()));
        },
    };
    let c = match m.find_index_f64("p1") {
        Some(i) => i,
        None => {
            return Err(CoreError::NotFound("p1".to_owned()));
        },
    };
    let cols = Cols { t, o, h, l, c };
    proof {
        lemma_find_index_in_bounds(m, "bin"@);
        lemma_find_index_in_bounds(m, "p0"@);
        lemma_find_index_in_bounds(m, "pmax"@);
        lemma_find_index_in_bounds(m, "pmin"@);
        lemma_find_index_in_bounds(m, "p1"@);
        assert(cols == resolved_cols(m));
    }
    if props.parallel {
        Ok(candles_pages(m, cols, page))
    } else {
        let (start, end) = page_window(page, m.nrows_f64);
        let v = extract_range(m, cols, start, end);
        proof {
            assert(v@ =~= window_candles(m, cols, page));
        }
        Ok(v)
    }
}

} // verus!
