//! The named-column matrix: a dense numeric matrix stored column-major as
//! IEEE-754 bit patterns, a parallel text matrix of equal-shaped string
//! columns, and one independent name-to-index map for each of the two.

use vstd::prelude::*;

use crate::fbits::sanitize_bits;
use crate::fbits::sanitize_column;

verus! {

/// Dense numeric + text matrix with bidirectional name/index bookkeeping.
///
/// `data_f64[j][i]` is the cell at row `i` of numeric column `j`, as the bit
/// pattern of a double. The text matrix is kept beside it with its own row
/// count and its own name map.
#[derive(Debug, Clone)]
pub struct MyMmMatrix {
    pub data_f64: Vec<Vec<u64>>,
    pub nrows_f64: usize,
    pub colnames_enum_f64: Option<Vec<(usize, String)>>,
    pub data_str: Vec<Vec<String>>,
    pub nrows_str: usize,
    pub colnames_enum_str: Option<Vec<(usize, String)>>,
    /// Six descriptive-statistic slots (standard deviation, mean, and four
    /// reserved slots that no current caller populates), as bit patterns.
    pub descrips: Descrips,
}

/// The fixed six-slot descriptive-statistics snapshot: standard deviation,
/// mean, and four reserved slots that every current call site leaves at
/// zero.
#[derive(Debug, Clone, Copy, PartialEq, Eq, Structural)]
pub struct Descrips {
    pub std: u64,
    pub mean: u64,
    pub slot2: u64,
    pub slot3: u64,
    pub slot4: u64,
    pub slot5: u64,
}

/// All six slots zero, the state every constructor starts from.
pub open spec fn descrips_zero() -> Descrips {
    Descrips { std: 0u64, mean: 0u64, slot2: 0u64, slot3: 0u64, slot4: 0u64, slot5: 0u64 }
}

/// A name map is sound for a column count `ncols` when every entry points
/// inside the matrix and no column name repeats.
pub open spec fn names_wf(names: Seq<(usize, String)>, ncols: int) -> bool {
    &&& forall|k: int| 0 <= k < names.len() ==> (#[trigger] names[k]).0 < ncols
    &&& forall|k: int, l: int|
        0 <= k < l < names.len() ==> (#[trigger] names[k]).1@ != (#[trigger] names[l]).1@
}

impl MyMmMatrix {
    /// Every numeric column has `nrows_f64` rows, every text column has
    /// `nrows_str` rows, and both name maps (when present) are sound.
    pub open spec fn wf(&self) -> bool {
        &&& forall|j: int|
            0 <= j < self.data_f64@.len() ==> (#[trigger] self.data_f64@[j])@.len()
                == self.nrows_f64
        &&& forall|j: int|
            0 <= j < self.data_str@.len() ==> (#[trigger] self.data_str@[j])@.len()
                == self.nrows_str
        &&& match self.colnames_enum_f64 {
            Some(ns) => names_wf(ns@, self.data_f64@.len() as int),
            None => true,
        }
        &&& match self.colnames_enum_str {
            Some(ns) => names_wf(ns@, self.data_str@.len() as int),
            None => true,
        }
    }

    /// An all-zero numeric matrix of the requested shape, with no names and
    /// an empty text matrix.
    pub fn new(rows: usize, cols: usize) -> (r: MyMmMatrix)
        ensures
            r.wf(),
            r.data_f64@.len() == cols,
            r.nrows_f64 == rows,
            forall|j: int, i: int|
                0 <= j < cols && 0 <= i < rows ==> r.data_f64@[j]@[i] == 0u64,
            r.colnames_enum_f64 is None,
            r.data_str@.len() == 0,
            r.nrows_str == 0,
            r.colnames_enum_str is None,
            r.descrips == descrips_zero(),
    {
        let mut data: Vec<Vec<u64>> = Vec::new();
        for j in 0..cols
            invariant
                data@.len() == j,
                forall|l: int| 0 <= l < j ==> (#[trigger] data@[l])@.len() == rows,
                forall|l: int, i: int|
                    0 <= l < j && 0 <= i < rows ==> data@[l]@[i] == 0u64,
        {
            let col: Vec<u64> = vec![0u64; rows];
            data.push(col);
        }
        MyMmMatrix {
            data_f64: data,
            nrows_f64: rows,
            colnames_enum_f64: None,
            data_str: Vec::new(),
            nrows_str: 0,
            colnames_enum_str: None,
            descrips: Descrips { std: 0u64, mean: 0u64, slot2: 0u64, slot3: 0u64, slot4: 0u64, slot5: 0u64 },
        }
    }

    /// The default ten-by-ten all-zero matrix.
    pub fn new10x() -> (r: MyMmMatrix)
        ensures
            r.wf(),
            r.data_f64@.len() == 10,
            r.nrows_f64 == 10,
            forall|j: int, i: int|
                0 <= j < 10 && 0 <= i < 10 ==> r.data_f64@[j]@[i] == 0u64,
            r.colnames_enum_f64 is None,
            r.data_str@.len() == 0,
            r.colnames_enum_str is None,
    {
        MyMmMatrix::new(10, 10)
    }

    /// Wraps ready numeric columns (all of one length) without names, the
    /// way a caller that already owns a plain matrix hands it over.
    pub fn from(columns: Vec<Vec<u64>>, nrows: usize) -> (r: MyMmMatrix)
        requires
            forall|j: int|
                0 <= j < columns@.len() ==> (#[trigger] columns@[j])@.len() == nrows,
        ensures
            r.wf(),
            r.data_f64 == columns,
            r.nrows_f64 == nrows,
            r.colnames_enum_f64 is None,
            r.data_str@.len() == 0,
            r.nrows_str == 0,
            r.colnames_enum_str is None,
            r.descrips == descrips_zero(),
    {
        MyMmMatrix {
            data_f64: columns,
            nrows_f64: nrows,
            colnames_enum_f64: None,
            data_str: Vec::new(),
            nrows_str: 0,
            colnames_enum_str: None,
            descrips: Descrips { std: 0u64, mean: 0u64, slot2: 0u64, slot3: 0u64, slot4: 0u64, slot5: 0u64 },
        }
    }

    /// Row and column count of the numeric matrix.
    pub fn dimmensions(&self) -> (r: (usize, usize))
        ensures
            r.0 == self.nrows_f64,
            r.1 == self.data_f64@.len(),
    {
        (self.nrows_f64, self.data_f64.len())
    }

    /// Borrow of the raw numeric columns.
    pub fn inner_ref(&self) -> (r: &Vec<Vec<u64>>)
        ensures
            r == &self.data_f64,
    {
        &self.data_f64
    }

    /// The top-left `rows` x `cols` corner of the numeric matrix, column by
    /// column.
    pub fn head(&self, shape: (usize, usize)) -> (r: Vec<Vec<u64>>)
        requires
            self.wf(),
            shape.0 <= self.nrows_f64,
            shape.1 <= self.data_f64@.len(),
        ensures
            r@.len() == shape.1,
            forall|j: int| 0 <= j < shape.1 ==> (#[trigger] r@[j])@.len() == shape.0,
            forall|j: int, i: int|
                0 <= j < shape.1 && 0 <= i < shape.0 ==> r@[j]@[i] == self.data_f64@[j]@[i],
    {
        let (rows, cols) = shape;
        let mut out: Vec<Vec<u64>> = Vec::new();
        for j in 0..cols
            invariant
                self.wf(),
                rows <= self.nrows_f64,
                cols <= self.data_f64@.len(),
                out@.len() == j,
                forall|l: int| 0 <= l < j ==> (#[trigger] out@[l])@.len() == rows,
                forall|l: int, i: int|
                    0 <= l < j && 0 <= i < rows ==> out@[l]@[i] == self.data_f64@[l]@[i],
        {
            let mut col: Vec<u64> = Vec::new();
            for i in 0..rows
                invariant
                    self.wf(),
                    rows <= self.nrows_f64,
                    cols <= self.data_f64@.len(),
                    j < cols,
                    col@.len() == i,
                    forall|l: int| 0 <= l < i ==> col@[l] == self.data_f64@[j as int]@[l],
            {
                col.push(self.data_f64[j][i]);
            }
            out.push(col);
        }
        out
    }

    /// Ingestion from a ready tabular frame split into plain named columns:
    /// numeric cells arrive as double bit patterns and are sanitized
    /// (non-finite flushed to zero), text cells are copied verbatim, and
    /// both name maps are built in column order. `None` is returned exactly
    /// when a family of columns is ragged or a name repeats within it.
    pub fn from_columns(
        float_cols: Vec<(String, Vec<u64>)>,
        str_cols: Vec<(String, Vec<String>)>,
    ) -> (r: Option<MyMmMatrix>)
        ensures
            r is Some <==> (float_lens_ok(float_cols@) && str_lens_ok(str_cols@)
                && names_distinct(float_cols@) && names_distinct(str_cols@)),
            r matches Some(m) ==> {
                &&& m.wf()
                &&& m.data_f64@.len() == float_cols@.len()
                &&& (float_cols@.len() == 0 ==> m.nrows_f64 == 0)
                &&& (float_cols@.len() > 0 ==> m.nrows_f64 == float_cols@[0].1@.len())
                &&& forall|j: int, i: int|
                    0 <= j < float_cols@.len() && 0 <= i < m.nrows_f64
                        ==> #[trigger] m.data_f64@[j]@[i] == sanitize_bits(
                        float_cols@[j].1@[i],
                    )
                &&& m.colnames_enum_f64 matches Some(ns) && ns@.len() == float_cols@.len()
                    && (forall|j: int|
                    0 <= j < ns@.len() ==> (#[trigger] ns@[j]).0 == j && ns@[j].1@
                        == float_cols@[j].0@)
                &&& m.data_str@.len() == str_cols@.len()
                &&& (str_cols@.len() == 0 ==> m.nrows_str == 0)
                &&& (str_cols@.len() > 0 ==> m.nrows_str == str_cols@[0].1@.len())
                &&& forall|j: int, i: int|
                    0 <= j < str_cols@.len() && 0 <= i < m.nrows_str
                        ==> (#[trigger] m.data_str@[j]@[i])@ == str_cols@[j].1@[i]@
                &&& m.colnames_enum_str matches Some(ns) && ns@.len() == str_cols@.len() && (
                forall|j: int|
                    0 <= j < ns@.len() ==> (#[trigger] ns@[j]).0 == j && ns@[j].1@
                        == str_cols@[j].0@)
                &&& m.descrips == descrips_zero()
            },
    {
        let lens_f = check_float_lens(&float_cols);
        let lens_s = check_str_lens(&str_cols);
        let uniq_f = names_unique(&float_cols);
        let uniq_s = names_unique(&str_cols);
        if !(lens_f && lens_s && uniq_f && uniq_s) {
            return None;
        }
        let nf = float_cols.len();
        let nrows_f: usize = if nf == 0 {
            0
        } else {
            float_cols[0].1.len()
        };
        let mut data: Vec<Vec<u64>> = Vec::new();
        let mut names_f: Vec<(usize, String)> = Vec::new();
        for j in 0..nf
            invariant
                nf == float_cols@.len(),
                float_lens_ok(float_cols@),
                nf == 0 ==> nrows_f == 0,
                nf > 0 ==> nrows_f == float_cols@[0].1@.len(),
                data@.len() == j,
                names_f@.len() == j,
                forall|l: int| 0 <= l < j ==> (#[trigger] data@[l])@.len() == nrows_f,
                forall|l: int, i: int|
                    0 <= l < j && 0 <= i < nrows_f ==> #[trigger] data@[l]@[i] == sanitize_bits(
                        float_cols@[l].1@[i],
                    ),
                forall|l: int|
                    0 <= l < j ==> (#[trigger] names_f@[l]).0 == l && names_f@[l].1@
                        == float_cols@[l].0@,
        {
            data.push(sanitize_column(&float_cols[j].1));
            names_f.push((j, float_cols[j].0.clone()));
        }
        let ns = str_cols.len();
        let nrows_s: usize = if ns == 0 {
            0
        } else {
            str_cols[0].1.len()
        };
        let mut tdata: Vec<Vec<String>> = Vec::new();
        let mut names_s: Vec<(usize, String)> = Vec::new();
        for j in 0..ns
            invariant
                ns == str_cols@.len(),
                str_lens_ok(str_cols@),
                ns == 0 ==> nrows_s == 0,
                ns > 0 ==> nrows_s == str_cols@[0].1@.len(),
                tdata@.len() == j,
                names_s@.len() == j,
                forall|l: int| 0 <= l < j ==> (#[trigger] tdata@[l])@.len() == nrows_s,
                forall|l: int, i: int|
                    0 <= l < j && 0 <= i < nrows_s ==> (#[trigger] tdata@[l]@[i])@
                        == str_cols@[l].1@[i]@,
                forall|l: int|
                    0 <= l < j ==> (#[trigger] names_s@[l]).0 == l && names_s@[l].1@
                        == str_cols@[l].0@,
        {
            tdata.push(copy_str_column(&str_cols[j].1));
            names_s.push((j, str_cols[j].0.clone()));
        }
        let m = MyMmMatrix {
            data_f64: data,
            nrows_f64: nrows_f,
            colnames_enum_f64: Some(names_f),
            data_str: tdata,
            nrows_str: nrows_s,
            colnames_enum_str: Some(names_s),
            descrips: Descrips {
                std: 0u64,
                mean: 0u64,
                slot2: 0u64,
                slot3: 0u64,
                slot4: 0u64,
                slot5: 0u64,
            },
        };
        proof {
            assert(names_wf(m.colnames_enum_f64->0@, m.data_f64@.len() as int)) by {
                assert forall|k: int, l: int|
                    0 <= k < l < m.colnames_enum_f64->0@.len() implies (
                #[trigger] m.colnames_enum_f64->0@[k]).1@ != (
                #[trigger] m.colnames_enum_f64->0@[l]).1@ by {
                    assert(float_cols@[k].0@ != float_cols@[l].0@);
                }
            }
            assert(names_wf(m.colnames_enum_str->0@, m.data_str@.len() as int)) by {
                assert forall|k: int, l: int|
                    0 <= k < l < m.colnames_enum_str->0@.len() implies (
                #[trigger] m.colnames_enum_str->0@[k]).1@ != (
                #[trigger] m.colnames_enum_str->0@[l]).1@ by {
                    assert(str_cols@[k].0@ != str_cols@[l].0@);
                }
            }
        }
        Some(m)
    }

    /// Index of the first numeric column carrying `target`, if any.
    pub fn find_index_f64(&self, target: &str) -> (r: Option<usize>)
        ensures
            r == spec_find_index(&self.colnames_enum_f64, target@),
    {
        find_in_names(&self.colnames_enum_f64, target)
    }

    /// Index of the first text column carrying `target`, if any.
    pub fn find_index_str(&self, target: &str) -> (r: Option<usize>)
        ensures
            r == spec_find_index(&self.colnames_enum_str, target@),
    {
        find_in_names(&self.colnames_enum_str, target)
    }
}

/// No two entries share a name (first tuple slot), comparing by character
/// content.
pub open spec fn names_distinct<T>(s: Seq<(String, T)>) -> bool {
    forall|k: int, l: int|
        0 <= k < l < s.len() ==> (#[trigger] s[k]).0@ != (#[trigger] s[l]).0@
}

/// All numeric columns have the length of the first one.
pub open spec fn float_lens_ok(s: Seq<(String, Vec<u64>)>) -> bool {
    forall|j: int| 0 <= j < s.len() ==> (#[trigger] s[j]).1@.len() == s[0].1@.len()
}

/// All text columns have the length of the first one.
pub open spec fn str_lens_ok(s: Seq<(String, Vec<String>)>) -> bool {
    forall|j: int| 0 <= j < s.len() ==> (#[trigger] s[j]).1@.len() == s[0].1@.len()
}

fn names_unique<T>(cols: &Vec<(String, T)>) -> (b: bool)
    ensures
        b == names_distinct(cols@),
{
    let n = cols.len();
    let mut k: usize = 0;
    while k < n
        invariant
            n == cols@.len(),
            0 <= k <= n,
            forall|a: int, c: int|
                0 <= a < c < n && a < k ==> (#[trigger] cols@[a]).0@ != (#[trigger] cols@[c]).0@,
        decreases n - k,
    {
        let mut l: usize = k + 1;
        while l < n
            invariant
                n == cols@.len(),
                0 <= k < n,
                k + 1 <= l <= n,
                forall|a: int, c: int|
                    0 <= a < c < n && a < k ==> (#[trigger] cols@[a]).0@ != (
                    #[trigger] cols@[c]).0@,
                forall|c: int|
                    k < c < l ==> cols@[k as int].0@ != (#[trigger] cols@[c]).0@,
            decreases n - l,
        {
            if cols[k].0 == cols[l].0 {
                proof {
                    assert(names_distinct(cols@) ==> cols@[k as int].0@ != cols@[l as int].0@);
                }
                return false;
            }
            l = l + 1;
        }
        k = k + 1;
    }
    true
}

fn check_float_lens(cols: &Vec<(String, Vec<u64>)>) -> (b: bool)
    ensures
        b == float_lens_ok(cols@),
{
    let n = cols.len();
    if n == 0 {
        return true;
    }
    let n0 = cols[0].1.len();
    for j in 0..n
        invariant
            n == cols@.len(),
            n > 0,
            n0 == cols@[0].1@.len(),
            forall|l: int| 0 <= l < j ==> (#[trigger] cols@[l]).1@.len() == n0,
    {
        if cols[j].1.len() != n0 {
            proof {
                assert(float_lens_ok(cols@) ==> cols@[j as int].1@.len() == cols@[0].1@.len());
            }
            return false;
        }
    }
    true
}

fn check_str_lens(cols: &Vec<(String, Vec<String>)>) -> (b: bool)
    ensures
        b == str_lens_ok(cols@),
{
    let n = cols.len();
    if n == 0 {
        return true;
    }
    let n0 = cols[0].1.len();
    for j in 0..n
        invariant
            n == cols@.len(),
            n > 0,
            n0 == cols@[0].1@.len(),
            forall|l: int| 0 <= l < j ==> (#[trigger] cols@[l]).1@.len() == n0,
    {
        if cols[j].1.len() != n0 {
            proof {
                assert(str_lens_ok(cols@) ==> cols@[j as int].1@.len() == cols@[0].1@.len());
            }
            return false;
        }
    }
    true
}

fn copy_str_column(c: &Vec<String>) -> (r: Vec<String>)
    ensures
        r@.len() == c@.len(),
        forall|i: int| 0 <= i < c@.len() ==> r@[i]@ == c@[i]@,
{
    let mut out: Vec<String> = Vec::new();
    let n = c.len();
    for i in 0..n
        invariant
            n == c@.len(),
            out@.len() == i,
            forall|l: int| 0 <= l < i ==> out@[l]@ == c@[l]@,
    {
        out.push(c[i].clone());
    }
    out
}

/// First entry of `names` whose column name is `target`, scanning in map
/// order; the stored column index of that entry is returned.
pub open spec fn first_match(names: Seq<(usize, String)>, target: Seq<char>) -> Option<usize>
    decreases names.len(),
{
    if names.len() == 0 {
        None
    } else if names[0].1@ == target {
        Some(names[0].0)
    } else {
        first_match(names.skip(1), target)
    }
}

/// Lookup through an optional name map: an absent map never resolves a name.
pub open spec fn spec_find_index(
    names_opt: &Option<Vec<(usize, String)>>,
    target: Seq<char>,
) -> Option<usize> {
    match names_opt {
        Some(ns) => first_match(ns@, target),
        None => None,
    }
}

proof fn lemma_first_match_step(names: Seq<(usize, String)>, target: Seq<char>, i: int)
    requires
        0 <= i < names.len(),
        names[i].1@ != target,
    ensures
        first_match(names.skip(i), target) == first_match(names.skip(i + 1), target),
{
    assert(names.skip(i).len() == names.len() - i);
    assert(names.skip(i)[0] == names[i]);
    assert(names.skip(i).skip(1) =~= names.skip(i + 1));
}

fn scan_names(ns: &Vec<(usize, String)>, target: &str) -> (r: Option<usize>)
    ensures
        r == first_match(ns@, target@),
{
    let t: String = target.to_owned();
    let n = ns.len();
    let mut i: usize = 0;
    assert(ns@.skip(0) =~= ns@);
    while i < n
        invariant
            n == ns@.len(),
            0 <= i <= n,
            t@ == target@,
            first_match(ns@, target@) == first_match(ns@.skip(i as int), target@),
        decreases n - i,
    {
        if ns[i].1 == t {
            proof {
                assert(ns@.skip(i as int).len() == n - i);
                assert(ns@.skip(i as int)[0] == ns@[i as int]);
                assert(first_match(ns@.skip(i as int), target@) == Some(ns@[i as int].0));
            }
            return Some(ns[i].0);
        }
        proof {
            lemma_first_match_step(ns@, target@, i as int);
        }
        i = i + 1;
    }
    assert(ns@.skip(n as int) =~= Seq::<(usize, String)>::empty());
    None
}

fn find_in_names(names_opt: &Option<Vec<(usize, String)>>, target: &str) -> (r: Option<usize>)
    ensures
        r == spec_find_index(names_opt, target@),
{
    match names_opt {
        None => None,
        Some(ns) => scan_names(ns, target),
    }
}

/// A name that resolves resolves to an index recorded in the map, and a
/// sound map only records indices inside the matrix.
pub proof fn lemma_first_match_in_bounds(
    names: Seq<(usize, String)>,
    target: Seq<char>,
    ncols: int,
)
    requires
        forall|k: int| 0 <= k < names.len() ==> (#[trigger] names[k]).0 < ncols,
        first_match(names, target) is Some,
    ensures
        first_match(names, target)->0 < ncols,
    decreases names.len(),
{
    if names.len() == 0 {
    } else if names[0].1@ == target {
    } else {
        assert forall|k: int| 0 <= k < names.skip(1).len() implies (#[trigger] names.skip(1)[k]).0
            < ncols by {
            assert(names.skip(1)[k] == names[k + 1]);
        }
        lemma_first_match_in_bounds(names.skip(1), target, ncols);
    }
}

/// The numeric-map form of the bound: a resolved numeric column index is a
/// valid column of a well-formed matrix.
pub proof fn lemma_find_index_in_bounds(m: &MyMmMatrix, target: Seq<char>)
    requires
        m.wf(),
        spec_find_index(&m.colnames_enum_f64, target) is Some,
    ensures
        spec_find_index(&m.colnames_enum_f64, target)->0 < m.data_f64@.len(),
{
    match m.colnames_enum_f64 {
        Some(ns) => {
            lemma_first_match_in_bounds(ns@, target, m.data_f64@.len() as int);
        },
        None => {
            assert(false);
        },
    }
}

/// Repeated lookups of one name agree for as long as the name map does: any
/// operation that leaves the map untouched (scaling a column, replacing cell
/// values) cannot move a resolved index.
pub proof fn lemma_find_index_stable(m1: &MyMmMatrix, m2: &MyMmMatrix, target: Seq<char>)
    requires
        m1.colnames_enum_f64 == m2.colnames_enum_f64,
    ensures
        spec_find_index(&m1.colnames_enum_f64, target) == spec_find_index(
            &m2.colnames_enum_f64,
            target,
        ),
{
}

/// Whether `drop` lists the column position `j`.
pub open spec fn seq_contains_index(drop: Seq<usize>, j: int) -> bool {
    exists|l: int| 0 <= l < drop.len() && drop[l] == j
}

/// The columns of `s` whose position is absent from `drop`, in order.
pub open spec fn kept_cols(s: Seq<Seq<u64>>, drop: Seq<usize>) -> Seq<Seq<u64>>
    decreases s.len(),
{
    if s.len() == 0 {
        Seq::empty()
    } else if seq_contains_index(drop, s.len() - 1) {
        kept_cols(s.drop_last(), drop)
    } else {
        kept_cols(s.drop_last(), drop).push(s.last())
    }
}

/// The view of a column set as a sequence of cell sequences.
pub open spec fn cols_view(cols: Seq<Vec<u64>>) -> Seq<Seq<u64>> {
    cols.map_values(|c: Vec<u64>| c@)
}

/// One numeric column copied cell by cell.
pub(crate) fn copy_column(c: &Vec<u64>) -> (r: Vec<u64>)
    ensures
        r@ == c@,
{
    let mut out: Vec<u64> = Vec::new();
    let n = c.len();
    for i in 0..n
        invariant
            n == c@.len(),
            out@ == c@.take(i as int),
    {
        out.push(c[i]);
        proof {
            assert(out@ =~= c@.take(i + 1));
        }
    }
    proof {
        assert(c@.take(n as int) =~= c@);
    }
    out
}

/// The numeric columns whose indices are not listed in `drop`, in their
/// original order: the column-removal step that precedes the analytic
/// stages. Callers that need to map pruned results back to the original
/// index space must retain `drop`.
pub fn remove_columns_at(cols: &Vec<Vec<u64>>, drop: &Vec<usize>) -> (r: Vec<Vec<u64>>)
    ensures
        cols_view(r@) == kept_cols(cols_view(cols@), drop@),
{
    let n = cols.len();
    let mut out: Vec<Vec<u64>> = Vec::new();
    proof {
        assert(cols_view(cols@.take(0)) =~= Seq::<Seq<u64>>::empty());
    }
    for j in 0..n
        invariant
            n == cols@.len(),
            cols_view(out@) == kept_cols(cols_view(cols@.take(j as int)), drop@),
    {
        let mut dropped: bool = false;
        let dn = drop.len();
        for k in 0..dn
            invariant
                dn == drop@.len(),
                j < n,
                n == cols@.len(),
                dropped == exists|l: int| 0 <= l < k && drop@[l] == j,
        {
            if drop[k] == j {
                dropped = true;
            }
        }
        proof {
            assert(cols_view(cols@.take(j + 1)).drop_last() =~= cols_view(cols@.take(j as int)));
            assert(cols_view(cols@.take(j + 1)).last() == cols@[j as int]@);
            assert(dropped == seq_contains_index(drop@, j as int));
        }
        if !dropped {
            out.push(copy_column(&cols[j]));
            proof {
                assert(cols_view(out@) =~= kept_cols(cols_view(cols@.take(j + 1)), drop@));
            }
        } else {
            proof {
                assert(cols_view(out@) =~= kept_cols(cols_view(cols@.take(j + 1)), drop@));
            }
        }
    }
    proof {
        assert(cols_view(cols@.take(n as int)) =~= cols_view(cols@));
    }
    out
}

} // verus!
