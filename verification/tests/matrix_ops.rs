use multimat::fbits::{EPS_BITS, F64_ONE_BITS, is_finite, is_zero_value, sanitize_value, std_or_one, total_key};
use multimat::matrix::{MyMmMatrix, remove_columns_at};

fn bits(xs: &[f64]) -> Vec<u64> {
    xs.iter().map(|x| x.to_bits()).collect()
}

#[test]
fn eps_bits_is_one_trillionth() {
    assert_eq!(EPS_BITS, 1e-12f64.to_bits());
    assert_eq!(F64_ONE_BITS, 1.0f64.to_bits());
}

#[test]
fn is_finite_matches_f64() {
    for x in [0.0, -0.0, 1.5, -2.25, f64::MAX, f64::MIN_POSITIVE] {
        assert!(is_finite(x.to_bits()));
    }
    assert!(!is_finite(f64::NAN.to_bits()));
    assert!(!is_finite(f64::INFINITY.to_bits()));
    assert!(!is_finite(f64::NEG_INFINITY.to_bits()));
}

#[test]
fn sanitize_flushes_non_finite_to_zero() {
    assert_eq!(sanitize_value(f64::NAN.to_bits()), 0.0f64.to_bits());
    assert_eq!(sanitize_value(f64::INFINITY.to_bits()), 0.0f64.to_bits());
    assert_eq!(sanitize_value(f64::NEG_INFINITY.to_bits()), 0.0f64.to_bits());
    assert_eq!(sanitize_value((-1.5f64).to_bits()), (-1.5f64).to_bits());
}

#[test]
fn total_key_orders_like_total_cmp() {
    let mut vals = vec![2.5f64, -1.5, 0.0, -0.0, f64::INFINITY, f64::NEG_INFINITY, -123.0, 7e300];
    let mut by_key = vals.clone();
    vals.sort_by(|a, b| a.total_cmp(b));
    by_key.sort_by_key(|x| total_key(x.to_bits()));
    let a: Vec<u64> = vals.iter().map(|x| x.to_bits()).collect();
    let b: Vec<u64> = by_key.iter().map(|x| x.to_bits()).collect();
    assert_eq!(a, b);
}

#[test]
fn zero_guard_accepts_both_signed_zeros() {
    assert!(is_zero_value(0.0f64.to_bits()));
    assert!(is_zero_value((-0.0f64).to_bits()));
    assert!(!is_zero_value(1.0f64.to_bits()));
    assert!(!is_zero_value(f64::MIN_POSITIVE.to_bits()));
}

#[test]
fn std_guard_replaces_degenerate_with_one() {
    assert_eq!(std_or_one(0.5f64.to_bits()), 0.5f64.to_bits());
    assert_eq!(std_or_one(1e-13f64.to_bits()), 1.0f64.to_bits());
    assert_eq!(std_or_one(0.0f64.to_bits()), 1.0f64.to_bits());
    assert_eq!(std_or_one((-3.0f64).to_bits()), 1.0f64.to_bits());
    assert_eq!(std_or_one(f64::NAN.to_bits()), 1.0f64.to_bits());
    assert_eq!(std_or_one(1e-12f64.to_bits()), 1e-12f64.to_bits());
}

#[test]
fn new_matrices_are_zeroed() {
    let m = MyMmMatrix::new(3, 2);
    assert_eq!(m.dimmensions(), (3, 2));
    for col in m.inner_ref() {
        assert_eq!(col.len(), 3);
        for &v in col {
            assert_eq!(v, 0.0f64.to_bits());
        }
    }
    let m10 = MyMmMatrix::new10x();
    assert_eq!(m10.dimmensions(), (10, 10));
}

#[test]
fn from_wraps_columns_without_names() {
    let cols = vec![bits(&[1.0, 2.0]), bits(&[3.0, 4.0])];
    let m = MyMmMatrix::from(cols.clone(), 2);
    assert_eq!(m.data_f64, cols);
    assert!(m.colnames_enum_f64.is_none());
    assert_eq!(m.find_index_f64("anything"), None);
}

#[test]
fn from_columns_builds_both_maps_and_sanitizes() {
    let m = MyMmMatrix::from_columns(
        vec![
            ("price".to_owned(), bits(&[1.0, f64::NAN, 3.0])),
            ("volume".to_owned(), bits(&[4.0, 5.0, f64::INFINITY])),
        ],
        vec![("ticker".to_owned(), vec!["a".to_owned(), "b".to_owned(), "c".to_owned()])],
    )
    .unwrap();
    assert_eq!(m.dimmensions(), (3, 2));
    assert_eq!(m.find_index_f64("price"), Some(0));
    assert_eq!(m.find_index_f64("volume"), Some(1));
    assert_eq!(m.find_index_f64("ticker"), None);
    assert_eq!(m.find_index_str("ticker"), Some(0));
    assert_eq!(m.data_f64[0][1], 0.0f64.to_bits());
    assert_eq!(m.data_f64[1][2], 0.0f64.to_bits());
    assert_eq!(m.data_f64[0][0], 1.0f64.to_bits());
    assert_eq!(m.data_str[0][2], "c".to_owned());
}

#[test]
fn from_columns_rejects_duplicate_names() {
    let r = MyMmMatrix::from_columns(
        vec![
            ("price".to_owned(), bits(&[1.0])),
            ("price".to_owned(), bits(&[2.0])),
        ],
        vec![],
    );
    assert!(r.is_none());
}

#[test]
fn from_columns_rejects_ragged_columns() {
    let r = MyMmMatrix::from_columns(
        vec![
            ("a".to_owned(), bits(&[1.0, 2.0])),
            ("b".to_owned(), bits(&[3.0])),
        ],
        vec![],
    );
    assert!(r.is_none());
}

#[test]
fn find_index_is_stable_across_lookups() {
    let m = MyMmMatrix::from_columns(
        vec![
            ("bin".to_owned(), bits(&[1.0, 2.0])),
            ("p0".to_owned(), bits(&[3.0, 4.0])),
        ],
        vec![],
    )
    .unwrap();
    let first = m.find_index_f64("p0");
    for _ in 0..10 {
        assert_eq!(m.find_index_f64("p0"), first);
    }
    assert_eq!(first, Some(1));
}

#[test]
fn head_returns_top_left_corner() {
    let m = MyMmMatrix::from(vec![bits(&[1.0, 2.0, 3.0]), bits(&[4.0, 5.0, 6.0])], 3);
    let h = m.head((2, 1));
    assert_eq!(h.len(), 1);
    assert_eq!(h[0], bits(&[1.0, 2.0]));
}

#[test]
fn remove_columns_compacts_in_order() {
    let cols = vec![bits(&[1.0]), bits(&[2.0]), bits(&[3.0]), bits(&[4.0])];
    let kept = remove_columns_at(&cols, &vec![1, 3]);
    assert_eq!(kept, vec![bits(&[1.0]), bits(&[3.0])]);
    let none_dropped = remove_columns_at(&cols, &vec![]);
    assert_eq!(none_dropped, cols);
}
