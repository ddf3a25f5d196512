use multimat::error::CoreError;
use multimat::kmeans::{assign_labels, below_tolerance, choose_k, kmeans_plan, nearest_centroid, weighted_pick, KmeansPlan};
use multimat::pca::{order_eigen, pca_plan, take_components, PcaPlan};
use multimat::variance::{expand_components, keep_variance, kept_indices, select_columns};

fn bits(xs: &[f64]) -> Vec<u64> {
    xs.iter().map(|x| x.to_bits()).collect()
}

#[test]
fn variance_filter_drops_below_threshold() {
    assert!(!keep_variance(0.0f64.to_bits()));
    assert!(!keep_variance(1e-13f64.to_bits()));
    assert!(keep_variance(1e-12f64.to_bits()));
    assert!(keep_variance(5.0f64.to_bits()));
    assert!(!keep_variance(f64::NAN.to_bits()));
    assert!(!keep_variance(f64::INFINITY.to_bits()));
    assert!(!keep_variance((-1.0f64).to_bits()));
}

#[test]
fn kept_indices_lists_survivors_ascending() {
    let vars = bits(&[0.0, 1e-13, 1e-12, 5.0, f64::NAN, 2.0]);
    assert_eq!(kept_indices(&vars), vec![2, 3, 5]);
    assert_eq!(kept_indices(&bits(&[0.0, 0.0])), Vec::<usize>::new());
}

#[test]
fn select_columns_picks_kept_in_order() {
    let cols = vec![bits(&[1.0]), bits(&[2.0]), bits(&[3.0])];
    let kept = vec![0usize, 2usize];
    let reduced = select_columns(&cols, &kept);
    assert_eq!(reduced, vec![bits(&[1.0]), bits(&[3.0])]);
}

#[test]
fn expansion_zero_fills_dropped_features() {
    let reduced = vec![bits(&[0.6, 0.8]), bits(&[-0.8, 0.6])];
    let kept = vec![0usize, 2usize];
    let ex = expand_components(&reduced, &kept, 4);
    assert_eq!(ex.len(), 2);
    for row in &ex {
        assert_eq!(row.len(), 4);
        assert_eq!(row[1], 0.0f64.to_bits());
        assert_eq!(row[3], 0.0f64.to_bits());
    }
    assert_eq!(ex[0][0], 0.6f64.to_bits());
    assert_eq!(ex[0][2], 0.8f64.to_bits());
    assert_eq!(ex[1][0], (-0.8f64).to_bits());
    assert_eq!(ex[1][2], 0.6f64.to_bits());
}

#[test]
fn pca_plan_single_sample_is_empty_not_an_error() {
    assert!(matches!(pca_plan(1, 3, 3, 2), PcaPlan::Degenerate));
    assert!(matches!(pca_plan(0, 3, 0, 2), PcaPlan::Degenerate));
    assert!(matches!(pca_plan(5, 0, 0, 2), PcaPlan::Degenerate));
}

#[test]
fn pca_plan_empty_when_nothing_kept() {
    assert!(matches!(pca_plan(5, 3, 0, 2), PcaPlan::NoVariance));
}

#[test]
fn pca_plan_clamps_requested_components() {
    assert!(matches!(pca_plan(10, 5, 5, 99), PcaPlan::Reduce { k: 5 }));
    assert!(matches!(pca_plan(10, 5, 5, 0), PcaPlan::Reduce { k: 1 }));
    assert!(matches!(pca_plan(10, 5, 5, 3), PcaPlan::Reduce { k: 3 }));
    assert!(matches!(pca_plan(3, 5, 5, 4), PcaPlan::Reduce { k: 2 }));
}

#[test]
fn eigen_order_is_descending_and_stable() {
    let vals = bits(&[1.0, 3.0, 2.0, 3.0]);
    let p = order_eigen(&vals).unwrap();
    assert_eq!(p, vec![1, 3, 2, 0]);
    let with_negatives = bits(&[-1.0, 0.5, -2.0]);
    assert_eq!(order_eigen(&with_negatives).unwrap(), vec![1, 0, 2]);
}

#[test]
fn eigen_order_rejects_non_finite() {
    let vals = bits(&[1.0, f64::NAN, 2.0]);
    assert!(matches!(order_eigen(&vals), Err(CoreError::NumericInstability)));
    let vals2 = bits(&[1.0, f64::INFINITY]);
    assert!(matches!(order_eigen(&vals2), Err(CoreError::NumericInstability)));
}

#[test]
fn leading_eigenvectors_follow_the_order() {
    let vecs = vec![bits(&[1.0, 0.0]), bits(&[0.0, 1.0]), bits(&[0.5, 0.5])];
    let p = vec![2usize, 0usize, 1usize];
    let top2 = take_components(&vecs, &p, 2);
    assert_eq!(top2, vec![bits(&[0.5, 0.5]), bits(&[1.0, 0.0])]);
}

#[test]
fn kmeans_plan_handles_degenerate_shapes() {
    assert!(matches!(kmeans_plan(0, 3), KmeansPlan::NoRows));
    assert!(matches!(kmeans_plan(4, 0), KmeansPlan::NoFeatures));
    assert!(matches!(kmeans_plan(4, 3), KmeansPlan::Run));
}

#[test]
fn cluster_count_heuristic_matches_rounded_sqrt() {
    assert_eq!(choose_k(1, None), 1);
    assert_eq!(choose_k(2, None), 2);
    assert_eq!(choose_k(4, None), 2);
    assert_eq!(choose_k(6, None), 2);
    assert_eq!(choose_k(7, None), 3);
    assert_eq!(choose_k(9, None), 3);
    assert_eq!(choose_k(50, None), 7);
    assert_eq!(choose_k(56, None), 7);
    assert_eq!(choose_k(57, None), 8);
    assert_eq!(choose_k(100, None), 8);
    assert_eq!(choose_k(1_000_000, None), 8);
}

#[test]
fn supplied_cluster_count_is_clamped() {
    assert_eq!(choose_k(10, Some(0)), 1);
    assert_eq!(choose_k(10, Some(4)), 4);
    assert_eq!(choose_k(10, Some(99)), 10);
}

#[test]
fn nearest_centroid_takes_first_minimum() {
    let d = bits(&[3.0, 1.0, 1.0, 2.0]);
    assert_eq!(nearest_centroid(&d), 1);
    assert_eq!(nearest_centroid(&bits(&[0.5])), 0);
    assert_eq!(nearest_centroid(&bits(&[2.0, f64::INFINITY, 1.0])), 2);
}

#[test]
fn labels_always_lie_in_cluster_range() {
    let rows = vec![
        bits(&[3.0, 1.0, 2.0]),
        bits(&[0.0, 5.0, 9.0]),
        bits(&[7.0, 7.0, 7.0]),
        bits(&[f64::INFINITY, 4.0, 4.0]),
    ];
    let labels = assign_labels(&rows, 3);
    assert_eq!(labels, vec![1, 0, 0, 1]);
    for &l in &labels {
        assert!(l < 3);
    }
}

#[test]
fn seeding_pick_follows_cumulative_weights() {
    let cum = bits(&[1.0, 3.0, 6.0]);
    assert_eq!(weighted_pick(&cum, 0.5f64.to_bits()), 0);
    assert_eq!(weighted_pick(&cum, 2.5f64.to_bits()), 1);
    assert_eq!(weighted_pick(&cum, 4.0f64.to_bits()), 2);
    assert_eq!(weighted_pick(&cum, 100.0f64.to_bits()), 2);
}

#[test]
fn tolerance_test_compares_shift() {
    assert!(below_tolerance(0.005f64.to_bits(), 0.01f64.to_bits()));
    assert!(!below_tolerance(0.02f64.to_bits(), 0.01f64.to_bits()));
    assert!(!below_tolerance(0.01f64.to_bits(), 0.01f64.to_bits()));
}
