use multimat::candles::{candles_pages, chunk_ranges, extract_range, get_candles_page, Cols, LcMatrix};
use multimat::error::CoreError;
use multimat::matrix::MyMmMatrix;
use multimat::timeops::{convert_nano_to_datetime, datetime_to_nanos, min_max_datetimes};
use multimat::window::{page_window, PageSpec};
use multimat::charts::ChartType;

fn chart_matrix(rows: usize) -> MyMmMatrix {
    let mut bin = Vec::new();
    let mut p0 = Vec::new();
    let mut pmax = Vec::new();
    let mut pmin = Vec::new();
    let mut p1 = Vec::new();
    for i in 0..rows {
        let x = i as f64;
        bin.push((1000.0 + x).to_bits());
        p0.push((10.0 + x).to_bits());
        pmax.push((20.0 + x).to_bits());
        pmin.push((5.0 + x).to_bits());
        p1.push((15.0 + x).to_bits());
    }
    MyMmMatrix::from_columns(
        vec![
            ("bin".to_owned(), bin),
            ("p0".to_owned(), p0),
            ("pmax".to_owned(), pmax),
            ("pmin".to_owned(), pmin),
            ("p1".to_owned(), p1),
        ],
        vec![],
    )
    .unwrap()
}

fn the_cols() -> Cols {
    Cols { t: 0, o: 1, h: 2, l: 3, c: 4 }
}

#[test]
fn window_beyond_rows_is_empty() {
    let m = chart_matrix(100);
    let page = PageSpec { page: 5, page_size: 20 };
    assert_eq!(page_window(page, 100), (100, 100));
    let out = candles_pages(&m, the_cols(), page);
    assert!(out.is_empty());
    let far = PageSpec { page: 1000, page_size: 1000 };
    assert!(candles_pages(&m, the_cols(), far).is_empty());
}

#[test]
fn window_saturates_on_huge_page() {
    let page = PageSpec { page: usize::MAX, page_size: 2 };
    assert_eq!(page_window(page, 10), (10, 10));
}

#[test]
fn window_clips_to_row_count() {
    let page = PageSpec { page: 1, page_size: 64 };
    assert_eq!(page_window(page, 100), (64, 100));
    let page0 = PageSpec { page: 0, page_size: 20 };
    assert_eq!(page_window(page0, 100), (0, 20));
}

#[test]
fn parallel_and_sequential_agree_on_first_page() {
    let m = chart_matrix(100);
    let cols = the_cols();
    let page = PageSpec { page: 0, page_size: 20 };
    let par = candles_pages(&m, cols, page);
    let seq = extract_range(&m, cols, 0, 20);
    assert_eq!(par.len(), 20);
    assert_eq!(par, seq);
    for (i, c) in par.iter().enumerate() {
        assert_eq!(c.t, (1000.0 + i as f64).to_bits());
        assert_eq!(c.o, (10.0 + i as f64).to_bits());
        assert_eq!(c.h, (20.0 + i as f64).to_bits());
        assert_eq!(c.l, (5.0 + i as f64).to_bits());
        assert_eq!(c.c, (15.0 + i as f64).to_bits());
    }
}

#[test]
fn parallel_and_sequential_agree_on_large_input() {
    let m = chart_matrix(40000);
    let cols = the_cols();
    let page = PageSpec { page: 0, page_size: 40000 };
    let par = candles_pages(&m, cols, page);
    let seq = extract_range(&m, cols, 0, 40000);
    assert_eq!(par, seq);
    assert_eq!(par.len(), 40000);
}

#[test]
fn chunks_tile_the_window_in_order() {
    let ranges = chunk_ranges(0, 100_000, 4);
    assert_eq!(ranges[0].0, 0);
    assert_eq!(ranges.last().unwrap().1, 100_000);
    for w in ranges.windows(2) {
        assert_eq!(w[0].1, w[1].0);
    }
    for &(s, e) in &ranges {
        assert!(s < e);
        assert!(e - s <= 12_500);
    }
    let small = chunk_ranges(10, 20, 4);
    assert_eq!(small, vec![(10, 20)]);
    let empty = chunk_ranges(7, 7, 4);
    assert!(empty.is_empty());
}

#[test]
fn get_candles_page_reads_named_columns() {
    let m = chart_matrix(100);
    let props = LcMatrix { matrix: m, y_axis: "price".to_owned(), parallel: true };
    let page = PageSpec { page: 0, page_size: 20 };
    let out = get_candles_page(&props, page).unwrap();
    assert_eq!(out.len(), 20);
    for (i, c) in out.iter().enumerate() {
        assert_eq!(c.t, (1000.0 + i as f64).to_bits());
    }
    let props_seq = LcMatrix { matrix: chart_matrix(100), y_axis: "price".to_owned(), parallel: false };
    let out_seq = get_candles_page(&props_seq, page).unwrap();
    assert_eq!(out, out_seq);
}

#[test]
fn get_candles_page_reports_first_missing_name() {
    let m = MyMmMatrix::from_columns(
        vec![
            ("bin".to_owned(), vec![0u64; 4]),
            ("p0".to_owned(), vec![0u64; 4]),
        ],
        vec![],
    )
    .unwrap();
    let props = LcMatrix { matrix: m, y_axis: "x".to_owned(), parallel: false };
    let r = get_candles_page(&props, PageSpec { page: 0, page_size: 2 });
    match r {
        Err(CoreError::NotFound(name)) => assert_eq!(name, "pmax".to_owned()),
        other => panic!("expected NotFound, got {:?}", other),
    }
}

#[test]
fn chart_type_names_round() {
    assert_eq!(ChartType::Line.as_str(), "line");
    assert_eq!(ChartType::Candle.as_str(), "candle");
    assert!(matches!(ChartType::from_str("candle"), ChartType::Candle));
    assert!(matches!(ChartType::from_str("line"), ChartType::Line));
    assert!(matches!(ChartType::from_str("pie"), ChartType::Line));
    assert_eq!(ChartType::from_usize_as_str(0), "line");
    assert_eq!(ChartType::from_usize_as_str(1), "candle");
    assert_eq!(ChartType::from_usize_as_str(7), "None");
}

#[test]
fn nanosecond_conversions_round() {
    assert_eq!(datetime_to_nanos(3, 500), 3_000_000_500);
    assert_eq!(convert_nano_to_datetime(3_000_000_500), (3, 500));
}

#[test]
fn min_max_scans_timestamps() {
    assert_eq!(min_max_datetimes(vec![]), None);
    assert_eq!(min_max_datetimes(vec![5]), Some((5, 5)));
    assert_eq!(min_max_datetimes(vec![9, 2, 7, 2, 11, 3]), Some((2, 11)));
}
