use kohonen::data::DataFrame;
use kohonen::num::Num;

fn n(x: f64) -> Num {
    Num::from_bits(x.to_bits())
}

fn f(x: &Num) -> f64 {
    f64::from_bits(x.to_bits())
}

fn row(values: &[f64]) -> Vec<Num> {
    values.iter().map(|x| n(*x)).collect()
}

#[test]
fn create_df() {
    let cols = ["A", "B", "C", "D"];
    let rows = 100;
    let df = DataFrame::filled(rows, &cols, n(0.0));

    assert_eq!(df.ncols(), cols.len());
    assert_eq!(df.nrows(), rows);
    assert_eq!(df.data().len(), rows * cols.len());
}

#[test]
fn create_df_from_rows() {
    let cols = ["A", "B", "C", "D"];
    let data = vec![
        row(&[1.0, 2.0, 3.0, 4.0]),
        row(&[2.0, 3.0, 4.0, 5.]),
        row(&[3.0, 4.0, 5.0, 6.0]),
    ];
    let df = DataFrame::from_rows(&cols, &data);

    assert_eq!(df.ncols(), 4);
    assert_eq!(df.nrows(), 3);
    assert_eq!(df.get(1, 1), &n(3.0));
}

#[test]
fn add_rows() {
    let cols = ["A", "B", "C", "D"];
    let mut df = DataFrame::empty(&cols);

    df.push_row(&row(&[1.0, 2.0, 3.0, 4.0]));
    df.push_row(&row(&[2.0, 3.0, 4.0, 5.0]));
    df.push_row(&row(&[3.0, 4.0, 5.0, 6.0]));

    assert_eq!(df.ncols(), cols.len());
    assert_eq!(df.nrows(), 3);
    assert_eq!(df.data().len(), 3 * cols.len());

    assert_eq!(df.get_row(1), &row(&[2.0, 3.0, 4.0, 5.0])[..]);
    assert_eq!(df.get(1, 2), &n(4.0));
    assert_eq!(df.get_at(2), &n(3.0));
}

#[test]
fn iter_rows() {
    let cols = ["A", "B", "C", "D"];
    let rows = 10;
    let mut df = DataFrame::empty(&cols);

    for _i in 0..rows {
        df.push_row(&row(&[1.0, 2.0, 3.0, 4.0]));
    }

    let mut cnt = 0;
    for _row in df.iter_rows() {
        cnt += 1;
    }

    assert_eq!(cnt, rows);
}

#[test]
fn ranges() {
    let cols = ["A", "B", "C", "D"];
    let mut df = DataFrame::empty(&cols);

    df.push_row(&row(&[1.0, 2.0, 3.0, 4.0]));
    df.push_row(&row(&[2.0, 3.0, 4.0, 5.0]));
    df.push_row(&row(&[3.0, 4.0, 5.0, 6.0]));

    let ranges: Vec<(f64, f64)> = df.ranges().iter().map(|(a, b)| (f(a), f(b))).collect();

    assert_eq!(ranges, vec![(1.0, 3.0), (2.0, 4.0), (3.0, 5.0), (4.0, 6.0)]);
}

#[test]
fn ranges_skip_missing_values() {
    let cols = ["A", "B", "C"];
    let mut df = DataFrame::empty(&cols);
    df.push_row(&row(&[f64::NAN, 2.0, f64::NAN]));
    df.push_row(&row(&[-4.0, f64::NAN, f64::NAN]));
    df.push_row(&row(&[7.5, -1.0, f64::NAN]));
    df.push_row(&row(&[f64::INFINITY, 0.0, f64::NAN]));

    let ranges = df.ranges();
    assert_eq!(f(&ranges[0].0), -4.0);
    assert_eq!(f(&ranges[0].1), f64::INFINITY);
    assert_eq!(f(&ranges[1].0), -1.0);
    assert_eq!(f(&ranges[1].1), 2.0);
    assert!(f(&ranges[2].0).is_nan());
    assert!(f(&ranges[2].1).is_nan());
}

#[test]
fn ranges_of_an_empty_frame_are_missing() {
    let df = DataFrame::empty(&["A", "B"]);
    let ranges = df.ranges();
    assert_eq!(ranges.len(), 2);
    assert!(ranges[0].0.is_nan() && ranges[0].1.is_nan());
    assert!(ranges[1].0.is_nan() && ranges[1].1.is_nan());
}

#[test]
fn names_are_kept() {
    let df = DataFrame::filled(2, &["x", "y"], n(1.5));
    assert_eq!(df.names(), &["x".to_string(), "y".to_string()][..]);
    assert_eq!(df.data(), &row(&[1.5, 1.5, 1.5, 1.5])[..]);
}

#[test]
fn cells_are_set_and_read() {
    let mut df = DataFrame::filled(3, &["a", "b"], n(0.0));
    df.set(1, 1, n(4.0));
    df.set_at(4, n(5.0));
    *df.get_mut(0, 1) = n(6.0);
    *df.get_mut_at(0) = n(7.0);
    assert_eq!(df.data(), &row(&[7.0, 6.0, 0.0, 4.0, 5.0, 0.0])[..]);
    assert_eq!(df.get(2, 0), &n(5.0));
    assert_eq!(df.index(2, 1), 5);
    assert_eq!(df.to_row_col(5), (2, 1));
    assert_eq!(df.to_row_col(2), (1, 0));
    assert_eq!(df.copy_column(1), row(&[6.0, 4.0, 0.0]));
    assert_eq!(df.nrows(), 3);
    assert_eq!(df.ncols(), 2);
}

#[test]
fn rows_are_pushed_whole() {
    let mut df = DataFrame::empty(&["a", "b"]);
    df.push_row_iter(row(&[1.0, 2.0]));
    df.push_row(&row(&[3.0, 4.0]));
    assert_eq!(df.nrows(), 2);
    let rows = df.iter_rows();
    assert_eq!(rows[0], &row(&[1.0, 2.0])[..]);
    assert_eq!(rows[1], &row(&[3.0, 4.0])[..]);
}

#[test]
fn columns_are_selected() {
    let data = vec![row(&[1.0, 2.0, 3.0]), row(&[4.0, 5.0, 6.0])];
    let df = DataFrame::from_rows(&["a", "b", "c"], &data);
    let picked = df.select(&[2, 0]);
    assert_eq!(picked.names(), &["c".to_string(), "a".to_string()][..]);
    assert_eq!(picked.nrows(), 2);
    assert_eq!(picked.data(), &row(&[3.0, 1.0, 6.0, 4.0])[..]);
    let none = df.select(&[]);
    assert_eq!(none.ncols(), 0);
    assert_eq!(none.nrows(), 2);
}

#[test]
fn frame_without_columns_counts_rows() {
    let mut df = DataFrame::empty(&[]);
    df.push_row(&[]);
    df.push_row(&[]);
    assert_eq!(df.nrows(), 2);
    assert_eq!(df.ncols(), 0);
    assert_eq!(df.data().len(), 0);
    assert_eq!(df.ranges().len(), 0);
}

#[test]
fn present_cells_are_counted() {
    let mut df = DataFrame::empty(&["A", "B", "C"]);
    df.push_row(&row(&[f64::NAN, 2.0, f64::NAN]));
    df.push_row(&row(&[-4.0, f64::NAN, f64::NAN]));
    df.push_row(&row(&[7.5, f64::INFINITY, f64::NAN]));
    assert_eq!(df.counts(), vec![2, 2, 0]);
    assert_eq!(DataFrame::empty(&["A"]).counts(), vec![0]);
}
