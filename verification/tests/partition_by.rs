use ci_core::{partition_by, KeyMatrix};

/// A key that orders and compares floats as a total order: NaN is one value,
/// above every number, and `-0.0` equals `0.0`.
fn key(v: f64) -> u64 {
    if v.is_nan() {
        return u64::MAX;
    }
    let v = if v == 0.0 { 0.0 } else { v };
    let bits = v.to_bits();
    if bits >> 63 == 1 {
        !bits
    } else {
        bits | (1 << 63)
    }
}

fn matrix(rows: &[&[f64]], ncols: usize) -> KeyMatrix {
    KeyMatrix {
        rows: rows.iter().map(|r| r.iter().map(|&v| key(v)).collect()).collect(),
        ncols,
    }
}

#[test]
fn simple_grouping() {
    let data = matrix(&[&[1.0, 10.0], &[1.0, 10.0], &[2.0, 30.0]], 2);

    let result = partition_by(&data);

    assert_eq!(result.len(), 2);
}

#[test]
fn test_empty_array() {
    let data = KeyMatrix { rows: Vec::new(), ncols: 2 };
    let result = partition_by(&data);

    assert!(result.is_empty());
}

#[test]
fn test_singleton_groups() {
    let data = matrix(&[&[1.0, 10.0], &[2.0, 20.0], &[3.0, 30.0]], 2);

    let result = partition_by(&data);

    assert_eq!(result.len(), 3);
    assert!(result.iter().all(|g| g.len() == 1));
}

#[test]
fn test_single_partition() {
    let data = matrix(&[&[1.0, 10.0], &[1.0, 10.0], &[1.0, 10.0]], 2);

    let result = partition_by(&data);

    assert_eq!(result.len(), 1);
    assert_eq!(result[0].len(), 3);
}

#[test]
fn float_rounding() {
    let data = matrix(&[&[1.0, 10.0], &[1.0000000001, 10.0]], 2);

    let result = partition_by(&data);

    assert_eq!(result.len(), 2);
}

#[test]
fn multiple_columns() {
    let data = matrix(
        &[
            &[1.0, 2.0, 10.0],
            &[1.0, 2.0, 10.0],
            &[1.0, 3.0, 30.0],
            &[2.0, 2.0, 40.0],
        ],
        3,
    );

    let result = partition_by(&data);
    assert_eq!(result.len(), 3);

    assert!(result.iter().any(|g| g.len() == 2));
}

#[test]
fn groups_come_in_order_of_first_row() {
    let data = matrix(&[&[2.0], &[1.0], &[2.0], &[3.0], &[1.0]], 1);

    let result = partition_by(&data);

    assert_eq!(result, vec![vec![0, 2], vec![1, 4], vec![3]]);
}

#[test]
fn nan_rows_form_one_group() {
    let data = matrix(&[&[f64::NAN], &[0.0], &[f64::NAN], &[-0.0]], 1);

    let result = partition_by(&data);

    assert_eq!(result, vec![vec![0, 2], vec![1, 3]]);
}

#[test]
fn rows_without_columns_form_one_group() {
    let data = KeyMatrix { rows: vec![Vec::new(), Vec::new(), Vec::new()], ncols: 0 };

    let result = partition_by(&data);

    assert_eq!(result, vec![vec![0, 1, 2]]);
}
