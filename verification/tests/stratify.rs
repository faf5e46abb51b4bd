use ci_core::{stratify, ContingencyError, KeyMatrix};

fn z_column(values: &[u64]) -> KeyMatrix {
    KeyMatrix { rows: values.iter().map(|&v| vec![v]).collect(), ncols: 1 }
}

fn no_conditioning() -> KeyMatrix {
    KeyMatrix { rows: Vec::new(), ncols: 0 }
}

#[test]
fn unconditional_gives_one_table() {
    let x = vec![1, 1, 2, 2, 1, 1, 2, 2];
    let y = vec![1, 2, 1, 2, 1, 2, 1, 2];
    let s = stratify(&no_conditioning(), &x, &y).unwrap();
    assert_eq!(s.tables.len(), 1);
    assert_eq!(s.tables[0].rows, vec![vec![2, 2], vec![2, 2]]);
    assert_eq!(s.degrees_of_freedom, 1);
}

#[test]
fn unconditional_single_category_keeps_its_table() {
    let x = vec![1, 1, 1, 1];
    let y = vec![1, 2, 1, 2];
    let s = stratify(&no_conditioning(), &x, &y).unwrap();
    assert_eq!(s.tables.len(), 1);
    assert_eq!(s.tables[0].rows, vec![vec![2, 2]]);
    assert_eq!(s.degrees_of_freedom, 0);
}

#[test]
fn two_strata_each_contribute_one_degree_of_freedom() {
    let x = vec![1, 1, 2, 2, 1, 1, 2, 2];
    let y = vec![1, 2, 1, 2, 1, 2, 1, 2];
    let z = z_column(&[0, 0, 0, 0, 1, 1, 1, 1]);
    let s = stratify(&z, &x, &y).unwrap();
    assert_eq!(s.degrees_of_freedom, 2);
    assert_eq!(s.tables.len(), 2);
    assert_eq!(s.tables[0].rows, vec![vec![1, 1], vec![1, 1]]);
    assert_eq!(s.tables[1].rows, vec![vec![1, 1], vec![1, 1]]);
}

#[test]
fn dependent_strata_keep_their_counts() {
    let x = vec![1, 1, 2, 2, 1, 1, 2, 2];
    let y = vec![1, 1, 2, 2, 1, 1, 2, 2];
    let z = z_column(&[0, 0, 0, 0, 1, 1, 1, 1]);
    let s = stratify(&z, &x, &y).unwrap();
    assert_eq!(s.degrees_of_freedom, 2);
    assert_eq!(s.tables[0].rows, vec![vec![2, 0], vec![0, 2]]);
}

#[test]
fn stratum_missing_a_category_is_rejected() {
    // Each stratum has one value of x; the shared categories give it an empty row.
    let x = vec![1, 1, 2, 2];
    let y = vec![1, 2, 1, 2];
    let z = z_column(&[0, 0, 1, 1]);
    assert_eq!(stratify(&z, &x, &y).err(), Some(ContingencyError::ZeroExpected { row: 1, col: 0 }));
}

#[test]
fn singleton_stratum_is_rejected() {
    // The second row of z is on its own; its table has empty rows and columns.
    let x = vec![1, 1, 2, 2];
    let y = vec![1, 2, 1, 2];
    let z = z_column(&[0, u64::MAX, 0, 1]);
    assert_eq!(stratify(&z, &x, &y).err(), Some(ContingencyError::ZeroExpected { row: 0, col: 1 }));
}

#[test]
fn unconditional_empty_data_is_rejected() {
    assert_eq!(stratify(&no_conditioning(), &Vec::new(), &Vec::new()).err(), Some(ContingencyError::NoData));
}

#[test]
fn conditioning_set_without_rows_gives_no_tables() {
    let z = KeyMatrix { rows: Vec::new(), ncols: 1 };
    let s = stratify(&z, &vec![1, 2], &vec![1, 2]).unwrap();
    assert!(s.tables.is_empty());
    assert_eq!(s.degrees_of_freedom, 0);
}

#[test]
fn strata_with_zero_degrees_of_freedom_are_left_out() {
    let x = vec![1, 1, 1, 1];
    let y = vec![1, 2, 1, 2];
    let z = z_column(&[0, 0, 1, 1]);
    let s = stratify(&z, &x, &y).unwrap();
    assert!(s.tables.is_empty());
    assert_eq!(s.degrees_of_freedom, 0);
}

#[test]
fn constant_conditioning_matches_no_conditioning() {
    let x = vec![1, 1, 2, 2, 1, 2];
    let y = vec![1, 2, 1, 2, 2, 1];
    let z = z_column(&[7, 7, 7, 7, 7, 7]);
    let with = stratify(&z, &x, &y).unwrap();
    let without = stratify(&no_conditioning(), &x, &y).unwrap();
    assert_eq!(with.degrees_of_freedom, without.degrees_of_freedom);
    assert_eq!(with.tables[0].rows, without.tables[0].rows);
}

#[test]
fn every_stratum_has_the_full_shape() {
    let x = vec![1, 2, 3, 1, 2, 3];
    let y = vec![1, 2, 1, 2, 1, 2];
    let z = z_column(&[0, 0, 0, 1, 1, 1]);
    let s = stratify(&z, &x, &y).unwrap();
    assert_eq!(s.tables.len(), 2);
    for t in &s.tables {
        assert_eq!(t.rows.len(), 3);
        assert_eq!(t.ncols, 2);
    }
    assert_eq!(s.degrees_of_freedom, 4);
}
