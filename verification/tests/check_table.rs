use ci_core::{check_table, contingency_table, contingency_table_with_categories, build_global_category_map, ContingencyError, ContingencyTable};

#[test]
fn two_by_two_has_one_degree_of_freedom() {
    let table = contingency_table(&vec![1, 1, 2, 2], &vec![1, 2, 1, 2]);
    assert_eq!(check_table(&table), Ok(1));
}

#[test]
fn three_by_four_has_six_degrees_of_freedom() {
    let x = vec![1, 1, 1, 1, 2, 2, 2, 2, 3, 3, 3, 3];
    let y = vec![1, 2, 3, 4, 1, 2, 3, 4, 1, 2, 3, 4];
    let table = contingency_table(&x, &y);
    assert_eq!(check_table(&table), Ok(6));
}

#[test]
fn single_row_has_zero_degrees_of_freedom() {
    let table = contingency_table(&vec![1, 1, 1, 1], &vec![1, 2, 1, 2]);
    assert_eq!(check_table(&table), Ok(0));
}

#[test]
fn single_observation_has_zero_degrees_of_freedom() {
    let table = contingency_table(&vec![1], &vec![1]);
    assert_eq!(check_table(&table), Ok(0));
}

#[test]
fn empty_table_is_no_data() {
    let table = contingency_table(&Vec::new(), &Vec::new());
    assert_eq!(check_table(&table), Err(ContingencyError::NoData));
}

#[test]
fn table_without_columns_is_no_data() {
    let table = ContingencyTable { rows: vec![Vec::new(), Vec::new()], ncols: 0 };
    assert_eq!(check_table(&table), Err(ContingencyError::NoData));
}

#[test]
fn all_zero_table_has_zero_total() {
    let xm = build_global_category_map(&vec![1, 2]);
    let ym = build_global_category_map(&vec![1, 2]);
    let table = contingency_table_with_categories(&vec![3], &vec![3], &xm, &ym);
    assert_eq!(check_table(&table), Err(ContingencyError::ZeroTotal));
}

#[test]
fn empty_column_reports_first_cell_of_that_column() {
    let table = ContingencyTable { rows: vec![vec![1, 0, 2], vec![3, 0, 4]], ncols: 3 };
    assert_eq!(check_table(&table), Err(ContingencyError::ZeroExpected { row: 0, col: 1 }));
}

#[test]
fn empty_row_reports_its_first_cell() {
    let table = ContingencyTable { rows: vec![vec![1, 2], vec![3, 4], vec![0, 0]], ncols: 2 };
    assert_eq!(check_table(&table), Err(ContingencyError::ZeroExpected { row: 2, col: 0 }));
}
