use ci_core::{build_global_category_map, contingency_table, contingency_table_with_categories};

fn keys(values: &[u64]) -> Vec<u64> {
    values.to_vec()
}

#[test]
fn test_contingency_table() {
    // basic test
    let test1_x = keys(&[1, 2, 3, 1, 1]);
    let test1_y = keys(&[1, 2, 3, 1, 2]);
    let test1_expected = vec![vec![2, 1, 0], vec![0, 1, 0], vec![0, 0, 1]];
    let table = contingency_table(&test1_x, &test1_y);
    assert_eq!(test1_expected, table.rows);
    assert_eq!(table.ncols, 3);

    // order independence
    let test2_x = keys(&[2, 1, 1, 3, 1]);
    let test2_y = keys(&[2, 1, 2, 3, 1]);
    assert_eq!(test1_expected, contingency_table(&test2_x, &test2_y).rows);

    // single value
    let test3_x = keys(&[1, 1, 1]);
    let test3_y = keys(&[2, 2, 2]);
    let test3_expected = vec![vec![3]];
    assert_eq!(test3_expected, contingency_table(&test3_x, &test3_y).rows);
}

#[test]
fn category_map_numbers_values_in_increasing_order() {
    let map = build_global_category_map(&vec![30, 10, 20, 10, 30]);
    assert_eq!(map.len(), 3);
    assert_eq!(map[&10], 0);
    assert_eq!(map[&20], 1);
    assert_eq!(map[&30], 2);
}

#[test]
fn category_map_of_nothing_is_empty() {
    let map = build_global_category_map(&Vec::new());
    assert!(map.is_empty());
}

#[test]
fn table_total_is_number_of_observations() {
    let x = keys(&[5, 7, 5, 9, 7, 5]);
    let y = keys(&[1, 1, 2, 2, 1, 1]);
    let table = contingency_table(&x, &y);
    assert_eq!(table.total(), 6);
    assert_eq!(table.row_sums(), vec![3, 2, 1]);
    assert_eq!(table.col_sums(), vec![4, 2]);
}

#[test]
fn longer_second_column_adds_columns_but_not_counts() {
    let x = keys(&[1, 2]);
    let y = keys(&[1, 2, 3]);
    let table = contingency_table(&x, &y);
    assert_eq!(table.rows, vec![vec![1, 0, 0], vec![0, 1, 0]]);
}

#[test]
fn shared_maps_fix_the_shape() {
    let all_x = keys(&[1, 2, 3]);
    let all_y = keys(&[4, 5]);
    let xm = build_global_category_map(&all_x);
    let ym = build_global_category_map(&all_y);
    let table = contingency_table_with_categories(&keys(&[2, 2]), &keys(&[5, 4]), &xm, &ym);
    assert_eq!(table.rows, vec![vec![0, 0], vec![1, 1], vec![0, 0]]);
    assert_eq!(table.ncols, 2);
}

#[test]
fn values_unknown_to_the_maps_are_not_counted() {
    let xm = build_global_category_map(&keys(&[1, 2]));
    let ym = build_global_category_map(&keys(&[1, 2]));
    let table = contingency_table_with_categories(&keys(&[1, 3, 2]), &keys(&[9, 1, 2]), &xm, &ym);
    assert_eq!(table.rows, vec![vec![0, 0], vec![0, 1]]);
    assert_eq!(table.total(), 1);
}
