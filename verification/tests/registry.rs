use ci_core::CITestDataType::{Continuous, Discrete, Mixed};
use ci_core::{RegistryError, TestIndex};

fn builtin_index() -> TestIndex {
    TestIndex::with_all_tests()
}

fn names_of(index: &TestIndex, indices: Vec<usize>) -> Vec<String> {
    indices.into_iter().map(|i| index.name(i).clone()).collect()
}

#[test]
fn test_registry_new() {
    let registry = builtin_index();
    assert_ne!(registry.len(), 0);
}

#[test]
fn test_get_test() {
    let registry = builtin_index();
    assert!(registry.find("chi_square").is_some());
    assert!(registry.find("dummy").is_none());
}

#[test]
fn test_all_tests() {
    let registry = builtin_index();
    assert!(!registry.all().unwrap().is_empty());
}

#[test]
fn test_tests_with_data_type_continuous() {
    let registry = builtin_index();
    let names = names_of(&registry, registry.with_data_type(Continuous).unwrap());
    for test in ["independence_match", "pearson_correlation", "pearson_equivalence"] {
        assert!(names.iter().any(|t| t == test));
    }
}

#[test]
fn test_tests_with_data_type_discrete() {
    let registry = builtin_index();
    let names = names_of(&registry, registry.with_data_type(Discrete).unwrap());
    for test in [
        "chi_square",
        "g_test",
        "independence_match",
        "likelihood_ratio",
        "modified_likelihood",
        "power_divergence",
    ] {
        assert!(names.iter().any(|t| t == test));
    }
}

#[test]
fn test_tests_with_data_type_mixed() {
    let registry = builtin_index();
    let names = names_of(&registry, registry.with_data_type(Mixed).unwrap());
    assert!(names.iter().any(|t| t == "independence_match"));
}

#[test]
fn names_are_found_in_any_case() {
    let registry = builtin_index();
    assert_eq!(registry.find("Chi_Square"), Some(0));
    assert_eq!(registry.find("G_TEST"), Some(3));
}

#[test]
fn names_are_stored_in_lowercase() {
    let mut index = TestIndex::new();
    assert_eq!(index.add("My_Test", vec![Mixed]), Some(0));
    assert_eq!(index.name(0), "my_test");
    assert_eq!(index.data_types(0), &vec![Mixed]);
}

#[test]
fn duplicate_names_are_refused_in_any_case() {
    let mut index = TestIndex::new();
    assert_eq!(index.add("chi_square", vec![Discrete]), Some(0));
    assert_eq!(index.add("CHI_SQUARE", vec![Continuous]), None);
    assert_eq!(index.len(), 1);
    assert_eq!(index.data_types(0), &vec![Discrete]);
}

#[test]
fn empty_index_has_no_tests() {
    let index = TestIndex::new();
    assert_eq!(index.all(), Err(RegistryError::Empty));
    assert_eq!(index.with_data_type(Discrete), Err(RegistryError::Empty));
    assert_eq!(index.find("chi_square"), None);
}

#[test]
fn tests_with_data_type_keep_registration_order() {
    let registry = builtin_index();
    assert_eq!(registry.with_data_type(Continuous).unwrap(), vec![4, 8, 9]);
    assert_eq!(registry.with_data_type(Mixed).unwrap(), vec![4]);
    assert_eq!(registry.all().unwrap(), (0..11).collect::<Vec<usize>>());
}

#[test]
fn added_test_is_found_at_its_index() {
    let mut index = TestIndex::new();
    assert_eq!(index.add("first", vec![Discrete]), Some(0));
    assert_eq!(index.add("Second", vec![Continuous]), Some(1));
    assert_eq!(index.find("SECOND"), Some(1));
    assert_eq!(index.find("first"), Some(0));
}

#[test]
fn builtin_tests_are_registered_in_order() {
    let registry = builtin_index();
    let names = names_of(&registry, registry.all().unwrap());
    assert_eq!(
        names,
        vec![
            "chi_square",
            "cressie_read",
            "freeman_tukey",
            "g_test",
            "independence_match",
            "likelihood_ratio",
            "log_likelihood",
            "modified_likelihood",
            "pearson_correlation",
            "pearson_equivalence",
            "power_divergence",
        ]
    );
    assert_eq!(registry.data_types(2), &vec![Discrete]);
    assert_eq!(registry.data_types(4), &vec![Continuous, Discrete, Mixed]);
}

#[test]
fn re_added_name_in_other_case_keeps_the_first_test() {
    let mut index = TestIndex::new();
    assert_eq!(index.add("Chi_Square", vec![Discrete]), Some(0));
    assert_eq!(index.add("CHI_SQUARE", vec![Continuous]), None);
    assert_eq!(index.find("chi_square"), Some(0));
    assert_eq!(index.data_types(0), &vec![Discrete]);
}
