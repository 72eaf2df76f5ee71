//! The conditional tests: branch routing, missing handling, and sizes.
use rivu::conditional_tests::{
    NominalAttributeBinaryTest, NominalAttributeMultiwayTest, NumericAttributeBinaryTest,
};
use rivu::instances::{AttributeValue, Instance};

/// An instance over nominal columns; NaN marks a missing cell.
fn nominal_instance(values: &[f64], class_idx: usize) -> Instance {
    let cells = values
        .iter()
        .map(|&v| {
            if v.is_nan() {
                None
            } else {
                Some(AttributeValue::Nominal(v as usize))
            }
        })
        .collect();
    Instance::new(cells, class_idx, 1.0f64.to_bits())
}

/// The order key of a finite 64-bit float: an unsigned integer that
/// compares the way the float does.
fn numeric_key(v: f64) -> u64 {
    let v = if v == 0.0 { 0.0 } else { v };
    let b = v.to_bits();
    if b >> 63 == 1 { !b } else { b | (1u64 << 63) }
}

/// An instance over numeric columns; NaN marks a missing cell.
fn numeric_instance(values: &[f64], class_idx: usize) -> Instance {
    let cells = values
        .iter()
        .map(|&v| {
            if v.is_nan() {
                None
            } else {
                Some(AttributeValue::Numeric(numeric_key(v)))
            }
        })
        .collect();
    Instance::new(cells, class_idx, 1.0f64.to_bits())
}

#[test]
fn test_branch_for_instance_returns_zero_when_value_matches() {
    let test = NominalAttributeBinaryTest::new(0, 1);
    let instance = nominal_instance(&[1.0, 0.0, 0.0], 2);

    let branch = test.branch_for_instance(&instance).unwrap();
    assert_eq!(branch, 0);
}

#[test]
fn test_branch_for_instance_returns_one_when_value_differs() {
    let test = NominalAttributeBinaryTest::new(0, 2);
    let instance = nominal_instance(&[1.0, 0.0], 2);

    let branch = test.branch_for_instance(&instance).unwrap();
    assert_eq!(branch, 1);
}

#[test]
fn test_branch_for_instance_returns_none_when_missing() {
    let test = NominalAttributeBinaryTest::new(2, 1);
    let instance = nominal_instance(&[0.0, 1.0], 3);

    let branch = test.branch_for_instance(&instance);
    assert!(branch.is_none());
}

#[test]
fn test_branch_for_instance_with_class_index_shift() {
    let test = NominalAttributeBinaryTest::new(2, 1);
    let instance = nominal_instance(&[0.0, 1.0, 1.0, 1.0], 1);

    let branch = test.branch_for_instance(&instance).unwrap();
    assert_eq!(branch, 0);
}

#[test]
fn nominal_attribute_binary_test_test_result_known_for_instance_true_only_if_branch_zero() {
    let test = NominalAttributeBinaryTest::new(1, 1);
    let instance_match = nominal_instance(&[1.0, 1.0], 2);
    let instance_diff = nominal_instance(&[2.0, 2.0], 2);
    let instance_missing = nominal_instance(&[0.0], 2);

    assert!(test.result_known_for_instance(&instance_match));
    assert!(!test.result_known_for_instance(&instance_diff));
    assert!(!test.result_known_for_instance(&instance_missing));
}

#[test]
fn test_max_branches() {
    let test = NominalAttributeBinaryTest::new(0, 1);
    assert_eq!(test.max_branches(), 2);
}

#[test]
fn test_get_atts_test_depends_on_return_correct_attribute() {
    let test = NominalAttributeBinaryTest::new(5, 3);
    assert_eq!(test.get_atts_test_depends_on(), vec![5]);
}

#[test]
fn test_calc_byte_size() {
    let test = NominalAttributeBinaryTest::new(0, 1);
    assert_eq!(
        test.calc_memory_size(),
        std::mem::size_of::<NominalAttributeBinaryTest>()
    );
}

#[test]
fn test_clone_box() {
    let test = NominalAttributeBinaryTest::new(0, 1);
    let clone = test.clone();

    let instance = nominal_instance(&[1.0, 0.0], 2);
    assert_eq!(
        test.branch_for_instance(&instance),
        clone.branch_for_instance(&instance)
    );
}

#[test]
fn test_branch_for_instance_returns_value_as_branch_index() {
    let test = NominalAttributeMultiwayTest::new(1);
    let instance = nominal_instance(&[0.0, 3.0, 2.0], 2);

    let branch = test.branch_for_instance(&instance);
    assert!(branch.is_some());
    assert_eq!(branch, Some(3));
}

#[test]
fn test_branch_for_instance_returns_none_for_missing() {
    let test = NominalAttributeMultiwayTest::new(2);
    let instance = nominal_instance(&[0.0, 2.0], 2);

    let branch = test.branch_for_instance(&instance);
    assert!(branch.is_none());
}

#[test]
fn nominal_attribute_multiway_test_test_result_known_for_instance_true_only_if_branch_zero() {
    let test = NominalAttributeMultiwayTest::new(0);

    let instance_zero = nominal_instance(&[0.0, 2.0], 1);
    let instance_nonzero = nominal_instance(&[1.0, 2.0], 1);
    let instance_missing = nominal_instance(&[], 1);

    assert!(test.result_known_for_instance(&instance_zero));
    assert!(!test.result_known_for_instance(&instance_nonzero));
    assert!(!test.result_known_for_instance(&instance_missing));
}

#[test]
fn test_max_branches_is_usize_max() {
    let test = NominalAttributeMultiwayTest::new(0);
    assert_eq!(test.max_branches(), usize::MAX);
}

#[test]
fn nominal_attribute_multiway_test_test_get_atts_test_depends_on_returns_correct_attribute() {
    let test = NominalAttributeMultiwayTest::new(7);
    assert_eq!(test.get_atts_test_depends_on(), vec![7]);
}

#[test]
fn test_branch_for_instance_returns_zero_when_value_less_then_split() {
    let test = NumericAttributeBinaryTest::new(0, numeric_key(5.0), true);
    let instance = numeric_instance(&[3.0], 1);

    let branch = test.branch_for_instance(&instance).unwrap();
    assert_eq!(branch, 0);
}

#[test]
fn test_branch_for_instance_returns_one_when_value_greater_then_split() {
    let test = NumericAttributeBinaryTest::new(0, numeric_key(5.0), true);
    let instance = numeric_instance(&[8.0], 1);

    let branch = test.branch_for_instance(&instance).unwrap();
    assert_eq!(branch, 1);
}

#[test]
fn test_branch_for_instance_returns_zero_when_value_equals_split_and_equals_passes_true() {
    let test = NumericAttributeBinaryTest::new(0, numeric_key(5.0), true);
    let instance = numeric_instance(&[5.0], 1);

    let branch = test.branch_for_instance(&instance).unwrap();
    assert_eq!(branch, 0);
}

#[test]
fn test_branch_for_instance_returns_one_when_value_equals_split_and_equals_passes_false() {
    let test = NumericAttributeBinaryTest::new(0, numeric_key(5.0), false);
    let instance = numeric_instance(&[5.0], 1);

    let branch = test.branch_for_instance(&instance).unwrap();
    assert_eq!(branch, 1);
}

#[test]
fn test_branch_for_instance_returns_none_when_value_missing() {
    let test = NumericAttributeBinaryTest::new(1, numeric_key(5.0), true);
    let instance = numeric_instance(&[0.0], 1);

    let branch = test.branch_for_instance(&instance);
    assert!(branch.is_none());
}

#[test]
fn numeric_attribute_binary_test_test_result_known_for_instance_true_only_if_branch_zero() {
    let test = NumericAttributeBinaryTest::new(0, numeric_key(5.0), true);
    let instance_low = numeric_instance(&[3.0], 1);
    let instance_equal = numeric_instance(&[5.0], 1);
    let instance_high = numeric_instance(&[10.0], 1);

    assert!(test.result_known_for_instance(&instance_low));
    assert!(test.result_known_for_instance(&instance_equal));
    assert!(!test.result_known_for_instance(&instance_high));
}

#[test]
fn test_max_branches_is_two() {
    let test = NumericAttributeBinaryTest::new(0, numeric_key(3.5), true);
    assert_eq!(test.max_branches(), 2);
}

#[test]
fn numeric_attribute_binary_test_test_get_atts_test_depends_on_returns_correct_attribute() {
    let test = NumericAttributeBinaryTest::new(4, numeric_key(2.3), true);
    let atts = test.get_atts_test_depends_on();
    assert_eq!(atts, vec![4]);
}

#[test]
fn test_calc_byte_size_returns_correct_size() {
    let test = NumericAttributeBinaryTest::new(0, numeric_key(3.5), true);
    assert_eq!(
        test.calc_memory_size(),
        std::mem::size_of::<NumericAttributeBinaryTest>()
    );
}

#[test]
fn test_clone_box_returns_correct_clone() {
    let test = NumericAttributeBinaryTest::new(0, numeric_key(5.0), true);
    let clone = test.clone();

    let instance = numeric_instance(&[4.0], 1);
    assert_eq!(
        test.branch_for_instance(&instance),
        clone.branch_for_instance(&instance)
    );
}

#[test]
fn order_keys_respect_negative_values_and_zero() {
    assert!(numeric_key(-3.0) < numeric_key(-1.5));
    assert!(numeric_key(-1.5) < numeric_key(0.0));
    assert!(numeric_key(0.0) < numeric_key(2.5));
    assert_eq!(numeric_key(-0.0), numeric_key(0.0));
}
