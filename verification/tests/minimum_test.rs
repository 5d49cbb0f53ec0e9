use valid_tree::ValidateMinimum;

#[test]
fn test_validate_numeric_minimum_is_true() {
    assert!(ValidateMinimum::validate_minimum(&10, 9).is_ok());
    assert!(ValidateMinimum::validate_minimum(&10, 10).is_ok());
}

#[test]
fn test_validate_numeric_minimum_is_false() {
    assert!(ValidateMinimum::validate_minimum(&5, 6).is_err());
}

#[test]
fn test_validate_numeric_minimum_vec_is_true() {
    assert!(ValidateMinimum::validate_minimum(&vec![5], 3).is_ok());
}

#[test]
fn test_validate_numeric_minimum_vec_is_false() {
    assert!(ValidateMinimum::validate_minimum(&vec![5], 7).is_err());
}

#[test]
fn test_validate_numeric_minimum_array_is_true() {
    assert!(ValidateMinimum::validate_minimum(&[5, 6, 7], 3).is_ok());
}

#[test]
fn test_validate_numeric_minimum_array_is_false() {
    assert!(ValidateMinimum::validate_minimum(&vec![5], 7).is_err());
}

#[test]
fn test_validate_numeric_minimum_option_is_true() {
    assert!(ValidateMinimum::validate_minimum(&Some(5), 3).is_ok());
}

#[test]
fn test_validate_numeric_minimum_option_is_false() {
    assert!(ValidateMinimum::validate_minimum(&Some(5), 7).is_err());
}

#[test]
fn test_validate_numeric_minimum_specified_type() {
    assert!(ValidateMinimum::validate_minimum(&5u8, 0).is_ok());
    assert!(ValidateMinimum::validate_minimum(&4u16, 0).is_ok());
    assert!(ValidateMinimum::validate_minimum(&6u32, 0).is_ok());
}

#[test]
fn test_validate_numeric_minimum_none_is_true() {
    // An absent optional never violates a bound.
    assert!(ValidateMinimum::validate_minimum(&None::<i64>, 7).is_ok());
}

#[test]
fn test_validate_numeric_minimum_first_failure_payload() {
    // The lifted check reports the payload of the first failing element.
    let failure = ValidateMinimum::validate_minimum(&vec![9, 3, 2], 5).unwrap_err();
    assert_eq!(
        failure,
        valid_tree::Failure::Minimum {
            limit: 5,
            actual: 3
        }
    );
}
