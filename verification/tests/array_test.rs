use valid_tree::{ValidateArrayMaxItems, ValidateArrayMinItems, ValidateUniqueItems};

#[test]
fn test_validate_array_min_items_is_true() {
    assert!(ValidateArrayMinItems::validate(&[1, 2, 3], 3).is_ok());
}

#[test]
fn test_validate_array_min_items_is_false() {
    assert!(ValidateArrayMinItems::validate(&[1, 2, 3], 4).is_err());
}

#[test]
fn test_validate_array_min_items_vec_is_true() {
    assert!(ValidateArrayMinItems::validate(&vec!['a', 'b', 'c'], 3).is_ok());
}

#[test]
fn test_validate_array_min_items_array_is_true() {
    assert!(ValidateArrayMinItems::validate(&['a', 'b', 'c'], 3).is_ok());
}

#[test]
fn test_validate_array_max_items_is_true() {
    assert!(ValidateArrayMaxItems::validate(&[1, 2, 3], 3).is_ok());
}

#[test]
fn test_validate_array_max_items_is_false() {
    assert!(ValidateArrayMaxItems::validate(&[1, 2, 3], 2).is_err());
}

#[test]
fn test_validate_array_unique_items_array_type_is_true() {
    assert!(ValidateUniqueItems::validate(&[1, 2, 3, 4]).is_ok());
}

#[test]
fn test_validate_array_unique_items_vec_type_is_true() {
    assert!(ValidateUniqueItems::validate(&vec![1, 2, 3, 4]).is_ok());
}

#[test]
fn test_validate_array_unique_items_is_false() {
    assert!(ValidateUniqueItems::validate(&[1, 2, 3, 3]).is_err());
}

#[test]
fn test_validate_array_unique_items_empty_is_true() {
    // An empty sequence is vacuously unique.
    assert!(ValidateUniqueItems::validate(&Vec::<i64>::new()).is_ok());
}

#[test]
fn test_validate_array_unique_items_option_type() {
    // Uniqueness lifts through an optional sequence: absence is success.
    assert!(ValidateUniqueItems::validate(&Some(vec![1i64, 2, 3])).is_ok());
    assert!(ValidateUniqueItems::validate(&Some(vec![1i64, 2, 2])).is_err());
    assert!(ValidateUniqueItems::validate(&None::<Vec<i64>>).is_ok());
}
