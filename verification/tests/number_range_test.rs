use valid_tree::{validate_number_range, Limit};

#[test]
fn test_validate_number_range_generic_ok() {
    assert!(validate_number_range(
        10,
        Some(Limit::Inclusive(-10)),
        Some(Limit::Inclusive(10))
    ));
    assert!(validate_number_range(
        10,
        Some(Limit::Inclusive(-10)),
        Some(Limit::Exclusive(11))
    ));

    assert!(validate_number_range(
        5,
        Some(Limit::Inclusive(0)),
        Some(Limit::Inclusive(255))
    ));
    assert!(validate_number_range(
        4,
        Some(Limit::Inclusive(0)),
        Some(Limit::Inclusive(16))
    ));
    assert!(validate_number_range(
        6,
        Some(Limit::Inclusive(0)),
        Some(Limit::Inclusive(23))
    ));
}

#[test]
fn test_validate_number_range_generic_fail() {
    assert!(!validate_number_range(
        5,
        Some(Limit::Inclusive(6)),
        Some(Limit::Inclusive(10))
    ));
    assert!(!validate_number_range(
        5,
        Some(Limit::Exclusive(5)),
        Some(Limit::Inclusive(10))
    ));
}

#[test]
fn test_validate_number_range_generic_min_only() {
    assert_eq!(
        false,
        validate_number_range(5, Some(Limit::Inclusive(10)), None)
    );
    assert_eq!(
        true,
        validate_number_range(15, Some(Limit::Inclusive(10)), None)
    );
}

#[test]
fn test_validate_number_range_generic_max_only() {
    assert_eq!(
        true,
        validate_number_range(5, None, Some(Limit::Inclusive(10)))
    );
    assert_eq!(
        false,
        validate_number_range(15, None, Some(Limit::Inclusive(10)))
    );
}
