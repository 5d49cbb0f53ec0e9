use valid_tree::{
    check_custom, default_message, ErrorAccumulator, ErrorTree, FieldLocator, FieldName,
    StructShape,
};

fn validate_custom(
    user_validation: impl Fn(&Vec<i32>) -> Result<(), String>,
    val: &Vec<i32>,
) -> Result<(), ErrorTree> {
    let mut errors = ErrorAccumulator::new();
    if let Err(failure) = check_custom(user_validation(val)) {
        errors.push_message(
            FieldLocator::Name(FieldName::new("val")),
            default_message(&failure),
        );
    }
    match errors.finish(StructShape::NamedFields) {
        None => Ok(()),
        Some(tree) => Err(tree),
    }
}

#[test]
fn custom_is_ok_test() {
    fn user_validation(_val: &Vec<i32>) -> Result<(), String> {
        Ok(())
    }

    let val = vec![1, 2, 3, 4];
    assert!(validate_custom(user_validation, &val).is_ok());
}

#[test]
fn custom_is_err_test() {
    fn user_validation(_val: &Vec<i32>) -> Result<(), String> {
        Err(String::from("this is custom message."))
    }

    let val = vec![1, 2, 3, 4];
    let tree = validate_custom(user_validation, &val).unwrap_err();
    assert_eq!(
        tree.to_json_string(),
        "{\"val\":[\"this is custom message.\"]}"
    );
}
