use std::borrow::Cow;

use valid_tree::ValidatePattern;
use valid_tree::{
    check_pattern, validate_composited, Composited, ErrorAccumulator, ErrorTree, FieldLocator,
    FieldName, MessageFormat, PatternRule, StructShape,
};

const DATE_PATTERN: &str = r"^\d{4}-\d{2}-\d{2}$";

fn single(v: &str) -> Composited<String> {
    Composited::Single(String::from(v))
}

fn sequence(vs: Vec<Composited<String>>) -> Composited<String> {
    Composited::Sequence(vs)
}

fn optional(v: Option<Composited<String>>) -> Composited<String> {
    Composited::Optional(v.map(Box::new))
}

/// Validates one named field `val` against a pattern rule, the way
/// hand-written validation code drives the engine.
fn validate_val(pattern: &str, value: &Composited<String>) -> Result<(), ErrorTree> {
    let rule = PatternRule {
        source: String::from(pattern),
    };
    let mut errors = ErrorAccumulator::new();
    if let Some(tree) = validate_composited(&rule, &MessageFormat::Standard, value) {
        errors.push_tree(FieldLocator::Name(FieldName::new("val")), tree);
    }
    match errors.finish(StructShape::NamedFields) {
        None => Ok(()),
        Some(tree) => Err(tree),
    }
}

#[test]
fn pattern_string_type_test() {
    assert!(validate_val(DATE_PATTERN, &single("2020-09-10")).is_ok());
}

#[test]
fn pattern_str_type_test() {
    let val: &str = "2020-09-10";
    assert!(check_pattern(val, DATE_PATTERN).is_ok());
}

#[test]
fn pattern_cow_str_type_test() {
    let val: Cow<'_, str> = Cow::from("2020-09-10");
    assert!(check_pattern(val.as_ref(), DATE_PATTERN).is_ok());
}

#[test]
fn pattern_path_type_test() {
    let val = std::path::Path::new("2020-09-10");
    assert!(check_pattern(val.to_str().unwrap(), DATE_PATTERN).is_ok());
}

#[test]
fn pattern_path_buf_type_test() {
    let val = std::path::PathBuf::from("2020-09-10");
    assert!(check_pattern(val.to_str().unwrap(), DATE_PATTERN).is_ok());
}

#[test]
fn pattern_is_err_test() {
    assert!(validate_val(DATE_PATTERN, &single("2020/09/10")).is_err());
}

#[test]
fn pattern_array_type_is_ok_test() {
    let value = sequence(vec![single("2020-09-10"), single("2020-10-10")]);
    assert!(validate_val(DATE_PATTERN, &value).is_ok());
}

#[test]
fn pattern_nested_array_type_is_ok_test() {
    let value = sequence(vec![
        sequence(vec![single("2020-09-10"), single("2020-10-10")]),
        sequence(vec![single("2020-11-10"), single("2020-12-10")]),
    ]);
    assert!(validate_val(DATE_PATTERN, &value).is_ok());
}

#[test]
fn pattern_option_type_is_ok_test() {
    let value = optional(Some(single("2020-09-10")));
    assert!(validate_val(DATE_PATTERN, &value).is_ok());
}

#[test]
fn pattern_nested_option_type_is_ok_test() {
    let value = optional(Some(optional(Some(single("2020-09-10")))));
    assert!(validate_val(DATE_PATTERN, &value).is_ok());
}

#[test]
fn pattern_array_optional_type_is_ok_test() {
    let value = sequence(vec![
        optional(Some(single("2020-09-10"))),
        optional(Some(single("2020-10-10"))),
        optional(None),
    ]);
    assert!(validate_val(DATE_PATTERN, &value).is_ok());
}

#[test]
fn test_validate_string_pattern_str_type() {
    assert!(check_pattern("2020-09-10", DATE_PATTERN).is_ok());
}

#[test]
fn test_validate_string_pattern_string_type() {
    let val = String::from("2020-09-10");
    assert!(ValidatePattern::validate(&val, DATE_PATTERN).is_ok());
}

#[test]
fn test_validate_string_pattern_cow_str_type() {
    let val: Cow<'_, str> = Cow::from("2020-09-10");
    assert!(check_pattern(val.as_ref(), DATE_PATTERN).is_ok());
}

#[test]
fn test_validate_string_pattern_is_false() {
    assert!(check_pattern("2020/09/10", DATE_PATTERN).is_err());
}

#[test]
fn pattern_invalid_source_rejects_test() {
    // A pattern that does not compile rejects every value; its failure
    // names the pattern source.
    let result = check_pattern("anything", r"((");
    let failure = result.unwrap_err();
    assert_eq!(
        valid_tree::default_message(&failure),
        "the value must match the pattern of \"((\"."
    );
}

#[test]
fn pattern_message_test() {
    let tree = validate_val(DATE_PATTERN, &single("2020/09/10")).unwrap_err();
    assert_eq!(
        tree.to_json_string(),
        "{\"val\":[\"the value must match the pattern of \\\"^\\\\d{4}-\\\\d{2}-\\\\d{2}$\\\".\"]}"
    );
}
