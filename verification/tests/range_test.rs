use valid_tree::{
    validate_composited, Composited, ErrorAccumulator, ErrorTree, FieldLocator, FieldName, Limit,
    MessageFormat, NumericRule, StructShape,
};

fn single(v: i64) -> Composited<i64> {
    Composited::Single(v)
}

fn sequence(vs: Vec<Composited<i64>>) -> Composited<i64> {
    Composited::Sequence(vs)
}

fn optional(v: Option<Composited<i64>>) -> Composited<i64> {
    Composited::Optional(v.map(Box::new))
}

fn range_rule(minimum: Option<Limit>, maximum: Option<Limit>) -> NumericRule {
    NumericRule::Range { minimum, maximum }
}

/// Validates one named field `val` the way hand-written validation code
/// drives the engine.
fn validate_val_with(
    rule: &NumericRule,
    format: &MessageFormat,
    value: &Composited<i64>,
) -> Result<(), ErrorTree> {
    let mut errors = ErrorAccumulator::new();
    if let Some(tree) = validate_composited(rule, format, value) {
        errors.push_tree(FieldLocator::Name(FieldName::new("val")), tree);
    }
    match errors.finish(StructShape::NamedFields) {
        None => Ok(()),
        Some(tree) => Err(tree),
    }
}

fn validate_val(rule: &NumericRule, value: &Composited<i64>) -> Result<(), ErrorTree> {
    validate_val_with(rule, &MessageFormat::Standard, value)
}

#[test]
fn range_integer_test() {
    let rule = range_rule(Some(Limit::Inclusive(0)), Some(Limit::Inclusive(2000)));
    assert!(validate_val(&rule, &single(1234)).is_ok());
}

#[test]
fn range_exclusive_test() {
    let rule = range_rule(Some(Limit::Exclusive(0)), Some(Limit::Exclusive(10)));
    assert!(validate_val(&rule, &single(5)).is_ok());
}

#[test]
fn range_minimum_is_ok_test() {
    let rule = range_rule(Some(Limit::Inclusive(0)), Some(Limit::Inclusive(10)));
    assert!(validate_val(&rule, &single(0)).is_ok());
}

#[test]
fn range_minimum_is_err_test() {
    let rule = range_rule(Some(Limit::Inclusive(1)), Some(Limit::Inclusive(10)));
    assert!(validate_val(&rule, &single(0)).is_err());
}

#[test]
fn range_exclusive_minimum_is_ok_test() {
    let rule = range_rule(Some(Limit::Exclusive(0)), Some(Limit::Inclusive(10)));
    assert!(validate_val(&rule, &single(1)).is_ok());
}

#[test]
fn range_exclusive_minimum_is_err_test() {
    let rule = range_rule(Some(Limit::Exclusive(0)), Some(Limit::Inclusive(10)));
    assert!(validate_val(&rule, &single(0)).is_err());
}

#[test]
fn range_maximum_is_ok_test() {
    let rule = range_rule(Some(Limit::Inclusive(0)), Some(Limit::Inclusive(10)));
    assert!(validate_val(&rule, &single(10)).is_ok());
}

#[test]
fn range_maximum_is_err_test() {
    let rule = range_rule(Some(Limit::Inclusive(1)), Some(Limit::Inclusive(10)));
    assert!(validate_val(&rule, &single(11)).is_err());
}

#[test]
fn range_exclusive_maximum_is_ok_test() {
    let rule = range_rule(Some(Limit::Inclusive(0)), Some(Limit::Exclusive(10)));
    assert!(validate_val(&rule, &single(9)).is_ok());
}

#[test]
fn range_exclusive_maximum_is_err_test() {
    let rule = range_rule(Some(Limit::Inclusive(0)), Some(Limit::Exclusive(10)));
    assert!(validate_val(&rule, &single(10)).is_err());
}

#[test]
fn range_vec_type_is_ok_test() {
    let rule = range_rule(Some(Limit::Inclusive(0)), Some(Limit::Inclusive(20)));
    let value = sequence(vec![single(12), single(16)]);
    assert!(validate_val(&rule, &value).is_ok());
}

#[test]
fn range_nested_vec_type_is_ok_test() {
    let rule = range_rule(Some(Limit::Inclusive(0)), Some(Limit::Inclusive(20)));
    let value = sequence(vec![
        sequence(vec![single(4), single(8)]),
        sequence(vec![single(12), single(16)]),
    ]);
    assert!(validate_val(&rule, &value).is_ok());
}

#[test]
fn range_option_type_is_ok_test() {
    let rule = range_rule(Some(Limit::Inclusive(0)), Some(Limit::Inclusive(10)));
    let value = optional(Some(single(5)));
    assert!(validate_val(&rule, &value).is_ok());
}

#[test]
fn range_nested_option_type_is_ok_test() {
    let rule = range_rule(Some(Limit::Inclusive(0)), Some(Limit::Inclusive(10)));
    let value = optional(Some(optional(Some(single(5)))));
    assert!(validate_val(&rule, &value).is_ok());
}

#[test]
fn range_vec_optional_type_is_ok_test() {
    let rule = range_rule(Some(Limit::Inclusive(0)), Some(Limit::Inclusive(10)));
    let value = sequence(vec![
        optional(Some(single(4))),
        optional(Some(single(8))),
        optional(None),
    ]);
    assert!(validate_val(&rule, &value).is_ok());
}

#[test]
fn range_array_optional_type_is_ok_test() {
    // A fixed-size array lifts exactly like a sequence of the same three
    // slots.
    let rule = range_rule(Some(Limit::Inclusive(0)), Some(Limit::Inclusive(10)));
    let slots: [Option<i64>; 3] = [Some(4), Some(8), None];
    let value = sequence(
        slots
            .into_iter()
            .map(|slot| optional(slot.map(single)))
            .collect(),
    );
    assert!(validate_val(&rule, &value).is_ok());
}

#[test]
fn range_inclusive_err_message_test() {
    let rule = range_rule(Some(Limit::Inclusive(1)), Some(Limit::Inclusive(10)));
    let tree = validate_val(&rule, &single(0)).unwrap_err();
    assert_eq!(
        tree.to_json_string(),
        "{\"val\":[\"`0` must be in `1 <= value <= 10`, but not.\"]}"
    );
}

#[test]
fn range_exclusive_err_message_test() {
    let rule = range_rule(Some(Limit::Exclusive(1)), Some(Limit::Exclusive(10)));
    let tree = validate_val(&rule, &single(0)).unwrap_err();
    assert_eq!(
        tree.to_json_string(),
        "{\"val\":[\"`0` must be in `1 < value < 10`, but not.\"]}"
    );
}

#[test]
fn range_custom_err_message_test() {
    let rule = range_rule(Some(Limit::Inclusive(1)), Some(Limit::Inclusive(10)));
    let format = MessageFormat::Fixed(String::from("this is custom message."));
    let tree = validate_val_with(&rule, &format, &single(0)).unwrap_err();
    assert_eq!(
        tree.to_json_string(),
        "{\"val\":[\"this is custom message.\"]}"
    );
}
