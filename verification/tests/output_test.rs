use valid_tree::{
    format_message, DataValue, ErrorAccumulator, ErrorTree, FieldLocator, FieldName,
    MessageFormat, NumericRule, ScalarRule, StructShape,
};

/// Validates a structure `{ val: i64 }` against a list of rules on `val`,
/// in declaration order, the way hand-written validation code drives the
/// engine.
fn validate_val(rules: &[NumericRule], val: i64) -> Result<(), ErrorTree> {
    let mut errors = ErrorAccumulator::new();
    for rule in rules {
        if let Err(failure) = rule.check(&val) {
            errors.push_message(
                FieldLocator::Name(FieldName::new("val")),
                format_message(&failure, &MessageFormat::Standard),
            );
        }
    }
    match errors.finish(StructShape::NamedFields) {
        None => Ok(()),
        Some(tree) => Err(tree),
    }
}

#[test]
fn json_error_to_string() {
    let rules = [NumericRule::Minimum(0), NumericRule::Maximum(1000)];
    let tree = validate_val(&rules, 1234).unwrap_err();
    assert_eq!(
        tree.to_json_string(),
        "{\"val\":[\"the number must be `<= 1000`.\"]}"
    );
}

#[test]
fn json_error_to_json_value() {
    let rules = [NumericRule::Minimum(0), NumericRule::Maximum(1000)];
    let tree = validate_val(&rules, 1234).unwrap_err();
    let data = tree.to_data();
    match data {
        DataValue::Object(entries) => {
            assert_eq!(entries.len(), 1);
            assert_eq!(entries[0].0, "val");
            match &entries[0].1 {
                DataValue::List(messages) => {
                    assert_eq!(messages.len(), 1);
                    match &messages[0] {
                        DataValue::Text(text) => {
                            assert_eq!(text, "the number must be `<= 1000`.")
                        }
                        other => panic!("expected text, got {:?}", other),
                    }
                }
                other => panic!("expected list, got {:?}", other),
            }
        }
        other => panic!("expected object, got {:?}", other),
    }
}

#[test]
fn yaml_error_to_json_value() {
    let rules = [NumericRule::Maximum(10)];
    let tree = validate_val(&rules, 15).unwrap_err();
    assert_eq!(
        tree.to_json_string(),
        "{\"val\":[\"the number must be `<= 10`.\"]}"
    );
}

#[test]
fn toml_error_to_json_value() {
    let rules = [NumericRule::Maximum(10)];
    let tree = validate_val(&rules, 15).unwrap_err();
    assert_eq!(
        tree.to_json_string(),
        "{\"val\":[\"the number must be `<= 10`.\"]}"
    );
}
