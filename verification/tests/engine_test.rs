use valid_tree::ScalarRule;
use valid_tree::Validate;
use valid_tree::{
    check_custom, check_enumerate, check_exclusive_maximum, check_exclusive_minimum,
    check_max_properties, check_maximum, check_min_properties, check_minimum, check_multiple_of,
    default_message, format_message, merge_trees, validate_composited, Composited,
    ErrorAccumulator, ErrorTree, Failure, FieldLocator, FieldName, Limit, MessageFormat,
    NumericRule, StructShape,
};

fn single(v: i64) -> Composited<i64> {
    Composited::Single(v)
}

fn sequence(vs: Vec<Composited<i64>>) -> Composited<i64> {
    Composited::Sequence(vs)
}

#[test]
fn minimum_boundary_test() {
    assert!(check_minimum(5, 5).is_ok());
    assert!(check_minimum(6, 5).is_ok());
    assert!(check_minimum(4, 5).is_err());
}

#[test]
fn maximum_boundary_test() {
    assert!(check_maximum(5, 5).is_ok());
    assert!(check_maximum(4, 5).is_ok());
    assert!(check_maximum(6, 5).is_err());
}

#[test]
fn exclusive_minimum_boundary_test() {
    assert!(check_exclusive_minimum(5, 5).is_err());
    assert!(check_exclusive_minimum(6, 5).is_ok());
}

#[test]
fn exclusive_maximum_boundary_test() {
    assert!(check_exclusive_maximum(5, 5).is_err());
    assert!(check_exclusive_maximum(4, 5).is_ok());
}

#[test]
fn multiple_of_test() {
    assert!(check_multiple_of(6, 3).is_ok());
    assert!(check_multiple_of(7, 3).is_err());
    assert!(check_multiple_of(-6, 3).is_ok());
    assert!(check_multiple_of(6, -3).is_ok());
    assert!(check_multiple_of(i64::MIN, -1).is_ok());
    assert_eq!(
        check_multiple_of(7, 3).unwrap_err(),
        Failure::MultipleOf {
            divisor: 3,
            actual: 7
        }
    );
}

#[test]
fn multiple_of_zero_divisor_test() {
    // The explicit policy for a zero divisor: only zero is a multiple of
    // zero.
    assert!(check_multiple_of(0, 0).is_ok());
    assert!(check_multiple_of(5, 0).is_err());
}

#[test]
fn enumerate_test() {
    let allowed = vec![1, 2, 3];
    assert!(check_enumerate(2, &allowed).is_ok());
    let failure = check_enumerate(5, &allowed).unwrap_err();
    assert_eq!(default_message(&failure), "the value must be in [1, 2, 3].");
}

#[test]
fn properties_bounds_test() {
    assert!(check_min_properties(3, 2).is_ok());
    assert!(check_min_properties(3, 3).is_ok());
    assert!(check_min_properties(2, 3).is_err());
    assert!(check_max_properties(2, 3).is_ok());
    assert!(check_max_properties(3, 3).is_ok());
    assert!(check_max_properties(4, 3).is_err());
    assert_eq!(
        default_message(&check_min_properties(2, 3).unwrap_err()),
        "the size of the properties must be `>= 3`."
    );
}

#[test]
fn default_message_wording_test() {
    assert_eq!(
        default_message(&Failure::Minimum {
            limit: 1,
            actual: 0
        }),
        "the number must be `>= 1`."
    );
    assert_eq!(
        default_message(&Failure::ExclusiveMinimum {
            limit: -3,
            actual: -3
        }),
        "the number must be `> -3`."
    );
    assert_eq!(
        default_message(&Failure::ExclusiveMaximum {
            limit: 10,
            actual: 10
        }),
        "the number must be `< 10`."
    );
    assert_eq!(
        default_message(&Failure::MultipleOf {
            divisor: 5,
            actual: 7
        }),
        "the value must be multiple of `5`."
    );
    assert_eq!(default_message(&Failure::UniqueItems), "items must be unique.");
    assert_eq!(
        default_message(&Failure::MinItems { limit: 4 }),
        "the length of the items must be `>= 4`."
    );
    assert_eq!(
        default_message(&Failure::MaxItems { limit: 4 }),
        "the length of the items must be `<= 4`."
    );
}

#[test]
fn custom_message_propagates_verbatim_test() {
    let failure = check_custom(Err(String::from("this is custom message."))).unwrap_err();
    assert_eq!(default_message(&failure), "this is custom message.");
    assert_eq!(
        format_message(&failure, &MessageFormat::Standard),
        "this is custom message."
    );
}

#[test]
fn nested_sequence_error_shape_test() {
    // One bad inner element produces an array node at the outer index
    // holding an array node at the inner index, not a flat message.
    let rule = NumericRule::Range {
        minimum: Some(Limit::Inclusive(0)),
        maximum: Some(Limit::Inclusive(20)),
    };
    let value = sequence(vec![
        sequence(vec![single(4), single(8)]),
        sequence(vec![single(12), single(25)]),
    ]);
    let tree = validate_composited(&rule, &MessageFormat::Standard, &value).unwrap();
    let mut errors = ErrorAccumulator::new();
    errors.push_tree(FieldLocator::Name(FieldName::new("val")), tree);
    let root = errors.finish(StructShape::NamedFields).unwrap();
    assert_eq!(
        root.to_json_string(),
        "{\"val\":{\"1\":{\"1\":[\"`25` must be in `0 <= value <= 20`, but not.\"]}}}"
    );
}

#[test]
fn sequence_reports_every_failing_position_test() {
    // Validation does not stop at the first failing element.
    let rule = NumericRule::Maximum(10);
    let value = sequence(vec![single(11), single(5), single(12)]);
    let tree = validate_composited(&rule, &MessageFormat::Standard, &value).unwrap();
    assert_eq!(
        tree.to_json_string(),
        "{\"0\":[\"the number must be `<= 10`.\"],\"2\":[\"the number must be `<= 10`.\"]}"
    );
}

#[test]
fn two_rules_in_declaration_order_test() {
    // Both failing rules of one field appear, in declaration order.
    let mut errors = ErrorAccumulator::new();
    let val: i64 = 3;
    let rules = [NumericRule::Minimum(5), NumericRule::MultipleOf(2)];
    for rule in &rules {
        if let Err(failure) = rule.check(&val) {
            errors.push_message(
                FieldLocator::Name(FieldName::new("val")),
                default_message(&failure),
            );
        }
    }
    let tree = errors.finish(StructShape::NamedFields).unwrap();
    assert_eq!(
        tree.to_json_string(),
        "{\"val\":[\"the number must be `>= 5`.\",\"the value must be multiple of `2`.\"]}"
    );
}

#[test]
fn no_failures_yield_no_tree_test() {
    // A structure with zero failing fields never yields an error value.
    let errors = ErrorAccumulator::new();
    assert!(errors.is_empty());
    assert!(errors.finish(StructShape::NamedFields).is_none());
}

#[test]
fn new_type_root_is_leaves_test() {
    // A single-unnamed-field structure does not nest its errors under a
    // synthetic key: the root is the flat message list itself.
    let rule = NumericRule::Minimum(1);
    let tree = validate_composited(&rule, &MessageFormat::Standard, &single(0)).unwrap();
    let mut errors = ErrorAccumulator::new();
    errors.push_tree(FieldLocator::Index(0), tree);
    let root = errors.finish(StructShape::NewType).unwrap();
    assert!(matches!(root, ErrorTree::Leaves(_)));
    assert_eq!(root.to_json_string(), "[\"the number must be `>= 1`.\"]");
}

#[test]
fn tuple_shape_keys_by_position_test() {
    let rule = NumericRule::Minimum(1);
    let mut errors = ErrorAccumulator::new();
    for index in 0..2usize {
        if let Some(tree) =
            validate_composited(&rule, &MessageFormat::Standard, &single(0))
        {
            errors.push_tree(FieldLocator::Index(index), tree);
        }
    }
    let root = errors.finish(StructShape::UnnamedFields).unwrap();
    assert_eq!(
        root.to_json_string(),
        "{\"0\":[\"the number must be `>= 1`.\"],\"1\":[\"the number must be `>= 1`.\"]}"
    );
}

#[test]
fn merge_same_kind_concatenates_leaves_test() {
    let a = ErrorTree::Leaves(vec![String::from("first")]);
    let b = ErrorTree::Leaves(vec![String::from("second")]);
    let merged = merge_trees(a, b);
    assert_eq!(merged.to_json_string(), "[\"first\",\"second\"]");
}

#[test]
fn merge_mixed_kinds_flattens_test() {
    // Messages about the collection as a whole and per-position children
    // fall back to the flat list of all messages, none lost.
    let flat = ErrorTree::Leaves(vec![String::from("whole")]);
    let positional = ErrorTree::Array(vec![(
        1usize,
        ErrorTree::Leaves(vec![String::from("inner")]),
    )]);
    let merged = merge_trees(flat, positional);
    assert_eq!(merged.to_json_string(), "[\"whole\",\"inner\"]");
}

#[test]
fn json_escaping_test() {
    let mut errors = ErrorAccumulator::new();
    errors.push_message(
        FieldLocator::Name(FieldName::new("val")),
        String::from("quote \" backslash \\ tab \t"),
    );
    let tree = errors.finish(StructShape::NamedFields).unwrap();
    assert_eq!(
        tree.to_json_string(),
        "{\"val\":[\"quote \\\" backslash \\\\ tab \\t\"]}"
    );
}

#[test]
fn field_name_test() {
    let name = FieldName::new("val");
    assert_eq!(name.as_str(), "val");
}

#[test]
fn fixed_format_overrides_default_test() {
    let failure = Failure::Maximum {
        limit: 10,
        actual: 12,
    };
    assert_eq!(
        format_message(&failure, &MessageFormat::Fixed(String::from("nope"))),
        "nope"
    );
    assert_eq!(
        format_message(&failure, &MessageFormat::Standard),
        "the number must be `<= 10`."
    );
}

#[test]
fn range_message_one_sided_test() {
    assert_eq!(
        default_message(&Failure::Range {
            minimum: Some(Limit::Inclusive(1)),
            maximum: None,
            actual: 0
        }),
        "`0` must be in `1 <= value`, but not."
    );
    assert_eq!(
        default_message(&Failure::Range {
            minimum: None,
            maximum: Some(Limit::Exclusive(10)),
            actual: 12
        }),
        "`12` must be in `value < 10`, but not."
    );
}

struct Document {
    val: Vec<i64>,
}

impl valid_tree::Validate for Document {
    fn validate(&self) -> Result<(), ErrorTree> {
        let rule = NumericRule::Range {
            minimum: Some(Limit::Inclusive(0)),
            maximum: Some(Limit::Inclusive(20)),
        };
        let value = Composited::Sequence(
            self.val.iter().copied().map(Composited::Single).collect(),
        );
        let mut errors = ErrorAccumulator::new();
        if let Some(tree) = validate_composited(&rule, &MessageFormat::Standard, &value) {
            errors.push_tree(FieldLocator::Name(FieldName::new("val")), tree);
        }
        match errors.finish(StructShape::NamedFields) {
            None => Ok(()),
            Some(tree) => Err(tree),
        }
    }
}

#[test]
fn validate_entry_point_test() {
    let good = Document { val: vec![12, 16] };
    assert!(good.validate().is_ok());
    let bad = Document { val: vec![12, 25] };
    let tree = bad.validate().unwrap_err();
    assert_eq!(
        tree.to_json_string(),
        "{\"val\":{\"1\":[\"`25` must be in `0 <= value <= 20`, but not.\"]}}"
    );
}
