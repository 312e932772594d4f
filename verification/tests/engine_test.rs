use serde_valid::builder::{
    nested_item_error, nested_property_errors, validate_numeric_field, ObjectErrorsBuilder,
};
use serde_valid::error::{
    ArrayErrors, Error, Errors, Message, MessageFormat, MinimumError, ObjectErrors,
};
use serde_valid::fold::{array_errors, into_field_errors, new_type_errors};
use serde_valid::length::ValidateMinLength;
use serde_valid::pattern::{validate_pattern, Pattern};
use serde_valid::suggest::did_you_mean;
use serde_valid::validate::{evaluate_numeric, validate_enumerate, NumericConstraint};
use serde_valid::Number;

fn field(
    val: i32,
    constraints: Vec<(NumericConstraint, MessageFormat)>,
) -> Result<(), Errors> {
    let mut b = ObjectErrorsBuilder::new();
    b.add_field("val".to_string(), validate_numeric_field(&val, &constraints));
    b.build()
}

#[test]
fn inclusive_boundary_is_valid_exclusive_boundary_is_not() {
    for n in [
        Number::I8(7),
        Number::I64(-3),
        Number::U64(7),
        Number::Usize(7),
        Number::I32(0),
    ] {
        assert!(evaluate_numeric(n, &NumericConstraint::Minimum(n), &MessageFormat::Default)
            .is_none());
        assert!(evaluate_numeric(n, &NumericConstraint::Maximum(n), &MessageFormat::Default)
            .is_none());
        assert!(evaluate_numeric(
            n,
            &NumericConstraint::ExclusiveMinimum(n),
            &MessageFormat::Default
        )
        .is_some());
        assert!(evaluate_numeric(
            n,
            &NumericConstraint::ExclusiveMaximum(n),
            &MessageFormat::Default
        )
        .is_some());
    }
}

#[test]
fn cross_variant_comparison_is_exact() {
    // the same mathematical value in different variants
    assert!(evaluate_numeric(
        Number::U64(200),
        &NumericConstraint::Minimum(Number::I8(-5)),
        &MessageFormat::Default
    )
    .is_none());
    assert!(evaluate_numeric(
        Number::I8(-5),
        &NumericConstraint::Maximum(Number::U64(200)),
        &MessageFormat::Default
    )
    .is_none());
    assert!(evaluate_numeric(
        Number::I64(-9),
        &NumericConstraint::MultipleOf(Number::U8(3)),
        &MessageFormat::Default
    )
    .is_none());
    assert!(evaluate_numeric(
        Number::I64(-10),
        &NumericConstraint::MultipleOf(Number::U8(3)),
        &MessageFormat::Default
    )
    .is_some());
}

#[test]
fn every_failing_index_and_no_other_gets_an_entry() {
    let vals: Vec<i32> = vec![0, 5, 3, 15, 7];
    let constraints = vec![
        (NumericConstraint::Minimum(Number::I32(1)), MessageFormat::Default),
        (NumericConstraint::Maximum(Number::I32(10)), MessageFormat::Default),
    ];
    let r = {
        let mut b = ObjectErrorsBuilder::new();
        b.add_field("val".to_string(), validate_numeric_field(&vals, &constraints));
        b.build()
    };
    // indices 0 (below the minimum) and 3 (above the maximum) fail; 1, 2, 4 pass
    assert_eq!(
        r.unwrap_err().to_json(),
        r#"{"errors":[],"properties":{"val":{"errors":[],"items":{"0":{"errors":["The number must be `>= 1`."]},"3":{"errors":["The number must be `<= 10`."]}}}}}"#
    );
}

#[test]
fn rerunning_validation_yields_identical_trees() {
    let run = || {
        let vals: Vec<i32> = vec![0, 15];
        let constraints = vec![
            (NumericConstraint::Minimum(Number::I32(1)), MessageFormat::Default),
            (NumericConstraint::Maximum(Number::I32(10)), MessageFormat::Default),
        ];
        let mut b = ObjectErrorsBuilder::new();
        b.add_field("val".to_string(), validate_numeric_field(&vals, &constraints));
        b.build().unwrap_err()
    };
    let first = run();
    let second = run();
    assert_eq!(first, second);
    assert_eq!(first.to_json(), second.to_json());
}

#[test]
fn merge_joins_entries_of_one_index() {
    let left = ArrayErrors::new(
        Vec::new(),
        vec![(0, Errors::NewType(vec![Error::Custom("first.".to_string())]))],
    );
    let right = ArrayErrors::new(
        Vec::new(),
        vec![
            (0, Errors::NewType(vec![Error::Custom("second.".to_string())])),
            (2, Errors::NewType(vec![Error::Custom("third.".to_string())])),
        ],
    );
    let merged = left.merge(right);
    assert_eq!(
        Errors::Array(merged).to_json(),
        r#"{"errors":[],"items":{"0":{"errors":["first.","second."]},"2":{"errors":["third."]}}}"#
    );
}

#[test]
fn declared_order_is_kept_when_both_fail() {
    let r = field(
        0,
        vec![
            (NumericConstraint::Minimum(Number::I32(1)), MessageFormat::Default),
            (NumericConstraint::ExclusiveMinimum(Number::I32(0)), MessageFormat::Default),
        ],
    );
    assert_eq!(
        r.unwrap_err().to_json(),
        r#"{"errors":[],"properties":{"val":{"errors":["The number must be `>= 1`.","The number must be `> 0`."]}}}"#
    );
}

#[test]
fn custom_format_changes_text_but_not_outcome() {
    let with_default = field(
        0,
        vec![(NumericConstraint::Minimum(Number::I32(1)), MessageFormat::Default)],
    );
    let with_literal = field(
        0,
        vec![(
            NumericConstraint::Minimum(Number::I32(1)),
            MessageFormat::Literal("too small.".to_string()),
        )],
    );
    let passing = field(
        5,
        vec![(
            NumericConstraint::Minimum(Number::I32(1)),
            MessageFormat::Literal("too small.".to_string()),
        )],
    );
    assert!(with_default.is_err());
    assert!(with_literal.is_err());
    assert!(passing.is_ok());
    assert_eq!(
        with_literal.unwrap_err().to_json(),
        r#"{"errors":[],"properties":{"val":{"errors":["too small."]}}}"#
    );
}

#[test]
fn enumerate_membership() {
    let allowed = vec![Number::I32(1), Number::I32(2), Number::I32(3)];
    assert!(validate_enumerate(Number::I32(2), &allowed).is_ok());
    assert!(validate_enumerate(Number::I64(3), &allowed).is_ok());
    assert!(validate_enumerate(Number::I32(4), &allowed).is_err());
    let err = validate_enumerate(Number::I32(4), &allowed).unwrap_err();
    let e = Error::Enumerate(Message::new(err, MessageFormat::Default));
    assert_eq!(e.message(), "The value must be in [1, 2, 3].");
}

#[test]
fn pattern_matching_through_compiled_expression() {
    let pattern = Pattern::new(r"^\d{4}-\d{2}-\d{2}$").unwrap();
    assert!(validate_pattern("2020-09-10", &pattern).is_ok());
    assert!(validate_pattern("2020/09/10", &pattern).is_err());
    let params = validate_pattern("2020/09/10", &pattern).unwrap_err();
    let e = Error::Pattern(Message::new(params, MessageFormat::Default));
    assert_eq!(
        e.message(),
        "The value must match the pattern of \"^\\d{4}-\\d{2}-\\d{2}$\"."
    );
    assert!(Pattern::new("(unclosed").is_err());
}

#[test]
fn suggestions_rank_closest_first() {
    let candidates = vec![
        "maximum".to_string(),
        "minimum".to_string(),
        "pattern".to_string(),
    ];
    let r = did_you_mean("minimum", &candidates).unwrap();
    assert_eq!(r[0], "minimum");
    assert!(did_you_mean("qqqqqq", &candidates).is_none());
}

#[test]
fn suggestions_keep_order_of_equal_similarity() {
    let candidates = vec!["minimum".to_string(), "minimum".to_string()];
    let r = did_you_mean("minimum", &candidates).unwrap();
    assert_eq!(r, vec!["minimum".to_string(), "minimum".to_string()]);
}

#[test]
fn decimal_rendering_of_extremes() {
    assert_eq!(Number::I64(i64::MIN).to_text(), "-9223372036854775808");
    assert_eq!(Number::I64(i64::MAX).to_text(), "9223372036854775807");
    assert_eq!(Number::U64(u64::MAX).to_text(), "18446744073709551615");
    assert_eq!(Number::U8(0).to_text(), "0");
    assert_eq!(Number::I16(-305).to_text(), "-305");
}

#[test]
fn serialized_strings_are_escaped() {
    let tree = Errors::NewType(vec![Error::Custom(
        "a \"quoted\" \\ backslash\nnewline \t tab \u{1} control".to_string(),
    )]);
    assert_eq!(
        tree.to_json(),
        r#"{"errors":["a \"quoted\" \\ backslash\nnewline \t tab \u0001 control"]}"#
    );
}

#[test]
fn property_keys_are_escaped() {
    let mut b = ObjectErrorsBuilder::new();
    b.add_field(
        "va\"l".to_string(),
        vec![Error::Custom("boom.".to_string())],
    );
    assert_eq!(
        b.build().unwrap_err().to_json(),
        r#"{"errors":[],"properties":{"va\"l":{"errors":["boom."]}}}"#
    );
}

#[test]
fn field_with_property_shaped_children_becomes_keyed() {
    let child = ObjectErrors::new(
        vec![Error::Custom("inner rule.".to_string())],
        vec![(
            "name".to_string(),
            Errors::NewType(vec![Error::Custom("bad name.".to_string())]),
        )],
    );
    let folded = into_field_errors(vec![
        Error::Custom("outer.".to_string()),
        nested_property_errors(child),
    ]);
    assert_eq!(
        folded.to_json(),
        r#"{"errors":["outer.","inner rule."],"properties":{"name":{"errors":["bad name."]}}}"#
    );
}

#[test]
fn several_property_reports_merge_by_key() {
    let first = ObjectErrors::new(
        vec![Error::Custom("first rule.".to_string())],
        vec![(
            "name".to_string(),
            Errors::NewType(vec![Error::Custom("bad name.".to_string())]),
        )],
    );
    let second = ObjectErrors::new(
        vec![Error::Custom("second rule.".to_string())],
        vec![
            (
                "name".to_string(),
                Errors::NewType(vec![Error::Custom("still bad.".to_string())]),
            ),
            (
                "age".to_string(),
                Errors::NewType(vec![Error::Custom("bad age.".to_string())]),
            ),
        ],
    );
    let folded = into_field_errors(vec![
        Error::Custom("outer.".to_string()),
        nested_property_errors(first),
        nested_property_errors(second),
    ]);
    // both container error lists survive in order, and sub-trees of one
    // key join
    assert_eq!(
        folded.to_json(),
        r#"{"errors":["outer.","first rule.","second rule."],"properties":{"name":{"errors":["bad name.","still bad."]},"age":{"errors":["bad age."]}}}"#
    );
}

#[test]
fn whole_value_errors_stand_beside_field_errors() {
    let mut b = ObjectErrorsBuilder::new();
    b.push_rule_error(Error::Custom("Rule error.".to_string()));
    b.add_field(
        "val".to_string(),
        vec![Error::Custom("field error.".to_string())],
    );
    assert_eq!(
        b.build().unwrap_err().to_json(),
        r#"{"errors":["Rule error."],"properties":{"val":{"errors":["field error."]}}}"#
    );
}

#[test]
fn array_root_collapses_each_index() {
    let tree = array_errors(
        vec![Error::Custom("container.".to_string())],
        vec![
            (0, vec![Error::Custom("first.".to_string())]),
            (2, vec![Error::Custom("third.".to_string())]),
        ],
    );
    assert_eq!(
        tree.to_json(),
        r#"{"errors":["container."],"items":{"0":{"errors":["first."]},"2":{"errors":["third."]}}}"#
    );
}

#[test]
fn new_type_root_chains_both_lists() {
    let tree = new_type_errors(
        vec![Error::Custom("rule.".to_string())],
        vec![Error::Custom("inner.".to_string())],
    );
    assert_eq!(tree.to_json(), r#"{"errors":["rule.","inner."]}"#);
}

#[test]
fn nested_item_error_wraps_a_child_report() {
    let child = Errors::NewType(vec![Error::Custom("child failed.".to_string())]);
    let folded = into_field_errors(vec![nested_item_error(1, child)]);
    assert_eq!(
        folded.to_json(),
        r#"{"errors":[],"items":{"1":{"errors":["child failed."]}}}"#
    );
}

#[test]
fn min_length_counts_user_perceived_characters() {
    assert!(ValidateMinLength::validate_min_length("abcde", 5).is_ok());
    assert!(ValidateMinLength::validate_min_length("abcde", 6).is_err());
    assert!(ValidateMinLength::validate_min_length("a̐éö̲", 3).is_ok());
    assert!(ValidateMinLength::validate_min_length("a̐éö̲", 4).is_err());
}

#[test]
fn minimum_error_keeps_the_declared_bound() {
    let r = evaluate_numeric(
        Number::I32(0),
        &NumericConstraint::Minimum(Number::I32(3)),
        &MessageFormat::Default,
    );
    match r {
        Some(Error::Minimum(m)) => {
            assert_eq!(m.params, MinimumError { minimum: Number::I32(3) });
        },
        _ => panic!("expected a minimum failure"),
    }
}

#[test]
fn empty_vec_of_subjects_passes() {
    let vals: Vec<i32> = Vec::new();
    let r = {
        let mut b = ObjectErrorsBuilder::new();
        b.add_field(
            "val".to_string(),
            validate_numeric_field(
                &vals,
                &vec![(NumericConstraint::Minimum(Number::I32(1)), MessageFormat::Default)],
            ),
        );
        b.build()
    };
    assert!(r.is_ok());
}

#[test]
fn absent_value_passes_every_constraint() {
    let val: Option<i32> = None;
    let r = {
        let mut b = ObjectErrorsBuilder::new();
        b.add_field(
            "val".to_string(),
            validate_numeric_field(
                &val,
                &vec![(NumericConstraint::Minimum(Number::I32(1000)), MessageFormat::Default)],
            ),
        );
        b.build()
    };
    assert!(r.is_ok());
}

#[test]
fn construction_tags_the_concrete_variant() {
    assert_eq!(Number::from(5i8), Number::I8(5));
    assert_eq!(Number::from(5u64), Number::U64(5));
    assert_eq!(Number::from(7usize), Number::Usize(7));
    assert_eq!(Number::from(-3i64), Number::I64(-3));
}
