use serde_valid::builder::{validate_numeric_field, ObjectErrorsBuilder};
use serde_valid::error::{MessageFormat, MinimumError, MaximumError};
use serde_valid::validate::NumericConstraint;
use serde_valid::Number;

fn check_i32(
    val: i32,
    constraints: Vec<(NumericConstraint, MessageFormat)>,
) -> Result<(), serde_valid::validation::Errors> {
    let mut b = ObjectErrorsBuilder::new();
    b.add_field("val".to_string(), validate_numeric_field(&val, &constraints));
    b.build()
}

#[test]
fn range_integer() {
    struct TestStruct {
        val: i32,
    }
    let s = TestStruct { val: 1234 };
    let r = check_i32(
        s.val,
        vec![
            (NumericConstraint::Minimum(Number::I32(0)), MessageFormat::Default),
            (NumericConstraint::Maximum(Number::I32(2000)), MessageFormat::Default),
        ],
    );
    assert!(r.is_ok());
}

#[test]
fn range_exclusive() {
    struct TestStruct {
        val: i32,
    }
    let s = TestStruct { val: 5 };
    let r = check_i32(
        s.val,
        vec![
            (NumericConstraint::ExclusiveMinimum(Number::I32(0)), MessageFormat::Default),
            (NumericConstraint::ExclusiveMaximum(Number::I32(10)), MessageFormat::Default),
        ],
    );
    assert!(r.is_ok());
}

#[test]
fn range_minimum_is_ok() {
    struct TestStruct {
        val: i32,
    }
    let s = TestStruct { val: 0 };
    let r = check_i32(
        s.val,
        vec![
            (NumericConstraint::Minimum(Number::I32(0)), MessageFormat::Default),
            (NumericConstraint::Maximum(Number::I32(10)), MessageFormat::Default),
        ],
    );
    assert!(r.is_ok());
}

#[test]
fn range_minimum_is_err() {
    struct TestStruct {
        val: i32,
    }
    let s = TestStruct { val: 0 };
    let r = check_i32(
        s.val,
        vec![
            (NumericConstraint::Minimum(Number::I32(1)), MessageFormat::Default),
            (NumericConstraint::Maximum(Number::I32(10)), MessageFormat::Default),
        ],
    );
    assert!(r.is_err());
}

#[test]
fn range_exclusive_minimum_is_ok() {
    struct TestStruct {
        val: i32,
    }
    let s = TestStruct { val: 1 };
    let r = check_i32(
        s.val,
        vec![
            (NumericConstraint::ExclusiveMinimum(Number::I32(0)), MessageFormat::Default),
            (NumericConstraint::Maximum(Number::I32(10)), MessageFormat::Default),
        ],
    );
    assert!(r.is_ok());
}

#[test]
fn range_exclusive_minimum_is_err() {
    struct TestStruct {
        val: i32,
    }
    let s = TestStruct { val: 0 };
    let r = check_i32(
        s.val,
        vec![
            (NumericConstraint::ExclusiveMinimum(Number::I32(0)), MessageFormat::Default),
            (NumericConstraint::Maximum(Number::I32(10)), MessageFormat::Default),
        ],
    );
    assert!(r.is_err());
}

#[test]
fn range_maximum_is_ok() {
    struct TestStruct {
        val: i32,
    }
    let s = TestStruct { val: 10 };
    let r = check_i32(
        s.val,
        vec![
            (NumericConstraint::Minimum(Number::I32(0)), MessageFormat::Default),
            (NumericConstraint::Maximum(Number::I32(10)), MessageFormat::Default),
        ],
    );
    assert!(r.is_ok());
}

#[test]
fn range_maximum_is_err() {
    struct TestStruct {
        val: i32,
    }
    let s = TestStruct { val: 11 };
    let r = check_i32(
        s.val,
        vec![
            (NumericConstraint::Minimum(Number::I32(1)), MessageFormat::Default),
            (NumericConstraint::Maximum(Number::I32(10)), MessageFormat::Default),
        ],
    );
    assert!(r.is_err());
}

#[test]
fn range_exclusive_maximum_is_ok() {
    struct TestStruct {
        val: i32,
    }
    let s = TestStruct { val: 9 };
    let r = check_i32(
        s.val,
        vec![
            (NumericConstraint::ExclusiveMaximum(Number::I32(10)), MessageFormat::Default),
            (NumericConstraint::ExclusiveMaximum(Number::I32(10)), MessageFormat::Default),
        ],
    );
    assert!(r.is_ok());
}

#[test]
fn range_exclusive_maximum_is_err() {
    struct TestStruct {
        val: i32,
    }
    let s = TestStruct { val: 10 };
    let r = check_i32(
        s.val,
        vec![
            (NumericConstraint::ExclusiveMaximum(Number::I32(10)), MessageFormat::Default),
            (NumericConstraint::ExclusiveMaximum(Number::I32(10)), MessageFormat::Default),
        ],
    );
    assert!(r.is_err());
}

#[test]
fn range_vec_type_is_ok() {
    struct TestStruct {
        val: Vec<i32>,
    }
    let s = TestStruct { val: vec![12, 16] };
    let constraints = vec![
        (NumericConstraint::Minimum(Number::I32(0)), MessageFormat::Default),
        (NumericConstraint::Maximum(Number::I32(20)), MessageFormat::Default),
    ];
    let mut b = ObjectErrorsBuilder::new();
    b.add_field("val".to_string(), validate_numeric_field(&s.val, &constraints));
    assert!(b.build().is_ok());
}

#[test]
fn range_nested_vec_type_is_ok() {
    struct TestStruct {
        val: Vec<Vec<i32>>,
    }
    let s = TestStruct {
        val: vec![vec![4, 8], vec![12, 16]],
    };
    let constraints = vec![
        (NumericConstraint::Minimum(Number::I32(0)), MessageFormat::Default),
        (NumericConstraint::Maximum(Number::I32(20)), MessageFormat::Default),
    ];
    let mut b = ObjectErrorsBuilder::new();
    b.add_field("val".to_string(), validate_numeric_field(&s.val, &constraints));
    assert!(b.build().is_ok());
}

#[test]
fn range_option_type_is_ok() {
    struct TestStruct {
        val: Option<i32>,
    }
    let s = TestStruct { val: Some(5) };
    let constraints = vec![
        (NumericConstraint::Minimum(Number::I32(0)), MessageFormat::Default),
        (NumericConstraint::Maximum(Number::I32(10)), MessageFormat::Default),
    ];
    let mut b = ObjectErrorsBuilder::new();
    b.add_field("val".to_string(), validate_numeric_field(&s.val, &constraints));
    assert!(b.build().is_ok());
}

#[test]
fn range_nested_option_type_is_ok() {
    struct TestStruct {
        val: Option<Option<i32>>,
    }
    let s = TestStruct { val: Some(Some(5)) };
    let constraints = vec![
        (NumericConstraint::Minimum(Number::I32(0)), MessageFormat::Default),
        (NumericConstraint::Maximum(Number::I32(10)), MessageFormat::Default),
    ];
    let mut b = ObjectErrorsBuilder::new();
    b.add_field("val".to_string(), validate_numeric_field(&s.val, &constraints));
    assert!(b.build().is_ok());
}

#[test]
fn range_vec_optional_type_is_ok() {
    struct TestStruct {
        val: Vec<Option<i32>>,
    }
    let s = TestStruct {
        val: vec![Some(4), Some(8), None],
    };
    let constraints = vec![
        (NumericConstraint::Minimum(Number::I32(0)), MessageFormat::Default),
        (NumericConstraint::Maximum(Number::I32(10)), MessageFormat::Default),
    ];
    let mut b = ObjectErrorsBuilder::new();
    b.add_field("val".to_string(), validate_numeric_field(&s.val, &constraints));
    assert!(b.build().is_ok());
}

#[test]
fn range_array_optional_type_is_ok() {
    struct TestStruct {
        val: [Option<i32>; 3],
    }
    let s = TestStruct {
        val: [Some(4), Some(8), None],
    };
    let constraints = vec![
        (NumericConstraint::Minimum(Number::I32(0)), MessageFormat::Default),
        (NumericConstraint::Maximum(Number::I32(10)), MessageFormat::Default),
    ];
    let mut b = ObjectErrorsBuilder::new();
    b.add_field("val".to_string(), validate_numeric_field(&s.val, &constraints));
    assert!(b.build().is_ok());
}

#[test]
fn range_inclusive_err_message() {
    struct TestStruct {
        val: i32,
    }
    let s = TestStruct { val: 0 };
    let r = check_i32(
        s.val,
        vec![
            (NumericConstraint::Minimum(Number::I32(1)), MessageFormat::Default),
            (NumericConstraint::Maximum(Number::I32(10)), MessageFormat::Default),
        ],
    );
    assert_eq!(
        r.unwrap_err().to_json(),
        r#"{"errors":[],"properties":{"val":{"errors":["The number must be `>= 1`."]}}}"#
    );
}

#[test]
fn range_exclusive_err_message() {
    struct TestStruct {
        val: i32,
    }
    let s = TestStruct { val: 0 };
    let r = check_i32(
        s.val,
        vec![
            (NumericConstraint::ExclusiveMinimum(Number::I32(1)), MessageFormat::Default),
            (NumericConstraint::ExclusiveMaximum(Number::I32(10)), MessageFormat::Default),
        ],
    );
    assert_eq!(
        r.unwrap_err().to_json(),
        r#"{"errors":[],"properties":{"val":{"errors":["The number must be `> 1`."]}}}"#
    );
}

#[test]
fn range_custom_err_message_fn() {
    fn custom_min_error_message(_params: &MinimumError) -> String {
        "this is min custom message.".to_string()
    }

    fn custom_max_error_message(_params: &MaximumError) -> String {
        "this is max custom message.".to_string()
    }

    struct TestStruct {
        val: i32,
    }
    let s = TestStruct { val: 4 };
    let r = check_i32(
        s.val,
        vec![
            (
                NumericConstraint::Minimum(Number::I32(5)),
                MessageFormat::Literal(custom_min_error_message(&MinimumError {
                    minimum: Number::I32(5),
                })),
            ),
            (
                NumericConstraint::Maximum(Number::I32(3)),
                MessageFormat::Literal(custom_max_error_message(&MaximumError {
                    maximum: Number::I32(3),
                })),
            ),
        ],
    );
    assert_eq!(
        r.unwrap_err().to_json(),
        r#"{"errors":[],"properties":{"val":{"errors":["this is min custom message.","this is max custom message."]}}}"#
    );
}

#[test]
fn range_custom_err_message() {
    struct TestStruct {
        val: i32,
    }
    let s = TestStruct { val: 4 };
    let r = check_i32(
        s.val,
        vec![
            (
                NumericConstraint::Minimum(Number::I32(5)),
                MessageFormat::Literal("this is min custom message.".to_string()),
            ),
            (
                NumericConstraint::Maximum(Number::I32(3)),
                MessageFormat::Literal("this is max custom message.".to_string()),
            ),
        ],
    );
    assert_eq!(
        r.unwrap_err().to_json(),
        r#"{"errors":[],"properties":{"val":{"errors":["this is min custom message.","this is max custom message."]}}}"#
    );
}
