use serde_valid::builder::{validate_numeric_field, ObjectErrorsBuilder};
use serde_valid::error::{MessageFormat, MultipleOfError};
use serde_valid::validate::NumericConstraint;
use serde_valid::Number;

fn multiple_of(n: i32) -> (NumericConstraint, MessageFormat) {
    (NumericConstraint::MultipleOf(Number::I32(n)), MessageFormat::Default)
}

#[test]
fn multiple_of_integer_is_ok() {
    struct TestStruct {
        val: i32,
    }
    let s = TestStruct { val: 15 };
    let mut b = ObjectErrorsBuilder::new();
    b.add_field("val".to_string(), validate_numeric_field(&s.val, &vec![multiple_of(5)]));
    assert!(b.build().is_ok());
}

#[test]
fn multiple_of_integer_is_err() {
    struct TestStruct {
        val: i32,
    }
    let s = TestStruct { val: 16 };
    let mut b = ObjectErrorsBuilder::new();
    b.add_field("val".to_string(), validate_numeric_field(&s.val, &vec![multiple_of(3)]));
    assert!(b.build().is_err());
}

#[test]
fn multiple_of_vec_type_is_ok() {
    struct TestStruct {
        val: Vec<i32>,
    }
    let s = TestStruct { val: vec![12, 16] };
    let mut b = ObjectErrorsBuilder::new();
    b.add_field("val".to_string(), validate_numeric_field(&s.val, &vec![multiple_of(4)]));
    assert!(b.build().is_ok());
}

#[test]
fn multiple_of_nested_vec_type_is_ok() {
    struct TestStruct {
        val: Vec<Vec<i32>>,
    }
    let s = TestStruct {
        val: vec![vec![4, 8], vec![12, 16]],
    };
    let mut b = ObjectErrorsBuilder::new();
    b.add_field("val".to_string(), validate_numeric_field(&s.val, &vec![multiple_of(4)]));
    assert!(b.build().is_ok());
}

#[test]
fn multiple_of_optional_type_is_ok() {
    struct TestStruct {
        val: Option<i32>,
    }
    let s = TestStruct { val: Some(12) };
    let mut b = ObjectErrorsBuilder::new();
    b.add_field("val".to_string(), validate_numeric_field(&s.val, &vec![multiple_of(4)]));
    assert!(b.build().is_ok());
}

#[test]
fn multiple_of_nested_optional_type_is_ok() {
    struct TestStruct {
        val: Option<Option<i32>>,
    }
    let s = TestStruct {
        val: Some(Some(12)),
    };
    let mut b = ObjectErrorsBuilder::new();
    b.add_field("val".to_string(), validate_numeric_field(&s.val, &vec![multiple_of(4)]));
    assert!(b.build().is_ok());
}

#[test]
fn multiple_of_vec_optional_type_is_ok() {
    struct TestStruct {
        val: Vec<Option<i32>>,
    }
    let s = TestStruct {
        val: vec![Some(4), Some(8), None],
    };
    let mut b = ObjectErrorsBuilder::new();
    b.add_field("val".to_string(), validate_numeric_field(&s.val, &vec![multiple_of(4)]));
    assert!(b.build().is_ok());
}

#[test]
fn multiple_of_err_message() {
    struct TestStruct {
        val: i32,
    }
    let s = TestStruct { val: 14 };
    let mut b = ObjectErrorsBuilder::new();
    b.add_field("val".to_string(), validate_numeric_field(&s.val, &vec![multiple_of(5)]));
    assert_eq!(
        b.build().unwrap_err().to_json(),
        r#"{"errors":[],"properties":{"val":{"errors":["The value must be multiple of `5`."]}}}"#
    );
}

#[test]
fn multiple_of_custom_err_message_fn() {
    fn error_message(_params: &MultipleOfError) -> String {
        "this is custom message.".to_string()
    }

    struct TestStruct {
        val: i32,
    }
    let s = TestStruct { val: 14 };
    let constraints = vec![(
        NumericConstraint::MultipleOf(Number::I32(5)),
        MessageFormat::Literal(error_message(&MultipleOfError {
            multiple_of: Number::I32(5),
        })),
    )];
    let mut b = ObjectErrorsBuilder::new();
    b.add_field("val".to_string(), validate_numeric_field(&s.val, &constraints));
    assert_eq!(
        b.build().unwrap_err().to_json(),
        r#"{"errors":[],"properties":{"val":{"errors":["this is custom message."]}}}"#
    );
}

#[test]
fn multiple_of_custom_err_message() {
    struct TestStruct {
        val: i32,
    }
    let s = TestStruct { val: 14 };
    let constraints = vec![(
        NumericConstraint::MultipleOf(Number::I32(5)),
        MessageFormat::Literal("this is custom message.".to_string()),
    )];
    let mut b = ObjectErrorsBuilder::new();
    b.add_field("val".to_string(), validate_numeric_field(&s.val, &constraints));
    assert_eq!(
        b.build().unwrap_err().to_json(),
        r#"{"errors":[],"properties":{"val":{"errors":["this is custom message."]}}}"#
    );
}
