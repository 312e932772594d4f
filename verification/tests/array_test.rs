use serde_valid::builder::{nested_item_error, validate_numeric_field, ObjectErrorsBuilder};
use serde_valid::error::{Error, Errors, Message, MessageFormat};
use serde_valid::validate::{validate_max_items, validate_min_items, NumericConstraint};
use serde_valid::Number;

#[test]
fn items_err_message() {
    fn rule_sample(_a: i32) -> Result<(), Error> {
        Err(Error::Custom("Rule error.".to_owned()))
    }

    struct TestStruct {
        val: Vec<TestChildStruct>,
    }

    struct TestChildStruct {
        val: i32,
    }

    fn validate_child(c: &TestChildStruct) -> Result<(), Errors> {
        let mut b = ObjectErrorsBuilder::new();
        if let Err(e) = rule_sample(c.val) {
            b.push_rule_error(e);
        }
        let constraints = vec![
            (NumericConstraint::Minimum(Number::I32(1)), MessageFormat::Default),
            (NumericConstraint::Maximum(Number::I32(10)), MessageFormat::Default),
        ];
        b.add_field("val".to_string(), validate_numeric_field(&c.val, &constraints));
        b.build()
    }

    let s = TestStruct {
        val: vec![
            TestChildStruct { val: 0 },
            TestChildStruct { val: 5 },
            TestChildStruct { val: 15 },
        ],
    };

    let mut field_errors: Vec<Error> = Vec::new();
    if let Err(p) = validate_min_items(&s.val, 5) {
        field_errors.push(Error::MinItems(Message::new(p, MessageFormat::Default)));
    }
    if let Err(p) = validate_max_items(&s.val, 2) {
        field_errors.push(Error::MaxItems(Message::new(p, MessageFormat::Default)));
    }
    for (index, child) in s.val.iter().enumerate() {
        if let Err(tree) = validate_child(child) {
            field_errors.push(nested_item_error(index, tree));
        }
    }

    let mut b = ObjectErrorsBuilder::new();
    b.add_field("val".to_string(), field_errors);

    assert_eq!(
        b.build().unwrap_err().to_json(),
        r#"{"errors":[],"properties":{"val":{"errors":["The length of the items must be `>= 5`.","The length of the items must be `<= 2`."],"items":{"0":{"errors":["Rule error."],"properties":{"val":{"errors":["The number must be `>= 1`."]}}},"1":{"errors":["Rule error."],"properties":{}},"2":{"errors":["Rule error."],"properties":{"val":{"errors":["The number must be `<= 10`."]}}}}}}}"#
    );
}
