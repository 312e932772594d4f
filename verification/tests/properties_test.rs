use std::collections::BTreeMap;
use std::collections::HashMap;

use serde_valid::builder::ObjectErrorsBuilder;
use serde_valid::error::{Error, Message, MessageFormat, MaxPropertiesError, MinPropertiesError};
use serde_valid::validate::{
    validate_max_properties, validate_max_properties_btree, validate_min_properties,
    validate_min_properties_btree,
};

fn hash_map_field_errors(
    map: &HashMap<String, String>,
    min_properties: usize,
    max_properties: usize,
) -> Vec<Error> {
    let mut errors = Vec::new();
    if let Err(p) = validate_min_properties(map, min_properties) {
        errors.push(Error::MinProperties(Message::new(p, MessageFormat::Default)));
    }
    if let Err(p) = validate_max_properties(map, max_properties) {
        errors.push(Error::MaxProperties(Message::new(p, MessageFormat::Default)));
    }
    errors
}

fn btree_map_field_errors(
    map: &BTreeMap<String, String>,
    min_properties: usize,
    max_properties: usize,
) -> Vec<Error> {
    let mut errors = Vec::new();
    if let Err(p) = validate_min_properties_btree(map, min_properties) {
        errors.push(Error::MinProperties(Message::new(p, MessageFormat::Default)));
    }
    if let Err(p) = validate_max_properties_btree(map, max_properties) {
        errors.push(Error::MaxProperties(Message::new(p, MessageFormat::Default)));
    }
    errors
}

#[test]
fn properties_hash_map_type() {
    struct TestStruct {
        val: HashMap<String, String>,
    }

    let mut map = HashMap::new();
    map.insert("key1".to_string(), "value1".to_string());
    map.insert("key2".to_string(), "value2".to_string());
    map.insert("key3".to_string(), "value3".to_string());

    let s = TestStruct { val: map };
    let mut b = ObjectErrorsBuilder::new();
    b.add_field("val".to_string(), hash_map_field_errors(&s.val, 3, 3));
    assert!(b.build().is_ok());
}

#[test]
fn properties_btree_map_type() {
    struct TestStruct {
        val: BTreeMap<String, String>,
    }

    let mut map = BTreeMap::new();
    map.insert("key1".to_string(), "value1".to_string());
    map.insert("key2".to_string(), "value2".to_string());
    map.insert("key3".to_string(), "value3".to_string());

    let s = TestStruct { val: map };
    let mut b = ObjectErrorsBuilder::new();
    b.add_field("val".to_string(), btree_map_field_errors(&s.val, 3, 3));
    assert!(b.build().is_ok());
}

#[test]
fn properties_is_err() {
    struct TestStruct {
        val: BTreeMap<String, String>,
    }

    let mut map = BTreeMap::new();
    map.insert("key1".to_string(), "value1".to_string());
    map.insert("key2".to_string(), "value2".to_string());

    let s = TestStruct { val: map };
    let mut b = ObjectErrorsBuilder::new();
    b.add_field("val".to_string(), btree_map_field_errors(&s.val, 3, 3));
    assert!(b.build().is_err());
}

#[test]
fn properties_hash_map_type_err_message() {
    struct TestStruct {
        val: HashMap<String, String>,
    }

    let mut map = HashMap::new();
    map.insert("key1".to_string(), "value1".to_string());

    let s = TestStruct { val: map };
    let mut b = ObjectErrorsBuilder::new();
    b.add_field("val".to_string(), hash_map_field_errors(&s.val, 3, 3));
    assert_eq!(
        b.build().unwrap_err().to_json(),
        r#"{"errors":[],"properties":{"val":{"errors":["The size of the properties must be `>= 3`."]}}}"#
    );
}

#[test]
fn properties_btree_map_type_err_message() {
    struct TestStruct {
        val: BTreeMap<String, String>,
    }

    let mut map = BTreeMap::new();
    map.insert("key1".to_string(), "value1".to_string());

    let s = TestStruct { val: map };
    let mut b = ObjectErrorsBuilder::new();
    b.add_field("val".to_string(), btree_map_field_errors(&s.val, 3, 3));
    assert_eq!(
        b.build().unwrap_err().to_json(),
        r#"{"errors":[],"properties":{"val":{"errors":["The size of the properties must be `>= 3`."]}}}"#
    );
}

#[test]
fn properties_custom_err_message_fn() {
    fn min_custom_error_message(_params: &MinPropertiesError) -> String {
        "this is min custom message.".to_string()
    }

    fn max_custom_error_message(_params: &MaxPropertiesError) -> String {
        "this is max custom message.".to_string()
    }

    struct TestStruct {
        val: HashMap<String, String>,
    }

    let mut map = HashMap::new();
    map.insert("key1".to_string(), "value1".to_string());
    map.insert("key2".to_string(), "value2".to_string());

    let s = TestStruct { val: map };
    let mut errors = Vec::new();
    if let Err(p) = validate_min_properties(&s.val, 3) {
        errors.push(Error::MinProperties(Message::new(
            p,
            MessageFormat::Literal(min_custom_error_message(&p)),
        )));
    }
    if let Err(p) = validate_max_properties(&s.val, 1) {
        errors.push(Error::MaxProperties(Message::new(
            p,
            MessageFormat::Literal(max_custom_error_message(&p)),
        )));
    }
    let mut b = ObjectErrorsBuilder::new();
    b.add_field("val".to_string(), errors);
    assert_eq!(
        b.build().unwrap_err().to_json(),
        r#"{"errors":[],"properties":{"val":{"errors":["this is min custom message.","this is max custom message."]}}}"#
    );
}

#[test]
fn properties_custom_err_message() {
    struct TestStruct {
        val: HashMap<String, String>,
    }

    let mut map = HashMap::new();
    map.insert("key1".to_string(), "value1".to_string());
    map.insert("key2".to_string(), "value2".to_string());

    let s = TestStruct { val: map };
    let mut errors = Vec::new();
    if let Err(p) = validate_min_properties(&s.val, 3) {
        errors.push(Error::MinProperties(Message::new(
            p,
            MessageFormat::Literal("this is min custom message.".to_string()),
        )));
    }
    if let Err(p) = validate_max_properties(&s.val, 1) {
        errors.push(Error::MaxProperties(Message::new(
            p,
            MessageFormat::Literal("this is max custom message.".to_string()),
        )));
    }
    let mut b = ObjectErrorsBuilder::new();
    b.add_field("val".to_string(), errors);
    assert_eq!(
        b.build().unwrap_err().to_json(),
        r#"{"errors":[],"properties":{"val":{"errors":["this is min custom message.","this is max custom message."]}}}"#
    );
}
