use std::borrow::Cow;
use std::path::PathBuf;

use serde_valid::ValidateMaxLength;

#[test]
fn test_validate_string_max_length_ascii_is_true() {
    assert!(ValidateMaxLength::validate_max_length("abcde", 5).is_ok());
    assert!(ValidateMaxLength::validate_max_length("abcde", 6).is_ok());
}

#[test]
fn test_validate_string_max_length_unicode_is_true() {
    assert!(ValidateMaxLength::validate_max_length("a̐éö̲", 3).is_ok());
}

#[test]
fn test_validate_string_max_length_japanese_is_true() {
    assert!(ValidateMaxLength::validate_max_length("あ堯", 2).is_ok());
}

#[test]
fn test_validate_string_max_length_emoji_is_true() {
    assert!(ValidateMaxLength::validate_max_length("😍👺🙋🏽👨‍🎤👨‍👩‍👧‍👦", 5).is_ok());
}

#[test]
fn test_validate_string_max_length_string_type() {
    assert!(ValidateMaxLength::validate_max_length(&String::from("abcde"), 5).is_ok());
}

#[test]
fn test_validate_string_max_length_cow_str_type() {
    assert!(ValidateMaxLength::validate_max_length(&Cow::from("abcde"), 5).is_ok());
}

#[test]
fn test_validate_string_max_length_path_buf_type() {
    assert!(ValidateMaxLength::validate_max_length(&PathBuf::from("./foo/bar.txt"), 13).is_ok());
}

#[test]
fn test_validate_string_max_length_is_false() {
    assert!(ValidateMaxLength::validate_max_length("abcde", 4).is_err());
    let err = ValidateMaxLength::validate_max_length("abcde", 4).unwrap_err();
    assert_eq!(err.max_length, 4);
}
