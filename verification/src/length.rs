use vstd::prelude::*;
use unicode_segmentation::UnicodeSegmentation;
use crate::error::{MaxLengthError, MinLengthError};

verus! {

/// The number of extended grapheme clusters in the text: the
/// user-perceived characters that a length constraint counts.  What bounds
/// a cluster takes the Unicode segmentation rules to state; the name
/// stands for that count, a function of the text alone.
pub uninterp spec fn grapheme_count(s: Seq<char>) -> nat;

/// Relies on `unicode_segmentation::UnicodeSegmentation::graphemes`: the
/// extended grapheme clusters of the text, here only counted.
#[verifier::external_body]
fn str_grapheme_count(s: &str) -> (n: usize)
    ensures
        n as nat == grapheme_count(s@),
{
    s.graphemes(true).count()
}

/// The constraint-relevant size of a value: the count of user-perceived
/// characters for a text, the element count for a sequence.
pub trait Length {
    /// The size as a mathematical number.
    spec fn spec_length(&self) -> nat;

    /// Computes the size.
    fn length(&self) -> (l: usize)
        ensures
            l as nat == self.spec_length(),
    ;
}

impl Length for str {
    open spec fn spec_length(&self) -> nat {
        grapheme_count(self@)
    }

    fn length(&self) -> (l: usize) {
        str_grapheme_count(self)
    }
}

impl Length for String {
    open spec fn spec_length(&self) -> nat {
        grapheme_count(self@)
    }

    fn length(&self) -> (l: usize) {
        str_grapheme_count(self.as_str())
    }
}

impl Length for std::borrow::Cow<'_, str> {
    open spec fn spec_length(&self) -> nat {
        grapheme_count(self@)
    }

    fn length(&self) -> (l: usize) {
        match self {
            std::borrow::Cow::Borrowed(s) => str_grapheme_count(s),
            std::borrow::Cow::Owned(s) => str_grapheme_count(s.as_str()),
        }
    }
}

impl<T> Length for Vec<T> {
    open spec fn spec_length(&self) -> nat {
        self@.len()
    }

    fn length(&self) -> (l: usize) {
        self.len()
    }
}

/// A filesystem path, declared so that it can carry a length.
#[verifier::external_type_specification]
#[verifier::external_body]
pub struct ExPathBuf(std::path::PathBuf);

/// The number of characters in the path's text, lossily decoded.  It takes
/// the standard library's Unicode replacement rules to state; the name
/// stands for that count, which depends on the path value alone.
pub uninterp spec fn path_char_count(p: &std::path::PathBuf) -> nat;

/// Relies on `Path::to_string_lossy`: the path's text, from which the
/// characters are counted.
#[verifier::external_body]
fn path_length(p: &std::path::PathBuf) -> (l: usize)
    ensures
        l as nat == path_char_count(p),
{
    p.to_string_lossy().chars().count()
}

impl Length for std::path::PathBuf {
    open spec fn spec_length(&self) -> nat {
        path_char_count(self)
    }

    fn length(&self) -> (l: usize) {
        path_length(self)
    }
}

/// Max length validation of the string.
///
/// The length counts characters, not bytes, and the bound is inclusive.
pub trait ValidateMaxLength {
    /// The length the bound is checked against.
    spec fn length_model(&self) -> nat;

    fn validate_max_length(&self, max_length: usize) -> (r: Result<(), MaxLengthError>)
        ensures
            r is Ok <==> self.length_model() <= max_length,
            r matches Err(e) ==> e == (MaxLengthError { max_length }),
    ;
}

impl<T: Length + ?Sized> ValidateMaxLength for T {
    open spec fn length_model(&self) -> nat {
        self.spec_length()
    }

    fn validate_max_length(&self, max_length: usize) -> (r: Result<(), MaxLengthError>) {
        if max_length >= self.length() {
            Ok(())
        } else {
            Err(MaxLengthError::new(max_length))
        }
    }
}

/// Min length validation of the string.
///
/// The length counts characters, not bytes, and the bound is inclusive.
pub trait ValidateMinLength {
    /// The length the bound is checked against.
    spec fn length_model(&self) -> nat;

    fn validate_min_length(&self, min_length: usize) -> (r: Result<(), MinLengthError>)
        ensures
            r is Ok <==> self.length_model() >= min_length,
            r matches Err(e) ==> e == (MinLengthError { min_length }),
    ;
}

impl<T: Length + ?Sized> ValidateMinLength for T {
    open spec fn length_model(&self) -> nat {
        self.spec_length()
    }

    fn validate_min_length(&self, min_length: usize) -> (r: Result<(), MinLengthError>) {
        if min_length <= self.length() {
            Ok(())
        } else {
            Err(MinLengthError { min_length })
        }
    }
}

} // verus!
