use vstd::prelude::*;
use crate::error::{PatternError, Error, ErrorModel, Message, MessageFormat};

verus! {

/// A compiled regular expression of the `regex` crate, declared so that it
/// can stand in a field.
#[verifier::external_type_specification]
#[verifier::external_body]
pub struct ExRegex(regex::Regex);

/// Whether the regular expression written as `pattern` matches somewhere in
/// `text`.  What that means takes the `regex` crate's documentation to
/// state; the name ties every match call to the pattern the expression was
/// compiled from.
pub uninterp spec fn regex_match(pattern: Seq<char>, text: Seq<char>) -> bool;

/// A pattern constraint: the source text and the expression compiled from
/// it, once, at setup time.  The compiled expression is reused, read-only,
/// by every later validation call.
pub struct Pattern {
    source: String,
    regex: regex::Regex,
}

impl Pattern {
    /// The pattern's source text.
    pub closed spec fn spec_source(&self) -> Seq<char> {
        self.source@
    }

    /// Compiles the pattern once.  An invalid pattern is a configuration
    /// fault, reported at setup so that no validator is built from it.
    ///
    /// Relies on `regex::Regex::new`: `Ok` holds an expression compiled
    /// from exactly the given source text.
    #[verifier::external_body]
    pub fn new(source: &str) -> (r: Result<Pattern, String>)
        ensures
            r matches Ok(p) ==> p.spec_source() == source@,
    {
        match regex::Regex::new(source) {
            Ok(re) => Ok(Pattern { source: source.to_owned(), regex: re }),
            Err(e) => Err(e.to_string()),
        }
    }

    /// Whether the pattern matches the candidate text.
    ///
    /// Relies on `regex::Regex::is_match`: the answer depends only on the
    /// compiled pattern (always this value's `source`, see `new`) and the
    /// candidate text.
    #[verifier::external_body]
    pub fn is_match(&self, text: &str) -> (r: bool)
        ensures
            r == regex_match(self.spec_source(), text@),
    {
        self.regex.is_match(text)
    }

    /// A copy of the pattern's source text.
    pub fn source_text(&self) -> (s: String)
        ensures
            s@ == self.spec_source(),
    {
        self.source.clone()
    }
}

/// Fails unless the pattern matches the candidate text.
pub fn validate_pattern(text: &str, pattern: &Pattern) -> (r: Result<(), PatternError>)
    ensures
        r is Ok <==> regex_match(pattern.spec_source(), text@),
        r matches Err(e) ==> e.pattern@ == pattern.spec_source(),
{
    if pattern.is_match(text) {
        Ok(())
    } else {
        Err(PatternError { pattern: pattern.source_text() })
    }
}

/// Evaluates a pattern constraint into the error a field's list collects.
pub fn evaluate_pattern(text: &str, pattern: &Pattern, format: &MessageFormat) -> (r: Option<
    Error,
>)
    ensures
        r is None <==> regex_match(pattern.spec_source(), text@),
        r matches Some(e) ==> e@ == (ErrorModel::Pattern {
            pattern: pattern.spec_source(),
            format: format@,
        }),
{
    match validate_pattern(text, pattern) {
        Ok(()) => None,
        Err(params) => Some(Error::Pattern(Message::new(params, format.duplicate()))),
    }
}

} // verus!
