//! A structural validation engine: given a value built from nested
//! records, sequences and maps, it checks declarative constraints (numeric
//! ranges, multiples, text and collection sizes, patterns, enumerations,
//! custom rules) and collects every violation into one hierarchical error
//! report whose shape mirrors the value's, with a canonical serialized
//! form.  A compile-time front end that reads per-field declarations is
//! expected to drive it; everything the engine itself does is specified
//! and verified here.

pub mod builder;
pub mod composited;
pub mod error;
pub mod fold;
pub mod length;
pub mod merge;
pub mod number;
pub mod pattern;
pub mod render;
pub mod shape;
pub mod suggest;
pub mod validate;

pub use error as validation;

pub use builder::ObjectErrorsBuilder;
pub use composited::ValidateCompositedNumeric;
pub use error::{
    EnumerateError, Error, ExclusiveMaximumError, ExclusiveMinimumError, MaxItemsError,
    MaxLengthError, MaxPropertiesError, MaximumError, MessageFormat, MinItemsError,
    MinLengthError, MinPropertiesError, MinimumError, MultipleOfError, PatternError,
};
pub use length::{Length, ValidateMaxLength, ValidateMinLength};
pub use number::Number;
pub use suggest::did_you_mean;
pub use validate::NumericConstraint;
