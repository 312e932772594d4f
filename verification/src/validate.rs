use vstd::prelude::*;
use crate::error::{
    EnumerateError, Error, ErrorModel, ExclusiveMaximumError, ExclusiveMinimumError, FormatModel,
    MaxItemsError, MaximumError, MaxPropertiesError, Message, MessageFormat, MinimumError,
    MinItemsError, MinPropertiesError, MultipleOfError,
};
use crate::number::{Number, spec_is_multiple_of};
use std::collections::BTreeMap;
use std::collections::HashMap;

verus! {

// ---------------------------------------------------------------------------
// Numeric constraints
// ---------------------------------------------------------------------------

/// One declared numeric constraint: the kind tag and the configured bound.
#[derive(Debug, Clone, Copy, PartialEq)]
pub enum NumericConstraint {
    Minimum(Number),
    Maximum(Number),
    ExclusiveMinimum(Number),
    ExclusiveMaximum(Number),
    MultipleOf(Number),
}

impl NumericConstraint {
    /// A divisor of zero makes no multiple-of constraint; everything else
    /// is well formed.
    pub open spec fn wf(self) -> bool {
        match self {
            NumericConstraint::MultipleOf(m) => m.as_int() != 0,
            _ => true,
        }
    }
}

/// Whether the value `v` satisfies the constraint.
pub open spec fn numeric_ok(v: int, c: NumericConstraint) -> bool {
    match c {
        NumericConstraint::Minimum(m) => v >= m.as_int(),
        NumericConstraint::Maximum(m) => v <= m.as_int(),
        NumericConstraint::ExclusiveMinimum(m) => v > m.as_int(),
        NumericConstraint::ExclusiveMaximum(m) => v < m.as_int(),
        NumericConstraint::MultipleOf(m) => spec_is_multiple_of(v, m.as_int()),
    }
}

/// The leaf error a failing numeric constraint produces.
pub open spec fn numeric_leaf_model(c: NumericConstraint, f: FormatModel) -> ErrorModel {
    match c {
        NumericConstraint::Minimum(m) => ErrorModel::Minimum { limit: m.as_int(), format: f },
        NumericConstraint::Maximum(m) => ErrorModel::Maximum { limit: m.as_int(), format: f },
        NumericConstraint::ExclusiveMinimum(m) => ErrorModel::ExclusiveMinimum {
            limit: m.as_int(),
            format: f,
        },
        NumericConstraint::ExclusiveMaximum(m) => ErrorModel::ExclusiveMaximum {
            limit: m.as_int(),
            format: f,
        },
        NumericConstraint::MultipleOf(m) => ErrorModel::MultipleOf {
            limit: m.as_int(),
            format: f,
        },
    }
}

/// Evaluates one numeric constraint on one value: `None` on success, the
/// leaf error on failure.
pub fn evaluate_numeric(value: Number, c: &NumericConstraint, format: &MessageFormat) -> (r:
    Option<Error>)
    requires
        c.wf(),
    ensures
        r is None <==> numeric_ok(value.as_int(), *c),
        r matches Some(e) ==> e@ == numeric_leaf_model(*c, format@),
{
    match c {
        NumericConstraint::Minimum(m) => {
            if m.le(value) {
                None
            } else {
                Some(
                    Error::Minimum(
                        Message::new(MinimumError { minimum: *m }, format.duplicate()),
                    ),
                )
            }
        },
        NumericConstraint::Maximum(m) => {
            if value.le(*m) {
                None
            } else {
                Some(
                    Error::Maximum(
                        Message::new(MaximumError { maximum: *m }, format.duplicate()),
                    ),
                )
            }
        },
        NumericConstraint::ExclusiveMinimum(m) => {
            if m.lt(value) {
                None
            } else {
                Some(
                    Error::ExclusiveMinimum(
                        Message::new(
                            ExclusiveMinimumError { exclusive_minimum: *m },
                            format.duplicate(),
                        ),
                    ),
                )
            }
        },
        NumericConstraint::ExclusiveMaximum(m) => {
            if value.lt(*m) {
                None
            } else {
                Some(
                    Error::ExclusiveMaximum(
                        Message::new(
                            ExclusiveMaximumError { exclusive_maximum: *m },
                            format.duplicate(),
                        ),
                    ),
                )
            }
        },
        NumericConstraint::MultipleOf(m) => {
            if value.is_multiple_of(*m) {
                None
            } else {
                Some(
                    Error::MultipleOf(
                        Message::new(MultipleOfError { multiple_of: *m }, format.duplicate()),
                    ),
                )
            }
        },
    }
}

/// Law: an inclusive range constraint admits its own boundary value, and
/// the exclusive variant rejects it.
pub proof fn lemma_boundary_values(limit: Number)
    ensures
        numeric_ok(limit.as_int(), NumericConstraint::Minimum(limit)),
        numeric_ok(limit.as_int(), NumericConstraint::Maximum(limit)),
        !numeric_ok(limit.as_int(), NumericConstraint::ExclusiveMinimum(limit)),
        !numeric_ok(limit.as_int(), NumericConstraint::ExclusiveMaximum(limit)),
{
}

// ---------------------------------------------------------------------------
// Collection cardinality
// ---------------------------------------------------------------------------

/// At most `max_items` elements.
pub fn validate_max_items<T>(value: &Vec<T>, max_items: usize) -> (r: Result<(), MaxItemsError>)
    ensures
        r is Ok <==> value@.len() <= max_items,
        r matches Err(e) ==> e == (MaxItemsError { max_items }),
{
    if value.len() <= max_items {
        Ok(())
    } else {
        Err(MaxItemsError { max_items })
    }
}

/// At least `min_items` elements.
pub fn validate_min_items<T>(value: &Vec<T>, min_items: usize) -> (r: Result<(), MinItemsError>)
    ensures
        r is Ok <==> value@.len() >= min_items,
        r matches Err(e) ==> e == (MinItemsError { min_items }),
{
    if value.len() >= min_items {
        Ok(())
    } else {
        Err(MinItemsError { min_items })
    }
}

/// At most `max_properties` entries.
pub fn validate_max_properties<K, V>(value: &HashMap<K, V>, max_properties: usize) -> (r: Result<
    (),
    MaxPropertiesError,
>)
    ensures
        r is Ok <==> vstd::std_specs::hash::spec_hash_map_len(value) <= max_properties,
        r matches Err(e) ==> e == (MaxPropertiesError { max_properties }),
{
    if value.len() <= max_properties {
        Ok(())
    } else {
        Err(MaxPropertiesError { max_properties })
    }
}

/// At least `min_properties` entries.
pub fn validate_min_properties<K, V>(value: &HashMap<K, V>, min_properties: usize) -> (r: Result<
    (),
    MinPropertiesError,
>)
    ensures
        r is Ok <==> vstd::std_specs::hash::spec_hash_map_len(value) >= min_properties,
        r matches Err(e) ==> e == (MinPropertiesError { min_properties }),
{
    if value.len() >= min_properties {
        Ok(())
    } else {
        Err(MinPropertiesError { min_properties })
    }
}

/// At most `max_properties` entries.
pub fn validate_max_properties_btree<K: Ord, V>(
    value: &BTreeMap<K, V>,
    max_properties: usize,
) -> (r: Result<(), MaxPropertiesError>)
    ensures
        r is Ok <==> vstd::std_specs::btree::spec_btree_map_len(value) <= max_properties,
        r matches Err(e) ==> e == (MaxPropertiesError { max_properties }),
{
    if value.len() <= max_properties {
        Ok(())
    } else {
        Err(MaxPropertiesError { max_properties })
    }
}

/// At least `min_properties` entries.
pub fn validate_min_properties_btree<K: Ord, V>(
    value: &BTreeMap<K, V>,
    min_properties: usize,
) -> (r: Result<(), MinPropertiesError>)
    ensures
        r is Ok <==> vstd::std_specs::btree::spec_btree_map_len(value) >= min_properties,
        r matches Err(e) ==> e == (MinPropertiesError { min_properties }),
{
    if value.len() >= min_properties {
        Ok(())
    } else {
        Err(MinPropertiesError { min_properties })
    }
}

// ---------------------------------------------------------------------------
// Enumeration membership
// ---------------------------------------------------------------------------

/// Fails unless the value equals one of a fixed set, comparing on the
/// common integer domain.
pub fn validate_enumerate(value: Number, enumerate: &Vec<Number>) -> (r: Result<
    (),
    EnumerateError,
>)
    ensures
        r is Ok <==> exists|i: int|
            0 <= i < enumerate@.len() && (#[trigger] enumerate@[i]).as_int() == value.as_int(),
        r matches Err(e) ==> e.enumerate@ == enumerate@,
{
    let n = enumerate.len();
    let mut i: usize = 0;
    while i < n
        invariant
            i <= n,
            n == enumerate@.len(),
            forall|j: int| 0 <= j < i ==> (#[trigger] enumerate@[j]).as_int() != value.as_int(),
        decreases n - i,
    {
        if enumerate[i].same_value(value) {
            return Ok(());
        }
        i = i + 1;
    }
    let mut copied: Vec<Number> = Vec::new();
    let mut j: usize = 0;
    while j < n
        invariant
            j <= n,
            n == enumerate@.len(),
            copied@ =~= enumerate@.subrange(0, j as int),
        decreases n - j,
    {
        copied.push(enumerate[j]);
        j = j + 1;
    }
    proof {
        assert(copied@ =~= enumerate@);
    }
    Err(EnumerateError { enumerate: copied })
}

} // verus!
