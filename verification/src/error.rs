use vstd::prelude::*;
use crate::number::Number;

verus! {

broadcast use vstd::std_specs::vec::group_vec_axioms;

// ---------------------------------------------------------------------------
// Message formats
// ---------------------------------------------------------------------------

/// How a leaf failure is turned into display text: either the structural
/// default template for its constraint kind, or a caller-supplied literal
/// that replaces the default for every failure of that constraint.
#[derive(Debug, Clone, PartialEq)]
pub enum MessageFormat {
    Default,
    Literal(String),
}

/// The mathematical value of a `MessageFormat`.
pub enum FormatModel {
    Default,
    Literal(Seq<char>),
}

impl View for MessageFormat {
    type V = FormatModel;

    open spec fn view(&self) -> FormatModel {
        match self {
            MessageFormat::Default => FormatModel::Default,
            MessageFormat::Literal(s) => FormatModel::Literal(s@),
        }
    }
}

impl MessageFormat {
    /// A copy with the same meaning.
    pub fn duplicate(&self) -> (r: MessageFormat)
        ensures
            r@ == self@,
    {
        match self {
            MessageFormat::Default => MessageFormat::Default,
            MessageFormat::Literal(s) => MessageFormat::Literal(s.clone()),
        }
    }
}


/// A leaf failure's typed payload together with the message format chosen
/// for its constraint.
#[derive(Debug, Clone, PartialEq)]
pub struct Message<P> {
    pub params: P,
    pub format: MessageFormat,
}

impl<P> Message<P> {
    pub fn new(params: P, format: MessageFormat) -> (r: Message<P>)
        ensures
            r.params == params,
            r.format == format,
    {
        Message { params, format }
    }
}

// ---------------------------------------------------------------------------
// Leaf failure payloads, one per constraint kind
// ---------------------------------------------------------------------------

#[derive(Debug, Clone, Copy, PartialEq)]
pub struct MinimumError {
    pub minimum: Number,
}

#[derive(Debug, Clone, Copy, PartialEq)]
pub struct MaximumError {
    pub maximum: Number,
}

#[derive(Debug, Clone, Copy, PartialEq)]
pub struct ExclusiveMinimumError {
    pub exclusive_minimum: Number,
}

#[derive(Debug, Clone, Copy, PartialEq)]
pub struct ExclusiveMaximumError {
    pub exclusive_maximum: Number,
}

#[derive(Debug, Clone, Copy, PartialEq)]
pub struct MultipleOfError {
    pub multiple_of: Number,
}

#[derive(Debug, Clone, Copy, PartialEq)]
pub struct MaxLengthError {
    pub max_length: usize,
}

impl MaxLengthError {
    pub fn new(max_length: usize) -> (r: MaxLengthError)
        ensures
            r == (MaxLengthError { max_length }),
    {
        MaxLengthError { max_length }
    }
}

#[derive(Debug, Clone, Copy, PartialEq)]
pub struct MinLengthError {
    pub min_length: usize,
}

#[derive(Debug, Clone, Copy, PartialEq)]
pub struct MaxItemsError {
    pub max_items: usize,
}

#[derive(Debug, Clone, Copy, PartialEq)]
pub struct MinItemsError {
    pub min_items: usize,
}

#[derive(Debug, Clone, Copy, PartialEq)]
pub struct MaxPropertiesError {
    pub max_properties: usize,
}

#[derive(Debug, Clone, Copy, PartialEq)]
pub struct MinPropertiesError {
    pub min_properties: usize,
}

#[derive(Debug, Clone, PartialEq)]
pub struct PatternError {
    pub pattern: String,
}

#[derive(Debug, Clone, PartialEq)]
pub struct EnumerateError {
    pub enumerate: Vec<Number>,
}

// ---------------------------------------------------------------------------
// The error tree
// ---------------------------------------------------------------------------

/// One validation error: either a leaf failure (one violated constraint,
/// context-free), or a nested report produced by per-element or per-property
/// validation of the same field.
#[derive(Debug, PartialEq)]
pub enum Error {
    Minimum(Message<MinimumError>),
    Maximum(Message<MaximumError>),
    ExclusiveMinimum(Message<ExclusiveMinimumError>),
    ExclusiveMaximum(Message<ExclusiveMaximumError>),
    MultipleOf(Message<MultipleOfError>),
    MaxLength(Message<MaxLengthError>),
    MinLength(Message<MinLengthError>),
    MaxItems(Message<MaxItemsError>),
    MinItems(Message<MinItemsError>),
    MaxProperties(Message<MaxPropertiesError>),
    MinProperties(Message<MinPropertiesError>),
    Pattern(Message<PatternError>),
    Enumerate(Message<EnumerateError>),
    Custom(String),
    Items(ArrayErrors),
    Properties(ObjectErrors),
}

pub type VecErrors = Vec<Error>;

/// The errors of an array-shaped value: the container's own errors plus a
/// sub-tree per failing index, in ascending index order.
#[derive(Debug, PartialEq)]
pub struct ArrayErrors {
    pub errors: VecErrors,
    pub items: Vec<(usize, Errors)>,
}

impl ArrayErrors {
    pub fn new(errors: VecErrors, items: Vec<(usize, Errors)>) -> (r: ArrayErrors)
        ensures
            r.errors == errors,
            r.items == items,
    {
        ArrayErrors { errors, items }
    }
}

/// The errors of an object-shaped value: the container's own errors plus a
/// sub-tree per failing property, in insertion order.
#[derive(Debug, PartialEq)]
pub struct ObjectErrors {
    pub errors: VecErrors,
    pub properties: Vec<(String, Errors)>,
}

impl ObjectErrors {
    pub fn new(errors: VecErrors, properties: Vec<(String, Errors)>) -> (r: ObjectErrors)
        ensures
            r.errors == errors,
            r.properties == properties,
    {
        ObjectErrors { errors, properties }
    }
}

/// A whole validation outcome for one value: flat errors only, or errors
/// keyed by property name, or errors keyed by sequence index.
#[derive(Debug, PartialEq)]
pub enum Errors {
    NewType(VecErrors),
    Object(ObjectErrors),
    Array(ArrayErrors),
}

// ---------------------------------------------------------------------------
// The mathematical model of the tree
// ---------------------------------------------------------------------------

/// Model of one error: leaf kinds keep the configured limit as a plain
/// integer (or text), nested kinds keep the sub-tree's model.
#[verifier::ext_equal]
pub enum ErrorModel {
    Minimum { limit: int, format: FormatModel },
    Maximum { limit: int, format: FormatModel },
    ExclusiveMinimum { limit: int, format: FormatModel },
    ExclusiveMaximum { limit: int, format: FormatModel },
    MultipleOf { limit: int, format: FormatModel },
    MaxLength { limit: int, format: FormatModel },
    MinLength { limit: int, format: FormatModel },
    MaxItems { limit: int, format: FormatModel },
    MinItems { limit: int, format: FormatModel },
    MaxProperties { limit: int, format: FormatModel },
    MinProperties { limit: int, format: FormatModel },
    Pattern { pattern: Seq<char>, format: FormatModel },
    Enumerate { values: Seq<int>, format: FormatModel },
    Custom { message: Seq<char> },
    Items { sub: ArrayModel },
    Properties { sub: ObjectModel },
}

#[verifier::ext_equal]
pub struct ArrayModel {
    pub errors: Seq<ErrorModel>,
    pub items: Seq<(int, ErrorsModel)>,
}

#[verifier::ext_equal]
pub struct ObjectModel {
    pub errors: Seq<ErrorModel>,
    pub properties: Seq<(Seq<char>, ErrorsModel)>,
}

#[verifier::ext_equal]
pub enum ErrorsModel {
    Flat(Seq<ErrorModel>),
    Object(ObjectModel),
    Array(ArrayModel),
}

// ---------------------------------------------------------------------------
// Views from the executable tree to its model
// ---------------------------------------------------------------------------

pub open spec fn numbers_model(s: Seq<Number>) -> Seq<int>
    decreases s,
{
    if s.len() == 0 {
        Seq::empty()
    } else {
        seq![s[0].as_int()] + numbers_model(s.drop_first())
    }
}

pub open spec fn error_model(e: Error) -> ErrorModel
    decreases e,
{
    match e {
        Error::Minimum(m) => ErrorModel::Minimum {
            limit: m.params.minimum.as_int(),
            format: m.format@,
        },
        Error::Maximum(m) => ErrorModel::Maximum {
            limit: m.params.maximum.as_int(),
            format: m.format@,
        },
        Error::ExclusiveMinimum(m) => ErrorModel::ExclusiveMinimum {
            limit: m.params.exclusive_minimum.as_int(),
            format: m.format@,
        },
        Error::ExclusiveMaximum(m) => ErrorModel::ExclusiveMaximum {
            limit: m.params.exclusive_maximum.as_int(),
            format: m.format@,
        },
        Error::MultipleOf(m) => ErrorModel::MultipleOf {
            limit: m.params.multiple_of.as_int(),
            format: m.format@,
        },
        Error::MaxLength(m) => ErrorModel::MaxLength {
            limit: m.params.max_length as int,
            format: m.format@,
        },
        Error::MinLength(m) => ErrorModel::MinLength {
            limit: m.params.min_length as int,
            format: m.format@,
        },
        Error::MaxItems(m) => ErrorModel::MaxItems {
            limit: m.params.max_items as int,
            format: m.format@,
        },
        Error::MinItems(m) => ErrorModel::MinItems {
            limit: m.params.min_items as int,
            format: m.format@,
        },
        Error::MaxProperties(m) => ErrorModel::MaxProperties {
            limit: m.params.max_properties as int,
            format: m.format@,
        },
        Error::MinProperties(m) => ErrorModel::MinProperties {
            limit: m.params.min_properties as int,
            format: m.format@,
        },
        Error::Pattern(m) => ErrorModel::Pattern {
            pattern: m.params.pattern@,
            format: m.format@,
        },
        Error::Enumerate(m) => ErrorModel::Enumerate {
            values: numbers_model(m.params.enumerate@),
            format: m.format@,
        },
        Error::Custom(s) => ErrorModel::Custom { message: s@ },
        Error::Items(a) => ErrorModel::Items { sub: array_model(a) },
        Error::Properties(o) => ErrorModel::Properties { sub: object_model(o) },
    }
}

pub open spec fn errors_list_model(s: Seq<Error>) -> Seq<ErrorModel>
    decreases s,
{
    if s.len() == 0 {
        Seq::empty()
    } else {
        seq![error_model(s[0])] + errors_list_model(s.drop_first())
    }
}

pub open spec fn items_model(s: Seq<(usize, Errors)>) -> Seq<(int, ErrorsModel)>
    decreases s,
{
    if s.len() == 0 {
        Seq::empty()
    } else {
        seq![(s[0].0 as int, errors_model(s[0].1))] + items_model(s.drop_first())
    }
}

pub open spec fn props_model(s: Seq<(String, Errors)>) -> Seq<(Seq<char>, ErrorsModel)>
    decreases s,
{
    if s.len() == 0 {
        Seq::empty()
    } else {
        seq![(s[0].0@, errors_model(s[0].1))] + props_model(s.drop_first())
    }
}

pub open spec fn array_model(a: ArrayErrors) -> ArrayModel
    decreases a,
{
    ArrayModel { errors: errors_list_model(a.errors@), items: items_model(a.items@) }
}

pub open spec fn object_model(o: ObjectErrors) -> ObjectModel
    decreases o,
{
    ObjectModel { errors: errors_list_model(o.errors@), properties: props_model(o.properties@) }
}

pub open spec fn errors_model(e: Errors) -> ErrorsModel
    decreases e,
{
    match e {
        Errors::NewType(v) => ErrorsModel::Flat(errors_list_model(v@)),
        Errors::Object(o) => ErrorsModel::Object(object_model(o)),
        Errors::Array(a) => ErrorsModel::Array(array_model(a)),
    }
}

impl View for Error {
    type V = ErrorModel;

    open spec fn view(&self) -> ErrorModel {
        error_model(*self)
    }
}

impl View for ArrayErrors {
    type V = ArrayModel;

    open spec fn view(&self) -> ArrayModel {
        array_model(*self)
    }
}

impl View for ObjectErrors {
    type V = ObjectModel;

    open spec fn view(&self) -> ObjectModel {
        object_model(*self)
    }
}

impl View for Errors {
    type V = ErrorsModel;

    open spec fn view(&self) -> ErrorsModel {
        errors_model(*self)
    }
}

// ---------------------------------------------------------------------------
// Pointwise characterization of the list models
// ---------------------------------------------------------------------------

pub proof fn lemma_errors_list_model(s: Seq<Error>)
    ensures
        errors_list_model(s).len() == s.len(),
        forall|i: int| 0 <= i < s.len() ==> errors_list_model(s)[i] == error_model(s[i]),
    decreases s.len(),
{
    if s.len() > 0 {
        lemma_errors_list_model(s.drop_first());
    }
}

pub proof fn lemma_items_model(s: Seq<(usize, Errors)>)
    ensures
        items_model(s).len() == s.len(),
        forall|i: int| 0 <= i < s.len() ==> items_model(s)[i] == (
            s[i].0 as int,
            errors_model(s[i].1),
        ),
    decreases s.len(),
{
    if s.len() > 0 {
        lemma_items_model(s.drop_first());
    }
}

pub proof fn lemma_props_model(s: Seq<(String, Errors)>)
    ensures
        props_model(s).len() == s.len(),
        forall|i: int| 0 <= i < s.len() ==> props_model(s)[i] == (
            s[i].0@,
            errors_model(s[i].1),
        ),
    decreases s.len(),
{
    if s.len() > 0 {
        lemma_props_model(s.drop_first());
    }
}

pub proof fn lemma_numbers_model(s: Seq<Number>)
    ensures
        numbers_model(s).len() == s.len(),
        forall|i: int| 0 <= i < s.len() ==> numbers_model(s)[i] == s[i].as_int(),
    decreases s.len(),
{
    if s.len() > 0 {
        lemma_numbers_model(s.drop_first());
    }
}

/// Appending one error to a list appends its model.
pub proof fn lemma_errors_list_model_push(s: Seq<Error>, e: Error)
    ensures
        errors_list_model(s.push(e)) =~= errors_list_model(s).push(error_model(e)),
    decreases s.len(),
{
    if s.len() == 0 {
        assert(s.push(e).drop_first() =~= Seq::<Error>::empty());
        assert(s.push(e)[0] == e);
        assert(s.push(e).len() == 1);
        assert(errors_list_model(s.push(e)) == seq![error_model(s.push(e)[0])]
            + errors_list_model(s.push(e).drop_first()));
        assert(errors_list_model(s.push(e).drop_first()) =~= Seq::<ErrorModel>::empty());
        assert(errors_list_model(s) =~= Seq::<ErrorModel>::empty());
        assert(errors_list_model(s.push(e)) =~= errors_list_model(s).push(error_model(e)));
    } else {
        lemma_errors_list_model_push(s.drop_first(), e);
        assert(s.push(e).drop_first() =~= s.drop_first().push(e));
        assert(s.push(e)[0] == s[0]);
        let h = seq![error_model(s[0])];
        let t = errors_list_model(s.drop_first());
        let m = error_model(e);
        assert(errors_list_model(s.push(e)) == h + errors_list_model(s.drop_first().push(e)));
        assert(errors_list_model(s.push(e)) =~= h + t.push(m));
        assert(errors_list_model(s) == h + t);
        assert((h + t).push(m) =~= h + t.push(m));
    }
}

/// Concatenating two lists concatenates their models.
pub proof fn lemma_errors_list_model_concat(a: Seq<Error>, b: Seq<Error>)
    ensures
        errors_list_model(a + b) =~= errors_list_model(a) + errors_list_model(b),
    decreases a.len(),
{
    if a.len() == 0 {
        assert(a + b =~= b);
    } else {
        lemma_errors_list_model_concat(a.drop_first(), b);
        assert((a + b).drop_first() =~= a.drop_first() + b);
        assert((a + b)[0] == a[0]);
    }
}

pub proof fn lemma_items_model_push(s: Seq<(usize, Errors)>, p: (usize, Errors))
    ensures
        items_model(s.push(p)) =~= items_model(s).push((p.0 as int, errors_model(p.1))),
    decreases s.len(),
{
    if s.len() == 0 {
        assert(s.push(p).drop_first() =~= Seq::<(usize, Errors)>::empty());
        assert(s.push(p)[0] == p);
        assert(s.push(p).len() == 1);
        assert(items_model(s.push(p)) == seq![(s.push(p)[0].0 as int, errors_model(s.push(p)[0].1))]
            + items_model(s.push(p).drop_first()));
        assert(items_model(s.push(p).drop_first()) =~= Seq::<(int, ErrorsModel)>::empty());
        assert(items_model(s) =~= Seq::<(int, ErrorsModel)>::empty());
        assert(items_model(s.push(p)) =~= items_model(s).push((p.0 as int, errors_model(p.1))));
    } else {
        lemma_items_model_push(s.drop_first(), p);
        assert(s.push(p).drop_first() =~= s.drop_first().push(p));
        assert(s.push(p)[0] == s[0]);
        let h = seq![(s[0].0 as int, errors_model(s[0].1))];
        let t = items_model(s.drop_first());
        let m = (p.0 as int, errors_model(p.1));
        assert(items_model(s.push(p)) == h + items_model(s.drop_first().push(p)));
        assert(items_model(s.push(p)) =~= h + t.push(m));
        assert(items_model(s) == h + t);
        assert((h + t).push(m) =~= h + t.push(m));
        assert(items_model(s.push(p)) =~= items_model(s).push((p.0 as int, errors_model(p.1))));
    }
}

pub proof fn lemma_props_model_push(s: Seq<(String, Errors)>, p: (String, Errors))
    ensures
        props_model(s.push(p)) =~= props_model(s).push((p.0@, errors_model(p.1))),
    decreases s.len(),
{
    if s.len() == 0 {
        assert(s.push(p).drop_first() =~= Seq::<(String, Errors)>::empty());
        assert(s.push(p)[0] == p);
        assert(s.push(p).len() == 1);
        assert(props_model(s.push(p)) == seq![(s.push(p)[0].0@, errors_model(s.push(p)[0].1))]
            + props_model(s.push(p).drop_first()));
        assert(props_model(s.push(p).drop_first()) =~= Seq::<(Seq<char>, ErrorsModel)>::empty());
        assert(props_model(s) =~= Seq::<(Seq<char>, ErrorsModel)>::empty());
        assert(props_model(s.push(p)) =~= props_model(s).push((p.0@, errors_model(p.1))));
    } else {
        lemma_props_model_push(s.drop_first(), p);
        assert(s.push(p).drop_first() =~= s.drop_first().push(p));
        assert(s.push(p)[0] == s[0]);
        let h = seq![(s[0].0@, errors_model(s[0].1))];
        let t = props_model(s.drop_first());
        let m = (p.0@, errors_model(p.1));
        assert(props_model(s.push(p)) == h + props_model(s.drop_first().push(p)));
        assert(props_model(s.push(p)) =~= h + t.push(m));
        assert(props_model(s) == h + t);
        assert((h + t).push(m) =~= h + t.push(m));
        assert(props_model(s.push(p)) =~= props_model(s).push((p.0@, errors_model(p.1))));
    }
}

} // verus!
