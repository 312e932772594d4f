use vstd::prelude::*;
use crate::error::{ArrayErrors, ArrayModel, Error, ErrorModel, Errors, ErrorsModel, FormatModel,
    MessageFormat, errors_model, error_model, items_model, errors_list_model,
    lemma_items_model_push};
use crate::number::Number;
use crate::validate::{NumericConstraint, evaluate_numeric, numeric_leaf_model, numeric_ok};

verus! {

broadcast use vstd::std_specs::vec::group_vec_axioms, vstd::seq::axiom_seq_index_decreases;

// ---------------------------------------------------------------------------
// The shape of a validated subject
// ---------------------------------------------------------------------------

/// What a subject looks like once the optional and sequence wrapping is
/// unfolded: an absent terminal, one numeric value, or a sequence of
/// further subjects.
pub enum SubjectModel {
    Absent,
    Value(int),
    Many(Seq<SubjectModel>),
}

/// The subject satisfies the constraint: an absent value trivially, a
/// scalar by the leaf check, a sequence when every element does.
pub open spec fn subject_ok(s: SubjectModel, c: NumericConstraint) -> bool
    decreases s,
{
    match s {
        SubjectModel::Absent => true,
        SubjectModel::Value(v) => numeric_ok(v, c),
        SubjectModel::Many(xs) => all_ok(xs, c),
    }
}

pub open spec fn all_ok(xs: Seq<SubjectModel>, c: NumericConstraint) -> bool
    decreases xs,
{
    if xs.len() == 0 {
        true
    } else {
        subject_ok(xs[0], c) && all_ok(xs.drop_first(), c)
    }
}

/// The report for one failing subject: a flat leaf for a scalar, an
/// index-keyed node holding each failing element's report for a sequence.
pub open spec fn numeric_errors_tree(
    s: SubjectModel,
    c: NumericConstraint,
    f: FormatModel,
) -> ErrorsModel
    decreases s,
{
    match s {
        SubjectModel::Absent => ErrorsModel::Flat(Seq::empty()),
        SubjectModel::Value(_) => ErrorsModel::Flat(seq![numeric_leaf_model(c, f)]),
        SubjectModel::Many(xs) => ErrorsModel::Array(
            ArrayModel { errors: Seq::empty(), items: failing_entries(xs, c, f, 0) },
        ),
    }
}

/// One entry per failing index, in ascending index order, each holding
/// that element's own report and nothing of any other element.
pub open spec fn failing_entries(
    xs: Seq<SubjectModel>,
    c: NumericConstraint,
    f: FormatModel,
    base: int,
) -> Seq<(int, ErrorsModel)>
    decreases xs,
{
    if xs.len() == 0 {
        Seq::empty()
    } else {
        (if subject_ok(xs[0], c) {
            Seq::empty()
        } else {
            seq![(base, numeric_errors_tree(xs[0], c, f))]
        }) + failing_entries(xs.drop_first(), c, f, base + 1)
    }
}

/// The single error a failing subject contributes to its field's list.
pub open spec fn numeric_failure_model(
    s: SubjectModel,
    c: NumericConstraint,
    f: FormatModel,
) -> ErrorModel {
    match s {
        SubjectModel::Many(xs) => ErrorModel::Items {
            sub: ArrayModel { errors: Seq::empty(), items: failing_entries(xs, c, f, 0) },
        },
        _ => numeric_leaf_model(c, f),
    }
}

// ---------------------------------------------------------------------------
// The composited trait and its impls
// ---------------------------------------------------------------------------

/// Applies one numeric constraint to a subject under any nesting of
/// optional and sequence wrapping.
pub trait ValidateCompositedNumeric {
    /// The subject's shape and values.
    spec fn numeric_subject(&self) -> SubjectModel;

    /// Validates the whole subject against one constraint: `Ok` exactly
    /// when every present value satisfies it, and on failure the error
    /// that the field's list collects.
    fn validate_composited_numeric(&self, c: &NumericConstraint, format: &MessageFormat) -> (r:
        Result<(), Error>)
        requires
            c.wf(),
        ensures
            r is Ok <==> subject_ok(self.numeric_subject(), *c),
            r matches Err(e) ==> e@ == numeric_failure_model(self.numeric_subject(), *c, format@),
    ;
}

/// Validates one concrete numeric value against one constraint.
pub fn validate_number(value: Number, c: &NumericConstraint, format: &MessageFormat) -> (r:
    Result<(), Error>)
    requires
        c.wf(),
    ensures
        r is Ok <==> numeric_ok(value.as_int(), *c),
        r matches Err(e) ==> e@ == numeric_leaf_model(*c, format@),
{
    match evaluate_numeric(value, c, format) {
        None => Ok(()),
        Some(e) => Err(e),
    }
}

impl ValidateCompositedNumeric for i8 {
    open spec fn numeric_subject(&self) -> SubjectModel {
        SubjectModel::Value(*self as int)
    }

    fn validate_composited_numeric(&self, c: &NumericConstraint, format: &MessageFormat) -> (r:
        Result<(), Error>) {
        validate_number(Number::I8(*self), c, format)
    }
}

impl ValidateCompositedNumeric for i16 {
    open spec fn numeric_subject(&self) -> SubjectModel {
        SubjectModel::Value(*self as int)
    }

    fn validate_composited_numeric(&self, c: &NumericConstraint, format: &MessageFormat) -> (r:
        Result<(), Error>) {
        validate_number(Number::I16(*self), c, format)
    }
}

impl ValidateCompositedNumeric for i32 {
    open spec fn numeric_subject(&self) -> SubjectModel {
        SubjectModel::Value(*self as int)
    }

    fn validate_composited_numeric(&self, c: &NumericConstraint, format: &MessageFormat) -> (r:
        Result<(), Error>) {
        validate_number(Number::I32(*self), c, format)
    }
}

impl ValidateCompositedNumeric for i64 {
    open spec fn numeric_subject(&self) -> SubjectModel {
        SubjectModel::Value(*self as int)
    }

    fn validate_composited_numeric(&self, c: &NumericConstraint, format: &MessageFormat) -> (r:
        Result<(), Error>) {
        validate_number(Number::I64(*self), c, format)
    }
}

impl ValidateCompositedNumeric for isize {
    open spec fn numeric_subject(&self) -> SubjectModel {
        SubjectModel::Value(*self as int)
    }

    fn validate_composited_numeric(&self, c: &NumericConstraint, format: &MessageFormat) -> (r:
        Result<(), Error>) {
        validate_number(Number::Isize(*self), c, format)
    }
}

impl ValidateCompositedNumeric for u8 {
    open spec fn numeric_subject(&self) -> SubjectModel {
        SubjectModel::Value(*self as int)
    }

    fn validate_composited_numeric(&self, c: &NumericConstraint, format: &MessageFormat) -> (r:
        Result<(), Error>) {
        validate_number(Number::U8(*self), c, format)
    }
}

impl ValidateCompositedNumeric for u16 {
    open spec fn numeric_subject(&self) -> SubjectModel {
        SubjectModel::Value(*self as int)
    }

    fn validate_composited_numeric(&self, c: &NumericConstraint, format: &MessageFormat) -> (r:
        Result<(), Error>) {
        validate_number(Number::U16(*self), c, format)
    }
}

impl ValidateCompositedNumeric for u32 {
    open spec fn numeric_subject(&self) -> SubjectModel {
        SubjectModel::Value(*self as int)
    }

    fn validate_composited_numeric(&self, c: &NumericConstraint, format: &MessageFormat) -> (r:
        Result<(), Error>) {
        validate_number(Number::U32(*self), c, format)
    }
}

impl ValidateCompositedNumeric for u64 {
    open spec fn numeric_subject(&self) -> SubjectModel {
        SubjectModel::Value(*self as int)
    }

    fn validate_composited_numeric(&self, c: &NumericConstraint, format: &MessageFormat) -> (r:
        Result<(), Error>) {
        validate_number(Number::U64(*self), c, format)
    }
}

impl ValidateCompositedNumeric for usize {
    open spec fn numeric_subject(&self) -> SubjectModel {
        SubjectModel::Value(*self as int)
    }

    fn validate_composited_numeric(&self, c: &NumericConstraint, format: &MessageFormat) -> (r:
        Result<(), Error>) {
        validate_number(Number::Usize(*self), c, format)
    }
}

impl<T: ValidateCompositedNumeric> ValidateCompositedNumeric for Option<T> {
    open spec fn numeric_subject(&self) -> SubjectModel {
        match self {
            Option::None => SubjectModel::Absent,
            Option::Some(x) => x.numeric_subject(),
        }
    }

    fn validate_composited_numeric(&self, c: &NumericConstraint, format: &MessageFormat) -> (r:
        Result<(), Error>) {
        match self {
            Option::None => Ok(()),
            Option::Some(x) => x.validate_composited_numeric(c, format),
        }
    }
}

/// The shapes of a sequence's elements.
pub open spec fn subjects_of<T: ValidateCompositedNumeric>(s: Seq<T>) -> Seq<SubjectModel>
    decreases s,
{
    if s.len() == 0 {
        Seq::empty()
    } else {
        seq![s[0].numeric_subject()] + subjects_of(s.drop_first())
    }
}

pub proof fn lemma_subjects_of<T: ValidateCompositedNumeric>(s: Seq<T>)
    ensures
        subjects_of(s).len() == s.len(),
        forall|i: int| 0 <= i < s.len() ==> subjects_of(s)[i] == (#[trigger] s[i]).numeric_subject(),
    decreases s.len(),
{
    if s.len() > 0 {
        lemma_subjects_of(s.drop_first());
        assert forall|i: int| 0 <= i < s.len() implies subjects_of(s)[i] == (
        #[trigger] s[i]).numeric_subject() by {
            if i > 0 {
                assert(s.drop_first()[i - 1] == s[i]);
                assert(subjects_of(s)[i] == subjects_of(s.drop_first())[i - 1]);
            }
        }
    }
}

/// `failing_entries` of one more element at the end.
pub proof fn lemma_failing_entries_push(
    xs: Seq<SubjectModel>,
    x: SubjectModel,
    c: NumericConstraint,
    f: FormatModel,
    base: int,
)
    ensures
        failing_entries(xs.push(x), c, f, base) =~= failing_entries(xs, c, f, base) + (
        if subject_ok(x, c) {
            Seq::<(int, ErrorsModel)>::empty()
        } else {
            seq![(base + xs.len(), numeric_errors_tree(x, c, f))]
        }),
    decreases xs.len(),
{
    let tail = (if subject_ok(x, c) {
        Seq::<(int, ErrorsModel)>::empty()
    } else {
        seq![(base + xs.len(), numeric_errors_tree(x, c, f))]
    });
    if xs.len() == 0 {
        assert(xs.push(x).drop_first() =~= Seq::<SubjectModel>::empty());
        assert(xs.push(x)[0] == x);
        assert(failing_entries(xs.push(x), c, f, base) == tail + failing_entries(
            xs.push(x).drop_first(),
            c,
            f,
            base + 1,
        ));
        assert(failing_entries(xs.push(x).drop_first(), c, f, base + 1) =~= Seq::<
            (int, ErrorsModel),
        >::empty());
        assert(failing_entries(xs, c, f, base) =~= Seq::<(int, ErrorsModel)>::empty());
        assert(failing_entries(xs.push(x), c, f, base) =~= failing_entries(xs, c, f, base)
            + tail);
    } else {
        lemma_failing_entries_push(xs.drop_first(), x, c, f, base + 1);
        assert(xs.push(x).drop_first() =~= xs.drop_first().push(x));
        assert(xs.push(x)[0] == xs[0]);
        let h = (if subject_ok(xs[0], c) {
            Seq::<(int, ErrorsModel)>::empty()
        } else {
            seq![(base, numeric_errors_tree(xs[0], c, f))]
        });
        let t = failing_entries(xs.drop_first(), c, f, base + 1);
        assert(failing_entries(xs.push(x), c, f, base) == h + failing_entries(
            xs.drop_first().push(x),
            c,
            f,
            base + 1,
        ));
        assert(base + 1 + xs.drop_first().len() == base + xs.len());
        assert(failing_entries(xs.push(x), c, f, base) =~= h + (t + tail));
        assert(failing_entries(xs, c, f, base) == h + t);
        assert(h + (t + tail) =~= (h + t) + tail);
        assert(failing_entries(xs.push(x), c, f, base) =~= failing_entries(xs, c, f, base)
            + tail);
    }
}

/// `all_ok` of one more element at the end.
pub proof fn lemma_all_ok_push(xs: Seq<SubjectModel>, x: SubjectModel, c: NumericConstraint)
    ensures
        all_ok(xs.push(x), c) == (all_ok(xs, c) && subject_ok(x, c)),
    decreases xs.len(),
{
    if xs.len() == 0 {
        assert(xs.push(x).drop_first() =~= Seq::<SubjectModel>::empty());
        assert(xs.push(x)[0] == x);
        assert(all_ok(xs.push(x).drop_first(), c));
    } else {
        lemma_all_ok_push(xs.drop_first(), x, c);
        assert(xs.push(x).drop_first() =~= xs.drop_first().push(x));
        assert(xs.push(x)[0] == xs[0]);
    }
}

/// Turns one element's failure into that element's own report.
fn wrap_element_failure(e: Error) -> (r: Errors)
    ensures
        errors_model(r) == (match error_model(e) {
            ErrorModel::Items { sub } => ErrorsModel::Array(sub),
            _ => ErrorsModel::Flat(seq![error_model(e)]),
        }),
{
    match e {
        Error::Items(a) => Errors::Array(a),
        other => {
            let ghost om = error_model(other);
            let mut v: Vec<Error> = Vec::new();
            proof {
                crate::error::lemma_errors_list_model_push(v@, other);
                assert(errors_list_model(Seq::<Error>::empty()) =~= Seq::<ErrorModel>::empty());
                assert(errors_list_model(Seq::<Error>::empty().push(other)) =~= seq![om]);
            }
            v.push(other);
            Errors::NewType(v)
        },
    }
}

impl<T: ValidateCompositedNumeric> ValidateCompositedNumeric for Vec<T> {
    open spec fn numeric_subject(&self) -> SubjectModel {
        SubjectModel::Many(subjects_of(self@))
    }

    fn validate_composited_numeric(&self, c: &NumericConstraint, format: &MessageFormat) -> (r:
        Result<(), Error>) {
        let ghost subs = subjects_of(self@);
        proof {
            lemma_subjects_of(self@);
        }
        let mut items: Vec<(usize, Errors)> = Vec::new();
        let n = self.len();
        let mut i: usize = 0;
        proof {
            assert(subs.subrange(0, 0) =~= Seq::<SubjectModel>::empty());
            assert(items_model(items@) =~= failing_entries(subs.subrange(0, 0), *c, format@, 0));
        }
        while i < n
            invariant
                i <= n,
                n == self@.len(),
                subs == subjects_of(self@),
                subs.len() == n,
                forall|k: int| 0 <= k < n ==> subs[k] == (#[trigger] self@[k]).numeric_subject(),
                c.wf(),
                items_model(items@) =~= failing_entries(
                    subs.subrange(0, i as int),
                    *c,
                    format@,
                    0,
                ),
                all_ok(subs.subrange(0, i as int), *c) <==> items@.len() == 0,
            decreases n - i,
        {
            let ghost prefix = subs.subrange(0, i as int);
            proof {
                lemma_all_ok_push(prefix, subs[i as int], *c);
                lemma_failing_entries_push(prefix, subs[i as int], *c, format@, 0);
                assert(subs.subrange(0, i as int + 1) =~= prefix.push(subs[i as int]));
            }
            match self[i].validate_composited_numeric(c, format) {
                Ok(()) => {
                    proof {
                        assert(failing_entries(subs.subrange(0, i as int + 1), *c, format@, 0)
                            =~= failing_entries(prefix, *c, format@, 0));
                    }
                },
                Err(e) => {
                    let child = wrap_element_failure(e);
                    proof {
                        assert(errors_model(child) == numeric_errors_tree(
                            subs[i as int],
                            *c,
                            format@,
                        ));
                        lemma_items_model_push(items@, (i, child));
                        assert(prefix.len() == i as int);
                        assert(failing_entries(subs.subrange(0, i as int + 1), *c, format@, 0)
                            =~= failing_entries(prefix, *c, format@, 0) + seq![(
                            i as int,
                            numeric_errors_tree(subs[i as int], *c, format@),
                        )]);
                    }
                    items.push((i, child));
                },
            }
            i = i + 1;
        }
        proof {
            assert(subs.subrange(0, n as int) =~= subs);
        }
        if items.len() == 0 {
            Ok(())
        } else {
            let empty_errors: Vec<Error> = Vec::new();
            proof {
                assert(errors_list_model(Seq::<Error>::empty()) =~= Seq::<ErrorModel>::empty());
            }
            Err(Error::Items(ArrayErrors { errors: empty_errors, items }))
        }
    }
}

impl<T: ValidateCompositedNumeric, const N: usize> ValidateCompositedNumeric for [T; N] {
    open spec fn numeric_subject(&self) -> SubjectModel {
        SubjectModel::Many(subjects_of(self@))
    }

    fn validate_composited_numeric(&self, c: &NumericConstraint, format: &MessageFormat) -> (r:
        Result<(), Error>) {
        let ghost subs = subjects_of(self@);
        proof {
            lemma_subjects_of(self@);
        }
        let mut items: Vec<(usize, Errors)> = Vec::new();
        let n = N;
        let mut i: usize = 0;
        proof {
            assert(subs.subrange(0, 0) =~= Seq::<SubjectModel>::empty());
            assert(items_model(items@) =~= failing_entries(subs.subrange(0, 0), *c, format@, 0));
        }
        while i < n
            invariant
                i <= n,
                n == self@.len(),
                subs == subjects_of(self@),
                subs.len() == n,
                forall|k: int| 0 <= k < n ==> subs[k] == (#[trigger] self@[k]).numeric_subject(),
                c.wf(),
                items_model(items@) =~= failing_entries(
                    subs.subrange(0, i as int),
                    *c,
                    format@,
                    0,
                ),
                all_ok(subs.subrange(0, i as int), *c) <==> items@.len() == 0,
            decreases n - i,
        {
            let ghost prefix = subs.subrange(0, i as int);
            proof {
                lemma_all_ok_push(prefix, subs[i as int], *c);
                lemma_failing_entries_push(prefix, subs[i as int], *c, format@, 0);
                assert(subs.subrange(0, i as int + 1) =~= prefix.push(subs[i as int]));
            }
            let elem = vstd::array::array_index_get(self, i);
            match elem.validate_composited_numeric(c, format) {
                Ok(()) => {
                    proof {
                        assert(failing_entries(subs.subrange(0, i as int + 1), *c, format@, 0)
                            =~= failing_entries(prefix, *c, format@, 0));
                    }
                },
                Err(e) => {
                    let child = wrap_element_failure(e);
                    proof {
                        assert(errors_model(child) == numeric_errors_tree(
                            subs[i as int],
                            *c,
                            format@,
                        ));
                        lemma_items_model_push(items@, (i, child));
                        assert(prefix.len() == i as int);
                        assert(failing_entries(subs.subrange(0, i as int + 1), *c, format@, 0)
                            =~= failing_entries(prefix, *c, format@, 0) + seq![(
                            i as int,
                            numeric_errors_tree(subs[i as int], *c, format@),
                        )]);
                    }
                    items.push((i, child));
                },
            }
            i = i + 1;
        }
        proof {
            assert(subs.subrange(0, n as int) =~= subs);
        }
        if items.len() == 0 {
            Ok(())
        } else {
            let empty_errors: Vec<Error> = Vec::new();
            proof {
                assert(errors_list_model(Seq::<Error>::empty()) =~= Seq::<ErrorModel>::empty());
            }
            Err(Error::Items(ArrayErrors { errors: empty_errors, items }))
        }
    }
}

// ---------------------------------------------------------------------------
// Laws about element independence
// ---------------------------------------------------------------------------

/// Law: the index-keyed report of a sequence holds an entry for every
/// failing index and no other, in ascending index order, and each entry's
/// report depends on that element alone — a failure at one index never
/// suppresses or changes the entry of another.
pub proof fn lemma_elementwise_independence(
    xs: Seq<SubjectModel>,
    c: NumericConstraint,
    f: FormatModel,
    base: int,
)
    ensures
        forall|j: int| 0 <= j < failing_entries(xs, c, f, base).len() ==> {
            let entry = #[trigger] failing_entries(xs, c, f, base)[j];
            &&& base <= entry.0 < base + xs.len()
            &&& !subject_ok(xs[entry.0 - base], c)
            &&& entry.1 == numeric_errors_tree(xs[entry.0 - base], c, f)
        },
        forall|k: int|
            0 <= k < xs.len() && !subject_ok(#[trigger] xs[k], c) ==> exists|j: int|
                0 <= j < failing_entries(xs, c, f, base).len() && (#[trigger] failing_entries(
                    xs,
                    c,
                    f,
                    base,
                )[j]).0 == base + k,
        forall|j1: int, j2: int|
            0 <= j1 < j2 < failing_entries(xs, c, f, base).len() ==> (#[trigger] failing_entries(
                xs,
                c,
                f,
                base,
            )[j1]).0 < (#[trigger] failing_entries(xs, c, f, base)[j2]).0,
    decreases xs.len(),
{
    if xs.len() > 0 {
        lemma_elementwise_independence(xs.drop_first(), c, f, base + 1);
        let whole = failing_entries(xs, c, f, base);
        let rest = failing_entries(xs.drop_first(), c, f, base + 1);
        if subject_ok(xs[0], c) {
            assert(whole =~= rest);
            assert forall|k: int|
                0 <= k < xs.len() && !subject_ok(#[trigger] xs[k], c) implies exists|j: int|
                0 <= j < whole.len() && (#[trigger] whole[j]).0 == base + k by {
                assert(xs.drop_first()[k - 1] == xs[k]);
                let j = choose|j: int|
                    0 <= j < rest.len() && (#[trigger] rest[j]).0 == base + 1 + (k - 1);
                assert(whole[j].0 == base + k);
            }
        } else {
            let head = seq![(base, numeric_errors_tree(xs[0], c, f))];
            assert(whole =~= head + rest);
            assert forall|j: int| 0 <= j < whole.len() implies {
                let entry = #[trigger] whole[j];
                &&& base <= entry.0 < base + xs.len()
                &&& !subject_ok(xs[entry.0 - base], c)
                &&& entry.1 == numeric_errors_tree(xs[entry.0 - base], c, f)
            } by {
                if j == 0 {
                    assert(whole[0] == head[0]);
                } else {
                    assert(whole[j] == rest[j - 1]);
                    assert(xs.drop_first()[whole[j].0 - (base + 1)] == xs[whole[j].0 - base]);
                }
            }
            assert forall|k: int|
                0 <= k < xs.len() && !subject_ok(#[trigger] xs[k], c) implies exists|j: int|
                0 <= j < whole.len() && (#[trigger] whole[j]).0 == base + k by {
                if k == 0 {
                    assert(whole[0].0 == base);
                } else {
                    assert(xs.drop_first()[k - 1] == xs[k]);
                    let j = choose|j: int|
                        0 <= j < rest.len() && (#[trigger] rest[j]).0 == base + 1 + (k - 1);
                    assert(whole[j + 1].0 == base + k);
                }
            }
        }
    }
}

/// Law: the report built for a failing subject is well formed — its keys
/// are unique at every level — so a later merge of an equally-shaped
/// report leaves its structure unchanged.
pub proof fn lemma_numeric_errors_tree_wf(s: SubjectModel, c: NumericConstraint, f: FormatModel)
    ensures
        crate::shape::wf_tree(numeric_errors_tree(s, c, f)),
    decreases s,
{
    match s {
        SubjectModel::Many(xs) => {
            let entries = failing_entries(xs, c, f, 0);
            lemma_elementwise_independence(xs, c, f, 0);
            assert forall|i: int, j: int|
                0 <= i < j < entries.len() implies (#[trigger] entries[i]).0 != (
            #[trigger] entries[j]).0 by {}
            assert forall|j: int| 0 <= j < entries.len() implies crate::shape::wf_tree(
                (#[trigger] entries[j]).1,
            ) by {
                lemma_numeric_errors_tree_wf(xs[entries[j].0], c, f);
            }
            lemma_wf_items_from_pointwise(entries);
        },
        _ => {},
    }
}

proof fn lemma_wf_items_from_pointwise(s: Seq<(int, crate::error::ErrorsModel)>)
    requires
        forall|i: int| 0 <= i < s.len() ==> crate::shape::wf_tree((#[trigger] s[i]).1),
    ensures
        crate::shape::wf_items(s),
    decreases s.len(),
{
    if s.len() > 0 {
        assert forall|i: int| 0 <= i < s.drop_first().len() implies crate::shape::wf_tree(
            (#[trigger] s.drop_first()[i]).1,
        ) by {
            assert(s.drop_first()[i] == s[i + 1]);
        }
        lemma_wf_items_from_pointwise(s.drop_first());
    }
}

/// Law: the message format chosen for a constraint never changes which
/// subjects pass, nor which indices fail: `subject_ok` does not read the
/// format, and the failing key set is the same under any two formats.
pub proof fn lemma_format_never_affects_outcome(
    xs: Seq<SubjectModel>,
    c: NumericConstraint,
    f1: FormatModel,
    f2: FormatModel,
    base: int,
)
    ensures
        failing_entries(xs, c, f1, base).len() == failing_entries(xs, c, f2, base).len(),
        forall|j: int| 0 <= j < failing_entries(xs, c, f1, base).len() ==> (
        #[trigger] failing_entries(xs, c, f1, base)[j]).0 == (#[trigger] failing_entries(
            xs,
            c,
            f2,
            base,
        )[j]).0,
    decreases xs.len(),
{
    if xs.len() > 0 {
        lemma_format_never_affects_outcome(xs.drop_first(), c, f1, f2, base + 1);
        let r1 = failing_entries(xs.drop_first(), c, f1, base + 1);
        let r2 = failing_entries(xs.drop_first(), c, f2, base + 1);
        if !subject_ok(xs[0], c) {
            let h1 = seq![(base, numeric_errors_tree(xs[0], c, f1))];
            let h2 = seq![(base, numeric_errors_tree(xs[0], c, f2))];
            assert(failing_entries(xs, c, f1, base) == h1 + r1);
            assert(failing_entries(xs, c, f2, base) == h2 + r2);
        }
    }
}

} // verus!
