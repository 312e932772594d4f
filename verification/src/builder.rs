use vstd::prelude::*;
use crate::composited::{
    SubjectModel, ValidateCompositedNumeric, numeric_failure_model, subject_ok,
};
use crate::error::{
    Error, ErrorModel, Errors, ErrorsModel, FormatModel, MessageFormat, ObjectModel, VecErrors,
    errors_list_model, lemma_errors_list_model_push,
};
use crate::fold::{
    built_props, built_props_of, fold_field, is_leaf_error, items_part, leaf_part, props_part,
};
use crate::validate::NumericConstraint;

verus! {

broadcast use vstd::std_specs::vec::group_vec_axioms, vstd::seq::axiom_seq_index_decreases;

// ---------------------------------------------------------------------------
// Running a field's declared constraints in order
// ---------------------------------------------------------------------------

/// The model of a declared constraint list.
pub open spec fn constraints_model(s: Seq<(NumericConstraint, MessageFormat)>) -> Seq<
    (NumericConstraint, FormatModel),
>
    decreases s,
{
    if s.len() == 0 {
        Seq::empty()
    } else {
        seq![(s[0].0, s[0].1@)] + constraints_model(s.drop_first())
    }
}

pub proof fn lemma_constraints_model(s: Seq<(NumericConstraint, MessageFormat)>)
    ensures
        constraints_model(s).len() == s.len(),
        forall|i: int| 0 <= i < s.len() ==> constraints_model(s)[i] == ((#[trigger] s[i]).0,
            s[i].1@),
    decreases s.len(),
{
    if s.len() > 0 {
        lemma_constraints_model(s.drop_first());
        assert forall|i: int| 0 <= i < s.len() implies constraints_model(s)[i] == ((
        #[trigger] s[i]).0, s[i].1@) by {
            if i > 0 {
                assert(s.drop_first()[i - 1] == s[i]);
                assert(constraints_model(s)[i] == constraints_model(s.drop_first())[i - 1]);
            }
        }
    }
}

/// The errors a subject collects from a declared constraint list: one
/// error per failing constraint, in exactly the declared order.
pub open spec fn failing_constraints(
    s: SubjectModel,
    cs: Seq<(NumericConstraint, FormatModel)>,
) -> Seq<ErrorModel>
    decreases cs,
{
    if cs.len() == 0 {
        Seq::empty()
    } else {
        (if subject_ok(s, cs[0].0) {
            Seq::empty()
        } else {
            seq![numeric_failure_model(s, cs[0].0, cs[0].1)]
        }) + failing_constraints(s, cs.drop_first())
    }
}

proof fn lemma_failing_constraints_push(
    s: SubjectModel,
    cs: Seq<(NumericConstraint, FormatModel)>,
    c: (NumericConstraint, FormatModel),
)
    ensures
        failing_constraints(s, cs.push(c)) =~= failing_constraints(s, cs) + (if subject_ok(
            s,
            c.0,
        ) {
            Seq::<ErrorModel>::empty()
        } else {
            seq![numeric_failure_model(s, c.0, c.1)]
        }),
    decreases cs.len(),
{
    let tail = (if subject_ok(s, c.0) {
        Seq::<ErrorModel>::empty()
    } else {
        seq![numeric_failure_model(s, c.0, c.1)]
    });
    if cs.len() == 0 {
        assert(cs.push(c).drop_first() =~= Seq::<(NumericConstraint, FormatModel)>::empty());
        assert(cs.push(c)[0] == c);
        assert(failing_constraints(s, cs.push(c)) == tail + failing_constraints(
            s,
            cs.push(c).drop_first(),
        ));
        assert(failing_constraints(s, cs.push(c).drop_first()) =~= Seq::<ErrorModel>::empty());
        assert(failing_constraints(s, cs) =~= Seq::<ErrorModel>::empty());
        assert(failing_constraints(s, cs.push(c)) =~= failing_constraints(s, cs) + tail);
    } else {
        lemma_failing_constraints_push(s, cs.drop_first(), c);
        assert(cs.push(c).drop_first() =~= cs.drop_first().push(c));
        assert(cs.push(c)[0] == cs[0]);
        let h = (if subject_ok(s, cs[0].0) {
            Seq::<ErrorModel>::empty()
        } else {
            seq![numeric_failure_model(s, cs[0].0, cs[0].1)]
        });
        let t = failing_constraints(s, cs.drop_first());
        assert(failing_constraints(s, cs.push(c)) == h + failing_constraints(
            s,
            cs.drop_first().push(c),
        ));
        assert(failing_constraints(s, cs.push(c)) =~= h + (t + tail));
        assert(failing_constraints(s, cs) == h + t);
        assert(h + (t + tail) =~= (h + t) + tail);
        assert(failing_constraints(s, cs.push(c)) =~= failing_constraints(s, cs) + tail);
    }
}

/// Law: the constraints declared on one field are evaluated each in turn,
/// none short-circuiting another, and the collected error list holds the
/// failing ones in exactly the declared order.
pub fn validate_numeric_field<T: ValidateCompositedNumeric>(
    subject: &T,
    constraints: &Vec<(NumericConstraint, MessageFormat)>,
) -> (r: VecErrors)
    requires
        forall|i: int| 0 <= i < constraints@.len() ==> (#[trigger] constraints@[i]).0.wf(),
    ensures
        errors_list_model(r@) == failing_constraints(
            subject.numeric_subject(),
            constraints_model(constraints@),
        ),
{
    let ghost cs = constraints_model(constraints@);
    let ghost sm = subject.numeric_subject();
    proof {
        lemma_constraints_model(constraints@);
    }
    let mut out: VecErrors = Vec::new();
    let n = constraints.len();
    let mut i: usize = 0;
    proof {
        assert(cs.subrange(0, 0) =~= Seq::<(NumericConstraint, FormatModel)>::empty());
        assert(errors_list_model(out@) =~= failing_constraints(sm, cs.subrange(0, 0)));
    }
    while i < n
        invariant
            i <= n,
            n == constraints@.len(),
            cs == constraints_model(constraints@),
            cs.len() == n,
            sm == subject.numeric_subject(),
            forall|k: int| 0 <= k < n ==> cs[k] == ((#[trigger] constraints@[k]).0,
                constraints@[k].1@),
            forall|k: int| 0 <= k < n ==> (#[trigger] constraints@[k]).0.wf(),
            errors_list_model(out@) =~= failing_constraints(sm, cs.subrange(0, i as int)),
        decreases n - i,
    {
        let ghost prefix = cs.subrange(0, i as int);
        proof {
            lemma_failing_constraints_push(sm, prefix, cs[i as int]);
            assert(cs.subrange(0, i as int + 1) =~= prefix.push(cs[i as int]));
        }
        let c = constraints[i].0;
        let format = &constraints[i].1;
        match subject.validate_composited_numeric(&c, format) {
            Ok(()) => {},
            Err(e) => {
                proof {
                    lemma_errors_list_model_push(out@, e);
                }
                out.push(e);
            },
        }
        i = i + 1;
    }
    proof {
        assert(cs.subrange(0, n as int) =~= cs);
    }
    out
}

// ---------------------------------------------------------------------------
// Why a scalar field's node stays flat
// ---------------------------------------------------------------------------

proof fn lemma_all_leaf_parts(s: Seq<ErrorModel>)
    requires
        forall|i: int| 0 <= i < s.len() ==> is_leaf_error(#[trigger] s[i]),
    ensures
        leaf_part(s) =~= s,
        items_part(s).len() == 0,
        props_part(s).len() == 0,
    decreases s.len(),
{
    if s.len() > 0 {
        assert(is_leaf_error(s[0]));
        assert forall|i: int| 0 <= i < s.drop_first().len() implies is_leaf_error(
            #[trigger] s.drop_first()[i],
        ) by {
            assert(s.drop_first()[i] == s[i + 1]);
        }
        lemma_all_leaf_parts(s.drop_first());
    }
}

proof fn lemma_scalar_failures_are_leafs(v: int, cs: Seq<(NumericConstraint, FormatModel)>)
    ensures
        forall|i: int|
            0 <= i < failing_constraints(SubjectModel::Value(v), cs).len() ==> is_leaf_error(
                #[trigger] failing_constraints(SubjectModel::Value(v), cs)[i],
            ),
    decreases cs.len(),
{
    if cs.len() > 0 {
        lemma_scalar_failures_are_leafs(v, cs.drop_first());
        let whole = failing_constraints(SubjectModel::Value(v), cs);
        let rest = failing_constraints(SubjectModel::Value(v), cs.drop_first());
        assert forall|i: int| 0 <= i < whole.len() implies is_leaf_error(
            #[trigger] whole[i],
        ) by {
            if subject_ok(SubjectModel::Value(v), cs[0].0) {
                assert(whole[i] == rest[i]);
            } else {
                if i > 0 {
                    assert(whole[i] == rest[i - 1]);
                }
            }
        }
    }
}

/// Law: a scalar field's collected errors collapse to a flat node holding
/// exactly the failing constraints' errors, in declared order.
pub proof fn lemma_scalar_field_stays_flat(v: int, cs: Seq<(NumericConstraint, FormatModel)>)
    ensures
        fold_field(failing_constraints(SubjectModel::Value(v), cs)) == ErrorsModel::Flat(
            failing_constraints(SubjectModel::Value(v), cs),
        ),
{
    lemma_scalar_failures_are_leafs(v, cs);
    lemma_all_leaf_parts(failing_constraints(SubjectModel::Value(v), cs));
}

// ---------------------------------------------------------------------------
// Accumulating a whole value's report
// ---------------------------------------------------------------------------

/// The model of the raw per-field lists held by a builder.
pub open spec fn raw_fields_model(s: Seq<(String, Vec<Error>)>) -> Seq<(Seq<char>, Seq<ErrorModel>)>
    decreases s,
{
    if s.len() == 0 {
        Seq::empty()
    } else {
        seq![(s[0].0@, errors_list_model(s[0].1@))] + raw_fields_model(s.drop_first())
    }
}

proof fn lemma_raw_fields_model_push(s: Seq<(String, Vec<Error>)>, p: (String, Vec<Error>))
    ensures
        raw_fields_model(s.push(p)) =~= raw_fields_model(s).push((p.0@, errors_list_model(
            p.1@,
        ))),
    decreases s.len(),
{
    if s.len() == 0 {
        assert(s.push(p).drop_first() =~= Seq::<(String, Vec<Error>)>::empty());
        assert(s.push(p)[0] == p);
        assert(raw_fields_model(s.push(p)) == seq![(s.push(p)[0].0@, errors_list_model(
            s.push(p)[0].1@,
        ))] + raw_fields_model(s.push(p).drop_first()));
        assert(raw_fields_model(s.push(p).drop_first()) =~= Seq::<
            (Seq<char>, Seq<ErrorModel>),
        >::empty());
        assert(raw_fields_model(s) =~= Seq::<(Seq<char>, Seq<ErrorModel>)>::empty());
        assert(raw_fields_model(s.push(p)) =~= raw_fields_model(s).push((
            p.0@,
            errors_list_model(p.1@),
        )));
    } else {
        lemma_raw_fields_model_push(s.drop_first(), p);
        assert(s.push(p).drop_first() =~= s.drop_first().push(p));
        assert(s.push(p)[0] == s[0]);
        let h = seq![(s[0].0@, errors_list_model(s[0].1@))];
        let t = raw_fields_model(s.drop_first());
        let m = (p.0@, errors_list_model(p.1@));
        assert(raw_fields_model(s.push(p)) == h + raw_fields_model(s.drop_first().push(p)));
        assert(raw_fields_model(s.push(p)) =~= h + t.push(m));
        assert(raw_fields_model(s) == h + t);
        assert((h + t).push(m) =~= h + t.push(m));
        assert(raw_fields_model(s.push(p)) =~= raw_fields_model(s).push(m));
    }
}

/// Accumulates one value's validation outcome: the value's own errors and
/// one raw error list per failing field, in field declaration order.
pub struct ObjectErrorsBuilder {
    rule_errors: VecErrors,
    properties: Vec<(String, VecErrors)>,
}

impl ObjectErrorsBuilder {
    /// The value's own collected errors.
    pub closed spec fn rules(&self) -> Seq<ErrorModel> {
        errors_list_model(self.rule_errors@)
    }

    /// The per-field collected error lists, in insertion order.
    pub closed spec fn fields(&self) -> Seq<(Seq<char>, Seq<ErrorModel>)> {
        raw_fields_model(self.properties@)
    }

    /// The tree the builder will produce.
    pub closed spec fn tree(&self) -> ErrorsModel {
        ErrorsModel::Object(
            ObjectModel {
                errors: errors_list_model(self.rule_errors@),
                properties: built_props(self.properties@),
            },
        )
    }

    pub fn new() -> (r: ObjectErrorsBuilder)
        ensures
            r.rules() =~= Seq::<ErrorModel>::empty(),
            r.fields() =~= Seq::<(Seq<char>, Seq<ErrorModel>)>::empty(),
    {
        let r = ObjectErrorsBuilder { rule_errors: Vec::new(), properties: Vec::new() };
        proof {
            assert(errors_list_model(Seq::<Error>::empty()) =~= Seq::<ErrorModel>::empty());
            assert(raw_fields_model(Seq::<(String, Vec<Error>)>::empty()) =~= Seq::<
                (Seq<char>, Seq<ErrorModel>),
            >::empty());
        }
        r
    }

    /// Records one failure of the value as a whole (a custom rule, say).
    pub fn push_rule_error(&mut self, e: Error)
        ensures
            final(self).rules() =~= old(self).rules().push(crate::error::error_model(e)),
            final(self).fields() == old(self).fields(),
    {
        proof {
            lemma_errors_list_model_push(self.rule_errors@, e);
        }
        self.rule_errors.push(e);
    }

    /// Records one field's collected errors; a field with none adds
    /// nothing.
    pub fn add_field(&mut self, key: String, errors: VecErrors)
        ensures
            errors@.len() == 0 ==> final(self).fields() == old(self).fields(),
            errors@.len() > 0 ==> final(self).fields() =~= old(self).fields().push((
                key@,
                errors_list_model(errors@),
            )),
            final(self).rules() == old(self).rules(),
    {
        if errors.len() > 0 {
            proof {
                lemma_raw_fields_model_push(self.properties@, (key, errors));
            }
            self.properties.push((key, errors));
        }
    }

    /// Ends the pass: success exactly when nothing was collected, else the
    /// whole report, each field's list collapsed into one node.
    pub fn build(self) -> (r: Result<(), Errors>)
        ensures
            r is Ok <==> (self.rules().len() == 0 && self.fields().len() == 0),
            r matches Err(t) ==> crate::error::errors_model(t) == self.tree(),
    {
        proof {
            crate::error::lemma_errors_list_model(self.rule_errors@);
            lemma_raw_fields_model(self.properties@);
        }
        if self.rule_errors.len() == 0 && self.properties.len() == 0 {
            Ok(())
        } else {
            Err(crate::fold::object_errors(self.rule_errors, self.properties))
        }
    }
}

proof fn lemma_raw_fields_model(s: Seq<(String, Vec<Error>)>)
    ensures
        raw_fields_model(s).len() == s.len(),
    decreases s.len(),
{
    if s.len() > 0 {
        lemma_raw_fields_model(s.drop_first());
    }
}

proof fn lemma_built_props_as_fields(s: Seq<(String, Vec<Error>)>)
    ensures
        built_props(s) =~= built_props_of(raw_fields_model(s)),
    decreases s.len(),
{
    if s.len() > 0 {
        lemma_built_props_as_fields(s.drop_first());
        assert(raw_fields_model(s)[0] == (s[0].0@, errors_list_model(s[0].1@)));
        assert(raw_fields_model(s).drop_first() =~= raw_fields_model(s.drop_first()));
        assert(built_props_of(raw_fields_model(s)) == seq![(raw_fields_model(s)[0].0,
        fold_field(raw_fields_model(s)[0].1))] + built_props_of(
            raw_fields_model(s).drop_first(),
        ));
    }
}

/// The tree a builder produces, over its public views alone: the collected
/// rule errors beside one node per recorded field, each field's list
/// collapsed by `fold_field` under its key.
pub proof fn lemma_builder_tree(b: &ObjectErrorsBuilder)
    ensures
        b.tree() == (ErrorsModel::Object(
            ObjectModel { errors: b.rules(), properties: built_props_of(b.fields()) },
        )),
{
    lemma_built_props_as_fields(b.properties@);
    assert(b.tree() =~= ErrorsModel::Object(
        ObjectModel { errors: b.rules(), properties: built_props_of(b.fields()) },
    ));
}

/// A nested per-index failure, as one error of the surrounding field: the
/// child's whole report keyed by its position.
pub fn nested_item_error(index: usize, child: Errors) -> (r: Error)
    ensures
        crate::error::error_model(r) == (ErrorModel::Items {
            sub: crate::error::ArrayModel {
                errors: Seq::empty(),
                items: seq![(index as int, crate::error::errors_model(child))],
            },
        }),
{
    let ghost childm = crate::error::errors_model(child);
    let empty_errors: VecErrors = Vec::new();
    let mut items: Vec<(usize, Errors)> = Vec::new();
    proof {
        crate::error::lemma_items_model_push(items@, (index, child));
        assert(crate::error::items_model(Seq::<(usize, Errors)>::empty()) =~= Seq::<
            (int, ErrorsModel),
        >::empty());
        assert(errors_list_model(Seq::<Error>::empty()) =~= Seq::<ErrorModel>::empty());
    }
    items.push((index, child));
    proof {
        assert(crate::error::items_model(items@) =~= seq![(index as int, childm)]);
    }
    Error::Items(crate::error::ArrayErrors { errors: empty_errors, items })
}

/// A nested per-property failure, as one error of the surrounding field.
pub fn nested_property_errors(child: crate::error::ObjectErrors) -> (r: Error)
    ensures
        crate::error::error_model(r) == (ErrorModel::Properties {
            sub: crate::error::object_model(child),
        }),
{
    Error::Properties(child)
}

} // verus!
