use vstd::prelude::*;
use crate::error::{
    ArrayErrors, ArrayModel, Error, ErrorModel, Errors, ErrorsModel, ObjectErrors, ObjectModel,
    VecErrors, errors_model, errors_list_model, items_model, props_model,
    lemma_errors_list_model_concat, lemma_errors_list_model_push, lemma_items_model_push,
    lemma_props_model_push,
};
use crate::merge::{merge_array_m, merge_object_m};

verus! {

broadcast use vstd::std_specs::vec::group_vec_axioms, vstd::seq::axiom_seq_index_decreases;

// ---------------------------------------------------------------------------
// Collapsing one field's error list into one tree node
// ---------------------------------------------------------------------------

/// A leaf error, as opposed to a nested per-item or per-property report.
pub open spec fn is_leaf_error(e: ErrorModel) -> bool {
    !(e is Items) && !(e is Properties)
}

/// The leaf errors of a field's list, in order.
pub open spec fn leaf_part(s: Seq<ErrorModel>) -> Seq<ErrorModel>
    decreases s,
{
    if s.len() == 0 {
        Seq::empty()
    } else {
        (if is_leaf_error(s[0]) {
            seq![s[0]]
        } else {
            Seq::empty()
        }) + leaf_part(s.drop_first())
    }
}

/// The nested per-item reports of a field's list, in order.
pub open spec fn items_part(s: Seq<ErrorModel>) -> Seq<ArrayModel>
    decreases s,
{
    if s.len() == 0 {
        Seq::empty()
    } else {
        (match s[0] {
            ErrorModel::Items { sub } => seq![sub],
            _ => Seq::empty(),
        }) + items_part(s.drop_first())
    }
}

/// The nested per-property reports of a field's list, in order.
pub open spec fn props_part(s: Seq<ErrorModel>) -> Seq<ObjectModel>
    decreases s,
{
    if s.len() == 0 {
        Seq::empty()
    } else {
        (match s[0] {
            ErrorModel::Properties { sub } => seq![sub],
            _ => Seq::empty(),
        }) + props_part(s.drop_first())
    }
}

/// Left fold of the per-item reports under `merge_array_m`.
pub open spec fn reduce_merge(parts: Seq<ArrayModel>) -> ArrayModel
    recommends
        parts.len() > 0,
    decreases parts.len(),
{
    if parts.len() <= 1 {
        parts[0]
    } else {
        merge_array_m(reduce_merge(parts.drop_last()), parts.last())
    }
}

/// Left fold of the per-property reports under `merge_object_m`.
pub open spec fn reduce_merge_objects(parts: Seq<ObjectModel>) -> ObjectModel
    recommends
        parts.len() > 0,
    decreases parts.len(),
{
    if parts.len() <= 1 {
        parts[0]
    } else {
        merge_object_m(reduce_merge_objects(parts.drop_last()), parts.last())
    }
}

/// One field's collected errors collapsed into exactly one node: if any
/// per-property reports arose they are merged by property key and the node
/// is keyed by property; else if any per-item reports arose they are
/// merged by index and the node is keyed by index; else it stays flat.
/// Either way the merged report's own container errors are absorbed into
/// the field's leaf error list.
pub open spec fn fold_field(s: Seq<ErrorModel>) -> ErrorsModel {
    if props_part(s).len() > 0 {
        let o = reduce_merge_objects(props_part(s));
        ErrorsModel::Object(ObjectModel { errors: leaf_part(s) + o.errors, properties: o.properties })
    } else if items_part(s).len() > 0 {
        let m = reduce_merge(items_part(s));
        ErrorsModel::Array(ArrayModel { errors: leaf_part(s) + m.errors, items: m.items })
    } else {
        ErrorsModel::Flat(leaf_part(s))
    }
}

// ---------------------------------------------------------------------------
// Distribution of the parts over concatenation
// ---------------------------------------------------------------------------

pub proof fn lemma_leaf_part_push(s: Seq<ErrorModel>, e: ErrorModel)
    ensures
        leaf_part(s.push(e)) =~= leaf_part(s) + (if is_leaf_error(e) {
            seq![e]
        } else {
            Seq::<ErrorModel>::empty()
        }),
    decreases s.len(),
{
    let tail = (if is_leaf_error(e) {
        seq![e]
    } else {
        Seq::<ErrorModel>::empty()
    });
    if s.len() == 0 {
        assert(s.push(e).drop_first() =~= Seq::<ErrorModel>::empty());
        assert(s.push(e)[0] == e);
        assert(leaf_part(s.push(e)) == tail + leaf_part(s.push(e).drop_first()));
        assert(leaf_part(s.push(e).drop_first()) =~= Seq::<ErrorModel>::empty());
        assert(leaf_part(s) =~= Seq::<ErrorModel>::empty());
        assert(leaf_part(s.push(e)) =~= leaf_part(s) + tail);
    } else {
        lemma_leaf_part_push(s.drop_first(), e);
        assert(s.push(e).drop_first() =~= s.drop_first().push(e));
        assert(s.push(e)[0] == s[0]);
        let h = (if is_leaf_error(s[0]) {
            seq![s[0]]
        } else {
            Seq::<ErrorModel>::empty()
        });
        let t = leaf_part(s.drop_first());
        assert(leaf_part(s.push(e)) == h + leaf_part(s.drop_first().push(e)));
        assert(leaf_part(s.push(e)) =~= h + (t + tail));
        assert(leaf_part(s) == h + t);
        assert(h + (t + tail) =~= (h + t) + tail);
        assert(leaf_part(s.push(e)) =~= leaf_part(s) + tail);
    }
}

pub proof fn lemma_items_part_push(s: Seq<ErrorModel>, e: ErrorModel)
    ensures
        items_part(s.push(e)) =~= items_part(s) + (match e {
            ErrorModel::Items { sub } => seq![sub],
            _ => Seq::<ArrayModel>::empty(),
        }),
    decreases s.len(),
{
    let tail = (match e {
        ErrorModel::Items { sub } => seq![sub],
        _ => Seq::<ArrayModel>::empty(),
    });
    if s.len() == 0 {
        assert(s.push(e).drop_first() =~= Seq::<ErrorModel>::empty());
        assert(s.push(e)[0] == e);
        assert(items_part(s.push(e)) == tail + items_part(s.push(e).drop_first()));
        assert(items_part(s.push(e).drop_first()) =~= Seq::<ArrayModel>::empty());
        assert(items_part(s) =~= Seq::<ArrayModel>::empty());
        assert(items_part(s.push(e)) =~= items_part(s) + tail);
    } else {
        lemma_items_part_push(s.drop_first(), e);
        assert(s.push(e).drop_first() =~= s.drop_first().push(e));
        assert(s.push(e)[0] == s[0]);
        let h = (match s[0] {
            ErrorModel::Items { sub } => seq![sub],
            _ => Seq::<ArrayModel>::empty(),
        });
        let t = items_part(s.drop_first());
        assert(items_part(s.push(e)) == h + items_part(s.drop_first().push(e)));
        assert(items_part(s.push(e)) =~= h + (t + tail));
        assert(items_part(s) == h + t);
        assert(h + (t + tail) =~= (h + t) + tail);
        assert(items_part(s.push(e)) =~= items_part(s) + tail);
    }
}

pub proof fn lemma_props_part_push(s: Seq<ErrorModel>, e: ErrorModel)
    ensures
        props_part(s.push(e)) =~= props_part(s) + (match e {
            ErrorModel::Properties { sub } => seq![sub],
            _ => Seq::<ObjectModel>::empty(),
        }),
    decreases s.len(),
{
    let tail = (match e {
        ErrorModel::Properties { sub } => seq![sub],
        _ => Seq::<ObjectModel>::empty(),
    });
    if s.len() == 0 {
        assert(s.push(e).drop_first() =~= Seq::<ErrorModel>::empty());
        assert(s.push(e)[0] == e);
        assert(props_part(s.push(e)) == tail + props_part(s.push(e).drop_first()));
        assert(props_part(s.push(e).drop_first()) =~= Seq::<ObjectModel>::empty());
        assert(props_part(s) =~= Seq::<ObjectModel>::empty());
        assert(props_part(s.push(e)) =~= props_part(s) + tail);
    } else {
        lemma_props_part_push(s.drop_first(), e);
        assert(s.push(e).drop_first() =~= s.drop_first().push(e));
        assert(s.push(e)[0] == s[0]);
        let h = (match s[0] {
            ErrorModel::Properties { sub } => seq![sub],
            _ => Seq::<ObjectModel>::empty(),
        });
        let t = props_part(s.drop_first());
        assert(props_part(s.push(e)) == h + props_part(s.drop_first().push(e)));
        assert(props_part(s.push(e)) =~= h + (t + tail));
        assert(props_part(s) == h + t);
        assert(h + (t + tail) =~= (h + t) + tail);
        assert(props_part(s.push(e)) =~= props_part(s) + tail);
    }
}

// ---------------------------------------------------------------------------
// Executable fold
// ---------------------------------------------------------------------------

spec fn array_models(s: Seq<ArrayErrors>) -> Seq<ArrayModel>
    decreases s,
{
    if s.len() == 0 {
        Seq::empty()
    } else {
        seq![crate::error::array_model(s[0])] + array_models(s.drop_first())
    }
}

proof fn lemma_array_models_push(s: Seq<ArrayErrors>, a: ArrayErrors)
    ensures
        array_models(s.push(a)) =~= array_models(s).push(crate::error::array_model(a)),
    decreases s.len(),
{
    if s.len() == 0 {
        assert(s.push(a).drop_first() =~= Seq::<ArrayErrors>::empty());
        assert(s.push(a)[0] == a);
        assert(array_models(s.push(a)) == seq![crate::error::array_model(s.push(a)[0])]
            + array_models(s.push(a).drop_first()));
        assert(array_models(s.push(a).drop_first()) =~= Seq::<ArrayModel>::empty());
        assert(array_models(s) =~= Seq::<ArrayModel>::empty());
        assert(array_models(s.push(a)) =~= array_models(s).push(crate::error::array_model(a)));
    } else {
        lemma_array_models_push(s.drop_first(), a);
        assert(s.push(a).drop_first() =~= s.drop_first().push(a));
        assert(s.push(a)[0] == s[0]);
        let h = seq![crate::error::array_model(s[0])];
        let t = array_models(s.drop_first());
        let m = crate::error::array_model(a);
        assert(array_models(s.push(a)) == h + array_models(s.drop_first().push(a)));
        assert(array_models(s.push(a)) =~= h + t.push(m));
        assert(array_models(s) == h + t);
        assert((h + t).push(m) =~= h + t.push(m));
        assert(array_models(s.push(a)) =~= array_models(s).push(m));
    }
}

spec fn object_models(s: Seq<ObjectErrors>) -> Seq<ObjectModel>
    decreases s,
{
    if s.len() == 0 {
        Seq::empty()
    } else {
        seq![crate::error::object_model(s[0])] + object_models(s.drop_first())
    }
}

proof fn lemma_object_models_push(s: Seq<ObjectErrors>, o: ObjectErrors)
    ensures
        object_models(s.push(o)) =~= object_models(s).push(crate::error::object_model(o)),
    decreases s.len(),
{
    if s.len() == 0 {
        assert(s.push(o).drop_first() =~= Seq::<ObjectErrors>::empty());
        assert(s.push(o)[0] == o);
        assert(object_models(s.push(o)) == seq![crate::error::object_model(s.push(o)[0])]
            + object_models(s.push(o).drop_first()));
        assert(object_models(s.push(o).drop_first()) =~= Seq::<ObjectModel>::empty());
        assert(object_models(s) =~= Seq::<ObjectModel>::empty());
        assert(object_models(s.push(o)) =~= object_models(s).push(crate::error::object_model(o)));
    } else {
        lemma_object_models_push(s.drop_first(), o);
        assert(s.push(o).drop_first() =~= s.drop_first().push(o));
        assert(s.push(o)[0] == s[0]);
        let h = seq![crate::error::object_model(s[0])];
        let t = object_models(s.drop_first());
        let m = crate::error::object_model(o);
        assert(object_models(s.push(o)) == h + object_models(s.drop_first().push(o)));
        assert(object_models(s.push(o)) =~= h + t.push(m));
        assert(object_models(s) == h + t);
        assert((h + t).push(m) =~= h + t.push(m));
        assert(object_models(s.push(o)) =~= object_models(s).push(m));
    }
}

/// Left-folds the collected per-item reports, in order of appearance.
fn reduce_item_parts(mut item_parts: Vec<ArrayErrors>) -> (m: ArrayErrors)
    requires
        item_parts@.len() > 0,
    ensures
        crate::error::array_model(m) == reduce_merge(array_models(item_parts@)),
{
    let ghost all = array_models(item_parts@);
    let mut m = item_parts.remove(0);
    let ghost mut k: int = 1;
    proof {
        assert(array_models(item_parts@) =~= all.drop_first());
        assert(all.subrange(0, 1) =~= seq![all[0]]);
        assert(reduce_merge(all.subrange(0, 1)) == all[0]);
        assert(crate::error::array_model(m) == all[0]);
    }
    while item_parts.len() > 0
        invariant
            1 <= k <= all.len(),
            array_models(item_parts@) =~= all.subrange(k, all.len() as int),
            crate::error::array_model(m) == reduce_merge(all.subrange(0, k)),
        decreases item_parts@.len(),
    {
        let ghost before = item_parts@;
        let next = item_parts.remove(0);
        proof {
            assert(item_parts@ =~= before.drop_first());
            assert(array_models(before) == seq![crate::error::array_model(next)]
                + array_models(item_parts@));
            assert(array_models(before)[0] == crate::error::array_model(next));
            assert(all.subrange(k, all.len() as int)[0] == all[k]);
            assert(crate::error::array_model(next) == all[k]);
            assert(array_models(item_parts@) =~= array_models(before).drop_first());
            assert(all.subrange(k, all.len() as int).drop_first() =~= all.subrange(
                k + 1,
                all.len() as int,
            ));
            assert(array_models(item_parts@) =~= all.subrange(k + 1, all.len() as int));
        }
        m = m.merge(next);
        proof {
            assert(all.subrange(0, k + 1).drop_last() =~= all.subrange(0, k));
            assert(all.subrange(0, k + 1).last() == all[k]);
            assert(crate::error::array_model(m) == reduce_merge(all.subrange(0, k + 1)));
            k = k + 1;
        }
    }
    proof {
        assert(all.subrange(0, all.len() as int) =~= all);
        assert(crate::error::array_model(m) == reduce_merge(all));
    }
    m
}

/// Left-folds the collected per-property reports, in order of appearance.
fn reduce_prop_parts(mut prop_parts: Vec<ObjectErrors>) -> (m: ObjectErrors)
    requires
        prop_parts@.len() > 0,
    ensures
        crate::error::object_model(m) == reduce_merge_objects(object_models(prop_parts@)),
{
    let ghost all = object_models(prop_parts@);
    let mut m = prop_parts.remove(0);
    let ghost mut k: int = 1;
    proof {
        assert(object_models(prop_parts@) =~= all.drop_first());
        assert(all.subrange(0, 1) =~= seq![all[0]]);
        assert(reduce_merge_objects(all.subrange(0, 1)) == all[0]);
        assert(crate::error::object_model(m) == all[0]);
    }
    while prop_parts.len() > 0
        invariant
            1 <= k <= all.len(),
            object_models(prop_parts@) =~= all.subrange(k, all.len() as int),
            crate::error::object_model(m) == reduce_merge_objects(all.subrange(0, k)),
        decreases prop_parts@.len(),
    {
        let ghost before = prop_parts@;
        let next = prop_parts.remove(0);
        proof {
            assert(prop_parts@ =~= before.drop_first());
            assert(object_models(before) == seq![crate::error::object_model(next)]
                + object_models(prop_parts@));
            assert(object_models(before)[0] == crate::error::object_model(next));
            assert(all.subrange(k, all.len() as int)[0] == all[k]);
            assert(crate::error::object_model(next) == all[k]);
            assert(object_models(prop_parts@) =~= object_models(before).drop_first());
            assert(all.subrange(k, all.len() as int).drop_first() =~= all.subrange(
                k + 1,
                all.len() as int,
            ));
            assert(object_models(prop_parts@) =~= all.subrange(k + 1, all.len() as int));
        }
        m = m.merge(next);
        proof {
            assert(all.subrange(0, k + 1).drop_last() =~= all.subrange(0, k));
            assert(all.subrange(0, k + 1).last() == all[k]);
            assert(crate::error::object_model(m) == reduce_merge_objects(
                all.subrange(0, k + 1),
            ));
            k = k + 1;
        }
    }
    proof {
        assert(all.subrange(0, all.len() as int) =~= all);
        assert(crate::error::object_model(m) == reduce_merge_objects(all));
    }
    m
}

/// Collapses the errors collected for one field into one tree node
/// (see `fold_field`).
pub fn into_field_errors(mut errors: VecErrors) -> (r: Errors)
    ensures
        r@ == fold_field(errors_list_model(errors@)),
{
    let ghost orig = errors_list_model(errors@);
    let mut leafs: VecErrors = Vec::new();
    let mut item_parts: Vec<ArrayErrors> = Vec::new();
    let mut prop_parts: Vec<ObjectErrors> = Vec::new();
    let ghost mut processed: Seq<ErrorModel> = Seq::empty();
    proof {
        assert(errors_list_model(leafs@) =~= leaf_part(processed));
        assert(array_models(item_parts@) =~= items_part(processed));
        assert(object_models(prop_parts@) =~= props_part(processed));
        assert(orig =~= processed + errors_list_model(errors@));
    }
    while errors.len() > 0
        invariant
            orig =~= processed + errors_list_model(errors@),
            errors_list_model(leafs@) =~= leaf_part(processed),
            array_models(item_parts@) =~= items_part(processed),
            object_models(prop_parts@) =~= props_part(processed),
        decreases errors@.len(),
    {
        let ghost before = errors@;
        let e = errors.remove(0);
        proof {
            assert(errors@ =~= before.drop_first());
            assert(errors_list_model(before) == seq![errors_model_of(e)] + errors_list_model(
                errors@,
            ));
            assert(processed.push(errors_model_of(e)) + errors_list_model(errors@) =~= processed
                + errors_list_model(before));
            lemma_leaf_part_push(processed, errors_model_of(e));
            lemma_items_part_push(processed, errors_model_of(e));
            lemma_props_part_push(processed, errors_model_of(e));
        }
        match e {
            Error::Items(a) => {
                proof {
                    lemma_array_models_push(item_parts@, a);
                }
                item_parts.push(a);
            },
            Error::Properties(o) => {
                proof {
                    lemma_object_models_push(prop_parts@, o);
                }
                prop_parts.push(o);
            },
            other => {
                proof {
                    lemma_errors_list_model_push(leafs@, other);
                    assert(errors_list_model(leafs@).push(errors_model_of(other)) =~= leaf_part(
                        processed.push(errors_model_of(other)),
                    ));
                }
                leafs.push(other);
            },
        }
        proof {
            processed = processed.push(errors_model_of(before[0]));
        }
    }
    proof {
        assert(errors_list_model(errors@) =~= Seq::<ErrorModel>::empty());
        assert(orig =~= processed);
    }
    if prop_parts.len() > 0 {
        let m = reduce_prop_parts(prop_parts);
        proof {
            assert(props_part(orig).len() > 0);
        }
        let ObjectErrors { errors: mut oe, properties } = m;
        proof {
            lemma_errors_list_model_concat(leafs@, oe@);
        }
        leafs.append(&mut oe);
        Errors::Object(ObjectErrors { errors: leafs, properties })
    } else {
        proof {
            assert(props_part(orig).len() == 0);
        }
        if item_parts.len() > 0 {
            let m = reduce_item_parts(item_parts);
            proof {
                assert(items_part(orig).len() > 0);
            }
            let ArrayErrors { errors: mut me, items } = m;
            proof {
                lemma_errors_list_model_concat(leafs@, me@);
            }
            leafs.append(&mut me);
            Errors::Array(ArrayErrors { errors: leafs, items })
        } else {
            proof {
                assert(items_part(orig).len() == 0);
            }
            Errors::NewType(leafs)
        }
    }
}

/// The model of one error (alias used inside proofs).
pub open spec fn errors_model_of(e: Error) -> ErrorModel {
    crate::error::error_model(e)
}

// ---------------------------------------------------------------------------
// Tree roots, as the front end builds them
// ---------------------------------------------------------------------------

/// The model of a property list whose raw per-field error lists have been
/// collapsed by `fold_field`.
pub open spec fn built_props(s: Seq<(String, Vec<Error>)>) -> Seq<(Seq<char>, ErrorsModel)>
    decreases s,
{
    if s.len() == 0 {
        Seq::empty()
    } else {
        seq![(s[0].0@, fold_field(errors_list_model(s[0].1@)))] + built_props(s.drop_first())
    }
}

/// `built_props` expressed over the raw lists' models alone: each field's
/// collected errors collapsed by `fold_field`, under its key.
pub open spec fn built_props_of(
    fields: Seq<(Seq<char>, Seq<ErrorModel>)>,
) -> Seq<(Seq<char>, ErrorsModel)>
    decreases fields,
{
    if fields.len() == 0 {
        Seq::empty()
    } else {
        seq![(fields[0].0, fold_field(fields[0].1))] + built_props_of(fields.drop_first())
    }
}

/// The model of an item list whose raw per-index error lists have been
/// collapsed by `fold_field`.
pub open spec fn built_items(s: Seq<(usize, Vec<Error>)>) -> Seq<(int, ErrorsModel)>
    decreases s,
{
    if s.len() == 0 {
        Seq::empty()
    } else {
        seq![(s[0].0 as int, fold_field(errors_list_model(s[0].1@)))] + built_items(
            s.drop_first(),
        )
    }
}

/// The object-shaped root: the value's own errors, and one collapsed node
/// per property that collected any.
pub fn object_errors(rule_errors: VecErrors, mut properties: Vec<(String, VecErrors)>) -> (r:
    Errors)
    ensures
        r@ == ErrorsModel::Object(
            ObjectModel {
                errors: errors_list_model(rule_errors@),
                properties: built_props(properties@),
            },
        ),
{
    let ghost orig = properties@;
    let mut out: Vec<(String, Errors)> = Vec::new();
    proof {
        assert(props_model(out@) =~= Seq::<(Seq<char>, ErrorsModel)>::empty());
        assert(built_props(orig) =~= props_model(out@) + built_props(properties@));
    }
    while properties.len() > 0
        invariant
            built_props(orig) =~= props_model(out@) + built_props(properties@),
        decreases properties@.len(),
    {
        let ghost before = properties@;
        let (key, list) = properties.remove(0);
        proof {
            assert(properties@ =~= before.drop_first());
            assert(built_props(before) == seq![(before[0].0@, fold_field(errors_list_model(
                before[0].1@,
            )))] + built_props(properties@));
        }
        let tree = into_field_errors(list);
        let ghost out_before = out@;
        let ghost keym = key@;
        let ghost treem = errors_model(tree);
        proof {
            lemma_props_model_push(out@, (key, tree));
            assert(treem == fold_field(errors_list_model(before[0].1@)));
            assert(keym == before[0].0@);
        }
        out.push((key, tree));
        proof {
            assert(props_model(out@) =~= props_model(out_before).push((keym, treem)));
            assert(props_model(out_before).push((keym, treem)) =~= props_model(out_before)
                + seq![(keym, treem)]);
            assert(built_props(orig) =~= props_model(out@) + built_props(properties@));
        }
    }
    proof {
        assert(built_props(properties@) =~= Seq::<(Seq<char>, ErrorsModel)>::empty());
        assert(built_props(orig) =~= props_model(out@));
    }
    Errors::Object(ObjectErrors { errors: rule_errors, properties: out })
}

/// The array-shaped root: the value's own errors, and one collapsed node
/// per index that collected any.
pub fn array_errors(rule_errors: VecErrors, mut items: Vec<(usize, VecErrors)>) -> (r: Errors)
    ensures
        r@ == ErrorsModel::Array(
            ArrayModel { errors: errors_list_model(rule_errors@), items: built_items(items@) },
        ),
{
    let ghost orig = items@;
    let mut out: Vec<(usize, Errors)> = Vec::new();
    proof {
        assert(items_model(out@) =~= Seq::<(int, ErrorsModel)>::empty());
        assert(built_items(orig) =~= items_model(out@) + built_items(items@));
    }
    while items.len() > 0
        invariant
            built_items(orig) =~= items_model(out@) + built_items(items@),
        decreases items@.len(),
    {
        let ghost before = items@;
        let (key, list) = items.remove(0);
        proof {
            assert(items@ =~= before.drop_first());
            assert(built_items(before) == seq![(before[0].0 as int, fold_field(
                errors_list_model(before[0].1@),
            ))] + built_items(items@));
        }
        let tree = into_field_errors(list);
        let ghost out_before = out@;
        let ghost treem = errors_model(tree);
        proof {
            lemma_items_model_push(out@, (key, tree));
            assert(treem == fold_field(errors_list_model(before[0].1@)));
            assert(key == before[0].0);
        }
        out.push((key, tree));
        proof {
            assert(items_model(out@) =~= items_model(out_before).push((key as int, treem)));
            assert(items_model(out_before).push((key as int, treem)) =~= items_model(out_before)
                + seq![(key as int, treem)]);
            assert(built_items(orig) =~= items_model(out@) + built_items(items@));
        }
    }
    proof {
        assert(built_items(items@) =~= Seq::<(int, ErrorsModel)>::empty());
        assert(built_items(orig) =~= items_model(out@));
    }
    Errors::Array(ArrayErrors { errors: rule_errors, items: out })
}

/// The flat root of a single-value wrapper: the value's own errors chained
/// with the inner value's.
pub fn new_type_errors(mut rule_errors: VecErrors, mut item_errors: VecErrors) -> (r: Errors)
    ensures
        r@ == ErrorsModel::Flat(
            errors_list_model(rule_errors@) + errors_list_model(item_errors@),
        ),
{
    proof {
        lemma_errors_list_model_concat(rule_errors@, item_errors@);
    }
    rule_errors.append(&mut item_errors);
    Errors::NewType(rule_errors)
}

} // verus!
