use vstd::prelude::*;
use crate::error::ErrorsModel;
use crate::merge::{
    insert_item_m, insert_prop_m, item_key_index, lemma_item_key_index, lemma_prop_key_index,
    merge_errors_m, merge_items_m, merge_props_m, prop_key_index,
};

verus! {

broadcast use vstd::std_specs::vec::group_vec_axioms, vstd::seq::axiom_seq_index_decreases;

// ---------------------------------------------------------------------------
// Structural identity of two trees
// ---------------------------------------------------------------------------

/// Two trees have the same structure: the same node kind, the same keys in
/// the same order at every level, whatever the error lists hold.
pub open spec fn same_shape(a: ErrorsModel, b: ErrorsModel) -> bool
    decreases b,
{
    match (a, b) {
        (ErrorsModel::Flat(_), ErrorsModel::Flat(_)) => true,
        (ErrorsModel::Object(o1), ErrorsModel::Object(o2)) => same_shape_props(
            o1.properties,
            o2.properties,
        ),
        (ErrorsModel::Array(a1), ErrorsModel::Array(a2)) => same_shape_items(a1.items, a2.items),
        _ => false,
    }
}

pub open spec fn same_shape_items(x: Seq<(int, ErrorsModel)>, y: Seq<(int, ErrorsModel)>) -> bool
    decreases y,
{
    x.len() == y.len() && (y.len() == 0 || (x[0].0 == y[0].0 && same_shape(x[0].1, y[0].1)
        && same_shape_items(x.drop_first(), y.drop_first())))
}

pub open spec fn same_shape_props(
    x: Seq<(Seq<char>, ErrorsModel)>,
    y: Seq<(Seq<char>, ErrorsModel)>,
) -> bool
    decreases y,
{
    x.len() == y.len() && (y.len() == 0 || (x[0].0 == y[0].0 && same_shape(x[0].1, y[0].1)
        && same_shape_props(x.drop_first(), y.drop_first())))
}

// ---------------------------------------------------------------------------
// Well-formed trees: no key occurs twice at one level
// ---------------------------------------------------------------------------

pub open spec fn unique_item_keys(s: Seq<(int, ErrorsModel)>) -> bool {
    forall|i: int, j: int| 0 <= i < j < s.len() ==> (#[trigger] s[i]).0 != (#[trigger] s[j]).0
}

pub open spec fn unique_prop_keys(s: Seq<(Seq<char>, ErrorsModel)>) -> bool {
    forall|i: int, j: int| 0 <= i < j < s.len() ==> (#[trigger] s[i]).0 != (#[trigger] s[j]).0
}

/// A validation pass produces trees whose keys are unique at every level.
pub open spec fn wf_tree(t: ErrorsModel) -> bool
    decreases t,
{
    match t {
        ErrorsModel::Flat(_) => true,
        ErrorsModel::Object(o) => unique_prop_keys(o.properties) && wf_props(o.properties),
        ErrorsModel::Array(a) => unique_item_keys(a.items) && wf_items(a.items),
    }
}

pub open spec fn wf_items(s: Seq<(int, ErrorsModel)>) -> bool
    decreases s,
{
    s.len() == 0 || (wf_tree(s[0].1) && wf_items(s.drop_first()))
}

pub open spec fn wf_props(s: Seq<(Seq<char>, ErrorsModel)>) -> bool
    decreases s,
{
    s.len() == 0 || (wf_tree(s[0].1) && wf_props(s.drop_first()))
}

// ---------------------------------------------------------------------------
// Pointwise characterizations
// ---------------------------------------------------------------------------

proof fn lemma_same_shape_items_pointwise(x: Seq<(int, ErrorsModel)>, y: Seq<(int, ErrorsModel)>)
    requires
        same_shape_items(x, y),
    ensures
        x.len() == y.len(),
        forall|i: int| 0 <= i < y.len() ==> (#[trigger] x[i]).0 == (#[trigger] y[i]).0,
        forall|i: int| 0 <= i < y.len() ==> same_shape((#[trigger] x[i]).1, (#[trigger] y[i]).1),
    decreases y.len(),
{
    if y.len() > 0 {
        lemma_same_shape_items_pointwise(x.drop_first(), y.drop_first());
        assert forall|i: int| 0 <= i < y.len() implies (#[trigger] x[i]).0 == (#[trigger] y[i]).0
            && same_shape(x[i].1, y[i].1) by {
            if i > 0 {
                assert(x.drop_first()[i - 1] == x[i]);
                assert(y.drop_first()[i - 1] == y[i]);
            }
        }
    }
}

proof fn lemma_same_shape_items_from_pointwise(
    x: Seq<(int, ErrorsModel)>,
    y: Seq<(int, ErrorsModel)>,
)
    requires
        x.len() == y.len(),
        forall|i: int| 0 <= i < y.len() ==> (#[trigger] x[i]).0 == (#[trigger] y[i]).0,
        forall|i: int| 0 <= i < y.len() ==> same_shape((#[trigger] x[i]).1, (#[trigger] y[i]).1),
    ensures
        same_shape_items(x, y),
    decreases y.len(),
{
    if y.len() > 0 {
        assert forall|i: int|
            0 <= i < y.drop_first().len() implies (#[trigger] x.drop_first()[i]).0 == (
        #[trigger] y.drop_first()[i]).0 && same_shape(x.drop_first()[i].1, y.drop_first()[i].1) by {
            assert(x.drop_first()[i] == x[i + 1]);
            assert(y.drop_first()[i] == y[i + 1]);
        }
        lemma_same_shape_items_from_pointwise(x.drop_first(), y.drop_first());
    }
}

proof fn lemma_same_shape_props_pointwise(
    x: Seq<(Seq<char>, ErrorsModel)>,
    y: Seq<(Seq<char>, ErrorsModel)>,
)
    requires
        same_shape_props(x, y),
    ensures
        x.len() == y.len(),
        forall|i: int| 0 <= i < y.len() ==> (#[trigger] x[i]).0 == (#[trigger] y[i]).0,
        forall|i: int| 0 <= i < y.len() ==> same_shape((#[trigger] x[i]).1, (#[trigger] y[i]).1),
    decreases y.len(),
{
    if y.len() > 0 {
        lemma_same_shape_props_pointwise(x.drop_first(), y.drop_first());
        assert forall|i: int| 0 <= i < y.len() implies (#[trigger] x[i]).0 == (#[trigger] y[i]).0
            && same_shape(x[i].1, y[i].1) by {
            if i > 0 {
                assert(x.drop_first()[i - 1] == x[i]);
                assert(y.drop_first()[i - 1] == y[i]);
            }
        }
    }
}

proof fn lemma_same_shape_props_from_pointwise(
    x: Seq<(Seq<char>, ErrorsModel)>,
    y: Seq<(Seq<char>, ErrorsModel)>,
)
    requires
        x.len() == y.len(),
        forall|i: int| 0 <= i < y.len() ==> (#[trigger] x[i]).0 == (#[trigger] y[i]).0,
        forall|i: int| 0 <= i < y.len() ==> same_shape((#[trigger] x[i]).1, (#[trigger] y[i]).1),
    ensures
        same_shape_props(x, y),
    decreases y.len(),
{
    if y.len() > 0 {
        assert forall|i: int|
            0 <= i < y.drop_first().len() implies (#[trigger] x.drop_first()[i]).0 == (
        #[trigger] y.drop_first()[i]).0 && same_shape(x.drop_first()[i].1, y.drop_first()[i].1) by {
            assert(x.drop_first()[i] == x[i + 1]);
            assert(y.drop_first()[i] == y[i + 1]);
        }
        lemma_same_shape_props_from_pointwise(x.drop_first(), y.drop_first());
    }
}

proof fn lemma_wf_items_pointwise(s: Seq<(int, ErrorsModel)>)
    requires
        wf_items(s),
    ensures
        forall|i: int| 0 <= i < s.len() ==> wf_tree((#[trigger] s[i]).1),
    decreases s.len(),
{
    if s.len() > 0 {
        lemma_wf_items_pointwise(s.drop_first());
        assert forall|i: int| 0 <= i < s.len() implies wf_tree((#[trigger] s[i]).1) by {
            if i > 0 {
                assert(s.drop_first()[i - 1] == s[i]);
            }
        }
    }
}

proof fn lemma_wf_props_pointwise(s: Seq<(Seq<char>, ErrorsModel)>)
    requires
        wf_props(s),
    ensures
        forall|i: int| 0 <= i < s.len() ==> wf_tree((#[trigger] s[i]).1),
    decreases s.len(),
{
    if s.len() > 0 {
        lemma_wf_props_pointwise(s.drop_first());
        assert forall|i: int| 0 <= i < s.len() implies wf_tree((#[trigger] s[i]).1) by {
            if i > 0 {
                assert(s.drop_first()[i - 1] == s[i]);
            }
        }
    }
}

/// Structural identity is reflexive.
pub proof fn lemma_same_shape_reflexive(t: ErrorsModel)
    ensures
        same_shape(t, t),
    decreases t,
{
    match t {
        ErrorsModel::Flat(_) => {},
        ErrorsModel::Object(o) => {
            lemma_same_shape_seq_reflexive_p(o.properties);
        },
        ErrorsModel::Array(a) => {
            lemma_same_shape_seq_reflexive_i(a.items);
        },
    }
}

proof fn lemma_same_shape_seq_reflexive_i(s: Seq<(int, ErrorsModel)>)
    ensures
        same_shape_items(s, s),
    decreases s,
{
    if s.len() > 0 {
        lemma_same_shape_reflexive(s[0].1);
        lemma_same_shape_seq_reflexive_i(s.drop_first());
    }
}

proof fn lemma_same_shape_seq_reflexive_p(s: Seq<(Seq<char>, ErrorsModel)>)
    ensures
        same_shape_props(s, s),
    decreases s,
{
    if s.len() > 0 {
        lemma_same_shape_reflexive(s[0].1);
        lemma_same_shape_seq_reflexive_p(s.drop_first());
    }
}

/// Structural identity is transitive.
pub proof fn lemma_same_shape_transitive(a: ErrorsModel, b: ErrorsModel, c: ErrorsModel)
    requires
        same_shape(a, b),
        same_shape(b, c),
    ensures
        same_shape(a, c),
    decreases c,
{
    match (a, b, c) {
        (ErrorsModel::Object(o1), ErrorsModel::Object(o2), ErrorsModel::Object(o3)) => {
            lemma_same_shape_trans_p(o1.properties, o2.properties, o3.properties);
        },
        (ErrorsModel::Array(a1), ErrorsModel::Array(a2), ErrorsModel::Array(a3)) => {
            lemma_same_shape_trans_i(a1.items, a2.items, a3.items);
        },
        _ => {},
    }
}

proof fn lemma_same_shape_trans_i(
    x: Seq<(int, ErrorsModel)>,
    y: Seq<(int, ErrorsModel)>,
    z: Seq<(int, ErrorsModel)>,
)
    requires
        same_shape_items(x, y),
        same_shape_items(y, z),
    ensures
        same_shape_items(x, z),
    decreases z,
{
    if z.len() > 0 {
        lemma_same_shape_transitive(x[0].1, y[0].1, z[0].1);
        lemma_same_shape_trans_i(x.drop_first(), y.drop_first(), z.drop_first());
    }
}

proof fn lemma_same_shape_trans_p(
    x: Seq<(Seq<char>, ErrorsModel)>,
    y: Seq<(Seq<char>, ErrorsModel)>,
    z: Seq<(Seq<char>, ErrorsModel)>,
)
    requires
        same_shape_props(x, y),
        same_shape_props(y, z),
    ensures
        same_shape_props(x, z),
    decreases z,
{
    if z.len() > 0 {
        lemma_same_shape_transitive(x[0].1, y[0].1, z[0].1);
        lemma_same_shape_trans_p(x.drop_first(), y.drop_first(), z.drop_first());
    }
}

// ---------------------------------------------------------------------------
// Merging never changes a well-formed tree's structure
// ---------------------------------------------------------------------------

proof fn lemma_merge_keeps_shape(a: ErrorsModel, b: ErrorsModel)
    requires
        same_shape(b, a),
        wf_tree(a),
    ensures
        same_shape(merge_errors_m(a, b), a),
    decreases b,
{
    match (a, b) {
        (ErrorsModel::Object(o1), ErrorsModel::Object(o2)) => {
            lemma_same_shape_props_pointwise(o2.properties, o1.properties);
            lemma_wf_props_pointwise(o1.properties);
            assert forall|j: int| 0 <= j < o2.properties.len() implies exists|i: int|
                0 <= i < o1.properties.len() && (#[trigger] o2.properties[j]).0
                    == o1.properties[i].0 && same_shape(o2.properties[j].1, o1.properties[i].1)
                    && wf_tree(o1.properties[i].1) by {
                assert(o2.properties[j].0 == o1.properties[j].0 && same_shape(
                    o2.properties[j].1,
                    o1.properties[j].1,
                ) && wf_tree(o1.properties[j].1));
            }
            assert forall|i: int, j: int|
                0 <= i < j < o2.properties.len() implies (#[trigger] o2.properties[i]).0 != (
            #[trigger] o2.properties[j]).0 by {
                assert(o2.properties[i].0 == o1.properties[i].0);
                assert(o2.properties[j].0 == o1.properties[j].0);
            }
            lemma_merge_props_keeps_shape(o1.properties, o2.properties);
            let res = merge_props_m(o1.properties, o2.properties);
            lemma_same_shape_props_from_pointwise(res, o1.properties);
        },
        (ErrorsModel::Array(a1), ErrorsModel::Array(a2)) => {
            lemma_same_shape_items_pointwise(a2.items, a1.items);
            lemma_wf_items_pointwise(a1.items);
            assert forall|j: int| 0 <= j < a2.items.len() implies exists|i: int|
                0 <= i < a1.items.len() && (#[trigger] a2.items[j]).0 == a1.items[i].0
                    && same_shape(a2.items[j].1, a1.items[i].1) && wf_tree(a1.items[i].1) by {
                assert(a2.items[j].0 == a1.items[j].0 && same_shape(
                    a2.items[j].1,
                    a1.items[j].1,
                ) && wf_tree(a1.items[j].1));
            }
            assert forall|i: int, j: int|
                0 <= i < j < a2.items.len() implies (#[trigger] a2.items[i]).0 != (
            #[trigger] a2.items[j]).0 by {
                assert(a2.items[i].0 == a1.items[i].0);
                assert(a2.items[j].0 == a1.items[j].0);
            }
            lemma_merge_items_keeps_shape(a1.items, a2.items);
            let res = merge_items_m(a1.items, a2.items);
            lemma_same_shape_items_from_pointwise(res, a1.items);
        },
        _ => {},
    }
}

proof fn lemma_merge_items_keeps_shape(xs: Seq<(int, ErrorsModel)>, ys: Seq<(int, ErrorsModel)>)
    requires
        unique_item_keys(xs),
        unique_item_keys(ys),
        forall|j: int| 0 <= j < ys.len() ==> exists|i: int|
            0 <= i < xs.len() && (#[trigger] ys[j]).0 == xs[i].0 && same_shape(
                ys[j].1,
                xs[i].1,
            ) && wf_tree(xs[i].1),
    ensures
        merge_items_m(xs, ys).len() == xs.len(),
        forall|i: int| 0 <= i < xs.len() ==> (#[trigger] merge_items_m(xs, ys)[i]).0 == xs[i].0,
        forall|i: int|
            0 <= i < xs.len() ==> same_shape((#[trigger] merge_items_m(xs, ys)[i]).1, xs[i].1),
    decreases ys,
{
    if ys.len() == 0 {
        assert forall|i: int| 0 <= i < xs.len() implies same_shape(
            (#[trigger] merge_items_m(xs, ys)[i]).1,
            xs[i].1,
        ) by {
            lemma_same_shape_reflexive(xs[i].1);
        }
    } else {
        let y0 = ys[0];
        let i0 = choose|i: int|
            0 <= i < xs.len() && y0.0 == (#[trigger] xs[i]).0 && same_shape(y0.1, xs[i].1)
                && wf_tree(xs[i].1);
        lemma_item_key_index(xs, y0.0);
        let jm = item_key_index(xs, y0.0);
        assert(jm != -1);
        assert(xs[jm].0 == y0.0);
        assert(jm == i0);
        let merged_child = merge_errors_m(xs[jm].1, y0.1);
        lemma_merge_keeps_shape(xs[jm].1, y0.1);
        let xs1 = xs.update(jm, (y0.0, merged_child));
        assert(insert_item_m(xs, y0) =~= xs1);
        assert(xs1.len() == xs.len());
        assert forall|i: int| 0 <= i < xs.len() implies (#[trigger] xs1[i]).0 == xs[i].0 by {}
        assert forall|i: int, j: int|
            0 <= i < j < xs1.len() implies (#[trigger] xs1[i]).0 != (#[trigger] xs1[j]).0 by {
            assert(xs1[i].0 == xs[i].0);
            assert(xs1[j].0 == xs[j].0);
        }
        assert forall|i: int, j: int|
            0 <= i < j < ys.drop_first().len() implies (#[trigger] ys.drop_first()[i]).0 != (
        #[trigger] ys.drop_first()[j]).0 by {
            assert(ys.drop_first()[i] == ys[i + 1]);
            assert(ys.drop_first()[j] == ys[j + 1]);
        }
        assert forall|j: int| 0 <= j < ys.drop_first().len() implies exists|i: int|
            0 <= i < xs1.len() && (#[trigger] ys.drop_first()[j]).0 == xs1[i].0 && same_shape(
                ys.drop_first()[j].1,
                xs1[i].1,
            ) && wf_tree(xs1[i].1) by {
            assert(ys.drop_first()[j] == ys[j + 1]);
            let yk = ys[j + 1];
            let ik = choose|i: int|
                0 <= i < xs.len() && yk.0 == (#[trigger] xs[i]).0 && same_shape(yk.1, xs[i].1)
                    && wf_tree(xs[i].1);
            assert(yk.0 != y0.0);
            assert(ik != jm);
            assert(xs1[ik] == xs[ik]);
            assert(0 <= ik < xs1.len() && yk.0 == xs1[ik].0 && same_shape(yk.1, xs1[ik].1)
                && wf_tree(xs1[ik].1));
        }
        lemma_merge_items_keeps_shape(xs1, ys.drop_first());
        assert(merge_items_m(xs, ys) == merge_items_m(xs1, ys.drop_first()));
        assert forall|i: int| 0 <= i < xs.len() implies same_shape(
            (#[trigger] merge_items_m(xs, ys)[i]).1,
            xs[i].1,
        ) by {
            assert(same_shape(merge_items_m(xs1, ys.drop_first())[i].1, xs1[i].1));
            if i == jm {
                lemma_same_shape_transitive(
                    merge_items_m(xs1, ys.drop_first())[i].1,
                    merged_child,
                    xs[i].1,
                );
            } else {
                assert(xs1[i] == xs[i]);
            }
        }
    }
}

proof fn lemma_merge_props_keeps_shape(
    xs: Seq<(Seq<char>, ErrorsModel)>,
    ys: Seq<(Seq<char>, ErrorsModel)>,
)
    requires
        unique_prop_keys(xs),
        unique_prop_keys(ys),
        forall|j: int| 0 <= j < ys.len() ==> exists|i: int|
            0 <= i < xs.len() && (#[trigger] ys[j]).0 == xs[i].0 && same_shape(
                ys[j].1,
                xs[i].1,
            ) && wf_tree(xs[i].1),
    ensures
        merge_props_m(xs, ys).len() == xs.len(),
        forall|i: int| 0 <= i < xs.len() ==> (#[trigger] merge_props_m(xs, ys)[i]).0 == xs[i].0,
        forall|i: int|
            0 <= i < xs.len() ==> same_shape((#[trigger] merge_props_m(xs, ys)[i]).1, xs[i].1),
    decreases ys,
{
    if ys.len() == 0 {
        assert forall|i: int| 0 <= i < xs.len() implies same_shape(
            (#[trigger] merge_props_m(xs, ys)[i]).1,
            xs[i].1,
        ) by {
            lemma_same_shape_reflexive(xs[i].1);
        }
    } else {
        let y0 = ys[0];
        let i0 = choose|i: int|
            0 <= i < xs.len() && y0.0 == (#[trigger] xs[i]).0 && same_shape(y0.1, xs[i].1)
                && wf_tree(xs[i].1);
        lemma_prop_key_index(xs, y0.0);
        let jm = prop_key_index(xs, y0.0);
        assert(jm != -1);
        assert(xs[jm].0 == y0.0);
        assert(jm == i0);
        let merged_child = merge_errors_m(xs[jm].1, y0.1);
        lemma_merge_keeps_shape(xs[jm].1, y0.1);
        let xs1 = xs.update(jm, (y0.0, merged_child));
        assert(insert_prop_m(xs, y0) =~= xs1);
        assert(xs1.len() == xs.len());
        assert forall|i: int| 0 <= i < xs.len() implies (#[trigger] xs1[i]).0 == xs[i].0 by {}
        assert forall|i: int, j: int|
            0 <= i < j < xs1.len() implies (#[trigger] xs1[i]).0 != (#[trigger] xs1[j]).0 by {
            assert(xs1[i].0 == xs[i].0);
            assert(xs1[j].0 == xs[j].0);
        }
        assert forall|i: int, j: int|
            0 <= i < j < ys.drop_first().len() implies (#[trigger] ys.drop_first()[i]).0 != (
        #[trigger] ys.drop_first()[j]).0 by {
            assert(ys.drop_first()[i] == ys[i + 1]);
            assert(ys.drop_first()[j] == ys[j + 1]);
        }
        assert forall|j: int| 0 <= j < ys.drop_first().len() implies exists|i: int|
            0 <= i < xs1.len() && (#[trigger] ys.drop_first()[j]).0 == xs1[i].0 && same_shape(
                ys.drop_first()[j].1,
                xs1[i].1,
            ) && wf_tree(xs1[i].1) by {
            assert(ys.drop_first()[j] == ys[j + 1]);
            let yk = ys[j + 1];
            let ik = choose|i: int|
                0 <= i < xs.len() && yk.0 == (#[trigger] xs[i]).0 && same_shape(yk.1, xs[i].1)
                    && wf_tree(xs[i].1);
            assert(yk.0 != y0.0);
            assert(ik != jm);
            assert(xs1[ik] == xs[ik]);
            assert(0 <= ik < xs1.len() && yk.0 == xs1[ik].0 && same_shape(yk.1, xs1[ik].1)
                && wf_tree(xs1[ik].1));
        }
        lemma_merge_props_keeps_shape(xs1, ys.drop_first());
        assert(merge_props_m(xs, ys) == merge_props_m(xs1, ys.drop_first()));
        assert forall|i: int| 0 <= i < xs.len() implies same_shape(
            (#[trigger] merge_props_m(xs, ys)[i]).1,
            xs[i].1,
        ) by {
            assert(same_shape(merge_props_m(xs1, ys.drop_first())[i].1, xs1[i].1));
            if i == jm {
                lemma_same_shape_transitive(
                    merge_props_m(xs1, ys.drop_first())[i].1,
                    merged_child,
                    xs[i].1,
                );
            } else {
                assert(xs1[i] == xs[i]);
            }
        }
    }
}

/// Law: merging a well-formed report once more with an equally-shaped
/// report — in particular, the reports a re-run of the same validation
/// produces — yields a structurally identical tree: the same node kinds
/// and the same keys, in the same order, at every level.
pub proof fn lemma_remerge_structurally_identical(t: ErrorsModel)
    requires
        wf_tree(t),
    ensures
        same_shape(merge_errors_m(t, t), t),
{
    lemma_same_shape_reflexive(t);
    lemma_merge_keeps_shape(t, t);
}

// ---------------------------------------------------------------------------
// Merging is set-union on the keys
// ---------------------------------------------------------------------------

/// The keys of an index-keyed entry list, in order.
pub open spec fn item_keys(s: Seq<(int, ErrorsModel)>) -> Seq<int>
    decreases s,
{
    if s.len() == 0 {
        Seq::empty()
    } else {
        seq![s[0].0] + item_keys(s.drop_first())
    }
}

/// Some entry carries the key.
pub open spec fn has_item_key(s: Seq<(int, ErrorsModel)>, k: int) -> bool {
    exists|i: int| 0 <= i < s.len() && (#[trigger] s[i]).0 == k
}

/// The keys of `ys` that `xs` does not hold, in their order in `ys`.
pub open spec fn fresh_item_keys(
    xs: Seq<(int, ErrorsModel)>,
    ys: Seq<(int, ErrorsModel)>,
) -> Seq<int>
    decreases ys,
{
    if ys.len() == 0 {
        Seq::empty()
    } else {
        (if has_item_key(xs, ys[0].0) {
            Seq::empty()
        } else {
            seq![ys[0].0]
        }) + fresh_item_keys(xs, ys.drop_first())
    }
}

proof fn lemma_item_keys_pointwise(s: Seq<(int, ErrorsModel)>)
    ensures
        item_keys(s).len() == s.len(),
        forall|i: int| 0 <= i < s.len() ==> item_keys(s)[i] == (#[trigger] s[i]).0,
    decreases s.len(),
{
    if s.len() > 0 {
        lemma_item_keys_pointwise(s.drop_first());
        assert forall|i: int| 0 <= i < s.len() implies item_keys(s)[i] == (#[trigger] s[i]).0 by {
            if i > 0 {
                assert(s.drop_first()[i - 1] == s[i]);
                assert(item_keys(s)[i] == item_keys(s.drop_first())[i - 1]);
            }
        }
    }
}

proof fn lemma_fresh_item_keys_congruent(
    a: Seq<(int, ErrorsModel)>,
    b: Seq<(int, ErrorsModel)>,
    ys: Seq<(int, ErrorsModel)>,
)
    requires
        forall|j: int| 0 <= j < ys.len() ==> has_item_key(a, (#[trigger] ys[j]).0)
            == has_item_key(b, ys[j].0),
    ensures
        fresh_item_keys(a, ys) =~= fresh_item_keys(b, ys),
    decreases ys.len(),
{
    if ys.len() > 0 {
        assert forall|j: int| 0 <= j < ys.drop_first().len() implies has_item_key(
            a,
            (#[trigger] ys.drop_first()[j]).0,
        ) == has_item_key(b, ys.drop_first()[j].0) by {
            assert(ys.drop_first()[j] == ys[j + 1]);
        }
        lemma_fresh_item_keys_congruent(a, b, ys.drop_first());
        assert(has_item_key(a, ys[0].0) == has_item_key(b, ys[0].0));
    }
}

/// Law: merging joins the index-keyed children by set-union on their key:
/// every key of the left report keeps its place and its order, and the
/// right report's keys that are new follow them, in their own order.
pub proof fn lemma_merge_items_key_union(
    xs: Seq<(int, ErrorsModel)>,
    ys: Seq<(int, ErrorsModel)>,
)
    requires
        unique_item_keys(ys),
    ensures
        item_keys(merge_items_m(xs, ys)) =~= item_keys(xs) + fresh_item_keys(xs, ys),
    decreases ys,
{
    if ys.len() == 0 {
        assert(fresh_item_keys(xs, ys) =~= Seq::<int>::empty());
        assert(item_keys(xs) + Seq::<int>::empty() =~= item_keys(xs));
    } else {
        let y0 = ys[0];
        let xs1 = insert_item_m(xs, y0);
        lemma_item_key_index(xs, y0.0);
        lemma_item_keys_pointwise(xs);
        lemma_item_keys_pointwise(xs1);
        let jm = item_key_index(xs, y0.0);
        assert forall|i: int, j: int|
            0 <= i < j < ys.drop_first().len() implies (#[trigger] ys.drop_first()[i]).0 != (
        #[trigger] ys.drop_first()[j]).0 by {
            assert(ys.drop_first()[i] == ys[i + 1]);
            assert(ys.drop_first()[j] == ys[j + 1]);
        }
        lemma_merge_items_key_union(xs1, ys.drop_first());
        assert(merge_items_m(xs, ys) == merge_items_m(xs1, ys.drop_first()));
        if jm != -1 {
            // the key is already present: the key list does not change
            assert(has_item_key(xs, y0.0));
            assert(xs1 == xs.update(jm, (y0.0, merge_errors_m(xs[jm].1, y0.1))));
            assert(xs1.len() == xs.len());
            assert forall|i: int| 0 <= i < xs.len() implies item_keys(xs1)[i] == item_keys(
                xs,
            )[i] by {
                assert(item_keys(xs1)[i] == xs1[i].0);
                assert(item_keys(xs)[i] == xs[i].0);
            }
            assert(item_keys(xs1) =~= item_keys(xs));
            assert forall|j: int| 0 <= j < ys.drop_first().len() implies has_item_key(
                xs1,
                (#[trigger] ys.drop_first()[j]).0,
            ) == has_item_key(xs, ys.drop_first()[j].0) by {
                let k = ys.drop_first()[j].0;
                if has_item_key(xs1, k) {
                    let w = choose|i: int| 0 <= i < xs1.len() && (#[trigger] xs1[i]).0 == k;
                    assert(xs[w].0 == k);
                }
                if has_item_key(xs, k) {
                    let w = choose|i: int| 0 <= i < xs.len() && (#[trigger] xs[i]).0 == k;
                    assert(xs1[w].0 == k);
                }
            }
            lemma_fresh_item_keys_congruent(xs1, xs, ys.drop_first());
            assert(fresh_item_keys(xs, ys) =~= fresh_item_keys(xs, ys.drop_first()));
            assert(item_keys(merge_items_m(xs, ys)) =~= item_keys(xs) + fresh_item_keys(
                xs,
                ys,
            ));
        } else {
            // a new key: it is appended behind the left report's keys
            assert(!has_item_key(xs, y0.0));
            assert(xs1 == xs.push(y0));
            assert forall|i: int| 0 <= i < xs1.len() implies item_keys(xs1)[i] == item_keys(
                xs,
            ).push(y0.0)[i] by {
                assert(item_keys(xs1)[i] == xs1[i].0);
                if i < xs.len() {
                    assert(item_keys(xs)[i] == xs[i].0);
                }
            }
            assert(item_keys(xs1) =~= item_keys(xs).push(y0.0));
            assert forall|j: int| 0 <= j < ys.drop_first().len() implies has_item_key(
                xs1,
                (#[trigger] ys.drop_first()[j]).0,
            ) == has_item_key(xs, ys.drop_first()[j].0) by {
                let k = ys.drop_first()[j].0;
                assert(ys.drop_first()[j] == ys[j + 1]);
                assert(k != y0.0);
                if has_item_key(xs1, k) {
                    let w = choose|i: int| 0 <= i < xs1.len() && (#[trigger] xs1[i]).0 == k;
                    assert(w < xs.len());
                    assert(xs[w].0 == k);
                }
                if has_item_key(xs, k) {
                    let w = choose|i: int| 0 <= i < xs.len() && (#[trigger] xs[i]).0 == k;
                    assert(xs1[w].0 == k);
                }
            }
            lemma_fresh_item_keys_congruent(xs1, xs, ys.drop_first());
            assert(fresh_item_keys(xs, ys) =~= seq![y0.0] + fresh_item_keys(
                xs,
                ys.drop_first(),
            ));
            assert(item_keys(xs).push(y0.0) + fresh_item_keys(xs, ys.drop_first())
                =~= item_keys(xs) + (seq![y0.0] + fresh_item_keys(xs, ys.drop_first())));
            assert(item_keys(merge_items_m(xs, ys)) =~= item_keys(xs) + fresh_item_keys(
                xs,
                ys,
            ));
        }
    }
}

} // verus!
