use vstd::prelude::*;
use crate::error::{
    ArrayErrors, ArrayModel, Error, Errors, ErrorsModel, ObjectErrors, ObjectModel,
    errors_model, items_model, props_model, lemma_errors_list_model_concat, lemma_items_model,
    lemma_items_model_push, lemma_props_model, lemma_props_model_push,
};

verus! {

broadcast use vstd::std_specs::vec::group_vec_axioms, vstd::seq::axiom_seq_index_decreases;

// ---------------------------------------------------------------------------
// The merge algorithm, on models
// ---------------------------------------------------------------------------

/// The index of the first entry with key `k`, or `-1` when no entry has it.
pub open spec fn item_key_index(s: Seq<(int, ErrorsModel)>, k: int) -> int
    decreases s,
{
    if s.len() == 0 {
        -1
    } else if s[0].0 == k {
        0
    } else if item_key_index(s.drop_first(), k) == -1 {
        -1
    } else {
        1 + item_key_index(s.drop_first(), k)
    }
}

/// The index of the first entry with key `k`, or `-1` when no entry has it.
pub open spec fn prop_key_index(s: Seq<(Seq<char>, ErrorsModel)>, k: Seq<char>) -> int
    decreases s,
{
    if s.len() == 0 {
        -1
    } else if s[0].0 == k {
        0
    } else if prop_key_index(s.drop_first(), k) == -1 {
        -1
    } else {
        1 + prop_key_index(s.drop_first(), k)
    }
}

/// Merging two reports for one value: the two error lists are concatenated
/// in order, and the children are joined by set-union on their key.  When
/// the two reports disagree about the value's shape (which a homogeneous
/// validation pass never produces), the left report's children are kept and
/// the right report contributes only its error list.
pub open spec fn merge_errors_m(a: ErrorsModel, b: ErrorsModel) -> ErrorsModel
    decreases b,
{
    match (a, b) {
        (ErrorsModel::Flat(x), ErrorsModel::Flat(y)) => ErrorsModel::Flat(x + y),
        (ErrorsModel::Flat(x), ErrorsModel::Object(o)) => ErrorsModel::Object(
            ObjectModel { errors: x + o.errors, properties: o.properties },
        ),
        (ErrorsModel::Flat(x), ErrorsModel::Array(r)) => ErrorsModel::Array(
            ArrayModel { errors: x + r.errors, items: r.items },
        ),
        (ErrorsModel::Object(o), ErrorsModel::Flat(y)) => ErrorsModel::Object(
            ObjectModel { errors: o.errors + y, properties: o.properties },
        ),
        (ErrorsModel::Object(o1), ErrorsModel::Object(o2)) => ErrorsModel::Object(
            merge_object_m(o1, o2),
        ),
        (ErrorsModel::Object(o), ErrorsModel::Array(r)) => ErrorsModel::Object(
            ObjectModel { errors: o.errors + r.errors, properties: o.properties },
        ),
        (ErrorsModel::Array(r), ErrorsModel::Flat(y)) => ErrorsModel::Array(
            ArrayModel { errors: r.errors + y, items: r.items },
        ),
        (ErrorsModel::Array(r), ErrorsModel::Object(o)) => ErrorsModel::Array(
            ArrayModel { errors: r.errors + o.errors, items: r.items },
        ),
        (ErrorsModel::Array(r1), ErrorsModel::Array(r2)) => ErrorsModel::Array(
            merge_array_m(r1, r2),
        ),
    }
}

pub open spec fn merge_array_m(a: ArrayModel, b: ArrayModel) -> ArrayModel
    decreases b,
{
    ArrayModel { errors: a.errors + b.errors, items: merge_items_m(a.items, b.items) }
}

pub open spec fn merge_object_m(a: ObjectModel, b: ObjectModel) -> ObjectModel
    decreases b,
{
    ObjectModel {
        errors: a.errors + b.errors,
        properties: merge_props_m(a.properties, b.properties),
    }
}

pub open spec fn merge_items_m(
    xs: Seq<(int, ErrorsModel)>,
    ys: Seq<(int, ErrorsModel)>,
) -> Seq<(int, ErrorsModel)>
    decreases ys,
{
    if ys.len() == 0 {
        xs
    } else {
        merge_items_m(insert_item_m(xs, ys[0]), ys.drop_first())
    }
}

pub open spec fn insert_item_m(
    xs: Seq<(int, ErrorsModel)>,
    y: (int, ErrorsModel),
) -> Seq<(int, ErrorsModel)>
    decreases y,
{
    let j = item_key_index(xs, y.0);
    if j == -1 {
        xs.push(y)
    } else {
        xs.update(j, (y.0, merge_errors_m(xs[j].1, y.1)))
    }
}

pub open spec fn merge_props_m(
    xs: Seq<(Seq<char>, ErrorsModel)>,
    ys: Seq<(Seq<char>, ErrorsModel)>,
) -> Seq<(Seq<char>, ErrorsModel)>
    decreases ys,
{
    if ys.len() == 0 {
        xs
    } else {
        merge_props_m(insert_prop_m(xs, ys[0]), ys.drop_first())
    }
}

pub open spec fn insert_prop_m(
    xs: Seq<(Seq<char>, ErrorsModel)>,
    y: (Seq<char>, ErrorsModel),
) -> Seq<(Seq<char>, ErrorsModel)>
    decreases y,
{
    let j = prop_key_index(xs, y.0);
    if j == -1 {
        xs.push(y)
    } else {
        xs.update(j, (y.0, merge_errors_m(xs[j].1, y.1)))
    }
}

// ---------------------------------------------------------------------------
// Characterization of the key search
// ---------------------------------------------------------------------------

pub proof fn lemma_item_key_index(s: Seq<(int, ErrorsModel)>, k: int)
    ensures
        item_key_index(s, k) == -1 ==> forall|i: int| 0 <= i < s.len() ==> (#[trigger] s[i]).0
            != k,
        item_key_index(s, k) != -1 ==> {
            let j = item_key_index(s, k);
            &&& 0 <= j < s.len()
            &&& s[j].0 == k
            &&& forall|i: int| 0 <= i < j ==> (#[trigger] s[i]).0 != k
        },
        (exists|i: int| 0 <= i < s.len() && (#[trigger] s[i]).0 == k) ==> item_key_index(s, k)
            != -1,
    decreases s.len(),
{
    if s.len() > 0 {
        lemma_item_key_index(s.drop_first(), k);
        if s[0].0 != k && item_key_index(s.drop_first(), k) != -1 {
            let jd = item_key_index(s.drop_first(), k);
            assert(s[1 + jd] == s.drop_first()[jd]);
            assert forall|i: int| 0 <= i < 1 + jd implies (#[trigger] s[i]).0 != k by {
                if i > 0 {
                    assert(s.drop_first()[i - 1] == s[i]);
                }
            }
        }
        if s[0].0 != k {
            assert forall|i: int| 0 <= i < s.len() && (#[trigger] s[i]).0 == k implies exists|
                i2: int,
            | 0 <= i2 < s.drop_first().len() && (#[trigger] s.drop_first()[i2]).0 == k by {
                assert(s.drop_first()[i - 1] == s[i]);
            }
        }
    }
}

pub proof fn lemma_prop_key_index(s: Seq<(Seq<char>, ErrorsModel)>, k: Seq<char>)
    ensures
        prop_key_index(s, k) == -1 ==> forall|i: int| 0 <= i < s.len() ==> (#[trigger] s[i]).0
            != k,
        prop_key_index(s, k) != -1 ==> {
            let j = prop_key_index(s, k);
            &&& 0 <= j < s.len()
            &&& s[j].0 == k
            &&& forall|i: int| 0 <= i < j ==> (#[trigger] s[i]).0 != k
        },
        (exists|i: int| 0 <= i < s.len() && (#[trigger] s[i]).0 == k) ==> prop_key_index(s, k)
            != -1,
    decreases s.len(),
{
    if s.len() > 0 {
        lemma_prop_key_index(s.drop_first(), k);
        if s[0].0 != k && prop_key_index(s.drop_first(), k) != -1 {
            let jd = prop_key_index(s.drop_first(), k);
            assert(s[1 + jd] == s.drop_first()[jd]);
            assert forall|i: int| 0 <= i < 1 + jd implies (#[trigger] s[i]).0 != k by {
                if i > 0 {
                    assert(s.drop_first()[i - 1] == s[i]);
                }
            }
        }
        if s[0].0 != k {
            assert forall|i: int| 0 <= i < s.len() && (#[trigger] s[i]).0 == k implies exists|
                i2: int,
            | 0 <= i2 < s.drop_first().len() && (#[trigger] s.drop_first()[i2]).0 == k by {
                assert(s.drop_first()[i - 1] == s[i]);
            }
        }
    }
}

// ---------------------------------------------------------------------------
// Executable merge
// ---------------------------------------------------------------------------

/// Finds the first entry whose key equals `k`.
fn find_item_key(xs: &Vec<(usize, Errors)>, k: usize) -> (r: Option<usize>)
    ensures
        match r {
            Some(j) => j < xs@.len() && xs@[j as int].0 == k && forall|i: int|
                0 <= i < j ==> (#[trigger] xs@[i]).0 != k,
            None => forall|i: int| 0 <= i < xs@.len() ==> (#[trigger] xs@[i]).0 != k,
        },
{
    let n = xs.len();
    let mut j: usize = 0;
    while j < n
        invariant
            j <= n,
            n == xs@.len(),
            forall|i: int| 0 <= i < j ==> (#[trigger] xs@[i]).0 != k,
        decreases n - j,
    {
        if xs[j].0 == k {
            return Some(j);
        }
        j = j + 1;
    }
    None
}

/// Finds the first entry whose key equals `k`.
fn find_prop_key(xs: &Vec<(String, Errors)>, k: &String) -> (r: Option<usize>)
    ensures
        match r {
            Some(j) => j < xs@.len() && xs@[j as int].0@ == k@ && forall|i: int|
                0 <= i < j ==> (#[trigger] xs@[i]).0@ != k@,
            None => forall|i: int| 0 <= i < xs@.len() ==> (#[trigger] xs@[i]).0@ != k@,
        },
{
    let n = xs.len();
    let mut j: usize = 0;
    while j < n
        invariant
            j <= n,
            n == xs@.len(),
            forall|i: int| 0 <= i < j ==> (#[trigger] xs@[i]).0@ != k@,
        decreases n - j,
    {
        if xs[j].0.eq(k) {
            return Some(j);
        }
        j = j + 1;
    }
    None
}

impl Errors {
    /// Merges two reports for the same value (see `merge_errors_m`).
    pub fn merge(self, other: Errors) -> (r: Errors)
        ensures
            r@ == merge_errors_m(self@, other@),
        decreases other,
    {
        match (self, other) {
            (Errors::NewType(mut x), Errors::NewType(mut y)) => {
                proof {
                    lemma_errors_list_model_concat(x@, y@);
                }
                x.append(&mut y);
                Errors::NewType(x)
            },
            (Errors::NewType(mut x), Errors::Object(o)) => {
                let ObjectErrors { errors: mut oe, properties } = o;
                proof {
                    lemma_errors_list_model_concat(x@, oe@);
                }
                x.append(&mut oe);
                Errors::Object(ObjectErrors { errors: x, properties })
            },
            (Errors::NewType(mut x), Errors::Array(a)) => {
                let ArrayErrors { errors: mut ae, items } = a;
                proof {
                    lemma_errors_list_model_concat(x@, ae@);
                }
                x.append(&mut ae);
                Errors::Array(ArrayErrors { errors: x, items })
            },
            (Errors::Object(o), Errors::NewType(mut y)) => {
                let ObjectErrors { errors: mut oe, properties } = o;
                proof {
                    lemma_errors_list_model_concat(oe@, y@);
                }
                oe.append(&mut y);
                Errors::Object(ObjectErrors { errors: oe, properties })
            },
            (Errors::Object(o1), Errors::Object(o2)) => Errors::Object(o1.merge(o2)),
            (Errors::Object(o), Errors::Array(a)) => {
                let ObjectErrors { errors: mut oe, properties } = o;
                let ArrayErrors { errors: mut ae, items: _items } = a;
                proof {
                    lemma_errors_list_model_concat(oe@, ae@);
                }
                oe.append(&mut ae);
                Errors::Object(ObjectErrors { errors: oe, properties })
            },
            (Errors::Array(a), Errors::NewType(mut y)) => {
                let ArrayErrors { errors: mut ae, items } = a;
                proof {
                    lemma_errors_list_model_concat(ae@, y@);
                }
                ae.append(&mut y);
                Errors::Array(ArrayErrors { errors: ae, items })
            },
            (Errors::Array(a), Errors::Object(o)) => {
                let ArrayErrors { errors: mut ae, items } = a;
                let ObjectErrors { errors: mut oe, properties: _props } = o;
                proof {
                    lemma_errors_list_model_concat(ae@, oe@);
                }
                ae.append(&mut oe);
                Errors::Array(ArrayErrors { errors: ae, items })
            },
            (Errors::Array(a1), Errors::Array(a2)) => Errors::Array(a1.merge(a2)),
        }
    }
}

impl ObjectErrors {
    /// Merges two object-shaped reports: error lists concatenate, property
    /// sub-trees join by key.
    pub fn merge(self, other: ObjectErrors) -> (r: ObjectErrors)
        ensures
            r@ == merge_object_m(self@, other@),
        decreases other,
    {
        let ObjectErrors { errors: mut xe, properties: xp } = self;
        let ObjectErrors { errors: mut ye, properties: yp } = other;
        proof {
            lemma_errors_list_model_concat(xe@, ye@);
        }
        xe.append(&mut ye);
        let props = merge_props_vec(xp, yp);
        ObjectErrors { errors: xe, properties: props }
    }
}

impl ArrayErrors {
    /// Merges two array-shaped reports: error lists concatenate, item
    /// sub-trees join by index.
    pub fn merge(self, other: ArrayErrors) -> (r: ArrayErrors)
        ensures
            r@ == merge_array_m(self@, other@),
        decreases other,
    {
        let ArrayErrors { errors: mut xe, items: xi } = self;
        let ArrayErrors { errors: mut ye, items: yi } = other;
        proof {
            lemma_errors_list_model_concat(xe@, ye@);
        }
        xe.append(&mut ye);
        let items = merge_items_vec(xi, yi);
        ArrayErrors { errors: xe, items }
    }
}

fn merge_items_vec(xs: Vec<(usize, Errors)>, mut ys: Vec<(usize, Errors)>) -> (r: Vec<
    (usize, Errors),
>)
    ensures
        items_model(r@) == merge_items_m(items_model(xs@), items_model(ys@)),
    decreases ys@,
{
    if ys.len() == 0 {
        xs
    } else {
        let ghost entry_ys = ys@;
        let y = ys.remove(0);
        proof {
            assert(ys@ =~= entry_ys.drop_first());
            assert(items_model(entry_ys) == seq![(entry_ys[0].0 as int, errors_model(
                entry_ys[0].1,
            ))] + items_model(entry_ys.drop_first()));
            assert(items_model(entry_ys)[0] == (y.0 as int, errors_model(y.1)));
            assert(items_model(entry_ys).drop_first() =~= items_model(entry_ys.drop_first()));
            assert forall|i2: int|
                0 <= i2 < ys@.len() && #[trigger] vstd::pervasive::trigger(
                    ys@[i2],
                ) implies exists|i1: int| 0 <= i1 < entry_ys.len() && entry_ys[i1] == ys@[i2] by {
                assert(entry_ys[i2 + 1] == ys@[i2]);
            }
            vstd::seq::axiom_seq_len_decreases(entry_ys, ys@);
        }
        let xs2 = insert_item_vec(xs, y);
        merge_items_vec(xs2, ys)
    }
}

fn insert_item_vec(mut xs: Vec<(usize, Errors)>, y: (usize, Errors)) -> (r: Vec<(usize, Errors)>)
    ensures
        items_model(r@) == insert_item_m(items_model(xs@), (y.0 as int, errors_model(y.1))),
    decreases y,
{
    let ghost xsm = items_model(xs@);
    let ghost ym = (y.0 as int, errors_model(y.1));
    proof {
        lemma_items_model(xs@);
        lemma_item_key_index(xsm, ym.0);
    }
    match find_item_key(&xs, y.0) {
        None => {
            proof {
                if item_key_index(xsm, ym.0) != -1 {
                    let j = item_key_index(xsm, ym.0);
                    assert(xsm[j].0 == ym.0);
                    assert(xs@[j].0 as int == ym.0);
                }
                lemma_items_model_push(xs@, y);
            }
            xs.push(y);
            xs
        },
        Some(j) => {
            let ghost orig = xs@;
            proof {
                // the executable first occurrence is the model's first occurrence
                assert(xsm[j as int].0 == ym.0);
                let jm = item_key_index(xsm, ym.0);
                assert(jm != -1);
                assert(xs@[jm].0 as int == ym.0);
                assert(jm == j as int);
            }
            let (k2, t_old) = xs.remove(j);
            let (ky, ty) = y;
            let merged = t_old.merge(ty);
            xs.insert(j, (k2, merged));
            proof {
                let upd = xsm.update(j as int, (ym.0, merge_errors_m(xsm[j as int].1, ym.1)));
                assert(xs@ =~= orig.update(j as int, (k2, merged)));
                lemma_items_model(xs@);
                assert forall|i: int| 0 <= i < xs@.len() implies #[trigger] items_model(
                    xs@,
                )[i] == upd[i] by {
                    if i != j as int {
                        assert(xs@[i] == orig[i]);
                    }
                }
                assert(items_model(xs@) =~= upd);
            }
            xs
        },
    }
}

fn merge_props_vec(xs: Vec<(String, Errors)>, mut ys: Vec<(String, Errors)>) -> (r: Vec<
    (String, Errors),
>)
    ensures
        props_model(r@) == merge_props_m(props_model(xs@), props_model(ys@)),
    decreases ys@,
{
    if ys.len() == 0 {
        xs
    } else {
        let ghost entry_ys = ys@;
        let y = ys.remove(0);
        proof {
            assert(ys@ =~= entry_ys.drop_first());
            assert(props_model(entry_ys) == seq![(entry_ys[0].0@, errors_model(entry_ys[0].1))]
                + props_model(entry_ys.drop_first()));
            assert(props_model(entry_ys)[0] == (y.0@, errors_model(y.1)));
            assert(props_model(entry_ys).drop_first() =~= props_model(entry_ys.drop_first()));
            assert forall|i2: int|
                0 <= i2 < ys@.len() && #[trigger] vstd::pervasive::trigger(
                    ys@[i2],
                ) implies exists|i1: int| 0 <= i1 < entry_ys.len() && entry_ys[i1] == ys@[i2] by {
                assert(entry_ys[i2 + 1] == ys@[i2]);
            }
            vstd::seq::axiom_seq_len_decreases(entry_ys, ys@);
        }
        let xs2 = insert_prop_vec(xs, y);
        merge_props_vec(xs2, ys)
    }
}

fn insert_prop_vec(mut xs: Vec<(String, Errors)>, y: (String, Errors)) -> (r: Vec<
    (String, Errors),
>)
    ensures
        props_model(r@) == insert_prop_m(props_model(xs@), (y.0@, errors_model(y.1))),
    decreases y,
{
    let ghost xsm = props_model(xs@);
    let ghost ym = (y.0@, errors_model(y.1));
    proof {
        lemma_props_model(xs@);
        lemma_prop_key_index(xsm, ym.0);
    }
    match find_prop_key(&xs, &y.0) {
        None => {
            proof {
                if prop_key_index(xsm, ym.0) != -1 {
                    let j = prop_key_index(xsm, ym.0);
                    assert(xsm[j].0 == ym.0);
                    assert(xs@[j].0@ == ym.0);
                }
                lemma_props_model_push(xs@, y);
            }
            xs.push(y);
            xs
        },
        Some(j) => {
            let ghost orig = xs@;
            proof {
                assert(xsm[j as int].0 == ym.0);
                let jm = prop_key_index(xsm, ym.0);
                assert(jm != -1);
                assert(xs@[jm].0@ == ym.0);
                assert(jm == j as int);
            }
            let (k2, t_old) = xs.remove(j);
            let (ky, ty) = y;
            let merged = t_old.merge(ty);
            xs.insert(j, (k2, merged));
            proof {
                let upd = xsm.update(j as int, (ym.0, merge_errors_m(xsm[j as int].1, ym.1)));
                assert(xs@ =~= orig.update(j as int, (k2, merged)));
                lemma_props_model(xs@);
                assert forall|i: int| 0 <= i < xs@.len() implies #[trigger] props_model(
                    xs@,
                )[i] == upd[i] by {
                    if i != j as int {
                        assert(xs@[i] == orig[i]);
                    }
                }
                assert(props_model(xs@) =~= upd);
            }
            xs
        },
    }
}

} // verus!
