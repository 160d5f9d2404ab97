//! Schema inference.
//!
//! Discovery starts from the root value's object set and walks depth-first
//! through object-valued fields and lists of objects, recording one named
//! schema per field name.  The set of sample objects is threaded down a call
//! at a time: the set handed to a child field is exactly what a re-walk of
//! the root along the child's path would collect, so the same path matching
//! many structurally similar objects unions all their fields.  Children are
//! processed in field order (a deterministic alternative to a work-list), and
//! a schema recorded later under an existing name overwrites the earlier one
//! in place.

use crate::model::{
    assoc_append, assoc_get, assoc_upsert, height, lemma_assoc_append_absent,
    lemma_assoc_append_found, lemma_max_height_bound, lemma_member_get_height, max_height,
    max_member_height, ValueModel,
};
use crate::schema::{
    fields_model, table_model, table_upsert, type_model, BaseType, BaseTypeModel, FieldType, Schema,
    SchemaField, SchemaTable, TypeModel,
};
use crate::text::str_to_chars;
use crate::value::{
    clone_value, lemma_list_model_props, lemma_members_model_props, list_model, members_get,
    members_model, value_model, Value,
};
use vstd::prelude::*;
use vstd::string::*;

verus! {

/// The object set the root value seeds discovery with: the list itself for a
/// list, a singleton for an object, nothing for a scalar.
pub open spec fn spec_root_objects(v: ValueModel) -> Seq<ValueModel> {
    match v {
        ValueModel::List(items) => items,
        ValueModel::Object(_) => seq![v],
        _ => Seq::empty(),
    }
}

/// What one sample object contributes to the object set of field `f`: the
/// field's value if it is an object, all its elements if it is a list.
pub open spec fn child_step_one(o: ValueModel, f: Seq<char>) -> Seq<ValueModel> {
    match o {
        ValueModel::Object(ms) => match assoc_get(ms, f) {
            Some(c) => match c {
                ValueModel::Object(_) => seq![c],
                ValueModel::List(items) => items,
                _ => Seq::empty(),
            },
            None => Seq::empty(),
        },
        _ => Seq::empty(),
    }
}

/// Object set of field `f` one level below the first `n` sample objects.
pub open spec fn child_run(objects: Seq<ValueModel>, n: int, f: Seq<char>) -> Seq<ValueModel>
    decreases n,
{
    if n <= 0 {
        Seq::empty()
    } else {
        child_run(objects, n - 1, f) + child_step_one(objects[n - 1], f)
    }
}

pub open spec fn spec_child_objects(objects: Seq<ValueModel>, f: Seq<char>) -> Seq<ValueModel> {
    child_run(objects, objects.len() as int, f)
}

proof fn lemma_max_height_concat(a: Seq<ValueModel>, b: Seq<ValueModel>)
    ensures
        max_height(a + b) == (if max_height(a) > max_height(b) {
            max_height(a)
        } else {
            max_height(b)
        }),
    decreases a.len(),
{
    if a.len() == 0 {
        assert(a + b =~= b);
    } else {
        let rest = a.subrange(1, a.len() as int);
        lemma_max_height_concat(rest, b);
        assert((a + b)[0] == a[0]);
        assert((a + b).subrange(1, (a + b).len() as int) =~= rest + b);
    }
}

proof fn lemma_height_pos(v: ValueModel)
    ensures
        height(v) >= 1,
{
    match v {
        ValueModel::List(_) => {},
        ValueModel::Object(_) => {},
        _ => {},
    }
}

proof fn lemma_child_step_height(o: ValueModel, f: Seq<char>)
    ensures
        max_height(child_step_one(o, f)) < height(o),
{
    lemma_height_pos(o);
    match o {
        ValueModel::Object(ms) => {
            lemma_member_get_height(ms, f);
            match assoc_get(ms, f) {
                Some(c) => {
                    match c {
                        ValueModel::Object(_) => {
                            assert(max_height(seq![c]) == height(c)) by {
                                lemma_height_pos(c);
                                assert(seq![c].subrange(1, 1) =~= Seq::<ValueModel>::empty());
                                assert(max_height(Seq::<ValueModel>::empty()) == 0);
                            }
                        },
                        ValueModel::List(items) => {
                            assert(height(c) == 1 + max_height(items));
                        },
                        _ => {},
                    }
                },
                None => {},
            }
        },
        _ => {},
    }
}

/// The object set one field down is strictly lower than its parents'.
proof fn lemma_child_run_height(objects: Seq<ValueModel>, n: int, f: Seq<char>)
    requires
        0 <= n <= objects.len(),
    ensures
        objects.len() > 0 ==> max_height(child_run(objects, n, f)) < max_height(objects),
        objects.len() == 0 ==> max_height(child_run(objects, n, f)) == 0,
    decreases n,
{
    if n <= 0 {
        if objects.len() > 0 {
            lemma_max_height_bound(objects, 0);
            lemma_height_pos(objects[0]);
        }
    } else {
        lemma_child_run_height(objects, n - 1, f);
        lemma_child_step_height(objects[n - 1], f);
        lemma_max_height_bound(objects, n - 1);
        lemma_max_height_concat(child_run(objects, n - 1, f), child_step_one(objects[n - 1], f));
    }
}

/// Adds the first `k` members of one sample object to the field observations.
pub open spec fn add_members(
    acc: Seq<(Seq<char>, Seq<ValueModel>)>,
    ms: Seq<(Seq<char>, ValueModel)>,
    k: int,
) -> Seq<(Seq<char>, Seq<ValueModel>)>
    decreases k,
{
    if k <= 0 {
        acc
    } else {
        assoc_append(add_members(acc, ms, k - 1), ms[k - 1].0, ms[k - 1].1)
    }
}

pub open spec fn add_object(
    acc: Seq<(Seq<char>, Seq<ValueModel>)>,
    o: ValueModel,
) -> Seq<(Seq<char>, Seq<ValueModel>)> {
    match o {
        ValueModel::Object(ms) => add_members(acc, ms, ms.len() as int),
        _ => acc,
    }
}

/// Field names in first-observed order, each with every value observed for
/// it across the first `n` sample objects.
pub open spec fn collect_fields(objects: Seq<ValueModel>, n: int) -> Seq<(
    Seq<char>,
    Seq<ValueModel>,
)>
    decreases n,
{
    if n <= 0 {
        Seq::empty()
    } else {
        add_object(collect_fields(objects, n - 1), objects[n - 1])
    }
}

pub open spec fn has_object(values: Seq<ValueModel>) -> bool {
    exists|i: int| 0 <= i < values.len() && values[i] is Object
}

pub open spec fn list_has_object(v: ValueModel) -> bool {
    match v {
        ValueModel::List(items) => has_object(items),
        _ => false,
    }
}

pub open spec fn has_list_with_object(values: Seq<ValueModel>) -> bool {
    exists|i: int| 0 <= i < values.len() && list_has_object(values[i])
}

pub open spec fn has_list(values: Seq<ValueModel>) -> bool {
    exists|i: int| 0 <= i < values.len() && values[i] is List
}

/// A field gets a schema of its own when some observed value is an object,
/// or some observed list holds one.
pub open spec fn field_needs_schema(values: Seq<ValueModel>) -> bool {
    has_object(values) || has_list_with_object(values)
}

/// Primitive kind of the first non-null observed value; `null` if none.
pub open spec fn scan_prim(values: Seq<ValueModel>) -> TypeModel
    decreases values.len(),
{
    if values.len() == 0 {
        TypeModel { base: BaseTypeModel::Ref("null"@), list_depth: 0 }
    } else {
        match values[0] {
            ValueModel::Null => scan_prim(values.subrange(1, values.len() as int)),
            ValueModel::Bool(_) => TypeModel { base: BaseTypeModel::Boolean, list_depth: 0 },
            ValueModel::Int(_) => TypeModel { base: BaseTypeModel::Number, list_depth: 0 },
            ValueModel::Text(_) => TypeModel { base: BaseTypeModel::Text, list_depth: 0 },
            ValueModel::List(_) => TypeModel { base: BaseTypeModel::Ref("array"@), list_depth: 0 },
            ValueModel::Object(_) => TypeModel {
                base: BaseTypeModel::Ref("object"@),
                list_depth: 0,
            },
        }
    }
}

/// Type inferred for a field from its observed values.
pub open spec fn spec_infer_field_type(fname: Seq<char>, values: Seq<ValueModel>) -> TypeModel {
    if has_object(values) {
        TypeModel { base: BaseTypeModel::Ref(fname), list_depth: 0 }
    } else if has_list_with_object(values) {
        TypeModel { base: BaseTypeModel::Ref(fname), list_depth: 1 }
    } else if has_list(values) {
        TypeModel { base: BaseTypeModel::Text, list_depth: 1 }
    } else {
        scan_prim(values)
    }
}

/// The fields a sample object set yields, names in first-observed order.
pub open spec fn inferred_fields(objects: Seq<ValueModel>) -> Seq<(Seq<char>, TypeModel)> {
    let fu = collect_fields(objects, objects.len() as int);
    Seq::new(fu.len(), |i: int| (fu[i].0, spec_infer_field_type(fu[i].0, fu[i].1)))
}

/// Records the schema of one object set, then walks its subschema fields in
/// order.  An empty object set records nothing.
pub open spec fn spec_build_schema(
    name: Seq<char>,
    objects: Seq<ValueModel>,
    table: Seq<(Seq<char>, Seq<(Seq<char>, TypeModel)>)>,
) -> Seq<(Seq<char>, Seq<(Seq<char>, TypeModel)>)>
    decreases max_height(objects), 1nat, 0nat,
{
    if objects.len() == 0 {
        table
    } else {
        let fu = collect_fields(objects, objects.len() as int);
        let table1 = assoc_upsert(table, name, inferred_fields(objects));
        spec_build_fields(fu, objects, table1)
    }
}

pub open spec fn spec_build_fields(
    pending: Seq<(Seq<char>, Seq<ValueModel>)>,
    objects: Seq<ValueModel>,
    table: Seq<(Seq<char>, Seq<(Seq<char>, TypeModel)>)>,
) -> Seq<(Seq<char>, Seq<(Seq<char>, TypeModel)>)>
    decreases max_height(objects), 0nat, pending.len(),
    when objects.len() > 0
    via spec_build_fields_dec
{
    if pending.len() == 0 {
        table
    } else {
        let fname = pending[0].0;
        let table1 = if field_needs_schema(pending[0].1) {
            spec_build_schema(fname, spec_child_objects(objects, fname), table)
        } else {
            table
        };
        spec_build_fields(pending.subrange(1, pending.len() as int), objects, table1)
    }
}

#[via_fn]
proof fn spec_build_fields_dec(
    pending: Seq<(Seq<char>, Seq<ValueModel>)>,
    objects: Seq<ValueModel>,
    table: Seq<(Seq<char>, Seq<(Seq<char>, TypeModel)>)>,
) {
    if pending.len() > 0 {
        lemma_child_run_height(objects, objects.len() as int, pending[0].0);
    }
}

/// The schema table inferred from a root value and a root schema name.
pub open spec fn spec_build(v: ValueModel, root: Seq<char>) -> Seq<(
    Seq<char>,
    Seq<(Seq<char>, TypeModel)>,
)> {
    spec_build_schema(root, spec_root_objects(v), Seq::empty())
}

/// What a re-walk of `v` along `path` collects: every object (or element of
/// a list) reachable through that sequence of field names, lists expanding
/// transparently at each step.
pub open spec fn spec_collect_path(v: ValueModel, path: Seq<Seq<char>>) -> Seq<ValueModel>
    decreases height(v), 1nat, 0nat,
    via spec_collect_path_dec
{
    if path.len() == 0 {
        spec_root_objects(v)
    } else {
        match v {
            ValueModel::Object(ms) => match assoc_get(ms, path[0]) {
                Some(c) => spec_collect_path(c, path.subrange(1, path.len() as int)),
                None => Seq::empty(),
            },
            ValueModel::List(items) => spec_collect_path_items(items, path, items.len() as int),
            _ => Seq::empty(),
        }
    }
}

pub open spec fn spec_collect_path_items(
    items: Seq<ValueModel>,
    path: Seq<Seq<char>>,
    n: int,
) -> Seq<ValueModel>
    decreases max_height(items), 0nat, n,
    when path.len() > 0 && 0 <= n <= items.len()
    via spec_collect_path_items_dec
{
    if n <= 0 {
        Seq::empty()
    } else {
        let here = match items[n - 1] {
            ValueModel::Object(ms) => match assoc_get(ms, path[0]) {
                Some(c) => spec_collect_path(c, path.subrange(1, path.len() as int)),
                None => Seq::empty(),
            },
            _ => Seq::empty(),
        };
        spec_collect_path_items(items, path, n - 1) + here
    }
}

#[via_fn]
proof fn spec_collect_path_dec(v: ValueModel, path: Seq<Seq<char>>) {
    match v {
        ValueModel::Object(ms) => {
            lemma_member_get_height(ms, if path.len() > 0 {
                path[0]
            } else {
                ""@
            });
        },
        ValueModel::List(items) => {
            assert(height(v) == 1 + max_height(items));
        },
        _ => {},
    }
}

#[via_fn]
proof fn spec_collect_path_items_dec(items: Seq<ValueModel>, path: Seq<Seq<char>>, n: int) {
    if 0 < n <= items.len() {
        lemma_max_height_bound(items, n - 1);
        match items[n - 1] {
            ValueModel::Object(ms) => {
                lemma_member_get_height(ms, path[0]);
                lemma_height_pos(items[n - 1]);
            },
            _ => {},
        }
    }
}

/// Collects every object reachable from `root` along `path`, recursing
/// through lists transparently.
pub fn collect_objects_from_path(root: &Value, path: &[String]) -> (r: Vec<Value>)
    ensures
        list_model(r@) == spec_collect_path(value_model(*root), crate::text::strs_of(path@)),
    decreases height(value_model(*root)), 1nat,
{
    broadcast use lemma_list_model_props;

    if path.len() == 0 {
        return root_objects(root);
    }
    let key = &path[0];
    let rest = vstd::slice::slice_subrange(path, 1, path.len());
    proof {
        assert(crate::text::strs_of(rest@) =~= crate::text::strs_of(path@).subrange(
            1,
            path@.len() as int,
        ));
    }
    match root {
        Value::Object(ms) => {
            match members_get(ms, key) {
                Some(child) => {
                    proof {
                        lemma_member_get_height(members_model(ms@), key@);
                        assert(height(value_model(*child)) < height(value_model(*root)));
                    }
                    collect_objects_from_path(child, rest)
                },
                None => {
                    let r: Vec<Value> = Vec::new();
                    proof {
                        assert(list_model(r@) =~= Seq::<ValueModel>::empty());
                    }
                    r
                },
            }
        },
        Value::List(items) => {
            let ghost pm = crate::text::strs_of(path@);
            let mut out: Vec<Value> = Vec::new();
            let n: usize = items.len();
            let mut i: usize = 0;
            proof {
                assert(list_model(out@) =~= spec_collect_path_items(list_model(items@), pm, 0));
            }
            while i < n
                invariant
                    value_model(*root) == ValueModel::List(list_model(items@)),
                    pm == crate::text::strs_of(path@),
                    pm.len() > 0,
                    key@ == pm[0],
                    crate::text::strs_of(rest@) == pm.subrange(1, pm.len() as int),
                    n == items@.len(),
                    i <= n,
                    list_model(out@) == spec_collect_path_items(list_model(items@), pm, i as int),
                decreases n - i,
            {
                let ghost im = list_model(items@);
                proof {
                    broadcast use lemma_list_model_props;

                    assert(im.len() == items@.len());
                    lemma_max_height_bound(im, i as int);
                    lemma_height_pos(im[i as int]);
                }
                match &items[i] {
                    Value::Object(ms) => {
                        match members_get(ms, key) {
                            Some(child) => {
                                proof {
                                    broadcast use lemma_list_model_props;

                                    lemma_member_get_height(members_model(ms@), key@);
                                    assert(value_model(items@[i as int]) == ValueModel::Object(
                                        members_model(ms@),
                                    ));
                                    lemma_max_height_bound(im, i as int);
                                    assert(height(value_model(*child)) <= max_member_height(
                                        members_model(ms@),
                                    ));
                                    assert(height(value_model(*child)) < height(
                                        value_model(*root),
                                    ));
                                }
                                let mut sub = collect_objects_from_path(child, rest);
                                let ghost subm = list_model(sub@);
                                let k: usize = sub.len();
                                let mut j: usize = 0;
                                while j < k
                                    invariant
                                        pm.len() > 0,
                                        k == sub@.len(),
                                        j <= k,
                                        subm == list_model(sub@),
                                        list_model(out@) == spec_collect_path_items(
                                            im,
                                            pm,
                                            i as int,
                                        ) + subm.subrange(0, j as int),
                                        im == list_model(items@),
                                        pm == crate::text::strs_of(path@),
                                    decreases k - j,
                                {
                                    proof {
                                        broadcast use lemma_list_model_props;

                                    }
                                    let ghost ob = list_model(out@);
                                    let c = clone_value(&sub[j]);
                                    out.push(c);
                                    proof {
                                        broadcast use lemma_list_model_props;

                                        assert(list_model(out@) =~= ob.push(value_model(
                                            sub@[j as int],
                                        )));
                                        assert(subm[j as int] == value_model(sub@[j as int]));
                                        assert(subm.subrange(0, j + 1) =~= subm.subrange(
                                            0,
                                            j as int,
                                        ).push(subm[j as int]));
                                        assert(list_model(out@) =~= spec_collect_path_items(
                                            im,
                                            pm,
                                            i as int,
                                        ) + subm.subrange(0, j + 1));
                                    }
                                    j = j + 1;
                                }
                                proof {
                                    broadcast use lemma_list_model_props;

                                    assert(subm.subrange(0, subm.len() as int) =~= subm);
                                    assert(value_model(items@[i as int]) == ValueModel::Object(
                                        members_model(ms@),
                                    ));
                                    assert(im[i as int] == value_model(items@[i as int]));
                                    assert(subm == spec_collect_path(
                                        value_model(*child),
                                        pm.subrange(1, pm.len() as int),
                                    ));
                                    assert(list_model(out@) =~= spec_collect_path_items(
                                        im,
                                        pm,
                                        i + 1,
                                    ));
                                }
                            },
                            None => {
                                proof {
                                    broadcast use lemma_list_model_props;

                                    assert(value_model(items@[i as int]) == ValueModel::Object(
                                        members_model(ms@),
                                    ));
                                    assert(list_model(out@) =~= spec_collect_path_items(
                                        im,
                                        pm,
                                        i + 1,
                                    ));
                                }
                            },
                        }
                    },
                    _ => {
                        proof {
                            broadcast use lemma_list_model_props;

                            assert(!(im[i as int] is Object));
                            assert(list_model(out@) =~= spec_collect_path_items(im, pm, i + 1));
                        }
                    },
                }
                i = i + 1;
            }
            proof {
                assert(list_model(out@) == spec_collect_path(value_model(*root), pm));
            }
            out
        },
        _ => {
            let r: Vec<Value> = Vec::new();
            proof {
                assert(list_model(r@) =~= Seq::<ValueModel>::empty());
            }
            r
        },
    }
}

/// The object set the root value seeds discovery with.
fn root_objects(v: &Value) -> (r: Vec<Value>)
    ensures
        list_model(r@) == spec_root_objects(value_model(*v)),
{
    broadcast use lemma_list_model_props;

    match v {
        Value::List(items) => {
            let mut out: Vec<Value> = Vec::new();
            let n: usize = items.len();
            let mut i: usize = 0;
            while i < n
                invariant
                    n == items@.len(),
                    i <= n,
                    out@.len() == i,
                    forall|j: int|
                        0 <= j < i ==> value_model(out@[j]) == value_model(items@[j]),
                decreases n - i,
            {
                let c = clone_value(&items[i]);
                out.push(c);
                i = i + 1;
            }
            proof {
                assert(list_model(out@) =~= list_model(items@));
            }
            out
        },
        Value::Object(_) => {
            let mut out: Vec<Value> = Vec::new();
            out.push(clone_value(v));
            proof {
                assert(list_model(out@) =~= seq![value_model(*v)]);
            }
            out
        },
        _ => {
            let out: Vec<Value> = Vec::new();
            proof {
                assert(list_model(out@) =~= Seq::<ValueModel>::empty());
            }
            out
        },
    }
}

/// One field's observations: its name and every value seen for it.
pub struct FieldObs {
    pub name: String,
    pub values: Vec<Value>,
}

pub open spec fn obs_model(s: Seq<FieldObs>) -> Seq<(Seq<char>, Seq<ValueModel>)>
    decreases s,
{
    if s.len() == 0 {
        Seq::empty()
    } else {
        seq![(s[0].name@, list_model(s[0].values@))] + obs_model(s.subrange(1, s.len() as int))
    }
}

pub broadcast proof fn lemma_obs_model_props(s: Seq<FieldObs>)
    ensures
        (#[trigger] obs_model(s)).len() == s.len(),
        forall|i: int|
            0 <= i < s.len() ==> obs_model(s)[i] == (s[i].name@, list_model(s[i].values@)),
    decreases s.len(),
{
    if s.len() != 0 {
        let rest = s.subrange(1, s.len() as int);
        lemma_obs_model_props(rest);
        assert forall|i: int|
            0 <= i < s.len() implies obs_model(s)[i] == (
            s[i].name@,
            list_model(s[i].values@),
        ) by {
            if i > 0 {
                assert(obs_model(s)[i] == obs_model(rest)[i - 1]);
                assert(rest[i - 1] == s[i]);
            }
        }
    }
}

/// Appends one observed value under `name`.
fn obs_append(acc: &mut Vec<FieldObs>, name: &String, v: &Value)
    ensures
        obs_model(final(acc)@) == assoc_append(obs_model(old(acc)@), name@, value_model(*v)),
{
    broadcast use lemma_obs_model_props;

    let ghost m0 = obs_model(old(acc)@);
    let ghost key = name@;
    let n: usize = acc.len();
    let mut idx: usize = n;
    let mut i: usize = 0;
    while i < n
        invariant
            acc@ == old(acc)@,
            key == name@,
            n == acc@.len(),
            i <= n,
            idx == n || (idx < i && obs_model(acc@)[idx as int].0 == key),
            forall|j: int| 0 <= j < i && j < idx ==> (#[trigger] obs_model(acc@)[j]).0 != key,
        decreases n - i,
    {
        proof {
            broadcast use lemma_obs_model_props;

        }
        if idx == n && acc[i].name == *name {
            idx = i;
        }
        i = i + 1;
    }
    let c = clone_value(v);
    if idx < n {
        let mut entry = acc.remove(idx);
        let ghost vs0 = list_model(entry.values@);
        entry.values.push(c);
        proof {
            broadcast use lemma_list_model_props;

            assert(list_model(entry.values@) =~= vs0.push(value_model(*v)));
        }
        acc.insert(idx, entry);
        proof {
            broadcast use lemma_obs_model_props;

            lemma_assoc_append_found(m0, key, value_model(*v), idx as int);
            assert(obs_model(acc@) =~= m0.update(idx as int, (m0[idx as int].0, m0[idx as int].1.push(value_model(*v)))));
        }
    } else {
        let mut vs: Vec<Value> = Vec::new();
        vs.push(c);
        proof {
            broadcast use lemma_list_model_props;

            assert(list_model(vs@) =~= seq![value_model(*v)]);
        }
        acc.push(FieldObs { name: name.clone(), values: vs });
        proof {
            broadcast use lemma_obs_model_props;

            lemma_assoc_append_absent(m0, key, value_model(*v));
            assert(obs_model(acc@) =~= m0.push((key, seq![value_model(*v)])));
        }
    }
}

/// Unions field names across the sample objects, values in observation order.
fn collect_field_obs(objects: &Vec<Value>) -> (r: Vec<FieldObs>)
    ensures
        obs_model(r@) == collect_fields(list_model(objects@), objects@.len() as int),
{
    broadcast use lemma_list_model_props;

    let mut acc: Vec<FieldObs> = Vec::new();
    let n: usize = objects.len();
    let mut i: usize = 0;
    proof {
        assert(obs_model(acc@) =~= collect_fields(list_model(objects@), 0));
    }
    while i < n
        invariant
            n == objects@.len(),
            i <= n,
            obs_model(acc@) == collect_fields(list_model(objects@), i as int),
        decreases n - i,
    {
        proof {
            broadcast use lemma_list_model_props;

        }
        match &objects[i] {
            Value::Object(ms) => {
                let ghost mm = members_model(ms@);
                let ghost acc0 = obs_model(acc@);
                let k: usize = ms.len();
                let mut j: usize = 0;
                while j < k
                    invariant
                        k == ms@.len(),
                        j <= k,
                        mm == members_model(ms@),
                        obs_model(acc@) == add_members(acc0, mm, j as int),
                    decreases k - j,
                {
                    proof {
                        broadcast use lemma_members_model_props;

                    }
                    obs_append(&mut acc, &ms[j].name, &ms[j].value);
                    j = j + 1;
                }
                proof {
                    broadcast use lemma_members_model_props;

                    assert(obs_model(acc@) == add_members(acc0, mm, mm.len() as int));
                    assert(value_model(objects@[i as int]) == ValueModel::Object(mm));
                    assert(list_model(objects@)[i as int] == value_model(objects@[i as int]));
                    assert(obs_model(acc@) == collect_fields(list_model(objects@), i + 1));
                }
            },
            _ => {
                proof {
                    assert(list_model(objects@)[i as int] == value_model(objects@[i as int]));
                    assert(obs_model(acc@) == collect_fields(list_model(objects@), i + 1));
                }
            },
        }
        i = i + 1;
    }
    acc
}

fn values_have_object(values: &Vec<Value>) -> (b: bool)
    ensures
        b == has_object(list_model(values@)),
{
    broadcast use lemma_list_model_props;

    let n: usize = values.len();
    let mut i: usize = 0;
    while i < n
        invariant
            n == values@.len(),
            i <= n,
            forall|j: int| 0 <= j < i ==> !(list_model(values@)[j] is Object),
        decreases n - i,
    {
        proof {
            broadcast use lemma_list_model_props;

        }
        match &values[i] {
            Value::Object(_) => {
                proof {
                    assert(list_model(values@)[i as int] is Object);
                }
                return true;
            },
            _ => {},
        }
        i = i + 1;
    }
    false
}

fn values_have_list_with_object(values: &Vec<Value>) -> (b: bool)
    ensures
        b == has_list_with_object(list_model(values@)),
{
    broadcast use lemma_list_model_props;

    let n: usize = values.len();
    let mut i: usize = 0;
    while i < n
        invariant
            n == values@.len(),
            i <= n,
            forall|j: int| 0 <= j < i ==> !list_has_object(list_model(values@)[j]),
        decreases n - i,
    {
        proof {
            broadcast use lemma_list_model_props;

        }
        match &values[i] {
            Value::List(items) => {
                if values_have_object(items) {
                    proof {
                        assert(list_has_object(list_model(values@)[i as int]));
                    }
                    return true;
                }
            },
            _ => {},
        }
        i = i + 1;
    }
    false
}

fn values_have_list(values: &Vec<Value>) -> (b: bool)
    ensures
        b == has_list(list_model(values@)),
{
    broadcast use lemma_list_model_props;

    let n: usize = values.len();
    let mut i: usize = 0;
    while i < n
        invariant
            n == values@.len(),
            i <= n,
            forall|j: int| 0 <= j < i ==> !(list_model(values@)[j] is List),
        decreases n - i,
    {
        proof {
            broadcast use lemma_list_model_props;

        }
        match &values[i] {
            Value::List(_) => {
                proof {
                    assert(list_model(values@)[i as int] is List);
                }
                return true;
            },
            _ => {},
        }
        i = i + 1;
    }
    false
}

/// Infers a field's type from its observed values, as the discovery rules
/// say: object values make the field a schema reference named after itself,
/// lists of objects a list of that reference, other lists `list<string>`,
/// else the primitive kind of the first non-null observation.
pub fn infer_field_type(field_name: &String, values: &Vec<Value>) -> (r: FieldType)
    ensures
        type_model(r) == spec_infer_field_type(field_name@, list_model(values@)),
{
    broadcast use lemma_list_model_props;

    if values_have_object(values) {
        return FieldType { base: BaseType::Ref(field_name.clone()), list_depth: 0 };
    }
    if values_have_list_with_object(values) {
        return FieldType { base: BaseType::Ref(field_name.clone()), list_depth: 1 };
    }
    if values_have_list(values) {
        return FieldType { base: BaseType::Text, list_depth: 1 };
    }
    let n: usize = values.len();
    let mut i: usize = 0;
    let ghost vm = list_model(values@);
    proof {
        assert(vm.subrange(0, vm.len() as int) =~= vm);
    }
    while i < n
        invariant
            vm == list_model(values@),
            n == values@.len(),
            i <= n,
            !has_object(vm),
            !has_list_with_object(vm),
            !has_list(vm),
            scan_prim(vm) == scan_prim(vm.subrange(i as int, vm.len() as int)),
        decreases n - i,
    {
        proof {
            broadcast use lemma_list_model_props;

            let tail = vm.subrange(i as int, vm.len() as int);
            assert(tail[0] == vm[i as int]);
            assert(tail.subrange(1, tail.len() as int) =~= vm.subrange(i + 1, vm.len() as int));
        }
        match &values[i] {
            Value::Null => {},
            Value::Bool(_) => {
                return FieldType { base: BaseType::Boolean, list_depth: 0 };
            },
            Value::Num(_) => {
                return FieldType { base: BaseType::Number, list_depth: 0 };
            },
            Value::Text(_) => {
                return FieldType { base: BaseType::Text, list_depth: 0 };
            },
            Value::List(_) => {
                return FieldType {
                    base: BaseType::Ref(String::from_str("array")),
                    list_depth: 0,
                };
            },
            Value::Object(_) => {
                return FieldType {
                    base: BaseType::Ref(String::from_str("object")),
                    list_depth: 0,
                };
            },
        }
        i = i + 1;
    }
    proof {
        assert(vm.subrange(n as int, vm.len() as int) =~= Seq::<ValueModel>::empty());
    }
    FieldType { base: BaseType::Ref(String::from_str("null")), list_depth: 0 }
}

/// The object set of field `f` one level below the sample objects.
fn child_objects(objects: &Vec<Value>, f: &String) -> (r: Vec<Value>)
    ensures
        list_model(r@) == spec_child_objects(list_model(objects@), f@),
{
    broadcast use lemma_list_model_props;

    let ghost om = list_model(objects@);
    let mut out: Vec<Value> = Vec::new();
    let n: usize = objects.len();
    let mut i: usize = 0;
    proof {
        assert(list_model(out@) =~= child_run(om, 0, f@));
    }
    while i < n
        invariant
            om == list_model(objects@),
            n == objects@.len(),
            i <= n,
            list_model(out@) == child_run(om, i as int, f@),
        decreases n - i,
    {
        proof {
            broadcast use lemma_list_model_props;

        }
        match &objects[i] {
            Value::Object(ms) => {
                match members_get(ms, f) {
                    Some(c) => {
                        match c {
                            Value::Object(_) => {
                                let cc = clone_value(c);
                                out.push(cc);
                                proof {
                                    assert(list_model(out@) =~= child_run(om, i + 1, f@));
                                }
                            },
                            Value::List(items) => {
                                let ghost base = list_model(out@);
                                let k: usize = items.len();
                                let mut j: usize = 0;
                                while j < k
                                    invariant
                                        k == items@.len(),
                                        j <= k,
                                        list_model(out@) == base + list_model(
                                            items@,
                                        ).subrange(0, j as int),
                                    decreases k - j,
                                {
                                    proof {
                                        broadcast use lemma_list_model_props;

                                    }
                                    let ghost ob = list_model(out@);
                                    let ghost itm = list_model(items@);
                                    let cc = clone_value(&items[j]);
                                    out.push(cc);
                                    proof {
                                        broadcast use lemma_list_model_props;

                                        assert(list_model(out@) =~= ob.push(value_model(
                                            items@[j as int],
                                        )));
                                        assert(itm[j as int] == value_model(items@[j as int]));
                                        assert(itm.subrange(0, j + 1) =~= itm.subrange(
                                            0,
                                            j as int,
                                        ).push(itm[j as int]));
                                        assert(list_model(out@) =~= base + itm.subrange(0, j + 1));
                                    }
                                    j = j + 1;
                                }
                                proof {
                                    assert(list_model(items@).subrange(
                                        0,
                                        list_model(items@).len() as int,
                                    ) =~= list_model(items@));
                                    assert(list_model(out@) =~= child_run(om, i + 1, f@));
                                }
                            },
                            _ => {
                                proof {
                                    assert(list_model(out@) =~= child_run(om, i + 1, f@));
                                }
                            },
                        }
                    },
                    None => {
                        proof {
                            assert(list_model(out@) =~= child_run(om, i + 1, f@));
                        }
                    },
                }
            },
            _ => {
                proof {
                    assert(list_model(out@) =~= child_run(om, i + 1, f@));
                }
            },
        }
        i = i + 1;
    }
    out
}

fn build_schema_rec(name: &String, objects: &Vec<Value>, table: &mut SchemaTable)
    ensures
        table_model(*final(table)) == spec_build_schema(
            name@,
            list_model(objects@),
            table_model(*old(table)),
        ),
    decreases max_height(list_model(objects@)),
{
    broadcast use lemma_list_model_props, lemma_obs_model_props;

    let ghost om = list_model(objects@);
    let ghost t0 = table_model(*old(table));
    if objects.len() == 0 {
        return ;
    }
    let obs = collect_field_obs(objects);
    let ghost fu = collect_fields(om, om.len() as int);
    let mut fields: Vec<SchemaField> = Vec::new();
    let k: usize = obs.len();
    let mut j: usize = 0;
    while j < k
        invariant
            fu == obs_model(obs@),
            k == obs@.len(),
            j <= k,
            fields@.len() == j,
            forall|q: int|
                0 <= q < j ==> (#[trigger] crate::schema::fields_model(fields@)[q]) == (
                fu[q].0,
                spec_infer_field_type(fu[q].0, fu[q].1),
                ),
        decreases k - j,
    {
        proof {
            broadcast use lemma_obs_model_props;

        }
        let ty = infer_field_type(&obs[j].name, &obs[j].values);
        let ghost fb = fields@;
        fields.push(SchemaField { name: obs[j].name.clone(), ty });
        proof {
            broadcast use lemma_obs_model_props;

            assert(fu[j as int] == (obs@[j as int].name@, list_model(obs@[j as int].values@)));
            assert forall|q: int|
                0 <= q < j + 1 implies (#[trigger] crate::schema::fields_model(fields@)[q]) == (
                fu[q].0,
                spec_infer_field_type(fu[q].0, fu[q].1),
            ) by {
                if q < j {
                    assert(fields@[q] == fb[q]);
                    assert(crate::schema::fields_model(fb)[q] == (
                        fu[q].0,
                        spec_infer_field_type(fu[q].0, fu[q].1),
                    ));
                }
            }
        }
        j = j + 1;
    }
    proof {
        assert(crate::schema::fields_model(fields@) =~= inferred_fields(om));
    }
    table_upsert(table, Schema { name: name.clone(), fields });
    let ghost t1 = assoc_upsert(t0, name@, inferred_fields(om));
    proof {
        assert(table_model(*table) == t1);
        assert(fu.subrange(0, fu.len() as int) =~= fu);
    }
    let n: usize = obs.len();
    let mut i: usize = 0;
    while i < n
        invariant
            om == list_model(objects@),
            om.len() > 0,
            fu == obs_model(obs@),
            n == obs@.len(),
            i <= n,
            spec_build_fields(fu.subrange(i as int, fu.len() as int), om, table_model(*table))
                == spec_build_fields(fu, om, t1),
        decreases n - i,
    {
        proof {
            broadcast use lemma_obs_model_props;

            let tail = fu.subrange(i as int, fu.len() as int);
            assert(tail[0] == fu[i as int]);
            assert(tail.subrange(1, tail.len() as int) =~= fu.subrange(i + 1, fu.len() as int));
        }
        let needs = {
            let a = values_have_object(&obs[i].values);
            let b = values_have_list_with_object(&obs[i].values);
            a || b
        };
        if needs {
            let child = child_objects(objects, &obs[i].name);
            proof {
                lemma_child_run_height(om, om.len() as int, obs@[i as int].name@);
            }
            build_schema_rec(&obs[i].name, &child, table);
        }
        i = i + 1;
    }
    proof {
        assert(fu.subrange(n as int, fu.len() as int) =~= Seq::<(Seq<char>, Seq<ValueModel>)>::empty());
    }
}

/// Discovers every named record shape reachable from `value`, the root shape
/// under `root_name`.
pub fn build_all_schemas(value: &Value, root_name: &str) -> (r: SchemaTable)
    ensures
        table_model(r) == spec_build(value_model(*value), root_name@),
{
    let mut table = SchemaTable::new();
    let roots = root_objects(value);
    let name_chars = str_to_chars(root_name);
    let name = crate::text::chars_to_string(&name_chars);
    build_schema_rec(&name, &roots, &mut table);
    table
}

proof fn lemma_build_schema_preserves(
    name: Seq<char>,
    objects: Seq<ValueModel>,
    table: Seq<(Seq<char>, Seq<(Seq<char>, TypeModel)>)>,
    key: Seq<char>,
)
    requires
        assoc_get(table, key) is Some,
    ensures
        assoc_get(spec_build_schema(name, objects, table), key) is Some,
    decreases max_height(objects), 1nat, 0nat,
{
    if objects.len() > 0 {
        let fu = collect_fields(objects, objects.len() as int);
        let t1 = assoc_upsert(table, name, inferred_fields(objects));
        crate::model::lemma_assoc_get_upsert(table, name, inferred_fields(objects), key);
        lemma_build_fields_preserves(fu, objects, t1, key);
    }
}

proof fn lemma_build_fields_preserves(
    pending: Seq<(Seq<char>, Seq<ValueModel>)>,
    objects: Seq<ValueModel>,
    table: Seq<(Seq<char>, Seq<(Seq<char>, TypeModel)>)>,
    key: Seq<char>,
)
    requires
        objects.len() > 0,
        assoc_get(table, key) is Some,
    ensures
        assoc_get(spec_build_fields(pending, objects, table), key) is Some,
    decreases max_height(objects), 0nat, pending.len(),
{
    if pending.len() > 0 {
        let fname = pending[0].0;
        let table1 = if field_needs_schema(pending[0].1) {
            spec_build_schema(fname, spec_child_objects(objects, fname), table)
        } else {
            table
        };
        if field_needs_schema(pending[0].1) {
            lemma_child_run_height(objects, objects.len() as int, fname);
            lemma_build_schema_preserves(fname, spec_child_objects(objects, fname), table, key);
        }
        lemma_build_fields_preserves(
            pending.subrange(1, pending.len() as int),
            objects,
            table1,
            key,
        );
    }
}

/// Whenever discovery starts from a non-empty object set, the root schema is
/// in the resulting table.
pub proof fn lemma_build_root_present(v: ValueModel, root: Seq<char>)
    requires
        spec_root_objects(v).len() > 0,
    ensures
        assoc_get(spec_build(v, root), root) is Some,
{
    let objects = spec_root_objects(v);
    let fu = collect_fields(objects, objects.len() as int);
    let t1 = assoc_upsert(
        Seq::<(Seq<char>, Seq<(Seq<char>, TypeModel)>)>::empty(),
        root,
        inferred_fields(objects),
    );
    crate::model::lemma_assoc_get_upsert(
        Seq::<(Seq<char>, Seq<(Seq<char>, TypeModel)>)>::empty(),
        root,
        inferred_fields(objects),
        root,
    );
    lemma_build_fields_preserves(fu, objects, t1, root);
}

} // verus!
