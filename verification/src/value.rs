//! The document value type and its classifier.

use crate::model::{
    assoc_get, assoc_upsert, lemma_assoc_get_absent, lemma_assoc_get_found,
    lemma_assoc_upsert_absent, lemma_assoc_upsert_found, ValueModel,
};
use vstd::prelude::*;

verus! {

/// A JSON-like document value: a recursive tagged union.
///
/// Numbers are integers; the notation's number lanes carry a decimal integer
/// and nothing else, so non-integer numerics are outside this library's value
/// model and are rejected at the boundary that produces `Value`s.
#[derive(Debug, PartialEq, Eq)]
pub enum Value {
    Null,
    Bool(bool),
    Num(i64),
    Text(String),
    List(Vec<Value>),
    Object(Vec<Member>),
}

/// One field of an object: a name bound to a value.  Field order is
/// significant; it is the order fields were first observed.
#[derive(Debug, PartialEq, Eq)]
pub struct Member {
    pub name: String,
    pub value: Value,
}

/// The mathematical value a `Value` stands for.
pub open spec fn value_model(v: Value) -> ValueModel
    decreases v,
{
    match v {
        Value::Null => ValueModel::Null,
        Value::Bool(b) => ValueModel::Bool(b),
        Value::Num(n) => ValueModel::Int(n as int),
        Value::Text(s) => ValueModel::Text(s@),
        Value::List(items) => ValueModel::List(list_model(items@)),
        Value::Object(members) => ValueModel::Object(members_model(members@)),
    }
}

pub open spec fn list_model(s: Seq<Value>) -> Seq<ValueModel>
    decreases s,
{
    if s.len() == 0 {
        Seq::empty()
    } else {
        seq![value_model(s[0])] + list_model(s.subrange(1, s.len() as int))
    }
}

pub open spec fn members_model(s: Seq<Member>) -> Seq<(Seq<char>, ValueModel)>
    decreases s,
{
    if s.len() == 0 {
        Seq::empty()
    } else {
        seq![(s[0].name@, value_model(s[0].value))] + members_model(s.subrange(1, s.len() as int))
    }
}

pub broadcast proof fn lemma_list_model_props(s: Seq<Value>)
    ensures
        (#[trigger] list_model(s)).len() == s.len(),
        forall|i: int| 0 <= i < s.len() ==> list_model(s)[i] == value_model(s[i]),
    decreases s.len(),
{
    if s.len() != 0 {
        let rest = s.subrange(1, s.len() as int);
        lemma_list_model_props(rest);
        assert forall|i: int| 0 <= i < s.len() implies list_model(s)[i] == value_model(s[i]) by {
            if i > 0 {
                assert(list_model(s)[i] == list_model(rest)[i - 1]);
                assert(rest[i - 1] == s[i]);
            }
        }
    }
}

pub broadcast proof fn lemma_members_model_props(s: Seq<Member>)
    ensures
        (#[trigger] members_model(s)).len() == s.len(),
        forall|i: int|
            0 <= i < s.len() ==> members_model(s)[i] == (s[i].name@, value_model(s[i].value)),
    decreases s.len(),
{
    if s.len() != 0 {
        let rest = s.subrange(1, s.len() as int);
        lemma_members_model_props(rest);
        assert forall|i: int|
            0 <= i < s.len() implies members_model(s)[i] == (
            s[i].name@,
            value_model(s[i].value),
        ) by {
            if i > 0 {
                assert(members_model(s)[i] == members_model(rest)[i - 1]);
                assert(rest[i - 1] == s[i]);
            }
        }
    }
}

/// Primitive kind tag of a value, as the classifier reports it.
pub open spec fn spec_type_name(v: ValueModel) -> Seq<char> {
    match v {
        ValueModel::Null => "null"@,
        ValueModel::Bool(_) => "boolean"@,
        ValueModel::Int(_) => "number"@,
        ValueModel::Text(_) => "string"@,
        ValueModel::List(_) => "array"@,
        ValueModel::Object(_) => "object"@,
    }
}

/// Maps a value to exactly one of the six primitive kind tags.
pub fn infer_type(v: &Value) -> (r: &'static str)
    ensures
        r@ == spec_type_name(value_model(*v)),
{
    match v {
        Value::Null => "null",
        Value::Bool(_) => "boolean",
        Value::Num(_) => "number",
        Value::Text(_) => "string",
        Value::List(_) => "array",
        Value::Object(_) => "object",
    }
}

/// Deep copy that provably preserves the value's model.
pub fn clone_value(v: &Value) -> (r: Value)
    ensures
        value_model(r) == value_model(*v),
    decreases crate::model::height(value_model(*v)),
{
    match v {
        Value::Null => Value::Null,
        Value::Bool(b) => Value::Bool(*b),
        Value::Num(n) => Value::Num(*n),
        Value::Text(s) => Value::Text(s.clone()),
        Value::List(items) => {
            let mut out: Vec<Value> = Vec::new();
            let mut i: usize = 0;
            while i < items.len()
                invariant
                    value_model(*v) == ValueModel::List(list_model(items@)),
                    i <= items.len(),
                    out@.len() == i,
                    forall|j: int|
                        0 <= j < i ==> value_model(out@[j]) == value_model(items@[j]),
                decreases items.len() - i,
            {
                proof {
                    broadcast use lemma_list_model_props;

                    crate::model::lemma_max_height_bound(list_model(items@), i as int);
                    assert(value_model(*v) == ValueModel::List(list_model(items@)));
                    assert(list_model(items@)[i as int] == value_model(items@[i as int]));
                    assert(crate::model::height(value_model(items@[i as int]))
                        < crate::model::height(value_model(*v)));
                }
                let c = clone_value(&items[i]);
                out.push(c);
                i = i + 1;
            }
            proof {
                broadcast use lemma_list_model_props;

                assert(list_model(out@) =~= list_model(items@));
            }
            Value::List(out)
        },
        Value::Object(members) => {
            let mut out: Vec<Member> = Vec::new();
            let mut i: usize = 0;
            while i < members.len()
                invariant
                    value_model(*v) == ValueModel::Object(members_model(members@)),
                    i <= members.len(),
                    out@.len() == i,
                    forall|j: int|
                        0 <= j < i ==> out@[j].name@ == members@[j].name@ && value_model(
                            out@[j].value,
                        ) == value_model(members@[j].value),
                decreases members.len() - i,
            {
                proof {
                    broadcast use lemma_members_model_props;

                    crate::model::lemma_max_member_height_bound(members_model(members@), i as int);
                    assert(value_model(*v) == ValueModel::Object(members_model(members@)));
                    assert(members_model(members@)[i as int].1 == value_model(members@[i as int].value));
                    assert(crate::model::height(value_model(members@[i as int].value))
                        < crate::model::height(value_model(*v)));
                }
                let m = Member { name: members[i].name.clone(), value: clone_value(&members[i].value) };
                out.push(m);
                i = i + 1;
            }
            proof {
                broadcast use lemma_members_model_props;

                assert(members_model(out@) =~= members_model(members@));
            }
            Value::Object(out)
        },
    }
}

/// First value bound to `name` among the members, if any.
pub fn members_get<'a>(ms: &'a Vec<Member>, name: &String) -> (r: Option<&'a Value>)
    ensures
        match r {
            Some(v) => assoc_get(members_model(ms@), name@) == Some(value_model(*v)),
            None => assoc_get(members_model(ms@), name@) is None,
        },
{
    let n: usize = ms.len();
    let mut i: usize = 0;
    while i < n
        invariant
            n == ms@.len(),
            i <= n,
            forall|j: int| 0 <= j < i ==> (#[trigger] members_model(ms@)[j]).0 != name@,
        decreases n - i,
    {
        proof {
            broadcast use lemma_members_model_props;

        }
        if ms[i].name == *name {
            proof {
                lemma_assoc_get_found(members_model(ms@), name@, i as int);
            }
            return Some(&ms[i].value);
        }
        i = i + 1;
    }
    proof {
        broadcast use lemma_members_model_props;

        lemma_assoc_get_absent(members_model(ms@), name@);
    }
    None
}

/// Binds `name` to `v`, replacing in place the first existing binding.
pub fn members_upsert(ms: &mut Vec<Member>, name: String, v: Value)
    ensures
        members_model(final(ms)@) == assoc_upsert(
            members_model(old(ms)@),
            name@,
            value_model(v),
        ),
{
    let ghost m0 = members_model(old(ms)@);
    let ghost key = name@;
    let ghost vm = value_model(v);
    let n: usize = ms.len();
    let mut idx: usize = n;
    let mut i: usize = 0;
    while i < n
        invariant
            ms@ == old(ms)@,
            key == name@,
            n == ms@.len(),
            i <= n,
            idx == n || (idx < i && members_model(ms@)[idx as int].0 == key),
            forall|j: int|
                0 <= j < i && j < idx ==> (#[trigger] members_model(ms@)[j]).0 != key,
        decreases n - i,
    {
        proof {
            broadcast use lemma_members_model_props;

        }
        if idx == n && ms[i].name == name {
            idx = i;
        }
        i = i + 1;
    }
    proof {
        broadcast use lemma_members_model_props;

    }
    if idx < n {
        ms.set(idx, Member { name, value: v });
        proof {
            broadcast use lemma_members_model_props;

            lemma_assoc_upsert_found(m0, key, vm, idx as int);
            assert(members_model(ms@) =~= m0.update(idx as int, (key, vm)));
        }
    } else {
        ms.push(Member { name, value: v });
        proof {
            broadcast use lemma_members_model_props;

            lemma_assoc_upsert_absent(m0, key, vm);
            assert(members_model(ms@) =~= m0.push((key, vm)));
        }
    }
}

} // verus!
