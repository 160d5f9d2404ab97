//! Mathematical model of documents.
//!
//! Contracts throughout the crate speak of these spec-level types rather than
//! of the executable ones: text is a `Seq<char>`, a list is a `Seq`, an object
//! is an association sequence from field name to value.

use vstd::prelude::*;

verus! {

/// Spec-level mirror of a document value.
pub enum ValueModel {
    Null,
    Bool(bool),
    Int(int),
    Text(Seq<char>),
    List(Seq<ValueModel>),
    Object(Seq<(Seq<char>, ValueModel)>),
}

/// First value bound to `key` in an association sequence, if any.
pub open spec fn assoc_get<T>(s: Seq<(Seq<char>, T)>, key: Seq<char>) -> Option<T>
    decreases s.len(),
{
    if s.len() == 0 {
        None
    } else if s[0].0 == key {
        Some(s[0].1)
    } else {
        assoc_get(s.subrange(1, s.len() as int), key)
    }
}

/// Replaces the first binding of `key`, or appends one if none exists.
pub open spec fn assoc_upsert<T>(s: Seq<(Seq<char>, T)>, key: Seq<char>, v: T) -> Seq<(
    Seq<char>,
    T,
)>
    decreases s.len(),
{
    if s.len() == 0 {
        seq![(key, v)]
    } else if s[0].0 == key {
        seq![(key, v)] + s.subrange(1, s.len() as int)
    } else {
        seq![s[0]] + assoc_upsert(s.subrange(1, s.len() as int), key, v)
    }
}

/// Appends `v` to the sequence bound to `key`, creating the binding if absent.
pub open spec fn assoc_append<T>(s: Seq<(Seq<char>, Seq<T>)>, key: Seq<char>, v: T) -> Seq<(
    Seq<char>,
    Seq<T>,
)>
    decreases s.len(),
{
    if s.len() == 0 {
        seq![(key, seq![v])]
    } else if s[0].0 == key {
        seq![(s[0].0, s[0].1.push(v))] + s.subrange(1, s.len() as int)
    } else {
        seq![s[0]] + assoc_append(s.subrange(1, s.len() as int), key, v)
    }
}

pub proof fn lemma_assoc_get_found<T>(s: Seq<(Seq<char>, T)>, key: Seq<char>, i: int)
    requires
        0 <= i < s.len(),
        s[i].0 == key,
        forall|j: int| 0 <= j < i ==> (#[trigger] s[j]).0 != key,
    ensures
        assoc_get(s, key) == Some(s[i].1),
    decreases i,
{
    if i > 0 {
        let rest = s.subrange(1, s.len() as int);
        assert(forall|j: int| 0 <= j < i - 1 ==> (#[trigger] rest[j]).0 == s[j + 1].0);
        lemma_assoc_get_found(rest, key, i - 1);
        assert(rest[i - 1] == s[i]);
    }
}

pub proof fn lemma_assoc_get_absent<T>(s: Seq<(Seq<char>, T)>, key: Seq<char>)
    requires
        forall|j: int| 0 <= j < s.len() ==> (#[trigger] s[j]).0 != key,
    ensures
        assoc_get(s, key) is None,
    decreases s.len(),
{
    if s.len() > 0 {
        let rest = s.subrange(1, s.len() as int);
        assert(forall|j: int| 0 <= j < rest.len() ==> (#[trigger] rest[j]).0 == s[j + 1].0);
        lemma_assoc_get_absent(rest, key);
    }
}

pub proof fn lemma_assoc_upsert_found<T>(s: Seq<(Seq<char>, T)>, key: Seq<char>, v: T, i: int)
    requires
        0 <= i < s.len(),
        s[i].0 == key,
        forall|j: int| 0 <= j < i ==> (#[trigger] s[j]).0 != key,
    ensures
        assoc_upsert(s, key, v) == s.update(i, (key, v)),
    decreases i,
{
    if i == 0 {
        assert(assoc_upsert(s, key, v) =~= s.update(0, (key, v)));
    } else {
        let rest = s.subrange(1, s.len() as int);
        assert(forall|j: int| 0 <= j < i - 1 ==> (#[trigger] rest[j]).0 == s[j + 1].0);
        assert(rest[i - 1] == s[i]);
        lemma_assoc_upsert_found(rest, key, v, i - 1);
        assert(seq![s[0]] + rest.update(i - 1, (key, v)) =~= s.update(i, (key, v)));
    }
}

pub proof fn lemma_assoc_upsert_absent<T>(s: Seq<(Seq<char>, T)>, key: Seq<char>, v: T)
    requires
        forall|j: int| 0 <= j < s.len() ==> (#[trigger] s[j]).0 != key,
    ensures
        assoc_upsert(s, key, v) == s.push((key, v)),
    decreases s.len(),
{
    if s.len() == 0 {
        assert(assoc_upsert(s, key, v) =~= s.push((key, v)));
    } else {
        let rest = s.subrange(1, s.len() as int);
        assert(forall|j: int| 0 <= j < rest.len() ==> (#[trigger] rest[j]).0 == s[j + 1].0);
        lemma_assoc_upsert_absent(rest, key, v);
        assert(seq![s[0]] + rest.push((key, v)) =~= s.push((key, v)));
    }
}

pub proof fn lemma_assoc_append_found<T>(s: Seq<(Seq<char>, Seq<T>)>, key: Seq<char>, v: T, i: int)
    requires
        0 <= i < s.len(),
        s[i].0 == key,
        forall|j: int| 0 <= j < i ==> (#[trigger] s[j]).0 != key,
    ensures
        assoc_append(s, key, v) == s.update(i, (s[i].0, s[i].1.push(v))),
    decreases i,
{
    if i == 0 {
        assert(assoc_append(s, key, v) =~= s.update(0, (s[0].0, s[0].1.push(v))));
    } else {
        let rest = s.subrange(1, s.len() as int);
        assert(forall|j: int| 0 <= j < i - 1 ==> (#[trigger] rest[j]).0 == s[j + 1].0);
        assert(rest[i - 1] == s[i]);
        lemma_assoc_append_found(rest, key, v, i - 1);
        assert(seq![s[0]] + rest.update(i - 1, (rest[i - 1].0, rest[i - 1].1.push(v))) =~= s.update(
            i,
            (s[i].0, s[i].1.push(v)),
        ));
    }
}

pub proof fn lemma_assoc_append_absent<T>(s: Seq<(Seq<char>, Seq<T>)>, key: Seq<char>, v: T)
    requires
        forall|j: int| 0 <= j < s.len() ==> (#[trigger] s[j]).0 != key,
    ensures
        assoc_append(s, key, v) == s.push((key, seq![v])),
    decreases s.len(),
{
    if s.len() == 0 {
        assert(assoc_append(s, key, v) =~= s.push((key, seq![v])));
    } else {
        let rest = s.subrange(1, s.len() as int);
        assert(forall|j: int| 0 <= j < rest.len() ==> (#[trigger] rest[j]).0 == s[j + 1].0);
        lemma_assoc_append_absent(rest, key, v);
        assert(seq![s[0]] + rest.push((key, seq![v])) =~= s.push((key, seq![v])));
    }
}

/// Height of a value: 1 for a scalar, 1 + the tallest child for a container.
/// Drives termination of schema discovery.
pub open spec fn height(v: ValueModel) -> nat
    decreases v,
{
    match v {
        ValueModel::List(items) => 1 + max_height(items),
        ValueModel::Object(fields) => 1 + max_member_height(fields),
        _ => 1,
    }
}

pub open spec fn max_height(s: Seq<ValueModel>) -> nat
    decreases s,
{
    if s.len() == 0 {
        0
    } else {
        let rest = max_height(s.subrange(1, s.len() as int));
        if height(s[0]) > rest {
            height(s[0])
        } else {
            rest
        }
    }
}

pub open spec fn max_member_height(s: Seq<(Seq<char>, ValueModel)>) -> nat
    decreases s,
{
    if s.len() == 0 {
        0
    } else {
        let rest = max_member_height(s.subrange(1, s.len() as int));
        if height(s[0].1) > rest {
            height(s[0].1)
        } else {
            rest
        }
    }
}

/// How a lookup reads through an upsert.
pub proof fn lemma_assoc_get_upsert<T>(s: Seq<(Seq<char>, T)>, k: Seq<char>, v: T, key: Seq<char>)
    ensures
        assoc_get(assoc_upsert(s, k, v), key) == (if key == k {
            Some(v)
        } else {
            assoc_get(s, key)
        }),
    decreases s.len(),
{
    if s.len() == 0 {
        let u = assoc_upsert(s, k, v);
        assert(u.len() == 1);
        assert(u[0] == (k, v));
        assert(u.subrange(1, u.len() as int) =~= Seq::<(Seq<char>, T)>::empty());
        if key == k {
            assert(assoc_get(u, key) == Some(v));
        } else {
            assert(assoc_get(Seq::<(Seq<char>, T)>::empty(), key) is None);
            assert(assoc_get(u, key) is None);
        }
    } else if s[0].0 == k {
        let u = assoc_upsert(s, k, v);
        assert(u.len() == s.len());
        assert(u[0] == (k, v));
        assert(u.subrange(1, u.len() as int) =~= s.subrange(1, s.len() as int));
        if key == k {
            assert(assoc_get(u, key) == Some(v));
        } else {
            assert(assoc_get(u, key) == assoc_get(s.subrange(1, s.len() as int), key));
            assert(assoc_get(s, key) == assoc_get(s.subrange(1, s.len() as int), key));
        }
    } else {
        let rest = s.subrange(1, s.len() as int);
        lemma_assoc_get_upsert(rest, k, v, key);
        let u = assoc_upsert(s, k, v);
        assert(u.len() == 1 + assoc_upsert(rest, k, v).len());
        assert(u[0] == s[0]);
        assert(u.subrange(1, u.len() as int) =~= assoc_upsert(rest, k, v));
    }
}

/// A value looked up among an object's members is bounded by their maximum
/// height.
pub proof fn lemma_member_get_height(ms: Seq<(Seq<char>, ValueModel)>, key: Seq<char>)
    ensures
        forall|v: ValueModel|
            assoc_get(ms, key) == Some(v) ==> height(v) <= max_member_height(ms),
    decreases ms.len(),
{
    if ms.len() > 0 && ms[0].0 != key {
        let rest = ms.subrange(1, ms.len() as int);
        lemma_member_get_height(rest, key);
    }
}

/// Every element of a sequence is at most as tall as the sequence's maximum.
pub proof fn lemma_max_height_bound(s: Seq<ValueModel>, i: int)
    requires
        0 <= i < s.len(),
    ensures
        height(s[i]) <= max_height(s),
    decreases s.len(),
{
    if i == 0 {
    } else {
        lemma_max_height_bound(s.subrange(1, s.len() as int), i - 1);
        assert(s.subrange(1, s.len() as int)[i - 1] == s[i]);
    }
}

/// Every member value is at most as tall as the member sequence's maximum.
pub proof fn lemma_max_member_height_bound(s: Seq<(Seq<char>, ValueModel)>, i: int)
    requires
        0 <= i < s.len(),
    ensures
        height(s[i].1) <= max_member_height(s),
    decreases s.len(),
{
    if i == 0 {
    } else {
        lemma_max_member_height_bound(s.subrange(1, s.len() as int), i - 1);
        assert(s.subrange(1, s.len() as int)[i - 1] == s[i]);
    }
}

} // verus!
