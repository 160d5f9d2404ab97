//! Field types, schemas and the schema table.
//!
//! A field's type is a base — one of the primitive kind names or a reference
//! to a named schema — wrapped in zero or more `list<...>` layers.  A name
//! that is not `boolean`, `number` or `string` is kept as a reference and
//! resolved against the table only when the field is decoded; an unresolved
//! reference falls back to string decoding, and the all-null type `null` is
//! simply a reference that never resolves.

use crate::model::{
    assoc_get, assoc_upsert, lemma_assoc_get_absent, lemma_assoc_get_found,
    lemma_assoc_upsert_absent, lemma_assoc_upsert_found,
};
use crate::text::push_str_chars;
use vstd::prelude::*;

verus! {

/// The innermost, non-list part of a field type.
#[derive(Debug, PartialEq, Eq)]
pub enum BaseType {
    Boolean,
    Number,
    Text,
    /// A schema name, or any other name with no primitive meaning.
    Ref(String),
}

/// A field type: a base wrapped in `list_depth` layers of `list<...>`.
#[derive(Debug, PartialEq, Eq)]
pub struct FieldType {
    pub base: BaseType,
    pub list_depth: usize,
}

pub enum BaseTypeModel {
    Boolean,
    Number,
    Text,
    Ref(Seq<char>),
}

pub struct TypeModel {
    pub base: BaseTypeModel,
    pub list_depth: nat,
}

pub open spec fn base_model(b: BaseType) -> BaseTypeModel {
    match b {
        BaseType::Boolean => BaseTypeModel::Boolean,
        BaseType::Number => BaseTypeModel::Number,
        BaseType::Text => BaseTypeModel::Text,
        BaseType::Ref(n) => BaseTypeModel::Ref(n@),
    }
}

pub open spec fn type_model(t: FieldType) -> TypeModel {
    TypeModel { base: base_model(t.base), list_depth: t.list_depth as nat }
}

/// Textual form of a base type.
pub open spec fn base_text(b: BaseTypeModel) -> Seq<char> {
    match b {
        BaseTypeModel::Boolean => "boolean"@,
        BaseTypeModel::Number => "number"@,
        BaseTypeModel::Text => "string"@,
        BaseTypeModel::Ref(n) => n,
    }
}

/// Textual form of a type: the base wrapped in `list<...>` layers.
pub open spec fn type_text(t: TypeModel) -> Seq<char>
    decreases t.list_depth,
{
    if t.list_depth == 0 {
        base_text(t.base)
    } else {
        "list<"@ + type_text(TypeModel { base: t.base, list_depth: (t.list_depth - 1) as nat })
            + ">"@
    }
}

/// What parsing a type's text yields: `list<...>` layers are stripped, the
/// three primitive kind names map to themselves, anything else is a reference.
pub open spec fn spec_parse_type(s: Seq<char>) -> TypeModel
    decreases s.len(),
{
    if s.len() >= 6 && s.subrange(0, 5) == "list<"@ && s[s.len() - 1] == '>' {
        let inner = spec_parse_type(s.subrange(5, s.len() - 1));
        TypeModel { base: inner.base, list_depth: inner.list_depth + 1 }
    } else if s == "boolean"@ {
        TypeModel { base: BaseTypeModel::Boolean, list_depth: 0 }
    } else if s == "number"@ {
        TypeModel { base: BaseTypeModel::Number, list_depth: 0 }
    } else if s == "string"@ {
        TypeModel { base: BaseTypeModel::Text, list_depth: 0 }
    } else {
        TypeModel { base: BaseTypeModel::Ref(s), list_depth: 0 }
    }
}

pub fn clone_base(b: &BaseType) -> (r: BaseType)
    ensures
        base_model(r) == base_model(*b),
{
    match b {
        BaseType::Boolean => BaseType::Boolean,
        BaseType::Number => BaseType::Number,
        BaseType::Text => BaseType::Text,
        BaseType::Ref(n) => BaseType::Ref(n.clone()),
    }
}

fn push_base_text(out: &mut Vec<char>, b: &BaseType)
    ensures
        final(out)@ == old(out)@ + base_text(base_model(*b)),
{
    match b {
        BaseType::Boolean => push_str_chars(out, "boolean"),
        BaseType::Number => push_str_chars(out, "number"),
        BaseType::Text => push_str_chars(out, "string"),
        BaseType::Ref(n) => push_str_chars(out, n.as_str()),
    }
}

fn push_type_text_depth(out: &mut Vec<char>, b: &BaseType, depth: usize)
    ensures
        final(out)@ == old(out)@ + type_text(
            TypeModel { base: base_model(*b), list_depth: depth as nat },
        ),
    decreases depth,
{
    if depth == 0 {
        push_base_text(out, b);
    } else {
        push_str_chars(out, "list<");
        push_type_text_depth(out, b, depth - 1);
        out.push('>');
        proof {
            reveal_strlit(">");
            assert(">"@ =~= seq!['>']);
            assert(out@ =~= old(out)@ + type_text(
                TypeModel { base: base_model(*b), list_depth: depth as nat },
            ));
        }
    }
}

/// Appends the textual form of `t` to `out`.
pub fn push_type_text(out: &mut Vec<char>, t: &FieldType)
    ensures
        final(out)@ == old(out)@ + type_text(type_model(*t)),
{
    push_type_text_depth(out, &t.base, t.list_depth);
}

/// Parses a type's text, mirroring `spec_parse_type`.
pub fn parse_field_type(s: &[char]) -> (r: FieldType)
    ensures
        type_model(r) == spec_parse_type(s@),
        r.list_depth <= s@.len(),
    decreases s@.len(),
{
    let len: usize = s.len();
    if len >= 6 && s[len - 1] == '>' {
        let head = vstd::slice::slice_subrange(s, 0, 5);
        if crate::text::chars_eq_str(head, "list<") {
            let innerw = vstd::slice::slice_subrange(s, 5, len - 1);
            let inner = parse_field_type(innerw);
            return FieldType { base: inner.base, list_depth: inner.list_depth + 1 };
        }
    }
    if crate::text::chars_eq_str(s, "boolean") {
        FieldType { base: BaseType::Boolean, list_depth: 0 }
    } else if crate::text::chars_eq_str(s, "number") {
        FieldType { base: BaseType::Number, list_depth: 0 }
    } else if crate::text::chars_eq_str(s, "string") {
        FieldType { base: BaseType::Text, list_depth: 0 }
    } else {
        let mut name: Vec<char> = Vec::new();
        let mut i: usize = 0;
        while i < len
            invariant
                len == s@.len(),
                i <= len,
                name@ =~= s@.subrange(0, i as int),
            decreases len - i,
        {
            name.push(s[i]);
            proof {
                assert(name@ =~= s@.subrange(0, i + 1));
            }
            i = i + 1;
        }
        proof {
            assert(name@ =~= s@);
        }
        FieldType { base: BaseType::Ref(crate::text::chars_to_string(&name)), list_depth: 0 }
    }
}

/// One field of a schema: a name and the type its values encode as.
#[derive(Debug, PartialEq, Eq)]
pub struct SchemaField {
    pub name: String,
    pub ty: FieldType,
}

/// A named record shape: an ordered list of fields.  Order defines the
/// positional encoding.
#[derive(Debug, PartialEq, Eq)]
pub struct Schema {
    pub name: String,
    pub fields: Vec<SchemaField>,
}

/// The schema table: name-keyed, insertion-ordered, later insertions of an
/// existing name overwrite in place.
#[derive(Debug, PartialEq, Eq)]
pub struct SchemaTable {
    pub schemas: Vec<Schema>,
}

pub open spec fn fields_model(s: Seq<SchemaField>) -> Seq<(Seq<char>, TypeModel)> {
    Seq::new(s.len(), |i: int| (s[i].name@, type_model(s[i].ty)))
}

pub open spec fn table_model(t: SchemaTable) -> Seq<(Seq<char>, Seq<(Seq<char>, TypeModel)>)> {
    Seq::new(t.schemas@.len(), |i: int| (t.schemas@[i].name@, fields_model(t.schemas@[i].fields@)))
}

impl SchemaTable {
    pub fn new() -> (r: SchemaTable)
        ensures
            table_model(r) == Seq::<(Seq<char>, Seq<(Seq<char>, TypeModel)>)>::empty(),
    {
        let t = SchemaTable { schemas: Vec::new() };
        proof {
            assert(table_model(t) =~= Seq::<(Seq<char>, Seq<(Seq<char>, TypeModel)>)>::empty());
        }
        t
    }
}

/// First schema bound to `name`, as the table's association model has it.
pub fn table_get<'a>(t: &'a SchemaTable, name: &String) -> (r: Option<&'a Schema>)
    ensures
        match r {
            Some(s) => assoc_get(table_model(*t), name@) == Some(fields_model(s.fields@))
                && s.name@ == name@,
            None => assoc_get(table_model(*t), name@) is None,
        },
{
    let n: usize = t.schemas.len();
    let mut i: usize = 0;
    while i < n
        invariant
            n == t.schemas@.len(),
            i <= n,
            forall|j: int| 0 <= j < i ==> (#[trigger] table_model(*t)[j]).0 != name@,
        decreases n - i,
    {
        if t.schemas[i].name == *name {
            proof {
                lemma_assoc_get_found(table_model(*t), name@, i as int);
            }
            return Some(&t.schemas[i]);
        }
        i = i + 1;
    }
    proof {
        lemma_assoc_get_absent(table_model(*t), name@);
    }
    None
}

/// Records `s` under its name, overwriting in place any schema of that name.
pub fn table_upsert(t: &mut SchemaTable, s: Schema)
    ensures
        table_model(*final(t)) == assoc_upsert(
            table_model(*old(t)),
            s.name@,
            fields_model(s.fields@),
        ),
{
    let ghost m0 = table_model(*old(t));
    let ghost key = s.name@;
    let ghost fm = fields_model(s.fields@);
    let n: usize = t.schemas.len();
    let mut idx: usize = n;
    let mut i: usize = 0;
    while i < n
        invariant
            t.schemas@ == old(t).schemas@,
            key == s.name@,
            n == t.schemas@.len(),
            i <= n,
            idx == n || (idx < i && table_model(*t)[idx as int].0 == key),
            forall|j: int|
                0 <= j < i && j < idx ==> (#[trigger] table_model(*t)[j]).0 != key,
        decreases n - i,
    {
        if idx == n && t.schemas[i].name == s.name {
            idx = i;
        }
        i = i + 1;
    }
    if idx < n {
        t.schemas.set(idx, s);
        proof {
            lemma_assoc_upsert_found(m0, key, fm, idx as int);
            assert(table_model(*t) =~= m0.update(idx as int, (key, fm)));
        }
    } else {
        t.schemas.push(s);
        proof {
            lemma_assoc_upsert_absent(m0, key, fm);
            assert(table_model(*t) =~= m0.push((key, fm)));
        }
    }
}

} // verus!
