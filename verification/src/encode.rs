//! The encoder: renders values positionally against a schema.
//!
//! A row is its schema's fields in order, joined by `,`.  A field holding a
//! nested record is wrapped in `(...)`; a list joins its elements with `" ; "`
//! inside `[...]`; a scalar is `_` for null, `true`/`false`, the decimal text
//! of a number, and for strings either the raw text (when every character is
//! a decimal digit) or a quoted, escaped literal.

use crate::model::{
    assoc_get, height, lemma_max_height_bound, lemma_member_get_height, max_height,
    max_member_height, ValueModel,
};
use crate::schema::{
    fields_model, table_model, table_get, type_model, type_text, BaseType, BaseTypeModel,
    FieldType, Schema, SchemaField, SchemaTable, TypeModel,
};
use crate::builder::{build_all_schemas, spec_build, spec_root_objects};
use crate::error::AonError;
use crate::text::{
    all_digits, chars_to_string, dec_digits, push_i64_digits, push_str_chars, push_usize_digits,
    spec_int_text, str_to_chars,
};
use crate::value::{
    lemma_list_model_props, list_model, members_get, members_model, value_model, Value,
};
use vstd::prelude::*;
use vstd::string::*;

verus! {

/// How one character appears inside a quoted string literal.
pub open spec fn escape_char(c: char) -> Seq<char> {
    if c == '"' {
        "\\\""@
    } else if c == '\\' {
        "\\\\"@
    } else if c == '\n' {
        "\\n"@
    } else if c == '\r' {
        "\\r"@
    } else if c == '\t' {
        "\\t"@
    } else {
        seq![c]
    }
}

pub open spec fn escape_run(s: Seq<char>, n: int) -> Seq<char>
    decreases n,
{
    if n <= 0 {
        Seq::empty()
    } else {
        escape_run(s, n - 1) + escape_char(s[n - 1])
    }
}

/// A quoted, escaped string literal.
pub open spec fn quote_text(s: Seq<char>) -> Seq<char> {
    "\""@ + escape_run(s, s.len() as int) + "\""@
}

/// Scalar encoding: `_` for null and for composites that reach a scalar lane.
pub open spec fn spec_encode_scalar(v: ValueModel) -> Seq<char> {
    match v {
        ValueModel::Null => "_"@,
        ValueModel::Bool(b) => if b {
            "true"@
        } else {
            "false"@
        },
        ValueModel::Int(i) => spec_int_text(i),
        ValueModel::Text(s) => if all_digits(s) {
            s
        } else {
            quote_text(s)
        },
        ValueModel::List(_) => "_"@,
        ValueModel::Object(_) => "_"@,
    }
}

/// How an absent (or null) field encodes, by its declared type.
pub open spec fn spec_encode_field_absent(
    fname: Seq<char>,
    ty: TypeModel,
    table: Seq<(Seq<char>, Seq<(Seq<char>, TypeModel)>)>,
) -> Seq<char> {
    if ty.list_depth == 0 {
        match ty.base {
            BaseTypeModel::Ref(n) => if n == fname {
                match assoc_get(table, n) {
                    Some(_) => "(_)"@,
                    None => "_"@,
                }
            } else {
                "_"@
            },
            _ => "_"@,
        }
    } else {
        "[]"@
    }
}

/// Encoding of one field's value against its declared type.  A reference type
/// marks a nested record only when it names the field itself; a list of a
/// resolvable reference holds nested records, any other list holds scalars.
pub open spec fn spec_encode_field(
    val: ValueModel,
    fname: Seq<char>,
    ty: TypeModel,
    table: Seq<(Seq<char>, Seq<(Seq<char>, TypeModel)>)>,
) -> Seq<char>
    decreases height(val), 1nat, 0nat,
    via spec_encode_field_dec
{
    if ty.list_depth == 0 {
        match ty.base {
            BaseTypeModel::Ref(n) => {
                if n == fname {
                    match assoc_get(table, n) {
                        Some(flds) => "("@ + (match val {
                            ValueModel::Object(ms) => row_run(ms, flds, flds.len() as int, table),
                            _ => "_"@,
                        }) + ")"@,
                        None => "_"@,
                    }
                } else {
                    spec_encode_scalar(val)
                }
            },
            _ => spec_encode_scalar(val),
        }
    } else {
        let sub = if ty.list_depth == 1 {
            match ty.base {
                BaseTypeModel::Ref(n) => assoc_get(table, n),
                _ => None,
            }
        } else {
            None
        };
        match sub {
            Some(flds) => match val {
                ValueModel::List(items) => "["@ + join_sub_run(
                    items,
                    flds,
                    items.len() as int,
                    table,
                ) + "]"@,
                _ => "[]"@,
            },
            None => match val {
                ValueModel::List(items) => "["@ + join_scalar_run(items, items.len() as int)
                    + "]"@,
                _ => "[]"@,
            },
        }
    }
}

#[via_fn]
proof fn spec_encode_field_dec(
    val: ValueModel,
    fname: Seq<char>,
    ty: TypeModel,
    table: Seq<(Seq<char>, Seq<(Seq<char>, TypeModel)>)>,
) {
    match val {
        ValueModel::Object(ms) => {
            assert(height(val) == 1 + max_member_height(ms));
        },
        ValueModel::List(items) => {
            assert(height(val) == 1 + max_height(items));
        },
        _ => {},
    }
}

/// The first `n` fields of a row, in order, joined by `,`.
pub open spec fn row_run(
    ms: Seq<(Seq<char>, ValueModel)>,
    fields: Seq<(Seq<char>, TypeModel)>,
    n: int,
    table: Seq<(Seq<char>, Seq<(Seq<char>, TypeModel)>)>,
) -> Seq<char>
    decreases max_member_height(ms) + 1, 0nat, n,
    via row_run_dec
{
    if n <= 0 {
        Seq::empty()
    } else {
        let part = match assoc_get(ms, fields[n - 1].0) {
            Some(val) => spec_encode_field(val, fields[n - 1].0, fields[n - 1].1, table),
            None => spec_encode_field_absent(fields[n - 1].0, fields[n - 1].1, table),
        };
        if n == 1 {
            part
        } else {
            row_run(ms, fields, n - 1, table) + ","@ + part
        }
    }
}

#[via_fn]
proof fn row_run_dec(
    ms: Seq<(Seq<char>, ValueModel)>,
    fields: Seq<(Seq<char>, TypeModel)>,
    n: int,
    table: Seq<(Seq<char>, Seq<(Seq<char>, TypeModel)>)>,
) {
    if n > 0 {
        lemma_member_get_height(ms, fields[n - 1].0);
    }
}

/// The first `n` elements of a list of nested records, each encoded against
/// `flds` inside `(...)`, joined by `" ; "`.
pub open spec fn join_sub_run(
    items: Seq<ValueModel>,
    flds: Seq<(Seq<char>, TypeModel)>,
    n: int,
    table: Seq<(Seq<char>, Seq<(Seq<char>, TypeModel)>)>,
) -> Seq<char>
    decreases max_height(items) + 1, 0nat, n,
    when 0 <= n <= items.len()
    via join_sub_run_dec
{
    if n <= 0 {
        Seq::empty()
    } else {
        let t = "("@ + (match items[n - 1] {
            ValueModel::Object(ms) => row_run(ms, flds, flds.len() as int, table),
            _ => "_"@,
        }) + ")"@;
        if n == 1 {
            t
        } else {
            join_sub_run(items, flds, n - 1, table) + " ; "@ + t
        }
    }
}

#[via_fn]
proof fn join_sub_run_dec(
    items: Seq<ValueModel>,
    flds: Seq<(Seq<char>, TypeModel)>,
    n: int,
    table: Seq<(Seq<char>, Seq<(Seq<char>, TypeModel)>)>,
) {
    if 0 < n <= items.len() {
        lemma_max_height_bound(items, n - 1);
    }
}

/// The first `n` elements of a scalar list, joined by `" ; "`.
pub open spec fn join_scalar_run(items: Seq<ValueModel>, n: int) -> Seq<char>
    decreases n,
{
    if n <= 0 {
        Seq::empty()
    } else if n == 1 {
        spec_encode_scalar(items[0])
    } else {
        join_scalar_run(items, n - 1) + " ; "@ + spec_encode_scalar(items[n - 1])
    }
}

/// A whole row: the fields joined by `,` when the value is an object, a bare
/// `_` otherwise.
pub open spec fn spec_encode_row(
    v: ValueModel,
    fields: Seq<(Seq<char>, TypeModel)>,
    table: Seq<(Seq<char>, Seq<(Seq<char>, TypeModel)>)>,
) -> Seq<char> {
    match v {
        ValueModel::Object(ms) => row_run(ms, fields, fields.len() as int, table),
        _ => "_"@,
    }
}

fn chars_all_digits(s: &str) -> (b: bool)
    ensures
        b == all_digits(s@),
{
    let len: usize = s.unicode_len();
    let mut i: usize = 0;
    while i < len
        invariant
            len == s@.len(),
            i <= len,
            forall|j: int| 0 <= j < i ==> crate::text::is_digit(s@[j]),
        decreases len - i,
    {
        if !crate::text::is_digit_char(s.get_char(i)) {
            return false;
        }
        i = i + 1;
    }
    true
}

fn push_escaped(out: &mut Vec<char>, s: &str)
    ensures
        final(out)@ == old(out)@ + escape_run(s@, s@.len() as int),
{
    let len: usize = s.unicode_len();
    let mut i: usize = 0;
    proof {
        assert(out@ =~= old(out)@ + escape_run(s@, 0));
    }
    while i < len
        invariant
            len == s@.len(),
            i <= len,
            out@ == old(out)@ + escape_run(s@, i as int),
        decreases len - i,
    {
        let c = s.get_char(i);
        if c == '"' {
            push_str_chars(out, "\\\"");
        } else if c == '\\' {
            push_str_chars(out, "\\\\");
        } else if c == '\n' {
            push_str_chars(out, "\\n");
        } else if c == '\r' {
            push_str_chars(out, "\\r");
        } else if c == '\t' {
            push_str_chars(out, "\\t");
        } else {
            out.push(c);
        }
        i = i + 1;
        proof {
            assert(out@ =~= old(out)@ + escape_run(s@, i as int));
        }
    }
}

/// Appends the scalar encoding of `v`.
pub fn push_scalar(out: &mut Vec<char>, v: &Value)
    ensures
        final(out)@ == old(out)@ + spec_encode_scalar(value_model(*v)),
{
    match v {
        Value::Null => push_str_chars(out, "_"),
        Value::Bool(b) => if *b {
            push_str_chars(out, "true")
        } else {
            push_str_chars(out, "false")
        },
        Value::Num(n) => push_i64_digits(out, *n),
        Value::Text(s) => {
            if chars_all_digits(s.as_str()) {
                push_str_chars(out, s.as_str());
            } else {
                push_str_chars(out, "\"");
                push_escaped(out, s.as_str());
                push_str_chars(out, "\"");
                proof {
                    assert(out@ =~= old(out)@ + quote_text(s@));
                }
            }
        },
        Value::List(_) => push_str_chars(out, "_"),
        Value::Object(_) => push_str_chars(out, "_"),
    }
}

/// Encodes the scalar form of a value, as the row encoder's scalar lane does.
pub fn encode_value(v: &Value) -> (r: String)
    ensures
        r@ == spec_encode_scalar(value_model(*v)),
{
    let mut out: Vec<char> = Vec::new();
    push_scalar(&mut out, v);
    chars_to_string(&out)
}

fn push_field_absent(out: &mut Vec<char>, fname: &String, ty: &FieldType, table: &SchemaTable)
    ensures
        final(out)@ == old(out)@ + spec_encode_field_absent(
            fname@,
            type_model(*ty),
            table_model(*table),
        ),
{
    if ty.list_depth == 0 {
        match &ty.base {
            BaseType::Ref(n) => {
                if *n == *fname {
                    match table_get(table, n) {
                        Some(_) => push_str_chars(out, "(_)"),
                        None => push_str_chars(out, "_"),
                    }
                } else {
                    push_str_chars(out, "_");
                }
            },
            _ => push_str_chars(out, "_"),
        }
    } else {
        push_str_chars(out, "[]");
    }
}

fn push_field(out: &mut Vec<char>, val: &Value, fname: &String, ty: &FieldType, table: &SchemaTable)
    ensures
        final(out)@ == old(out)@ + spec_encode_field(
            value_model(*val),
            fname@,
            type_model(*ty),
            table_model(*table),
        ),
    decreases height(value_model(*val)), 1nat,
{
    if ty.list_depth == 0 {
        match &ty.base {
            BaseType::Ref(n) => {
                if *n == *fname {
                    match table_get(table, n) {
                        Some(sub) => {
                            push_str_chars(out, "(");
                            push_row(out, val, &sub.fields, table);
                            push_str_chars(out, ")");
                            proof {
                                assert(out@ =~= old(out)@ + spec_encode_field(
                                    value_model(*val),
                                    fname@,
                                    type_model(*ty),
                                    table_model(*table),
                                ));
                            }
                        },
                        None => push_str_chars(out, "_"),
                    }
                } else {
                    push_scalar(out, val);
                }
            },
            _ => push_scalar(out, val),
        }
    } else {
        let sub: Option<&Schema> = if ty.list_depth == 1 {
            match &ty.base {
                BaseType::Ref(n) => table_get(table, n),
                _ => None,
            }
        } else {
            None
        };
        match sub {
            Some(subs) => {
                match val {
                    Value::List(items) => {
                        let ghost flds = fields_model(subs.fields@);
                        let ghost tm = table_model(*table);
                        push_str_chars(out, "[");
                        let ghost base = out@;
                        let n: usize = items.len();
                        let mut i: usize = 0;
                        while i < n
                            invariant
                                value_model(*val) == ValueModel::List(list_model(items@)),
                                n == items@.len(),
                                i <= n,
                                flds == fields_model(subs.fields@),
                                tm == table_model(*table),
                                base == out@.subrange(0, base.len() as int),
                                out@ == base + join_sub_run(list_model(items@), flds, i as int, tm),
                            decreases n - i,
                        {
                            proof {
                                broadcast use lemma_list_model_props;

                            }
                            if i > 0 {
                                push_str_chars(out, " ; ");
                            }
                            push_str_chars(out, "(");
                            proof {
                                lemma_max_height_bound(list_model(items@), i as int);
                                assert(height(value_model(items@[i as int])) < height(
                                    value_model(*val),
                                ));
                            }
                            push_row(out, &items[i], &subs.fields, table);
                            push_str_chars(out, ")");
                            i = i + 1;
                            proof {
                                assert(out@ =~= base + join_sub_run(
                                    list_model(items@),
                                    flds,
                                    i as int,
                                    tm,
                                ));
                            }
                        }
                        push_str_chars(out, "]");
                        proof {
                            broadcast use lemma_list_model_props;

                            assert(out@ =~= old(out)@ + spec_encode_field(
                                value_model(*val),
                                fname@,
                                type_model(*ty),
                                table_model(*table),
                            ));
                        }
                    },
                    _ => push_str_chars(out, "[]"),
                }
            },
            None => {
                match val {
                    Value::List(items) => {
                        push_str_chars(out, "[");
                        let ghost base = out@;
                        let n: usize = items.len();
                        let mut i: usize = 0;
                        while i < n
                            invariant
                                value_model(*val) == ValueModel::List(list_model(items@)),
                                n == items@.len(),
                                i <= n,
                                out@ == base + join_scalar_run(list_model(items@), i as int),
                            decreases n - i,
                        {
                            proof {
                                broadcast use lemma_list_model_props;

                            }
                            if i > 0 {
                                push_str_chars(out, " ; ");
                            }
                            push_scalar(out, &items[i]);
                            i = i + 1;
                            proof {
                                assert(out@ =~= base + join_scalar_run(
                                    list_model(items@),
                                    i as int,
                                ));
                            }
                        }
                        push_str_chars(out, "]");
                        proof {
                            broadcast use lemma_list_model_props;

                            assert(out@ =~= old(out)@ + spec_encode_field(
                                value_model(*val),
                                fname@,
                                type_model(*ty),
                                table_model(*table),
                            ));
                        }
                    },
                    _ => push_str_chars(out, "[]"),
                }
            },
        }
    }
}

fn push_row(out: &mut Vec<char>, v: &Value, fields: &Vec<SchemaField>, table: &SchemaTable)
    ensures
        final(out)@ == old(out)@ + spec_encode_row(
            value_model(*v),
            fields_model(fields@),
            table_model(*table),
        ),
    decreases height(value_model(*v)), 0nat,
{
    match v {
        Value::Object(ms) => {
            let n: usize = fields.len();
            let mut i: usize = 0;
            while i < n
                invariant
                    value_model(*v) == ValueModel::Object(members_model(ms@)),
                    n == fields@.len(),
                    i <= n,
                    out@ == old(out)@ + row_run(
                        members_model(ms@),
                        fields_model(fields@),
                        i as int,
                        table_model(*table),
                    ),
                decreases n - i,
            {
                if i > 0 {
                    push_str_chars(out, ",");
                }
                let fname = &fields[i].name;
                match members_get(ms, fname) {
                    Some(val) => {
                        proof {
                            lemma_member_get_height(members_model(ms@), fname@);
                            assert(height(value_model(*val)) < height(value_model(*v)));
                        }
                        push_field(out, val, fname, &fields[i].ty, table);
                    },
                    None => {
                        push_field_absent(out, fname, &fields[i].ty, table);
                    },
                }
                i = i + 1;
                proof {
                    assert(out@ =~= old(out)@ + row_run(
                        members_model(ms@),
                        fields_model(fields@),
                        i as int,
                        table_model(*table),
                    ));
                }
            }
        },
        _ => push_str_chars(out, "_"),
    }
}

/// Renders one data row of `obj` against `schema`, resolving nested shapes
/// through `table`.
pub fn encode_object_with_schema(obj: &Value, schema: &Schema, table: &SchemaTable) -> (r: String)
    ensures
        r@ == spec_encode_row(value_model(*obj), fields_model(schema.fields@), table_model(*table)),
{
    let mut out: Vec<char> = Vec::new();
    push_row(&mut out, obj, &schema.fields, table);
    chars_to_string(&out)
}

/// The first `n` field declarations of a schema header line, joined by `,`.
pub open spec fn field_decl_run(fields: Seq<(Seq<char>, TypeModel)>, n: int) -> Seq<char>
    decreases n,
{
    if n <= 0 {
        Seq::empty()
    } else {
        let d = fields[n - 1].0 + ":"@ + type_text(fields[n - 1].1);
        if n == 1 {
            d
        } else {
            field_decl_run(fields, n - 1) + ","@ + d
        }
    }
}

/// One schema's header line.
pub open spec fn schema_line(name: Seq<char>, fields: Seq<(Seq<char>, TypeModel)>) -> Seq<char> {
    "  "@ + name + ":("@ + field_decl_run(fields, fields.len() as int) + ")"@ + "\n"@
}

/// Header lines of every schema but the root, in table order.
pub open spec fn non_root_run(
    table: Seq<(Seq<char>, Seq<(Seq<char>, TypeModel)>)>,
    root: Seq<char>,
    n: int,
) -> Seq<char>
    decreases n,
{
    if n <= 0 {
        Seq::empty()
    } else {
        non_root_run(table, root, n - 1) + (if table[n - 1].0 == root {
            Seq::<char>::empty()
        } else {
            schema_line(table[n - 1].0, table[n - 1].1)
        })
    }
}

/// The emitted schemas block: the root schema's line always comes first,
/// whatever position the table holds it at; the rest follow in table order.
pub open spec fn spec_schemas_block(
    table: Seq<(Seq<char>, Seq<(Seq<char>, TypeModel)>)>,
    root: Seq<char>,
) -> Seq<char> {
    match assoc_get(table, root) {
        Some(f) => schema_line(root, f) + non_root_run(table, root, table.len() as int),
        None => non_root_run(table, root, table.len() as int),
    }
}

/// The first `n` data rows, each encoded against the root schema and
/// newline-terminated.
pub open spec fn rows_run(
    rows: Seq<ValueModel>,
    n: int,
    rootf: Seq<(Seq<char>, TypeModel)>,
    table: Seq<(Seq<char>, Seq<(Seq<char>, TypeModel)>)>,
) -> Seq<char>
    decreases n,
{
    if n <= 0 {
        Seq::empty()
    } else {
        rows_run(rows, n - 1, rootf, table) + spec_encode_row(rows[n - 1], rootf, table) + "\n"@
    }
}

/// What converting a document to notation text yields: the header, one line
/// per row, and the terminating marker — or the error the document earns.
pub open spec fn spec_json_to_aon(v: ValueModel, root: Seq<char>) -> Result<Seq<char>, AonError> {
    if !(v is Object || v is List) {
        Err(AonError::NonComposite)
    } else {
        let rows = match v {
            ValueModel::List(items) => items,
            _ => seq![v],
        };
        if rows.len() == 0 {
            Err(AonError::EmptyInput)
        } else {
            let table = spec_build(v, root);
            match assoc_get(table, root) {
                None => Err(AonError::RootSchemaMissing),
                Some(rootf) => Ok(
                    "!aon\n"@ + "count:"@ + dec_digits(rows.len()) + "\n"@ + "schemas:{\n"@
                        + spec_schemas_block(table, root) + "}\n"@ + "data:\n"@ + rows_run(
                        rows,
                        rows.len() as int,
                        rootf,
                        table,
                    ) + "end\n"@,
                ),
            }
        }
    }
}

fn push_schema_line(out: &mut Vec<char>, schema: &Schema)
    ensures
        final(out)@ == old(out)@ + schema_line(schema.name@, fields_model(schema.fields@)),
{
    push_str_chars(out, "  ");
    push_str_chars(out, schema.name.as_str());
    push_str_chars(out, ":(");
    let ghost flds = fields_model(schema.fields@);
    let ghost base = out@;
    let n: usize = schema.fields.len();
    let mut i: usize = 0;
    while i < n
        invariant
            flds == fields_model(schema.fields@),
            n == schema.fields@.len(),
            i <= n,
            out@ == base + field_decl_run(flds, i as int),
        decreases n - i,
    {
        if i > 0 {
            push_str_chars(out, ",");
        }
        push_str_chars(out, schema.fields[i].name.as_str());
        push_str_chars(out, ":");
        crate::schema::push_type_text(out, &schema.fields[i].ty);
        i = i + 1;
        proof {
            assert(out@ =~= base + field_decl_run(flds, i as int));
        }
    }
    push_str_chars(out, ")");
    push_str_chars(out, "\n");
    proof {
        assert(out@ =~= old(out)@ + schema_line(schema.name@, fields_model(schema.fields@)));
    }
}

/// Converts a document to notation text under the given root schema name.
/// The root must be an object or a non-empty collection; the header lists
/// the root schema first, then every other discovered schema.
pub fn json_to_aon(json: &Value, root_name: &str) -> (r: Result<String, AonError>)
    ensures
        match r {
            Ok(out) => spec_json_to_aon(value_model(*json), root_name@) == Ok::<
                Seq<char>,
                AonError,
            >(out@),
            Err(e) => spec_json_to_aon(value_model(*json), root_name@) == Err::<
                Seq<char>,
                AonError,
            >(e),
        },
        r == Err::<String, AonError>(AonError::NonComposite) <==> !(value_model(*json) is Object
            || value_model(*json) is List),
        r == Err::<String, AonError>(AonError::EmptyInput) <==> (value_model(*json) is List
            && spec_root_objects(value_model(*json)).len() == 0),
        r is Ok <==> ((value_model(*json) is Object || value_model(*json) is List)
            && spec_root_objects(value_model(*json)).len() > 0),
{
    broadcast use crate::value::lemma_list_model_props;

    match json {
        Value::List(_) => {},
        Value::Object(_) => {},
        _ => {
            return Err(AonError::NonComposite);
        },
    }
    match json {
        Value::List(items) => {
            if items.len() == 0 {
                return Err(AonError::EmptyInput);
            }
        },
        _ => {},
    }
    let table = build_all_schemas(json, root_name);
    let rootc = str_to_chars(root_name);
    let root_s = chars_to_string(&rootc);
    let ghost vm = value_model(*json);
    let ghost tm = table_model(table);
    match table_get(&table, &root_s) {
        None => {
            proof {
                crate::builder::lemma_build_root_present(vm, root_name@);
                assert(false);
            }
            Err(AonError::RootSchemaMissing)
        },
        Some(root_schema) => {
            let ghost rootf = fields_model(root_schema.fields@);
            let nrows: usize = match json {
                Value::List(items) => items.len(),
                _ => 1,
            };
            let mut out: Vec<char> = Vec::new();
            push_str_chars(&mut out, "!aon\n");
            push_str_chars(&mut out, "count:");
            push_usize_digits(&mut out, nrows);
            push_str_chars(&mut out, "\n");
            push_str_chars(&mut out, "schemas:{\n");
            push_schema_line(&mut out, root_schema);
            let ghost base = out@;
            let ns: usize = table.schemas.len();
            let mut i: usize = 0;
            proof {
                assert(out@ =~= base + non_root_run(tm, root_name@, 0));
            }
            while i < ns
                invariant
                    tm == table_model(table),
                    root_s@ == root_name@,
                    ns == table.schemas@.len(),
                    i <= ns,
                    out@ == base + non_root_run(tm, root_name@, i as int),
                decreases ns - i,
            {
                if !(table.schemas[i].name == root_s) {
                    push_schema_line(&mut out, &table.schemas[i]);
                }
                i = i + 1;
                proof {
                    assert(out@ =~= base + non_root_run(tm, root_name@, i as int));
                }
            }
            push_str_chars(&mut out, "}\n");
            push_str_chars(&mut out, "data:\n");
            let ghost base2 = out@;
            match json {
                Value::List(items) => {
                    let m: usize = items.len();
                    let mut k: usize = 0;
                    proof {
                        assert(out@ =~= base2 + rows_run(list_model(items@), 0, rootf, tm));
                    }
                    while k < m
                        invariant
                            vm == ValueModel::List(list_model(items@)),
                            tm == table_model(table),
                            rootf == fields_model(root_schema.fields@),
                            m == items@.len(),
                            k <= m,
                            out@ == base2 + rows_run(list_model(items@), k as int, rootf, tm),
                        decreases m - k,
                    {
                        proof {
                            broadcast use crate::value::lemma_list_model_props;

                        }
                        push_row(&mut out, &items[k], &root_schema.fields, &table);
                        push_str_chars(&mut out, "\n");
                        k = k + 1;
                        proof {
                            assert(out@ =~= base2 + rows_run(
                                list_model(items@),
                                k as int,
                                rootf,
                                tm,
                            ));
                        }
                    }
                },
                _ => {
                    push_row(&mut out, json, &root_schema.fields, &table);
                    push_str_chars(&mut out, "\n");
                    proof {
                        assert(rows_run(seq![vm], 0, rootf, tm) == Seq::<char>::empty());
                        assert(seq![vm][0] == vm);
                        assert(out@ =~= base2 + spec_encode_row(vm, rootf, tm) + "\n"@);
                        assert(out@ =~= base2 + rows_run(seq![vm], 1, rootf, tm));
                    }
                },
            }
            push_str_chars(&mut out, "end\n");
            proof {
                assert(spec_json_to_aon(vm, root_name@) == Ok::<Seq<char>, AonError>(out@)) by {
                    let rows = match vm {
                        ValueModel::List(items) => items,
                        _ => seq![vm],
                    };
                    assert(rows.len() == nrows);
                    assert(out@ =~= "!aon\n"@ + "count:"@ + dec_digits(rows.len()) + "\n"@
                        + "schemas:{\n"@ + spec_schemas_block(tm, root_name@) + "}\n"@
                        + "data:\n"@ + rows_run(rows, rows.len() as int, rootf, tm) + "end\n"@);
                }
            }
            Ok(chars_to_string(&out))
        },
    }
}

} // verus!
