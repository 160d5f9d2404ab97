//! The tokenizer/decoder: parses notation text back into a schema table and
//! data rows, then reconstructs values positionally.
//!
//! Decoding a lane is deliberately lenient: `_` is null whatever the type,
//! anything but `true` is false in a boolean lane, unparsable numbers decode
//! to null, a reference that resolves to no schema falls back to string
//! decoding, and a list or record lane without its delimiters yields an empty
//! list or null.  Only the root row's field count is checked.

use crate::model::{assoc_get, assoc_upsert, ValueModel};
use crate::schema::{
    fields_model, spec_parse_type, table_get, table_model, table_upsert, type_model, BaseType, FieldType, Schema,
    SchemaField, SchemaTable, TypeModel,
};
use crate::text::{
    chars_eq_str, chars_to_string, lemma_split_parts_len, lemma_trim_len,
    parse_i64_chars, seqs_of, spec_parse_i64, spec_split, spec_trim, split_top_level, trim_chars,
};
use crate::value::{members_model, members_upsert, value_model, Member, Value};
use vstd::prelude::*;
use vstd::slice::{slice_subrange, slice_to_vec};

verus! {

/// Longest sequence among `parts`.
pub open spec fn max_seq_len(parts: Seq<Seq<char>>) -> nat
    decreases parts.len(),
{
    if parts.len() == 0 {
        0
    } else {
        let rest = max_seq_len(parts.subrange(1, parts.len() as int));
        if parts[0].len() > rest {
            parts[0].len()
        } else {
            rest
        }
    }
}

proof fn lemma_max_seq_len_le(parts: Seq<Seq<char>>, b: nat)
    requires
        forall|i: int| 0 <= i < parts.len() ==> (#[trigger] parts[i]).len() <= b,
    ensures
        max_seq_len(parts) <= b,
    decreases parts.len(),
{
    if parts.len() > 0 {
        let rest = parts.subrange(1, parts.len() as int);
        assert(forall|i: int| 0 <= i < rest.len() ==> (#[trigger] rest[i]).len() <= b) by {
            assert(forall|i: int|
                0 <= i < rest.len() ==> rest[i] == parts[i + 1] && (#[trigger] rest[i]).len()
                    == parts[i + 1].len());
        }
        lemma_max_seq_len_le(rest, b);
    }
}

proof fn lemma_max_seq_len_ge(parts: Seq<Seq<char>>, i: int)
    requires
        0 <= i < parts.len(),
    ensures
        parts[i].len() <= max_seq_len(parts),
    decreases parts.len(),
{
    if i > 0 {
        let rest = parts.subrange(1, parts.len() as int);
        lemma_max_seq_len_ge(rest, i - 1);
        assert(rest[i - 1] == parts[i]);
    }
}

/// Every top-level part of the bracket-stripped interior of `s` is at least
/// two characters shorter than `s` itself.
proof fn lemma_interior_parts_shorter(s: Seq<char>, inner: Seq<char>, delim: char)
    requires
        inner.len() + 2 <= s.len(),
    ensures
        max_seq_len(spec_split(inner, delim)) + 2 <= s.len(),
{
    lemma_split_parts_len(inner, delim);
    lemma_max_seq_len_le(spec_split(inner, delim), inner.len());
}

/// What decoding one lane of text against a type yields.
pub open spec fn spec_decode_value(
    ty: TypeModel,
    s: Seq<char>,
    table: Seq<(Seq<char>, Seq<(Seq<char>, TypeModel)>)>,
) -> ValueModel
    decreases s.len(), 1nat, 0nat,
    via spec_decode_value_dec
{
    let st = spec_trim(s);
    if st == "_"@ {
        ValueModel::Null
    } else if ty.list_depth == 0 {
        match ty.base {
            crate::schema::BaseTypeModel::Boolean => ValueModel::Bool(st == "true"@),
            crate::schema::BaseTypeModel::Number => match spec_parse_i64(st) {
                Some(n) => ValueModel::Int(n as int),
                None => ValueModel::Null,
            },
            crate::schema::BaseTypeModel::Text => if st.len() >= 2 && st[0] == '"' && st[st.len()
                - 1] == '"' {
                ValueModel::Text(st.subrange(1, st.len() - 1))
            } else {
                ValueModel::Text(st)
            },
            crate::schema::BaseTypeModel::Ref(nm) => match assoc_get(table, nm) {
                Some(flds) => {
                    if st.len() >= 1 && st[0] == '(' && st[st.len() - 1] == ')' {
                        let parts = spec_split(st.subrange(1, st.len() - 1), ',');
                        let k = if parts.len() < flds.len() {
                            parts.len() as int
                        } else {
                            flds.len() as int
                        };
                        ValueModel::Object(spec_decode_obj_run(parts, flds, k, table, s.len()))
                    } else {
                        ValueModel::Null
                    }
                },
                None => ValueModel::Text(st),
            },
        }
    } else {
        if st.len() >= 1 && st[0] == '[' && st[st.len() - 1] == ']' {
            let inner = spec_trim(st.subrange(1, st.len() - 1));
            if inner.len() == 0 {
                ValueModel::List(Seq::empty())
            } else {
                let parts = spec_split(inner, ';');
                let inner_ty = TypeModel {
                    base: ty.base,
                    list_depth: (ty.list_depth - 1) as nat,
                };
                ValueModel::List(
                    spec_decode_items(inner_ty, parts, parts.len() as int, table, s.len()),
                )
            }
        } else {
            ValueModel::List(Seq::empty())
        }
    }
}

#[via_fn]
proof fn spec_decode_value_dec(
    ty: TypeModel,
    s: Seq<char>,
    table: Seq<(Seq<char>, Seq<(Seq<char>, TypeModel)>)>,
) {
    let st = spec_trim(s);
    lemma_trim_len(s);
    if st.len() >= 2 {
        lemma_trim_len(st.subrange(1, st.len() - 1));
        lemma_interior_parts_shorter(st, st.subrange(1, st.len() - 1), ',');
        lemma_interior_parts_shorter(st, spec_trim(st.subrange(1, st.len() - 1)), ';');
    }
}

/// The first `n` list elements, each decoded as `ty`.
pub open spec fn spec_decode_items(
    ty: TypeModel,
    parts: Seq<Seq<char>>,
    n: int,
    table: Seq<(Seq<char>, Seq<(Seq<char>, TypeModel)>)>,
    bound: nat,
) -> Seq<ValueModel>
    decreases bound, 0nat, n,
    when 0 <= n <= parts.len() && max_seq_len(parts) < bound
    via spec_decode_items_dec
{
    if n <= 0 {
        Seq::empty()
    } else {
        spec_decode_items(ty, parts, n - 1, table, bound).push(
            spec_decode_value(ty, parts[n - 1], table),
        )
    }
}

#[via_fn]
proof fn spec_decode_items_dec(
    ty: TypeModel,
    parts: Seq<Seq<char>>,
    n: int,
    table: Seq<(Seq<char>, Seq<(Seq<char>, TypeModel)>)>,
    bound: nat,
) {
    if 0 < n <= parts.len() {
        lemma_max_seq_len_ge(parts, n - 1);
    }
}

/// The object the first `k` (field, part) pairs decode to, later bindings of
/// a repeated field name overwriting earlier ones.
pub open spec fn spec_decode_obj_run(
    parts: Seq<Seq<char>>,
    fields: Seq<(Seq<char>, TypeModel)>,
    k: int,
    table: Seq<(Seq<char>, Seq<(Seq<char>, TypeModel)>)>,
    bound: nat,
) -> Seq<(Seq<char>, ValueModel)>
    decreases bound, 0nat, k,
    when 0 <= k <= parts.len() && max_seq_len(parts) < bound
    via spec_decode_obj_run_dec
{
    if k <= 0 {
        Seq::empty()
    } else {
        assoc_upsert(
            spec_decode_obj_run(parts, fields, k - 1, table, bound),
            fields[k - 1].0,
            spec_decode_value(fields[k - 1].1, parts[k - 1], table),
        )
    }
}

#[via_fn]
proof fn spec_decode_obj_run_dec(
    parts: Seq<Seq<char>>,
    fields: Seq<(Seq<char>, TypeModel)>,
    k: int,
    table: Seq<(Seq<char>, Seq<(Seq<char>, TypeModel)>)>,
    bound: nat,
) {
    if 0 < k <= parts.len() {
        lemma_max_seq_len_ge(parts, k - 1);
    }
}

/// Decodes one lane of text against a declared type, resolving schema
/// references through `table`.
pub fn decode_value(ty: &FieldType, s: &[char], table: &SchemaTable) -> (r: Value)
    ensures
        value_model(r) == spec_decode_value(type_model(*ty), s@, table_model(*table)),
    decreases s@.len(),
{
    let st = trim_chars(s);
    proof {
        lemma_trim_len(s@);
    }
    if chars_eq_str(st.as_slice(), "_") {
        return Value::Null;
    }
    if ty.list_depth == 0 {
        match &ty.base {
            BaseType::Boolean => Value::Bool(chars_eq_str(st.as_slice(), "true")),
            BaseType::Number => match parse_i64_chars(st.as_slice()) {
                Some(n) => Value::Num(n),
                None => Value::Null,
            },
            BaseType::Text => {
                let n = st.len();
                if n >= 2 && st[0] == '"' && st[n - 1] == '"' {
                    let body = slice_to_vec(slice_subrange(st.as_slice(), 1, n - 1));
                    Value::Text(chars_to_string(&body))
                } else {
                    Value::Text(chars_to_string(&st))
                }
            },
            BaseType::Ref(nm) => {
                match table_get(table, nm) {
                    Some(sub) => {
                        let n = st.len();
                        if n >= 1 && st[0] == '(' && st[n - 1] == ')' {
                            let ghost inner = st@.subrange(1, st@.len() - 1);
                            let parts = split_top_level(
                                slice_subrange(st.as_slice(), 1, n - 1),
                                ',',
                            );
                            proof {
                                lemma_interior_parts_shorter(st@, inner, ',');
                            }
                            let ghost pm = seqs_of(parts@);
                            let ghost flds = fields_model(sub.fields@);
                            let ghost tm = table_model(*table);
                            let kmax: usize = if parts.len() < sub.fields.len() {
                                parts.len()
                            } else {
                                sub.fields.len()
                            };
                            let mut ms: Vec<Member> = Vec::new();
                            let mut k: usize = 0;
                            proof {
                                assert(members_model(ms@) =~= spec_decode_obj_run(
                                    pm,
                                    flds,
                                    0,
                                    tm,
                                    s@.len(),
                                ));
                            }
                            while k < kmax
                                invariant
                                    pm == seqs_of(parts@),
                                    flds == fields_model(sub.fields@),
                                    tm == table_model(*table),
                                    kmax <= parts@.len(),
                                    kmax <= sub.fields@.len(),
                                    max_seq_len(pm) < s@.len(),
                                    pm.len() == parts@.len(),
                                    k <= kmax,
                                    members_model(ms@) == spec_decode_obj_run(
                                        pm,
                                        flds,
                                        k as int,
                                        tm,
                                        s@.len(),
                                    ),
                                decreases kmax - k,
                            {
                                proof {
                                    lemma_max_seq_len_ge(pm, k as int);
                                    assert(pm[k as int] == parts@[k as int]@);
                                }
                                let v = decode_value(
                                    &sub.fields[k].ty,
                                    parts[k].as_slice(),
                                    table,
                                );
                                members_upsert(&mut ms, sub.fields[k].name.clone(), v);
                                k = k + 1;
                            }
                            Value::Object(ms)
                        } else {
                            Value::Null
                        }
                    },
                    None => Value::Text(chars_to_string(&st)),
                }
            },
        }
    } else {
        let n = st.len();
        if n >= 1 && st[0] == '[' && st[n - 1] == ']' {
            let inner = trim_chars(slice_subrange(st.as_slice(), 1, n - 1));
            if inner.len() == 0 {
                let items: Vec<Value> = Vec::new();
                proof {
                    assert(crate::value::list_model(items@) =~= Seq::<ValueModel>::empty());
                }
                Value::List(items)
            } else {
                let parts = split_top_level(inner.as_slice(), ';');
                proof {
                    lemma_trim_len(st@.subrange(1, st@.len() - 1));
                    lemma_interior_parts_shorter(st@, inner@, ';');
                }
                let inner_ty = FieldType {
                    base: crate::schema::clone_base(&ty.base),
                    list_depth: ty.list_depth - 1,
                };
                let ghost pm = seqs_of(parts@);
                let ghost tm = table_model(*table);
                let ghost itm = type_model(inner_ty);
                let m: usize = parts.len();
                let mut items: Vec<Value> = Vec::new();
                let mut i: usize = 0;
                proof {
                    assert(crate::value::list_model(items@) =~= spec_decode_items(
                        itm,
                        pm,
                        0,
                        tm,
                        s@.len(),
                    ));
                }
                while i < m
                    invariant
                        pm == seqs_of(parts@),
                        tm == table_model(*table),
                        itm == type_model(inner_ty),
                        max_seq_len(pm) < s@.len(),
                        m == parts@.len(),
                        pm.len() == m,
                        i <= m,
                        crate::value::list_model(items@) == spec_decode_items(
                            itm,
                            pm,
                            i as int,
                            tm,
                            s@.len(),
                        ),
                    decreases m - i,
                {
                    proof {
                        broadcast use crate::value::lemma_list_model_props;

                        lemma_max_seq_len_ge(pm, i as int);
                        assert(pm[i as int] == parts@[i as int]@);
                    }
                    let ghost ib = crate::value::list_model(items@);
                    let v = decode_value(&inner_ty, parts[i].as_slice(), table);
                    items.push(v);
                    proof {
                        broadcast use crate::value::lemma_list_model_props;

                        assert(crate::value::list_model(items@) =~= ib.push(
                            spec_decode_value(itm, pm[i as int], tm),
                        ));
                    }
                    i = i + 1;
                }
                Value::List(items)
            }
        } else {
            let items: Vec<Value> = Vec::new();
            proof {
                assert(crate::value::list_model(items@) =~= Seq::<ValueModel>::empty());
            }
            Value::List(items)
        }
    }
}

/// Plain split on a delimiter, as `str::split` has it: every segment is
/// kept, empty ones and the final one alike.
pub open spec fn plain_run(s: Seq<char>, n: int, delim: char) -> (Seq<Seq<char>>, Seq<char>)
    decreases n,
{
    if n <= 0 {
        (Seq::empty(), Seq::empty())
    } else {
        let prev = plain_run(s, n - 1, delim);
        if s[n - 1] == delim {
            (prev.0.push(prev.1), Seq::empty())
        } else {
            (prev.0, prev.1.push(s[n - 1]))
        }
    }
}

pub open spec fn plain_split(s: Seq<char>, delim: char) -> Seq<Seq<char>> {
    let last = plain_run(s, s.len() as int, delim);
    last.0.push(last.1)
}

fn plain_split_chars(s: &[char], delim: char) -> (r: Vec<Vec<char>>)
    ensures
        seqs_of(r@) == plain_split(s@, delim),
{
    let len: usize = s.len();
    let mut parts: Vec<Vec<char>> = Vec::new();
    let mut buf: Vec<char> = Vec::new();
    let mut i: usize = 0;
    proof {
        assert(seqs_of(parts@) =~= plain_run(s@, 0, delim).0);
        assert(buf@ =~= plain_run(s@, 0, delim).1);
    }
    while i < len
        invariant
            len == s@.len(),
            i <= len,
            seqs_of(parts@) == plain_run(s@, i as int, delim).0,
            buf@ == plain_run(s@, i as int, delim).1,
        decreases len - i,
    {
        let c = s[i];
        if c == delim {
            parts.push(buf);
            buf = Vec::new();
        } else {
            buf.push(c);
        }
        i = i + 1;
        proof {
            assert(seqs_of(parts@) =~= plain_run(s@, i as int, delim).0);
            assert(buf@ =~= plain_run(s@, i as int, delim).1);
        }
    }
    parts.push(buf);
    proof {
        assert(seqs_of(parts@) =~= plain_split(s@, delim));
    }
    parts
}

/// Index of the first `:` at or after `i`, or -1.
pub open spec fn find_colon_from(s: Seq<char>, i: int) -> int
    decreases s.len() - i,
    when 0 <= i <= s.len()
{
    if i >= s.len() {
        -1
    } else if s[i] == ':' {
        i
    } else {
        find_colon_from(s, i + 1)
    }
}

/// Index of the first `:(` at or after `i`, or -1.
pub open spec fn find_cp_from(s: Seq<char>, i: int) -> int
    decreases s.len() - i,
    when 0 <= i <= s.len()
{
    if i + 1 >= s.len() {
        -1
    } else if s[i] == ':' && s[i + 1] == '(' {
        i
    } else {
        find_cp_from(s, i + 1)
    }
}

fn find_colon_idx(s: &[char]) -> (r: Option<usize>)
    ensures
        match r {
            Some(i) => find_colon_from(s@, 0) == i as int && i < s@.len(),
            None => find_colon_from(s@, 0) == -1,
        },
{
    let len: usize = s.len();
    let mut i: usize = 0;
    while i < len
        invariant
            len == s@.len(),
            i <= len,
            find_colon_from(s@, 0) == find_colon_from(s@, i as int),
        decreases len - i,
    {
        if s[i] == ':' {
            return Some(i);
        }
        i = i + 1;
    }
    None
}

fn find_colon_paren_idx(s: &[char]) -> (r: Option<usize>)
    ensures
        match r {
            Some(i) => find_cp_from(s@, 0) == i as int && i + 1 < s@.len() && s@[i as int] == ':'
                && s@[i + 1] == '(',
            None => find_cp_from(s@, 0) == -1,
        },
{
    let len: usize = s.len();
    if len < 2 {
        return None;
    }
    let mut i: usize = 0;
    while i + 1 < len
        invariant
            len == s@.len(),
            i + 1 <= len,
            find_cp_from(s@, 0) == find_cp_from(s@, i as int),
        decreases len - i,
    {
        if s[i] == ':' && s[i + 1] == '(' {
            return Some(i);
        }
        i = i + 1;
    }
    None
}

/// The fields a schema header line's parenthesized body declares: each
/// `name:type` pair split at its first colon, pairs without a colon skipped.
pub open spec fn parse_fields_run(defs: Seq<Seq<char>>, n: int) -> Seq<(Seq<char>, TypeModel)>
    decreases n,
{
    if n <= 0 {
        Seq::empty()
    } else {
        let acc = parse_fields_run(defs, n - 1);
        let d = defs[n - 1];
        let c = find_colon_from(d, 0);
        if c < 0 {
            acc
        } else {
            acc.push(
                (
                    spec_trim(d.subrange(0, c)),
                    spec_parse_type(spec_trim(d.subrange(c + 1, d.len() as int))),
                ),
            )
        }
    }
}

fn parse_fields(defs: &Vec<Vec<char>>) -> (r: Vec<SchemaField>)
    ensures
        fields_model(r@) == parse_fields_run(seqs_of(defs@), defs@.len() as int),
{
    let n: usize = defs.len();
    let mut out: Vec<SchemaField> = Vec::new();
    let mut i: usize = 0;
    proof {
        assert(fields_model(out@) =~= parse_fields_run(seqs_of(defs@), 0));
    }
    while i < n
        invariant
            n == defs@.len(),
            i <= n,
            fields_model(out@) == parse_fields_run(seqs_of(defs@), i as int),
        decreases n - i,
    {
        let d = &defs[i];
        proof {
            assert(seqs_of(defs@)[i as int] == d@);
        }
        match find_colon_idx(d.as_slice()) {
            Some(c) => {
                let dn: usize = d.len();
                proof {
                    assert(c < dn);
                }
                let namec = trim_chars(slice_subrange(d.as_slice(), 0, c));
                let tyc = trim_chars(slice_subrange(d.as_slice(), c + 1, dn));
                let ty = crate::schema::parse_field_type(tyc.as_slice());
                let ghost fb = out@;
                out.push(SchemaField { name: chars_to_string(&namec), ty });
                proof {
                    assert(fields_model(out@) =~= fields_model(fb).push(
                        (namec@, type_model(ty)),
                    ));
                }
            },
            None => {},
        }
        i = i + 1;
        proof {
            assert(fields_model(out@) =~= parse_fields_run(seqs_of(defs@), i as int));
        }
    }
    out
}

/// State of the four-state header line scanner.
pub struct HeaderState {
    pub table: Seq<(Seq<char>, Seq<(Seq<char>, TypeModel)>)>,
    pub root: Seq<char>,
    pub in_schemas: bool,
    pub in_data: bool,
    pub rows: Seq<Seq<char>>,
    pub done: bool,
}

pub open spec fn header_init() -> HeaderState {
    HeaderState {
        table: Seq::empty(),
        root: Seq::empty(),
        in_schemas: false,
        in_data: false,
        rows: Seq::empty(),
        done: false,
    }
}

/// One line of the header scan.  Marker lines switch state; inside the
/// schemas block a `name:(...)` line is parsed and recorded, the first one
/// naming the root; inside the data section every non-empty line is kept as
/// a pending row; `end` stops the scan.
pub open spec fn header_step(st: HeaderState, line: Seq<char>) -> HeaderState {
    if st.done {
        st
    } else {
        let l = spec_trim(line);
        if l == "schemas:{"@ {
            HeaderState { in_schemas: true, ..st }
        } else if l == "}"@ {
            HeaderState { in_schemas: false, ..st }
        } else if l == "data:"@ {
            HeaderState { in_data: true, ..st }
        } else if l == "end"@ {
            HeaderState { done: true, ..st }
        } else {
            let pos = find_cp_from(l, 0);
            let st1 = if st.in_schemas && pos >= 0 {
                let name = spec_trim(l.subrange(0, pos));
                let hi = if pos + 2 <= l.len() - 1 {
                    l.len() - 1
                } else {
                    pos + 2
                };
                let defs = plain_split(l.subrange(pos + 2, hi), ',');
                let fields = parse_fields_run(defs, defs.len() as int);
                HeaderState {
                    table: assoc_upsert(st.table, name, fields),
                    root: if st.root.len() == 0 {
                        name
                    } else {
                        st.root
                    },
                    ..st
                }
            } else {
                st
            };
            if st1.in_data && l.len() > 0 {
                HeaderState { rows: st1.rows.push(l), ..st1 }
            } else {
                st1
            }
        }
    }
}

pub open spec fn header_run(lines: Seq<Seq<char>>, n: int) -> HeaderState
    decreases n,
{
    if n <= 0 {
        header_init()
    } else {
        header_step(header_run(lines, n - 1), lines[n - 1])
    }
}

/// Decoding of the pending data rows: each row must split into exactly the
/// root schema's field count; the first that does not aborts the decode.
pub open spec fn spec_decode_rows(
    rows: Seq<Seq<char>>,
    n: int,
    rootf: Seq<(Seq<char>, TypeModel)>,
    table: Seq<(Seq<char>, Seq<(Seq<char>, TypeModel)>)>,
) -> Result<Seq<ValueModel>, crate::error::AonError>
    decreases n,
{
    if n <= 0 {
        Ok(Seq::empty())
    } else {
        match spec_decode_rows(rows, n - 1, rootf, table) {
            Err(e) => Err(e),
            Ok(acc) => {
                let parts = spec_split(rows[n - 1], ',');
                if parts.len() != rootf.len() {
                    Err(
                        crate::error::AonError::RowArity {
                            expected: rootf.len() as usize,
                            got: parts.len() as usize,
                        },
                    )
                } else {
                    Ok(
                        acc.push(
                            ValueModel::Object(
                                spec_decode_obj_run(
                                    parts,
                                    rootf,
                                    parts.len() as int,
                                    table,
                                    max_seq_len(parts) + 1,
                                ),
                            ),
                        ),
                    )
                }
            },
        }
    }
}

/// What decoding a whole notation text yields: a single object when exactly
/// one data row exists, otherwise the list of decoded objects.
pub open spec fn spec_aon_to_json(text: Seq<char>) -> Result<ValueModel, crate::error::AonError> {
    let lines = plain_split(text, '\n');
    let st = header_run(lines, lines.len() as int);
    if st.root.len() == 0 {
        Err(crate::error::AonError::NoSchemas)
    } else {
        match assoc_get(st.table, st.root) {
            None => Err(crate::error::AonError::RootSchemaMissing),
            Some(rootf) => match spec_decode_rows(st.rows, st.rows.len() as int, rootf, st.table) {
                Err(e) => Err(e),
                Ok(objs) => Ok(
                    if objs.len() == 1 {
                        objs[0]
                    } else {
                        ValueModel::List(objs)
                    },
                ),
            },
        }
    }
}

/// A scanner whose root, once set, always resolves in its own table.
proof fn lemma_header_root_present(lines: Seq<Seq<char>>, n: int)
    requires
        0 <= n,
    ensures
        header_run(lines, n).root.len() > 0 ==> assoc_get(
            header_run(lines, n).table,
            header_run(lines, n).root,
        ) is Some,
    decreases n,
{
    if n > 0 {
        lemma_header_root_present(lines, n - 1);
        let st = header_run(lines, n - 1);
        let line = lines[n - 1];
        let l = spec_trim(line);
        if !st.done && !(l == "schemas:{"@) && !(l == "}"@) && !(l == "data:"@) && !(l == "end"@) {
            let pos = find_cp_from(l, 0);
            if st.in_schemas && pos >= 0 {
                let name = spec_trim(l.subrange(0, pos));
                let hi = if pos + 2 <= l.len() - 1 {
                    l.len() - 1
                } else {
                    pos + 2
                };
                let defs = plain_split(l.subrange(pos + 2, hi), ',');
                let fields = parse_fields_run(defs, defs.len() as int);
                crate::model::lemma_assoc_get_upsert(st.table, name, fields, name);
                if st.root.len() > 0 {
                    crate::model::lemma_assoc_get_upsert(st.table, name, fields, st.root);
                }
            }
        }
    }
}

/// An erring row decode stays erring as later rows are taken in.
proof fn lemma_decode_rows_err_persists(
    rows: Seq<Seq<char>>,
    j: int,
    n: int,
    rootf: Seq<(Seq<char>, TypeModel)>,
    table: Seq<(Seq<char>, Seq<(Seq<char>, TypeModel)>)>,
)
    requires
        0 <= j <= n,
        spec_decode_rows(rows, j, rootf, table) is Err,
    ensures
        spec_decode_rows(rows, n, rootf, table) == spec_decode_rows(rows, j, rootf, table),
    decreases n - j,
{
    if j < n {
        lemma_decode_rows_err_persists(rows, j, n - 1, rootf, table);
    }
}

struct HeaderScan {
    table: SchemaTable,
    root: Vec<char>,
    in_schemas: bool,
    in_data: bool,
    rows: Vec<Vec<char>>,
    done: bool,
}

spec fn scan_model(h: HeaderScan) -> HeaderState {
    HeaderState {
        table: table_model(h.table),
        root: h.root@,
        in_schemas: h.in_schemas,
        in_data: h.in_data,
        rows: seqs_of(h.rows@),
        done: h.done,
    }
}

fn header_step_exec(h: &mut HeaderScan, line: &[char])
    ensures
        scan_model(*final(h)) == header_step(scan_model(*old(h)), line@),
{
    if h.done {
        return ;
    }
    let l = trim_chars(line);
    if chars_eq_str(l.as_slice(), "schemas:{") {
        h.in_schemas = true;
        return ;
    }
    if chars_eq_str(l.as_slice(), "}") {
        h.in_schemas = false;
        return ;
    }
    if chars_eq_str(l.as_slice(), "data:") {
        h.in_data = true;
        return ;
    }
    if chars_eq_str(l.as_slice(), "end") {
        h.done = true;
        return ;
    }
    let cp = find_colon_paren_idx(l.as_slice());
    if h.in_schemas {
        match cp {
            Some(pos) => {
                let ln: usize = l.len();
                proof {
                    assert(pos + 1 < ln);
                }
                let namec = trim_chars(slice_subrange(l.as_slice(), 0, pos));
                let hi: usize = if pos + 2 <= ln - 1 {
                    ln - 1
                } else {
                    pos + 2
                };
                let fstr = slice_subrange(l.as_slice(), pos + 2, hi);
                let defs = plain_split_chars(fstr, ',');
                let fields = parse_fields(&defs);
                let name_s = chars_to_string(&namec);
                table_upsert(&mut h.table, Schema { name: name_s, fields });
                if h.root.len() == 0 {
                    h.root = namec;
                }
            },
            None => {},
        }
    }
    if h.in_data && l.len() > 0 {
        let ghost r0 = seqs_of(h.rows@);
        h.rows.push(l);
        proof {
            assert(seqs_of(h.rows@) =~= r0.push(spec_trim(line@)));
        }
    }
}

/// Parses notation text back into a document: a single object for one data
/// row, a list of objects otherwise.  Fails when no schema line is declared,
/// or when some row's top-level field count differs from the root schema's;
/// the root schema itself is always resolvable, since the first schema line
/// names it.
pub fn aon_to_json(aon: &str) -> (r: Result<Value, crate::error::AonError>)
    ensures
        match r {
            Ok(v) => spec_aon_to_json(aon@) == Ok::<ValueModel, crate::error::AonError>(
                value_model(v),
            ),
            Err(e) => spec_aon_to_json(aon@) == Err::<ValueModel, crate::error::AonError>(e),
        },
        !(r == Err::<Value, crate::error::AonError>(crate::error::AonError::RootSchemaMissing)),
{
    let chars = crate::text::str_to_chars(aon);
    let lines = plain_split_chars(chars.as_slice(), '\n');
    let ghost lm = seqs_of(lines@);
    let mut h = HeaderScan {
        table: SchemaTable { schemas: Vec::new() },
        root: Vec::new(),
        in_schemas: false,
        in_data: false,
        rows: Vec::new(),
        done: false,
    };
    proof {
        assert(table_model(h.table) =~= Seq::<(Seq<char>, Seq<(Seq<char>, TypeModel)>)>::empty());
        assert(seqs_of(h.rows@) =~= Seq::<Seq<char>>::empty());
        assert(scan_model(h) == header_init());
    }
    let n: usize = lines.len();
    let mut i: usize = 0;
    while i < n
        invariant
            lm == seqs_of(lines@),
            n == lines@.len(),
            i <= n,
            scan_model(h) == header_run(lm, i as int),
        decreases n - i,
    {
        proof {
            assert(lm[i as int] == lines@[i as int]@);
        }
        header_step_exec(&mut h, lines[i].as_slice());
        i = i + 1;
    }
    let ghost st = header_run(lm, lm.len() as int);
    if h.root.len() == 0 {
        return Err(crate::error::AonError::NoSchemas);
    }
    let root_s = chars_to_string(&h.root);
    match table_get(&h.table, &root_s) {
        None => {
            proof {
                lemma_header_root_present(lm, lm.len() as int);
                assert(false);
            }
            Err(crate::error::AonError::RootSchemaMissing)
        },
        Some(root_schema) => {
            let ghost rootf = fields_model(root_schema.fields@);
            let ghost tm = table_model(h.table);
            let nrows: usize = h.rows.len();
            let mut results: Vec<Value> = Vec::new();
            let mut i: usize = 0;
            proof {
                assert(crate::value::list_model(results@) =~= Seq::<ValueModel>::empty());
            }
            while i < nrows
                invariant
                    lm == plain_split(aon@, '\n'),
                    st == header_run(lm, lm.len() as int),
                    st.root.len() > 0,
                    st.rows == seqs_of(h.rows@),
                    rootf == fields_model(root_schema.fields@),
                    assoc_get(st.table, st.root) == Some(rootf),
                    tm == table_model(h.table),
                    tm == st.table,
                    nrows == h.rows@.len(),
                    i <= nrows,
                    spec_decode_rows(st.rows, i as int, rootf, tm) == Ok::<
                        Seq<ValueModel>,
                        crate::error::AonError,
                    >(crate::value::list_model(results@)),
                decreases nrows - i,
            {
                proof {
                    assert(st.rows[i as int] == h.rows@[i as int]@);
                }
                let row = &h.rows[i];
                let parts = split_top_level(row.as_slice(), ',');
                let ghost pm = seqs_of(parts@);
                let expected: usize = root_schema.fields.len();
                let got: usize = parts.len();
                if got != expected {
                    let e = crate::error::AonError::RowArity { expected, got };
                    proof {
                        assert(spec_decode_rows(st.rows, i + 1, rootf, tm) == Err::<
                            Seq<ValueModel>,
                            crate::error::AonError,
                        >(e));
                        lemma_decode_rows_err_persists(st.rows, i + 1, st.rows.len() as int, rootf, tm);
                    }
                    return Err(e);
                }
                let ghost bound = max_seq_len(pm) + 1;
                let mut ms: Vec<Member> = Vec::new();
                let mut k: usize = 0;
                proof {
                    assert(members_model(ms@) =~= spec_decode_obj_run(pm, rootf, 0, tm, bound));
                }
                while k < got
                    invariant
                        pm == seqs_of(parts@),
                        rootf == fields_model(root_schema.fields@),
                        tm == table_model(h.table),
                        bound == max_seq_len(pm) + 1,
                        got == parts@.len(),
                        got == root_schema.fields@.len(),
                        pm.len() == got,
                        k <= got,
                        members_model(ms@) == spec_decode_obj_run(pm, rootf, k as int, tm, bound),
                    decreases got - k,
                {
                    proof {
                        lemma_max_seq_len_ge(pm, k as int);
                        assert(pm[k as int] == parts@[k as int]@);
                    }
                    let v = decode_value(&root_schema.fields[k].ty, parts[k].as_slice(), &h.table);
                    members_upsert(&mut ms, root_schema.fields[k].name.clone(), v);
                    k = k + 1;
                }
                let ghost rb = crate::value::list_model(results@);
                results.push(Value::Object(ms));
                proof {
                    broadcast use crate::value::lemma_list_model_props;

                    assert(crate::value::list_model(results@) =~= rb.push(
                        ValueModel::Object(spec_decode_obj_run(pm, rootf, got as int, tm, bound)),
                    ));
                }
                i = i + 1;
            }
            proof {
                assert(st.rows.len() == nrows);
            }
            let ghost objs = crate::value::list_model(results@);
            proof {
                broadcast use crate::value::lemma_list_model_props;

                assert(objs.len() == results@.len());
                assert(spec_decode_rows(st.rows, st.rows.len() as int, rootf, tm)
                    == Ok::<Seq<ValueModel>, crate::error::AonError>(objs));
            }
            if results.len() == 1 {
                let v = results.remove(0);
                proof {
                    broadcast use crate::value::lemma_list_model_props;

                    assert(value_model(v) == objs[0]);
                    assert(spec_aon_to_json(aon@) == Ok::<ValueModel, crate::error::AonError>(
                        value_model(v),
                    ));
                }
                Ok(v)
            } else {
                proof {
                    assert(spec_aon_to_json(aon@) == Ok::<ValueModel, crate::error::AonError>(
                        ValueModel::List(objs),
                    ));
                }
                Ok(Value::List(results))
            }
        },
    }
}

} // verus!
