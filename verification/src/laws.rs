//! Properties that relate several operations of the codec, stated over the
//! same spec functions the operations' contracts use.

use crate::decode::{spec_aon_to_json, spec_decode_rows, spec_decode_value};
use crate::encode::{non_root_run, schema_line, spec_encode_scalar, spec_schemas_block};
use crate::error::AonError;
use crate::model::{assoc_get, ValueModel};
use crate::schema::{BaseTypeModel, TypeModel};
use crate::text::{
    all_digits, is_digit, is_space, lemma_dec_digits_value, lemma_parse_int_text,
    lemma_trim_no_space, spec_int_text, spec_split, spec_trim,
};
use crate::value::{value_model, Value};
use vstd::prelude::*;

verus! {

/// Decoding is deterministic: two decodes of the same notation text yield
/// structurally equal documents.
pub proof fn lemma_decode_idempotent(text: Seq<char>, first: Value, second: Value)
    requires
        spec_aon_to_json(text) == Ok::<ValueModel, AonError>(value_model(first)),
        spec_aon_to_json(text) == Ok::<ValueModel, AonError>(value_model(second)),
    ensures
        value_model(first) == value_model(second),
{
}

/// In the emitted header, the root schema always appears first, wherever the
/// table holds it: the schemas block opens with the root's line, and the
/// remaining lines hold every other schema in table order.
pub proof fn lemma_root_schema_first(
    table: Seq<(Seq<char>, Seq<(Seq<char>, TypeModel)>)>,
    root: Seq<char>,
    f: Seq<(Seq<char>, TypeModel)>,
)
    requires
        assoc_get(table, root) == Some(f),
    ensures
        spec_schemas_block(table, root) == schema_line(root, f) + non_root_run(
            table,
            root,
            table.len() as int,
        ),
{
}

proof fn lemma_rows_arity_aux(
    rows: Seq<Seq<char>>,
    n: int,
    rootf: Seq<(Seq<char>, TypeModel)>,
    table: Seq<(Seq<char>, Seq<(Seq<char>, TypeModel)>)>,
)
    requires
        0 <= n <= rows.len(),
    ensures
        (spec_decode_rows(rows, n, rootf, table) is Err) <==> (exists|i: int|
            0 <= i < n && spec_split(#[trigger] rows[i], ',').len() != rootf.len()),
        match spec_decode_rows(rows, n, rootf, table) {
            Err(e) => e is RowArity,
            Ok(_) => true,
        },
    decreases n,
{
    if n > 0 {
        lemma_rows_arity_aux(rows, n - 1, rootf, table);
    }
}

/// Decoding a set of data rows fails exactly when some row's top-level field
/// count disagrees with the root schema's field count, and the failure is
/// always the structural-mismatch error.
pub proof fn lemma_row_arity_mismatch(
    rows: Seq<Seq<char>>,
    rootf: Seq<(Seq<char>, TypeModel)>,
    table: Seq<(Seq<char>, Seq<(Seq<char>, TypeModel)>)>,
)
    ensures
        (spec_decode_rows(rows, rows.len() as int, rootf, table) is Err) <==> (exists|i: int|
            0 <= i < rows.len() && spec_split(#[trigger] rows[i], ',').len() != rootf.len()),
        match spec_decode_rows(rows, rows.len() as int, rootf, table) {
            Err(e) => e is RowArity,
            Ok(_) => true,
        },
{
    lemma_rows_arity_aux(rows, rows.len() as int, rootf, table);
}

/// A null lane round-trips whatever its declared type: the encoder's `_`
/// decodes back to null.
pub proof fn lemma_null_round_trip(
    ty: TypeModel,
    table: Seq<(Seq<char>, Seq<(Seq<char>, TypeModel)>)>,
)
    ensures
        spec_decode_value(ty, spec_encode_scalar(ValueModel::Null), table) == ValueModel::Null,
{
    reveal_strlit("_");
    assert("_"@ =~= seq!['_']);
    assert(!is_space('_'));
    lemma_trim_no_space("_"@);
}

/// A boolean lane round-trips: `true`/`false` decode back to the value.
pub proof fn lemma_bool_round_trip(
    b: bool,
    table: Seq<(Seq<char>, Seq<(Seq<char>, TypeModel)>)>,
)
    ensures
        spec_decode_value(
            TypeModel { base: BaseTypeModel::Boolean, list_depth: 0 },
            spec_encode_scalar(ValueModel::Bool(b)),
            table,
        ) == ValueModel::Bool(b),
{
    reveal_strlit("_");
    reveal_strlit("true");
    reveal_strlit("false");
    assert("_"@ =~= seq!['_']);
    assert("true"@ =~= seq!['t', 'r', 'u', 'e']);
    assert("false"@ =~= seq!['f', 'a', 'l', 's', 'e']);
    if b {
        lemma_trim_no_space("true"@);
    } else {
        lemma_trim_no_space("false"@);
    }
}

/// A number lane round-trips: the canonical decimal text of any 64-bit
/// integer decodes back to that integer.
pub proof fn lemma_number_round_trip(
    n: i64,
    table: Seq<(Seq<char>, Seq<(Seq<char>, TypeModel)>)>,
)
    ensures
        spec_decode_value(
            TypeModel { base: BaseTypeModel::Number, list_depth: 0 },
            spec_encode_scalar(ValueModel::Int(n as int)),
            table,
        ) == ValueModel::Int(n as int),
{
    let s = spec_int_text(n as int);
    lemma_parse_int_text(n);
    if n >= 0 {
        lemma_dec_digits_value(n as nat);
    } else {
        lemma_dec_digits_value((-(n as int)) as nat);
        assert(s[0] == '-');
        assert(s[s.len() - 1] == (seq!['-'] + crate::text::dec_digits((-(n as int)) as nat))[s.len()
            - 1]);
    }
    assert(is_digit(s[s.len() - 1]) || s[s.len() - 1] == '-');
    assert(!is_space(s[0]));
    assert(!is_space(s[s.len() - 1]));
    lemma_trim_no_space(s);
    reveal_strlit("_");
    assert("_"@ =~= seq!['_']);
    assert(!is_digit('_') && '_' != '-');
    assert(s != "_"@);
}

/// A digit-only string lane round-trips without quotes: the raw digits come
/// back as a string, not a number, because the lane's type is `string`.
pub proof fn lemma_digit_string_round_trip(
    s: Seq<char>,
    table: Seq<(Seq<char>, Seq<(Seq<char>, TypeModel)>)>,
)
    requires
        all_digits(s),
    ensures
        spec_decode_value(
            TypeModel { base: BaseTypeModel::Text, list_depth: 0 },
            spec_encode_scalar(ValueModel::Text(s)),
            table,
        ) == ValueModel::Text(s),
{
    reveal_strlit("_");
    assert("_"@ =~= seq!['_']);
    if s.len() == 0 {
        assert(spec_trim(s) == s);
    } else {
        assert(!is_space(s[0]));
        assert(!is_space(s[s.len() - 1]));
        lemma_trim_no_space(s);
        assert(!is_digit('_'));
        assert(s != "_"@);
        assert(s[0] != '"');
    }
}

} // verus!
