use aon_core::decode::aon_to_json;
use aon_core::encode::{encode_object_with_schema, encode_value, json_to_aon};
use aon_core::builder::{build_all_schemas, collect_objects_from_path, infer_field_type};
use aon_core::error::{clear_error, set_error, AonError, ErrorSlot};
use aon_core::text::{split_top_level_commas, split_top_level_semicolons};
use aon_core::value::{clone_value, infer_type, Member, Value};

fn t(s: &str) -> Value {
    Value::Text(s.to_string())
}

fn obj(fields: Vec<(&str, Value)>) -> Value {
    Value::Object(
        fields
            .into_iter()
            .map(|(n, v)| Member { name: n.to_string(), value: v })
            .collect(),
    )
}

#[test]
fn flat_record_round_trips() {
    let doc = obj(vec![("a", Value::Num(1)), ("b", t("7000"))]);
    let text = json_to_aon(&doc, "r").unwrap();
    assert_eq!(
        text,
        "!aon\ncount:1\nschemas:{\n  r:(a:number,b:string)\n}\ndata:\n1,7000\nend\n"
    );
    let back = aon_to_json(&text).unwrap();
    assert_eq!(back, obj(vec![("a", Value::Num(1)), ("b", t("7000"))]));
}

#[test]
fn scalar_list_field() {
    let doc = Value::List(vec![obj(vec![
        ("name", t("x")),
        ("tags", Value::List(vec![t("a"), t("b")])),
    ])]);
    let text = json_to_aon(&doc, "item").unwrap();
    assert_eq!(
        text,
        "!aon\ncount:1\nschemas:{\n  item:(name:string,tags:list<string>)\n}\ndata:\n\"x\",[\"a\" ; \"b\"]\nend\n"
    );
    let back = aon_to_json(&text).unwrap();
    assert_eq!(
        back,
        obj(vec![
            ("name", t("x")),
            ("tags", Value::List(vec![t("a"), t("b")])),
        ])
    );
}

#[test]
fn nested_record_two_schemas() {
    let doc = obj(vec![("name", t("x")), ("addr", obj(vec![("city", t("y"))]))]);
    let text = json_to_aon(&doc, "item").unwrap();
    assert_eq!(
        text,
        "!aon\ncount:1\nschemas:{\n  item:(name:string,addr:addr)\n  addr:(city:string)\n}\ndata:\n\"x\",(\"y\")\nend\n"
    );
    let back = aon_to_json(&text).unwrap();
    assert_eq!(back, doc);
}

#[test]
fn list_of_records_round_trips() {
    let doc = Value::List(vec![
        obj(vec![("a", Value::Num(1)), ("flag", Value::Bool(true))]),
        obj(vec![("a", Value::Num(-2)), ("flag", Value::Bool(false))]),
    ]);
    let text = json_to_aon(&doc, "row").unwrap();
    let back = aon_to_json(&text).unwrap();
    assert_eq!(back, doc);
}

#[test]
fn nested_list_of_records_round_trips() {
    let doc = Value::List(vec![obj(vec![(
        "k",
        Value::List(vec![obj(vec![("c", Value::Num(1))])]),
    )])]);
    let text = json_to_aon(&doc, "r").unwrap();
    assert_eq!(
        text,
        "!aon\ncount:1\nschemas:{\n  r:(k:list<k>)\n  k:(c:number)\n}\ndata:\n[(1)]\nend\n"
    );
    let back = aon_to_json(&text).unwrap();
    assert_eq!(
        back,
        obj(vec![("k", Value::List(vec![obj(vec![("c", Value::Num(1))])]))])
    );
}

#[test]
fn null_and_missing_fields() {
    let doc = Value::List(vec![
        obj(vec![("a", Value::Num(1))]),
        obj(vec![("b", Value::Num(2))]),
    ]);
    let text = json_to_aon(&doc, "r").unwrap();
    assert_eq!(
        text,
        "!aon\ncount:2\nschemas:{\n  r:(a:number,b:number)\n}\ndata:\n1,_\n_,2\nend\n"
    );
    let back = aon_to_json(&text).unwrap();
    assert_eq!(
        back,
        Value::List(vec![
            obj(vec![("a", Value::Num(1)), ("b", Value::Null)]),
            obj(vec![("a", Value::Null), ("b", Value::Num(2))]),
        ])
    );
}

#[test]
fn decode_is_idempotent() {
    let text = "!aon\ncount:2\nschemas:{\n  r:(a:number,b:string)\n}\ndata:\n1,hi\n2,\"x y\"\nend\n";
    let first = aon_to_json(text).unwrap();
    let second = aon_to_json(text).unwrap();
    assert_eq!(first, second);
}

#[test]
fn empty_collection_is_rejected() {
    assert_eq!(json_to_aon(&Value::List(vec![]), "r"), Err(AonError::EmptyInput));
}

#[test]
fn scalar_root_is_rejected() {
    assert_eq!(json_to_aon(&Value::Num(1), "r"), Err(AonError::NonComposite));
    assert_eq!(json_to_aon(&t("x"), "r"), Err(AonError::NonComposite));
}

#[test]
fn row_arity_mismatch_is_rejected() {
    let text = "!aon\ncount:1\nschemas:{\n  r:(a:number,b:string)\n}\ndata:\n1\nend\n";
    assert_eq!(aon_to_json(text), Err(AonError::RowArity { expected: 2, got: 1 }));
}

#[test]
fn text_without_schemas_is_rejected() {
    assert_eq!(aon_to_json("hello\nworld\n"), Err(AonError::NoSchemas));
    assert_eq!(aon_to_json(""), Err(AonError::NoSchemas));
}

#[test]
fn unparsable_number_decodes_to_null() {
    let text = "!aon\ncount:1\nschemas:{\n  r:(a:number)\n}\ndata:\nxyz\nend\n";
    assert_eq!(aon_to_json(text).unwrap(), obj(vec![("a", Value::Null)]));
}

#[test]
fn boolean_lane_is_lenient() {
    let text = "!aon\ncount:1\nschemas:{\n  r:(a:boolean,b:boolean)\n}\ndata:\ntrue,maybe\nend\n";
    assert_eq!(
        aon_to_json(text).unwrap(),
        obj(vec![("a", Value::Bool(true)), ("b", Value::Bool(false))])
    );
}

#[test]
fn unknown_type_falls_back_to_string() {
    let text = "!aon\ncount:1\nschemas:{\n  r:(a:wat)\n}\ndata:\nhello\nend\n";
    assert_eq!(aon_to_json(text).unwrap(), obj(vec![("a", t("hello"))]));
}

#[test]
fn list_lane_without_brackets_is_empty() {
    let text = "!aon\ncount:1\nschemas:{\n  r:(a:list<string>)\n}\ndata:\nx\nend\n";
    assert_eq!(aon_to_json(text).unwrap(), obj(vec![("a", Value::List(vec![]))]));
}

#[test]
fn digit_only_string_survives_unquoted() {
    let doc = obj(vec![("zip", t("01234"))]);
    let text = json_to_aon(&doc, "r").unwrap();
    assert!(text.contains("\ndata:\n01234\n"));
    assert_eq!(aon_to_json(&text).unwrap(), obj(vec![("zip", t("01234"))]));
}

#[test]
fn splitters_respect_nesting() {
    assert_eq!(
        split_top_level_commas("a, (b,c) ,[d,e]"),
        vec!["a".to_string(), "(b,c)".to_string(), "[d,e]".to_string()]
    );
    assert_eq!(
        split_top_level_semicolons("(1;2) ; x ; [3;4]"),
        vec!["(1;2)".to_string(), "x".to_string(), "[3;4]".to_string()]
    );
    assert_eq!(split_top_level_commas("  "), Vec::<String>::new());
    assert_eq!(split_top_level_commas("a,,b"), vec!["a", "", "b"]);
}

#[test]
fn classifier_covers_all_kinds() {
    assert_eq!(infer_type(&Value::Null), "null");
    assert_eq!(infer_type(&Value::Bool(true)), "boolean");
    assert_eq!(infer_type(&Value::Num(3)), "number");
    assert_eq!(infer_type(&t("s")), "string");
    assert_eq!(infer_type(&Value::List(vec![])), "array");
    assert_eq!(infer_type(&obj(vec![])), "object");
}

#[test]
fn scalar_encoding_forms() {
    assert_eq!(encode_value(&Value::Null), "_");
    assert_eq!(encode_value(&Value::Bool(false)), "false");
    assert_eq!(encode_value(&Value::Num(-5)), "-5");
    assert_eq!(encode_value(&Value::Num(i64::MIN)), "-9223372036854775808");
    assert_eq!(encode_value(&t("123")), "123");
    assert_eq!(encode_value(&t("")), "");
    assert_eq!(encode_value(&t("hi")), "\"hi\"");
    assert_eq!(encode_value(&t("a\"b")), "\"a\\\"b\"");
}

#[test]
fn row_encoding_against_schema() {
    let doc = obj(vec![("a", Value::Num(7)), ("b", t("x"))]);
    let table = build_all_schemas(&doc, "r");
    let root = table.schemas.iter().find(|s| s.name == "r").unwrap();
    assert_eq!(encode_object_with_schema(&doc, root, &table), "7,\"x\"");
}

#[test]
fn builder_records_root_first() {
    let doc = obj(vec![("name", t("x")), ("addr", obj(vec![("city", t("y"))]))]);
    let table = build_all_schemas(&doc, "item");
    assert_eq!(table.schemas.len(), 2);
    assert_eq!(table.schemas[0].name, "item");
    assert_eq!(table.schemas[1].name, "addr");
}

#[test]
fn path_walk_collects_nested_objects() {
    let doc = Value::List(vec![
        obj(vec![("p", obj(vec![("q", Value::Num(1))]))]),
        obj(vec![("p", obj(vec![("q", Value::Num(2))]))]),
        obj(vec![("other", Value::Num(3))]),
    ]);
    let path = vec!["p".to_string()];
    let found = collect_objects_from_path(&doc, &path);
    assert_eq!(
        found,
        vec![
            obj(vec![("q", Value::Num(1))]),
            obj(vec![("q", Value::Num(2))]),
        ]
    );
}

#[test]
fn field_type_inference_rules() {
    let name = "f".to_string();
    let tyref = infer_field_type(&name, &vec![obj(vec![])]);
    assert_eq!(tyref.list_depth, 0);
    let tylist = infer_field_type(&name, &vec![Value::List(vec![obj(vec![])])]);
    assert_eq!(tylist.list_depth, 1);
    let tyscalars = infer_field_type(&name, &vec![Value::Null, Value::Num(1)]);
    assert_eq!(tyscalars, infer_field_type(&name, &vec![Value::Num(2)]));
}

#[test]
fn error_messages_match_wire_format() {
    assert_eq!(AonError::NonComposite.message(), "JSON root must be array or object");
    assert_eq!(AonError::EmptyInput.message(), "Empty JSON");
    assert_eq!(AonError::NoSchemas.message(), "No schemas found");
    assert_eq!(
        AonError::RowArity { expected: 2, got: 5 }.message(),
        "Data row size mismatch: expected 2, got 5"
    );
}

#[test]
fn error_slot_sets_and_clears() {
    let mut slot = ErrorSlot { msg: None };
    set_error(&mut slot, "boom".to_string());
    assert_eq!(slot.msg, Some("boom".to_string()));
    clear_error(&mut slot);
    assert_eq!(slot.msg, None);
}

#[test]
fn clone_value_is_deep() {
    let doc = obj(vec![("k", Value::List(vec![Value::Num(1), t("x")]))]);
    assert_eq!(clone_value(&doc), doc);
}

#[test]
fn zero_rows_decode_to_empty_list() {
    let text = "!aon\ncount:0\nschemas:{\n  r:(a:number)\n}\ndata:\nend\n";
    assert_eq!(aon_to_json(text).unwrap(), Value::List(vec![]));
}
