use notepadppp::tools::json_tools::{
    compact_json, format_json, json_to_path, resolve_path, sort_json_keys, sort_value, validate_json,
    JsonValue,
};

fn s(t: &str) -> String {
    t.to_string()
}

#[test]
fn json_format_pretty_prints_with_two_spaces() {
    let out = format_json("{\"a\":[1,2],\"b\":true}").unwrap();
    assert_eq!(out, "{\n  \"a\": [\n    1,\n    2\n  ],\n  \"b\": true\n}");
}

#[test]
fn json_format_rejects_invalid_text() {
    let err = format_json("{\"a\":").unwrap_err();
    assert!(err.starts_with("Invalid JSON: "));
    assert!(err.len() > "Invalid JSON: ".len());
}

#[test]
fn json_compact_removes_whitespace() {
    assert_eq!(compact_json("{ \"a\" : [ 1 , 2 ] }").unwrap(), "{\"a\":[1,2]}");
    assert!(compact_json("nope").unwrap_err().starts_with("Invalid JSON: "));
}

#[test]
fn json_validate_reports_line_and_column() {
    assert_eq!(validate_json("[1, 2, {\"x\": null}]"), Ok(()));
    let err = validate_json("{\n  \"a\": }").unwrap_err();
    assert!(err.starts_with("Invalid JSON at line 2 column 8: "), "{err}");
}

#[test]
fn json_sort_keys_at_every_depth() {
    let out = sort_json_keys("{\"b\":{\"d\":1,\"c\":2},\"a\":0}").unwrap();
    assert_eq!(out, "{\n  \"a\": 0,\n  \"b\": {\n    \"c\": 2,\n    \"d\": 1\n  }\n}");
}

#[test]
fn json_path_follows_keys_and_indexes() {
    let doc = "{\"data\":{\"users\":[{\"name\":\"x\"},{\"name\":\"y\"}]}}";
    assert_eq!(json_to_path(doc, "data.users.1.name").unwrap(), "\"y\"");
    assert_eq!(json_to_path("[1,2]", "").unwrap(), "[\n  1,\n  2\n]");
    assert_eq!(json_to_path("[1,2]", "+0").unwrap(), "1");
}

#[test]
fn json_path_errors() {
    let doc = "{\"a\":[10],\"s\":\"x\",\"n\":1.5,\"t\":true,\"z\":null}";
    assert_eq!(json_to_path(doc, "b"), Err(s("Key 'b' not found")));
    assert_eq!(json_to_path(doc, "a.x"), Err(s("Invalid array index 'x'")));
    assert_eq!(json_to_path(doc, "a.-1"), Err(s("Invalid array index '-1'")));
    assert_eq!(json_to_path(doc, "a.5"), Err(s("Array index 5 out of bounds (length 1)")));
    assert_eq!(json_to_path(doc, "s.q"), Err(s("Cannot index into String(\"x\") with 'q'")));
    assert_eq!(json_to_path(doc, "n.q"), Err(s("Cannot index into Number(1.5) with 'q'")));
    assert_eq!(json_to_path(doc, "t.q"), Err(s("Cannot index into Bool(true) with 'q'")));
    assert_eq!(json_to_path(doc, "z.q"), Err(s("Cannot index into Null with 'q'")));
    assert!(json_to_path("[", "a").unwrap_err().starts_with("Invalid JSON: "));
}

#[test]
fn json_sort_value_orders_keys_and_keeps_the_last_duplicate() {
    let v = JsonValue::Object(vec![
        (s("b"), JsonValue::Number(s("1"))),
        (s("a"), JsonValue::Array(vec![JsonValue::Object(vec![
            (s("y"), JsonValue::Null),
            (s("x"), JsonValue::Bool(false)),
        ])])),
        (s("b"), JsonValue::Str(s("last"))),
    ]);
    let sorted = sort_value(&v);
    let expected = JsonValue::Object(vec![
        (s("a"), JsonValue::Array(vec![JsonValue::Object(vec![
            (s("x"), JsonValue::Bool(false)),
            (s("y"), JsonValue::Null),
        ])])),
        (s("b"), JsonValue::Str(s("last"))),
    ]);
    assert_eq!(sorted, expected);
}

#[test]
fn json_resolve_path_on_a_built_value() {
    let v = JsonValue::Object(vec![
        (s("k"), JsonValue::Array(vec![JsonValue::Null, JsonValue::Number(s("7"))])),
    ]);
    assert_eq!(resolve_path(&v, "k.1"), Ok(&JsonValue::Number(s("7"))));
    assert_eq!(resolve_path(&v, ""), Ok(&v));
    assert_eq!(resolve_path(&v, "k.2"), Err(s("Array index 2 out of bounds (length 2)")));
    assert_eq!(resolve_path(&v, "k..0"), Err(s("Invalid array index ''")));
}
