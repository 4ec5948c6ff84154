use sak::json::table::{parse_fields, project_row};
use sak::value::Json;

fn from_value(v: serde_json::Value) -> Json {
    match v {
        serde_json::Value::Null => Json::Null,
        serde_json::Value::Bool(b) => Json::Bool(b),
        serde_json::Value::Number(n) => match (n.as_u64(), n.as_i64()) {
            (Some(u), _) => Json::Unsigned(u),
            (None, Some(i)) => Json::Negative(i),
            (None, None) => Json::Float(n.to_string()),
        },
        serde_json::Value::String(s) => Json::Text(s),
        serde_json::Value::Array(items) => Json::Array(items.into_iter().map(from_value).collect()),
        serde_json::Value::Object(map) => {
            Json::Object(map.into_iter().map(|(k, v)| (k, from_value(v))).collect())
        }
    }
}

/// The value that a JSON text writes.
fn j(text: &str) -> Json {
    from_value(serde_json::from_str(text).unwrap())
}

#[test]
fn parse_fields_trims_and_rejects_empty() {
    assert_eq!(parse_fields("a, b ,c").unwrap(), vec!["a", "b", "c"]);
    assert!(parse_fields("").is_err());
    assert!(parse_fields("a,,b").is_err());
    assert!(parse_fields("a, ,b").is_err());
}

#[test]
fn project_row_basic_object() {
    let el = j(r##"{"id": 1, "priority": 2, "title": "x"}"##);
    let fields = parse_fields("id,priority,title").unwrap();
    let row = project_row(&el, &fields, "-").unwrap();
    assert_eq!(row, vec!["1", "2", "x"]);
}

#[test]
fn project_row_missing_field_uses_token() {
    let el = j(r##"{"id": 1}"##);
    let fields = parse_fields("id,missing").unwrap();
    assert_eq!(project_row(&el, &fields, "-").unwrap(), vec!["1", "-"]);
    // Custom token honored.
    assert_eq!(
        project_row(&el, &fields, "NULL").unwrap(),
        vec!["1", "NULL"]
    );
}

#[test]
fn project_row_null_field_uses_token() {
    let el = j(r##"{"a": null, "b": 2}"##);
    let fields = parse_fields("a,b").unwrap();
    assert_eq!(project_row(&el, &fields, "-").unwrap(), vec!["-", "2"]);
}

#[test]
fn project_row_nested_paths() {
    let el = j(r##"{"user": {"name": "alice"}, "ts": "2024"}"##);
    let fields = parse_fields("user.name,ts").unwrap();
    assert_eq!(
        project_row(&el, &fields, "-").unwrap(),
        vec!["alice", "2024"]
    );
    // JSON Pointer form too.
    let fields = parse_fields("/user/name").unwrap();
    assert_eq!(project_row(&el, &fields, "-").unwrap(), vec!["alice"]);
}

#[test]
fn project_row_complex_value_is_compact_json() {
    let el = j(r##"{"tags": ["a", "b"], "meta": {"k": "v"}}"##);
    let fields = parse_fields("tags,meta").unwrap();
    assert_eq!(
        project_row(&el, &fields, "-").unwrap(),
        vec![r#"["a","b"]"#, r#"{"k":"v"}"#]
    );
}

#[test]
fn project_row_collapses_whitespace() {
    let el = j(r##"{"msg": "a\tb\nc"}"##);
    let fields = parse_fields("msg").unwrap();
    let row = project_row(&el, &fields, "-").unwrap();
    assert_eq!(row, vec!["a b c"]);
    assert!(!row[0].contains('\t'));
    assert!(!row[0].contains('\n'));
}

#[test]
fn project_row_scalar_element_fills_first_column() {
    // Non-object element: scalar in column 0, missing token elsewhere.
    let fields = parse_fields("a,b,c").unwrap();
    assert_eq!(
        project_row(&j(r##"42"##), &fields, "-").unwrap(),
        vec!["42", "-", "-"]
    );
    assert_eq!(
        project_row(&j(r##""hi""##), &fields, "-").unwrap(),
        vec!["hi", "-", "-"]
    );
}
