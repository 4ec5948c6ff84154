use sak::loki::labels::extract_strings;
use sak::value::Json;

fn from_value(v: serde_json::Value) -> Json {
    match v {
        serde_json::Value::Null => Json::Null,
        serde_json::Value::Bool(b) => Json::Bool(b),
        serde_json::Value::Number(n) => match (n.as_u64(), n.as_i64()) {
            (Some(u), _) => Json::Unsigned(u),
            (None, Some(i)) => Json::Negative(i),
            (None, None) => Json::Float(n.to_string()),
        },
        serde_json::Value::String(s) => Json::Text(s),
        serde_json::Value::Array(items) => Json::Array(items.into_iter().map(from_value).collect()),
        serde_json::Value::Object(map) => {
            Json::Object(map.into_iter().map(|(k, v)| (k, from_value(v))).collect())
        }
    }
}

/// The value that a JSON text writes.
fn j(text: &str) -> Json {
    from_value(serde_json::from_str(text).unwrap())
}

#[test]
fn extract_strings_basic() {
    let data = j(r##"["app", "namespace", "level"]"##);
    let v = extract_strings(&data, "/loki/api/v1/labels").unwrap();
    assert_eq!(v, vec!["app", "namespace", "level"]);
}

#[test]
fn extract_strings_empty() {
    let data = j(r##"[]"##);
    let v = extract_strings(&data, "/loki/api/v1/labels").unwrap();
    assert!(v.is_empty());
}

#[test]
fn extract_strings_errors_on_non_array() {
    let err = extract_strings(&j(r##"{"x": 1}"##), "/loki/api/v1/labels").unwrap_err();
    assert!(err.message.contains("not an array"));
}

#[test]
fn extract_strings_errors_on_non_string_element() {
    let err = extract_strings(&j(r##"["ok", 42]"##), "/loki/api/v1/labels").unwrap_err();
    assert!(err.message.contains("not a string"));
}
