use sak::loki::series::{build_series_path, extract_series_lines};
use sak::value::Json;

fn from_value(v: serde_json::Value) -> Json {
    match v {
        serde_json::Value::Null => Json::Null,
        serde_json::Value::Bool(b) => Json::Bool(b),
        serde_json::Value::Number(n) => match (n.as_u64(), n.as_i64()) {
            (Some(u), _) => Json::Unsigned(u),
            (None, Some(i)) => Json::Negative(i),
            (None, None) => Json::Float(n.to_string()),
        },
        serde_json::Value::String(s) => Json::Text(s),
        serde_json::Value::Array(items) => Json::Array(items.into_iter().map(from_value).collect()),
        serde_json::Value::Object(map) => {
            Json::Object(map.into_iter().map(|(k, v)| (k, from_value(v))).collect())
        }
    }
}

/// The value that a JSON text writes.
fn j(text: &str) -> Json {
    from_value(serde_json::from_str(text).unwrap())
}

#[test]
fn build_path_no_window() {
    let p = build_series_path("{app=\"api\"}", None, None);
    assert_eq!(p, "/loki/api/v1/series?match%5B%5D=%7Bapp%3D%22api%22%7D");
}

#[test]
fn build_path_with_start_and_end_renders_ns() {
    let p = build_series_path("{app=\"api\"}", Some(100), Some(200));
    assert_eq!(
        p,
        "/loki/api/v1/series?match%5B%5D=%7Bapp%3D%22api%22%7D\
         &start=100000000000&end=200000000000"
    );
}

#[test]
fn extract_series_lines_basic() {
    let data = j(r##"[ {"app": "api", "level": "info"}, {"app": "web", "level": "error"} ]"##);
    let lines = extract_series_lines(&data).unwrap();
    assert_eq!(lines.len(), 2);
    assert!(lines.iter().any(|l| l == r#"{app="api",level="info"}"#));
    assert!(lines.iter().any(|l| l == r#"{app="web",level="error"}"#));
}

#[test]
fn extract_series_lines_empty() {
    let lines = extract_series_lines(&j(r##"[]"##)).unwrap();
    assert!(lines.is_empty());
}

#[test]
fn extract_series_lines_errors_on_non_array() {
    let err = extract_series_lines(&j(r##"{}"##)).unwrap_err();
    assert!(err.message.contains("not an array"));
}

#[test]
fn extract_series_lines_errors_on_non_object_element() {
    let err = extract_series_lines(&j(r##"["whoops"]"##)).unwrap_err();
    assert!(err.message.contains("not an object"));
}
