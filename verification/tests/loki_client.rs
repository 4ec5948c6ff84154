use sak::loki::client::{resolve_endpoint_inner, unwrap_loki_envelope, LokiClient};
use sak::value::Json;

fn from_value(v: serde_json::Value) -> Json {
    match v {
        serde_json::Value::Null => Json::Null,
        serde_json::Value::Bool(b) => Json::Bool(b),
        serde_json::Value::Number(n) => match (n.as_u64(), n.as_i64()) {
            (Some(u), _) => Json::Unsigned(u),
            (None, Some(i)) => Json::Negative(i),
            (None, None) => Json::Float(n.to_string()),
        },
        serde_json::Value::String(s) => Json::Text(s),
        serde_json::Value::Array(items) => Json::Array(items.into_iter().map(from_value).collect()),
        serde_json::Value::Object(map) => {
            Json::Object(map.into_iter().map(|(k, v)| (k, from_value(v))).collect())
        }
    }
}

/// The value that a JSON text writes.
fn j(text: &str) -> Json {
    from_value(serde_json::from_str(text).unwrap())
}

#[test]
fn new_strips_trailing_slashes() {
    let c = LokiClient::new("https://loki:3100/");
    assert_eq!(c.base_url, "https://loki:3100");
    let c = LokiClient::new("https://loki:3100////");
    assert_eq!(c.base_url, "https://loki:3100");
}

#[test]
fn new_preserves_no_trailing_slash() {
    let c = LokiClient::new("https://loki:3100");
    assert_eq!(c.base_url, "https://loki:3100");
}

#[test]
fn unwrap_envelope_returns_data_on_success() {
    let raw = j(r##"{"status": "success", "data": {"resultType": "streams", "result": []}}"##);
    let data = unwrap_loki_envelope(&raw, "/loki/api/v1/query").unwrap();
    assert_eq!(data, j(r##"{"resultType": "streams", "result": []}"##));
}

#[test]
fn unwrap_envelope_returns_array_data() {
    let raw = j(r##"{"status": "success", "data": ["app", "namespace"]}"##);
    let data = unwrap_loki_envelope(&raw, "/loki/api/v1/labels").unwrap();
    assert_eq!(data, j(r##"["app", "namespace"]"##));
}

#[test]
fn unwrap_envelope_bails_on_non_success_status() {
    let raw = j(r##"{"status": "error"}"##);
    let err = unwrap_loki_envelope(&raw, "/loki/api/v1/query").unwrap_err();
    assert!(err.message.contains("non-success status"));
}

#[test]
fn unwrap_envelope_bails_when_status_missing() {
    let raw = j(r##"{"data": []}"##);
    let err = unwrap_loki_envelope(&raw, "/loki/api/v1/query").unwrap_err();
    assert!(err.message.contains("`status` field"));
}

#[test]
fn unwrap_envelope_bails_on_success_with_no_data() {
    let raw = j(r##"{"status": "success"}"##);
    let err = unwrap_loki_envelope(&raw, "/loki/api/v1/query").unwrap_err();
    assert!(err.message.contains("`data` field"));
}

#[test]
fn resolve_endpoint_prefers_flag() {
    let resolved = resolve_endpoint_inner(
        Some("http://flag:3100"),
        Some("http://env:3100".to_string()),
    )
    .unwrap();
    assert_eq!(resolved, "http://flag:3100");
}

#[test]
fn resolve_endpoint_falls_back_to_env() {
    let resolved =
        resolve_endpoint_inner(None, Some("http://env:3100".to_string())).unwrap();
    assert_eq!(resolved, "http://env:3100");
}

#[test]
fn resolve_endpoint_errors_when_neither_set() {
    let err = resolve_endpoint_inner(None, None).unwrap_err();
    let msg = err.message;
    assert!(msg.contains("LOKI_URL"), "got: {msg}");
    assert!(msg.contains("--url"), "got: {msg}");
}

#[test]
fn resolve_endpoint_treats_empty_flag_as_unset() {
    let resolved =
        resolve_endpoint_inner(Some(""), Some("http://env:3100".to_string())).unwrap();
    assert_eq!(resolved, "http://env:3100");
}

#[test]
fn resolve_endpoint_treats_empty_env_as_unset() {
    let err = resolve_endpoint_inner(None, Some(String::new())).unwrap_err();
    assert!(err.message.contains("LOKI_URL"));
}
