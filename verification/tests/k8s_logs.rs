use sak::k8s::logs::{container_names, parse_since};
use sak::value::Json;

fn from_value(v: serde_json::Value) -> Json {
    match v {
        serde_json::Value::Null => Json::Null,
        serde_json::Value::Bool(b) => Json::Bool(b),
        serde_json::Value::Number(n) => match (n.as_u64(), n.as_i64()) {
            (Some(u), _) => Json::Unsigned(u),
            (None, Some(i)) => Json::Negative(i),
            (None, None) => Json::Float(n.to_string()),
        },
        serde_json::Value::String(s) => Json::Text(s),
        serde_json::Value::Array(items) => Json::Array(items.into_iter().map(from_value).collect()),
        serde_json::Value::Object(map) => {
            Json::Object(map.into_iter().map(|(k, v)| (k, from_value(v))).collect())
        }
    }
}

/// The value that a JSON text writes.
fn j(text: &str) -> Json {
    from_value(serde_json::from_str(text).unwrap())
}

#[test]
fn parse_since_simple_units() {
    assert_eq!(parse_since("10s").unwrap(), 10);
    assert_eq!(parse_since("5m").unwrap(), 300);
    assert_eq!(parse_since("2h").unwrap(), 7200);
    assert_eq!(parse_since("1d").unwrap(), 86400);
}

#[test]
fn parse_since_compound() {
    assert_eq!(parse_since("2h30m").unwrap(), 2 * 3600 + 30 * 60);
    assert_eq!(parse_since("1d12h").unwrap(), 86400 + 12 * 3600);
    assert_eq!(parse_since("1h30m45s").unwrap(), 3600 + 30 * 60 + 45);
}

#[test]
fn parse_since_rejects_invalid() {
    assert!(parse_since("").is_err());
    assert!(parse_since("10").is_err()); // no unit
    assert!(parse_since("m").is_err()); // unit without digits
    assert!(parse_since("10x").is_err()); // unknown unit
    assert!(parse_since("10s5").is_err()); // trailing digits
    assert!(parse_since("1 0s").is_err()); // whitespace
}

#[test]
fn container_names_extracts_in_order() {
    let pod = j(r##"{ "spec": { "containers": [ {"name": "app"}, {"name": "sidecar"} ] } }"##);
    assert_eq!(container_names(&pod), vec!["app", "sidecar"]);
}

#[test]
fn container_names_empty_when_missing() {
    let pod = j(r##"{"metadata": {"name": "p"}}"##);
    assert!(container_names(&pod).is_empty());
}
