use sak::k8s::env::render_env_value;
use sak::value::Json;

fn from_value(v: serde_json::Value) -> Json {
    match v {
        serde_json::Value::Null => Json::Null,
        serde_json::Value::Bool(b) => Json::Bool(b),
        serde_json::Value::Number(n) => match (n.as_u64(), n.as_i64()) {
            (Some(u), _) => Json::Unsigned(u),
            (None, Some(i)) => Json::Negative(i),
            (None, None) => Json::Float(n.to_string()),
        },
        serde_json::Value::String(s) => Json::Text(s),
        serde_json::Value::Array(items) => Json::Array(items.into_iter().map(from_value).collect()),
        serde_json::Value::Object(map) => {
            Json::Object(map.into_iter().map(|(k, v)| (k, from_value(v))).collect())
        }
    }
}

/// The value that a JSON text writes.
fn j(text: &str) -> Json {
    from_value(serde_json::from_str(text).unwrap())
}

#[test]
fn literal_value() {
    let e = j(r##"{"name": "FOO", "value": "bar"}"##);
    assert_eq!(render_env_value(&e), "bar");
}

#[test]
fn configmap_ref() {
    let e = j(r##"{ "name": "X", "valueFrom": {"configMapKeyRef": {"name": "app-config", "key": "log-level"}} }"##);
    assert_eq!(render_env_value(&e), "cm:app-config/log-level");
}

#[test]
fn secret_ref() {
    let e = j(r##"{ "name": "X", "valueFrom": {"secretKeyRef": {"name": "db", "key": "password"}} }"##);
    assert_eq!(render_env_value(&e), "secret:db/password");
}

#[test]
fn field_ref() {
    let e = j(r##"{ "name": "POD_NAMESPACE", "valueFrom": {"fieldRef": {"fieldPath": "metadata.namespace"}} }"##);
    assert_eq!(render_env_value(&e), "field:metadata.namespace");
}

#[test]
fn resource_field_ref() {
    let e = j(r##"{ "name": "CPU_LIMIT", "valueFrom": {"resourceFieldRef": {"resource": "limits.cpu"}} }"##);
    assert_eq!(render_env_value(&e), "resource:limits.cpu");
}

#[test]
fn unknown_shape_yields_question_mark() {
    let e = j(r##"{"name": "X", "valueFrom": {"weirdRef": {}}}"##);
    assert_eq!(render_env_value(&e), "?");
}
