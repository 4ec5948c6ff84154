use sak::k8s::restarts::{container_status_reason, extract_restart_rows};
use sak::value::Json;

fn from_value(v: serde_json::Value) -> Json {
    match v {
        serde_json::Value::Null => Json::Null,
        serde_json::Value::Bool(b) => Json::Bool(b),
        serde_json::Value::Number(n) => match (n.as_u64(), n.as_i64()) {
            (Some(u), _) => Json::Unsigned(u),
            (None, Some(i)) => Json::Negative(i),
            (None, None) => Json::Float(n.to_string()),
        },
        serde_json::Value::String(s) => Json::Text(s),
        serde_json::Value::Array(items) => Json::Array(items.into_iter().map(from_value).collect()),
        serde_json::Value::Object(map) => {
            Json::Object(map.into_iter().map(|(k, v)| (k, from_value(v))).collect())
        }
    }
}

/// The value that a JSON text writes.
fn j(text: &str) -> Json {
    from_value(serde_json::from_str(text).unwrap())
}

#[test]
fn extract_rows_with_last_terminated_reason() {
    let pod = j(r##"{ "metadata": {"namespace": "default", "name": "web"}, "status": { "containerStatuses": [ { "name": "app", "restartCount": 7, "lastState": {"terminated": {"reason": "OOMKilled"}} }, { "name": "sidecar", "restartCount": 0 } ] } }"##);
    let rows = extract_restart_rows(&pod);
    assert_eq!(rows.len(), 2);
    assert_eq!(rows[0].namespace, "default");
    assert_eq!(rows[0].pod, "web");
    assert_eq!(rows[0].container, "app");
    assert_eq!(rows[0].restarts, 7);
    assert_eq!(rows[0].last_reason, "OOMKilled");
    assert_eq!(rows[1].container, "sidecar");
    assert_eq!(rows[1].restarts, 0);
    assert_eq!(rows[1].last_reason, "-");
}

#[test]
fn extract_rows_missing_status_yields_nothing() {
    let pod = j(r##"{"metadata": {"namespace": "ns", "name": "p"}}"##);
    assert!(extract_restart_rows(&pod).is_empty());
}

#[test]
fn container_status_reason_prefers_waiting() {
    let pod = j(r##"{ "status": { "containerStatuses": [{ "name": "c", "state": {"waiting": {"reason": "CrashLoopBackOff"}} }] } }"##);
    assert_eq!(
        container_status_reason(&pod),
        Some("CrashLoopBackOff".to_string())
    );
}

#[test]
fn container_status_reason_falls_back_to_terminated() {
    let pod = j(r##"{ "status": { "containerStatuses": [{ "name": "c", "state": {"terminated": {"reason": "Error"}} }] } }"##);
    assert_eq!(container_status_reason(&pod), Some("Error".to_string()));
}

#[test]
fn container_status_reason_none_when_running() {
    let pod = j(r##"{ "status": { "containerStatuses": [{ "name": "c", "state": {"running": {"startedAt": "2024-01-01T00:00:00Z"}} }] } }"##);
    assert_eq!(container_status_reason(&pod), None);
}
