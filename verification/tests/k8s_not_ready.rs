use sak::k8s::not_ready::unmet;
use sak::value::Json;

fn from_value(v: serde_json::Value) -> Json {
    match v {
        serde_json::Value::Null => Json::Null,
        serde_json::Value::Bool(b) => Json::Bool(b),
        serde_json::Value::Number(n) => match (n.as_u64(), n.as_i64()) {
            (Some(u), _) => Json::Unsigned(u),
            (None, Some(i)) => Json::Negative(i),
            (None, None) => Json::Float(n.to_string()),
        },
        serde_json::Value::String(s) => Json::Text(s),
        serde_json::Value::Array(items) => Json::Array(items.into_iter().map(from_value).collect()),
        serde_json::Value::Object(map) => {
            Json::Object(map.into_iter().map(|(k, v)| (k, from_value(v))).collect())
        }
    }
}

/// The value that a JSON text writes.
fn j(text: &str) -> Json {
    from_value(serde_json::from_str(text).unwrap())
}

#[test]
fn ready_true_is_healthy() {
    let obj = j(r##"{ "metadata": {"namespace": "ns", "name": "k"}, "status": {"conditions": [{"type": "Ready", "status": "True"}]} }"##);
    assert!(unmet(&obj, "Ready", "True").is_none());
}

#[test]
fn ready_false_is_not_ready() {
    let obj = j(r##"{ "metadata": {"namespace": "self-hosted", "name": "tracefinity"}, "status": {"conditions": [{ "type": "Ready", "status": "False", "reason": "ReconciliationFailed", "message": "ReplicationDestination must be of type string" }]} }"##);
    let row = unmet(&obj, "Ready", "True").expect("not ready");
    assert_eq!(row.namespace, "self-hosted");
    assert_eq!(row.name, "tracefinity");
    assert_eq!(row.status, "False");
    assert_eq!(row.reason, "ReconciliationFailed");
    assert_eq!(row.message, "ReplicationDestination must be of type string");
}

#[test]
fn condition_absent_is_not_ready() {
    let obj = j(r##"{ "metadata": {"namespace": "ns", "name": "k"}, "status": {"conditions": [{"type": "Reconciling", "status": "True"}]} }"##);
    let row = unmet(&obj, "Ready", "True").expect("not ready");
    assert_eq!(row.status, "-");
    assert_eq!(row.reason, "-");
    assert_eq!(row.message, "-");
}

#[test]
fn no_status_block_is_not_ready() {
    let obj = j(r##"{"metadata": {"namespace": "ns", "name": "k"}}"##);
    let row = unmet(&obj, "Ready", "True").expect("not ready");
    assert_eq!(row.status, "-");
}

#[test]
fn deployment_available_false_with_custom_flags() {
    let obj = j(r##"{ "metadata": {"namespace": "apps", "name": "api"}, "status": {"conditions": [ {"type": "Progressing", "status": "True"}, {"type": "Available", "status": "False", "reason": "MinimumReplicasUnavailable"} ]} }"##);
    // Default condition (Ready) is absent → not ready.
    assert!(unmet(&obj, "Ready", "True").is_some());
    // Targeting Available picks the right element.
    let row = unmet(&obj, "Available", "True").expect("not available");
    assert_eq!(row.status, "False");
    assert_eq!(row.reason, "MinimumReplicasUnavailable");
    assert_eq!(row.message, "-");
}

#[test]
fn available_true_with_custom_flag_is_healthy() {
    let obj = j(r##"{ "metadata": {"namespace": "apps", "name": "api"}, "status": {"conditions": [{"type": "Available", "status": "True"}]} }"##);
    assert!(unmet(&obj, "Available", "True").is_none());
}

#[test]
fn message_newlines_are_collapsed() {
    let obj = j(r##"{ "metadata": {"namespace": "ns", "name": "k"}, "status": {"conditions": [{ "type": "Ready", "status": "False", "message": "line one\nline two\r\nline three" }]} }"##);
    let row = unmet(&obj, "Ready", "True").expect("not ready");
    assert!(!row.message.contains('\n'));
    assert!(!row.message.contains('\r'));
    assert_eq!(row.message, "line one line two  line three");
}
