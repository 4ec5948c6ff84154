use sak::k8s::pending::extract_pending_row;
use sak::value::Json;

fn from_value(v: serde_json::Value) -> Json {
    match v {
        serde_json::Value::Null => Json::Null,
        serde_json::Value::Bool(b) => Json::Bool(b),
        serde_json::Value::Number(n) => match (n.as_u64(), n.as_i64()) {
            (Some(u), _) => Json::Unsigned(u),
            (None, Some(i)) => Json::Negative(i),
            (None, None) => Json::Float(n.to_string()),
        },
        serde_json::Value::String(s) => Json::Text(s),
        serde_json::Value::Array(items) => Json::Array(items.into_iter().map(from_value).collect()),
        serde_json::Value::Object(map) => {
            Json::Object(map.into_iter().map(|(k, v)| (k, from_value(v))).collect())
        }
    }
}

/// The value that a JSON text writes.
fn j(text: &str) -> Json {
    from_value(serde_json::from_str(text).unwrap())
}

#[test]
fn non_pending_pod_is_skipped() {
    let pod = j(r##"{ "metadata": {"namespace": "ns", "name": "p"}, "status": {"phase": "Running"} }"##);
    assert!(extract_pending_row(&pod).is_none());
}

#[test]
fn pending_pod_with_pod_scheduled_false_extracts_message() {
    let pod = j(r##"{ "metadata": {"namespace": "ns", "name": "p"}, "status": { "phase": "Pending", "conditions": [{ "type": "PodScheduled", "status": "False", "reason": "Unschedulable", "message": "0/3 nodes are available: 3 Insufficient memory." }] } }"##);
    let row = extract_pending_row(&pod).expect("pending");
    assert_eq!(row.namespace, "ns");
    assert_eq!(row.pod, "p");
    assert_eq!(
        row.reason,
        "0/3 nodes are available: 3 Insufficient memory."
    );
}

#[test]
fn pending_pod_without_unschedulable_condition_uses_dash() {
    let pod = j(r##"{ "metadata": {"namespace": "ns", "name": "p"}, "status": { "phase": "Pending", "conditions": [{ "type": "PodScheduled", "status": "True" }] } }"##);
    let row = extract_pending_row(&pod).expect("pending");
    assert_eq!(row.reason, "-");
}

#[test]
fn pending_pod_with_no_conditions_uses_dash() {
    let pod = j(r##"{ "metadata": {"namespace": "ns", "name": "p"}, "status": {"phase": "Pending"} }"##);
    let row = extract_pending_row(&pod).expect("pending");
    assert_eq!(row.reason, "-");
}
