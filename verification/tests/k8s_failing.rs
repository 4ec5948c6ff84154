use sak::k8s::failing::extract_failing_row;
use sak::value::Json;

fn from_value(v: serde_json::Value) -> Json {
    match v {
        serde_json::Value::Null => Json::Null,
        serde_json::Value::Bool(b) => Json::Bool(b),
        serde_json::Value::Number(n) => match (n.as_u64(), n.as_i64()) {
            (Some(u), _) => Json::Unsigned(u),
            (None, Some(i)) => Json::Negative(i),
            (None, None) => Json::Float(n.to_string()),
        },
        serde_json::Value::String(s) => Json::Text(s),
        serde_json::Value::Array(items) => Json::Array(items.into_iter().map(from_value).collect()),
        serde_json::Value::Object(map) => {
            Json::Object(map.into_iter().map(|(k, v)| (k, from_value(v))).collect())
        }
    }
}

/// The value that a JSON text writes.
fn j(text: &str) -> Json {
    from_value(serde_json::from_str(text).unwrap())
}

#[test]
fn running_pod_is_not_failing() {
    let pod = j(r##"{ "metadata": {"namespace": "ns", "name": "p"}, "status": {"phase": "Running"} }"##);
    assert!(extract_failing_row(&pod).is_none());
}

#[test]
fn succeeded_pod_is_not_failing() {
    let pod = j(r##"{ "metadata": {"namespace": "ns", "name": "p"}, "status": {"phase": "Succeeded"} }"##);
    assert!(extract_failing_row(&pod).is_none());
}

#[test]
fn pod_with_status_reason_uses_it_directly() {
    let pod = j(r##"{ "metadata": {"namespace": "ns", "name": "p"}, "status": {"phase": "Failed", "reason": "Evicted"} }"##);
    let row = extract_failing_row(&pod).expect("failing");
    assert_eq!(row.phase, "Failed");
    assert_eq!(row.reason, "Evicted");
}

#[test]
fn pod_falls_back_to_container_status_reason() {
    let pod = j(r##"{ "metadata": {"namespace": "ns", "name": "p"}, "status": { "phase": "Pending", "containerStatuses": [{ "name": "c", "state": {"waiting": {"reason": "ImagePullBackOff"}} }] } }"##);
    let row = extract_failing_row(&pod).expect("failing");
    assert_eq!(row.reason, "ImagePullBackOff");
}

#[test]
fn pod_with_no_reason_uses_dash() {
    let pod = j(r##"{ "metadata": {"namespace": "ns", "name": "p"}, "status": {"phase": "Pending"} }"##);
    let row = extract_failing_row(&pod).expect("failing");
    assert_eq!(row.reason, "-");
}
