use sak::k8s::podtable::{
    human_duration, parse_rfc3339_utc, pod_ip, pod_node, pod_ready, pod_restarts, pod_status, translate_timestamp,
};
use sak::value::Json;

fn from_value(v: serde_json::Value) -> Json {
    match v {
        serde_json::Value::Null => Json::Null,
        serde_json::Value::Bool(b) => Json::Bool(b),
        serde_json::Value::Number(n) => match (n.as_u64(), n.as_i64()) {
            (Some(u), _) => Json::Unsigned(u),
            (None, Some(i)) => Json::Negative(i),
            (None, None) => Json::Float(n.to_string()),
        },
        serde_json::Value::String(s) => Json::Text(s),
        serde_json::Value::Array(items) => Json::Array(items.into_iter().map(from_value).collect()),
        serde_json::Value::Object(map) => {
            Json::Object(map.into_iter().map(|(k, v)| (k, from_value(v))).collect())
        }
    }
}

/// The value that a JSON text writes.
fn j(text: &str) -> Json {
    from_value(serde_json::from_str(text).unwrap())
}

#[test]
fn ready_counts_ready_over_spec_total() {
    let pod = j(r##"{ "spec": {"containers": [{"name": "a"}, {"name": "b"}, {"name": "c"}]}, "status": {"containerStatuses": [ {"name": "a", "ready": true}, {"name": "b", "ready": false}, {"name": "c", "ready": true} ]} }"##);
    assert_eq!(pod_ready(&pod), "2/3");
}

#[test]
fn restarts_sum_across_containers() {
    let pod = j(r##"{ "status": {"containerStatuses": [ {"name": "a", "restartCount": 3}, {"name": "b", "restartCount": 4} ]} }"##);
    assert_eq!(pod_restarts(&pod), 7);
}

#[test]
fn status_running_from_phase() {
    let pod = j(r##"{ "spec": {"containers": [{"name": "a"}]}, "status": { "phase": "Running", "containerStatuses": [ {"name": "a", "ready": true, "state": {"running": {"startedAt": "x"}}} ] } }"##);
    assert_eq!(pod_status(&pod), "Running");
}

#[test]
fn status_waiting_reason_wins() {
    let pod = j(r##"{ "status": { "phase": "Pending", "containerStatuses": [ {"name": "a", "state": {"waiting": {"reason": "CrashLoopBackOff"}}} ] } }"##);
    assert_eq!(pod_status(&pod), "CrashLoopBackOff");
}

#[test]
fn status_init_progress() {
    let pod = j(r##"{ "spec": {"initContainers": [{"name": "i0"}, {"name": "i1"}]}, "status": { "phase": "Pending", "initContainerStatuses": [ {"name": "i0", "state": {"running": {}}} ] } }"##);
    assert_eq!(pod_status(&pod), "Init:0/2");
}

#[test]
fn status_init_failure_uses_reason() {
    let pod = j(r##"{ "status": { "phase": "Pending", "initContainerStatuses": [ {"name": "i0", "state": {"terminated": {"exitCode": 1, "reason": "Error"}}} ] } }"##);
    assert_eq!(pod_status(&pod), "Init:Error");
}

#[test]
fn status_completed_but_running_becomes_running_when_ready() {
    let pod = j(r##"{ "status": { "phase": "Running", "reason": "Completed", "conditions": [{"type": "Ready", "status": "True"}], "containerStatuses": [ {"name": "a", "ready": true, "state": {"running": {}}} ] } }"##);
    // status.reason=Completed but a container is running & ready → Running.
    assert_eq!(pod_status(&pod), "Running");
}

#[test]
fn status_terminating_on_deletion() {
    let pod = j(r##"{ "metadata": {"deletionTimestamp": "2024-01-01T00:00:00Z"}, "status": {"phase": "Running"} }"##);
    assert_eq!(pod_status(&pod), "Terminating");
}

#[test]
fn status_unknown_on_node_lost_deletion() {
    let pod = j(r##"{ "metadata": {"deletionTimestamp": "2024-01-01T00:00:00Z"}, "status": {"phase": "Running", "reason": "NodeLost"} }"##);
    assert_eq!(pod_status(&pod), "Unknown");
}

#[test]
fn node_and_ip_extraction() {
    let pod = j(r##"{ "spec": {"nodeName": "node-1"}, "status": {"podIP": "10.0.0.5"} }"##);
    assert_eq!(pod_node(&pod), "node-1");
    assert_eq!(pod_ip(&pod), "10.0.0.5");
    let empty = j(r##"{"spec": {}, "status": {}}"##);
    assert_eq!(pod_node(&empty), "-");
    assert_eq!(pod_ip(&empty), "-");
}

#[test]
fn parse_timestamp_known_epoch() {
    // 2021-01-01T00:00:00Z == 1609459200
    assert_eq!(parse_rfc3339_utc("2021-01-01T00:00:00Z"), Some(1609459200));
    // Fractional seconds are dropped.
    assert_eq!(
        parse_rfc3339_utc("2021-01-01T00:00:00.123456Z"),
        Some(1609459200)
    );
    // Epoch itself.
    assert_eq!(parse_rfc3339_utc("1970-01-01T00:00:00Z"), Some(0));
    // Non-UTC / malformed.
    assert_eq!(parse_rfc3339_utc("2021-01-01T00:00:00+05:00"), None);
    assert_eq!(parse_rfc3339_utc("not-a-date"), None);
}

#[test]
fn human_duration_tiers() {
    assert_eq!(human_duration(-5), "<invalid>");
    assert_eq!(human_duration(45), "45s");
    // 150s = 2m30s (< 10 minutes keeps the seconds component)
    assert_eq!(human_duration(150), "2m30s");
    // 180s = exactly 3m (zero seconds component drops the suffix)
    assert_eq!(human_duration(180), "3m");
    // 3m20s (< 10 minutes, non-zero seconds)
    assert_eq!(human_duration(3 * 60 + 20), "3m20s");
    // 90 minutes → 90m (< 3h)
    assert_eq!(human_duration(90 * 60), "90m");
    // 5h30m (< 8h)
    assert_eq!(human_duration(5 * 3600 + 30 * 60), "5h30m");
    // 30h → 30h (< 48h)
    assert_eq!(human_duration(30 * 3600), "30h");
    // 3 days 2 hours
    assert_eq!(human_duration(3 * 86400 + 2 * 3600), "3d2h");
    // 30 days → 30d
    assert_eq!(human_duration(30 * 86400), "30d");
    // 2 years 34 days
    assert_eq!(human_duration((2 * 365 + 34) * 86400), "2y34d");
}

#[test]
fn translate_timestamp_missing_is_dash() {
    assert_eq!(translate_timestamp(None, 1_000_000), "-");
    assert_eq!(translate_timestamp(Some("garbage"), 1_000_000), "-");
}

#[test]
fn translate_timestamp_computes_age() {
    // creation at epoch+0, now epoch+3 days → "3d"
    let age = translate_timestamp(Some("1970-01-01T00:00:00Z"), 3 * 86400);
    assert_eq!(age, "3d");
}
