use sak::k8s::events::{
    event_matches, extract_event_row, format_event_row, sort_rows_desc, EventRow,
};
use sak::value::Json;

fn from_value(v: serde_json::Value) -> Json {
    match v {
        serde_json::Value::Null => Json::Null,
        serde_json::Value::Bool(b) => Json::Bool(b),
        serde_json::Value::Number(n) => match (n.as_u64(), n.as_i64()) {
            (Some(u), _) => Json::Unsigned(u),
            (None, Some(i)) => Json::Negative(i),
            (None, None) => Json::Float(n.to_string()),
        },
        serde_json::Value::String(s) => Json::Text(s),
        serde_json::Value::Array(items) => Json::Array(items.into_iter().map(from_value).collect()),
        serde_json::Value::Object(map) => {
            Json::Object(map.into_iter().map(|(k, v)| (k, from_value(v))).collect())
        }
    }
}

/// The value that a JSON text writes.
fn j(text: &str) -> Json {
    from_value(serde_json::from_str(text).unwrap())
}

#[test]
fn extract_uses_last_timestamp_when_present() {
    let ev = j(r##"{ "lastTimestamp": "2026-04-09T12:00:00Z", "eventTime": "2026-04-08T12:00:00Z", "firstTimestamp": "2026-04-07T12:00:00Z", "type": "Warning", "reason": "FailedScheduling", "involvedObject": {"kind": "Pod", "name": "p"}, "message": "0/3 nodes available" }"##);
    let row = extract_event_row(&ev);
    assert_eq!(row.last, "2026-04-09T12:00:00Z");
    assert_eq!(row.event_type, "Warning");
    assert_eq!(row.reason, "FailedScheduling");
    assert_eq!(row.kind_name, "Pod/p");
    assert_eq!(row.message, "0/3 nodes available");
}

#[test]
fn extract_falls_back_to_event_time() {
    let ev = j(r##"{ "eventTime": "2026-04-08T12:00:00Z", "firstTimestamp": "2026-04-07T12:00:00Z", "type": "Normal", "reason": "Pulled", "involvedObject": {"kind": "Pod", "name": "p"}, "message": "ok" }"##);
    let row = extract_event_row(&ev);
    assert_eq!(row.last, "2026-04-08T12:00:00Z");
}

#[test]
fn extract_falls_back_to_first_timestamp() {
    let ev = j(r##"{ "firstTimestamp": "2026-04-07T12:00:00Z", "type": "Normal", "reason": "Created", "involvedObject": {"kind": "Pod", "name": "p"}, "message": "ok" }"##);
    let row = extract_event_row(&ev);
    assert_eq!(row.last, "2026-04-07T12:00:00Z");
}

#[test]
fn extract_collapses_multiline_message() {
    let ev = j(r##"{ "lastTimestamp": "2026-04-09T12:00:00Z", "type": "Warning", "reason": "BackOff", "involvedObject": {"kind": "Pod", "name": "p"}, "message": "line one\nline two\rline three" }"##);
    let row = extract_event_row(&ev);
    assert_eq!(row.message, "line one line two line three");
}

#[test]
fn extract_missing_fields_use_dashes() {
    let ev = j(r##"{}"##);
    let row = extract_event_row(&ev);
    assert_eq!(row.last, "-");
    assert_eq!(row.event_type, "-");
    assert_eq!(row.reason, "-");
    assert_eq!(row.kind_name, "-");
    assert_eq!(row.message, "");
}

#[test]
fn sort_orders_newest_first() {
    let mut rows = vec![
        EventRow {
            last: "2026-04-07T00:00:00Z".into(),
            event_type: "Normal".into(),
            reason: "A".into(),
            kind_name: "Pod/a".into(),
            message: "".into(),
        },
        EventRow {
            last: "2026-04-09T00:00:00Z".into(),
            event_type: "Normal".into(),
            reason: "B".into(),
            kind_name: "Pod/b".into(),
            message: "".into(),
        },
        EventRow {
            last: "2026-04-08T00:00:00Z".into(),
            event_type: "Normal".into(),
            reason: "C".into(),
            kind_name: "Pod/c".into(),
            message: "".into(),
        },
    ];
    sort_rows_desc(&mut rows);
    assert_eq!(rows[0].kind_name, "Pod/b");
    assert_eq!(rows[1].kind_name, "Pod/c");
    assert_eq!(rows[2].kind_name, "Pod/a");
}

#[test]
fn sort_breaks_ties_by_kind_name() {
    let mut rows = vec![
        EventRow {
            last: "2026-04-09T00:00:00Z".into(),
            event_type: "Normal".into(),
            reason: "A".into(),
            kind_name: "Pod/zeta".into(),
            message: "".into(),
        },
        EventRow {
            last: "2026-04-09T00:00:00Z".into(),
            event_type: "Normal".into(),
            reason: "B".into(),
            kind_name: "Pod/alpha".into(),
            message: "".into(),
        },
    ];
    sort_rows_desc(&mut rows);
    assert_eq!(rows[0].kind_name, "Pod/alpha");
    assert_eq!(rows[1].kind_name, "Pod/zeta");
}

#[test]
fn event_matches_kind_case_insensitive() {
    let ev = j(r##"{"involvedObject": {"kind": "Pod", "name": "web-0"}}"##);
    assert!(event_matches(&ev, "Pod", "web-0"));
    assert!(event_matches(&ev, "pod", "web-0"));
    assert!(event_matches(&ev, "POD", "web-0"));
    assert!(!event_matches(&ev, "Pod", "web-1"));
    assert!(!event_matches(&ev, "Service", "web-0"));
}

#[test]
fn format_emits_tab_separated_line() {
    let row = EventRow {
        last: "2026-04-09T12:00:00Z".into(),
        event_type: "Warning".into(),
        reason: "FailedScheduling".into(),
        kind_name: "Pod/p".into(),
        message: "0/3 nodes".into(),
    };
    assert_eq!(
        format_event_row(&row),
        "2026-04-09T12:00:00Z\tWarning\tFailedScheduling\tPod/p\t0/3 nodes"
    );
}
