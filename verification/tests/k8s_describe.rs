use sak::k8s::describe::{
    humanize_age, last_state_label, last_terminated_reason, parse_rfc3339_utc_seconds,
};
use sak::value::Json;

fn from_value(v: serde_json::Value) -> Json {
    match v {
        serde_json::Value::Null => Json::Null,
        serde_json::Value::Bool(b) => Json::Bool(b),
        serde_json::Value::Number(n) => match (n.as_u64(), n.as_i64()) {
            (Some(u), _) => Json::Unsigned(u),
            (None, Some(i)) => Json::Negative(i),
            (None, None) => Json::Float(n.to_string()),
        },
        serde_json::Value::String(s) => Json::Text(s),
        serde_json::Value::Array(items) => Json::Array(items.into_iter().map(from_value).collect()),
        serde_json::Value::Object(map) => {
            Json::Object(map.into_iter().map(|(k, v)| (k, from_value(v))).collect())
        }
    }
}

/// The value that a JSON text writes.
fn j(text: &str) -> Json {
    from_value(serde_json::from_str(text).unwrap())
}

/// The UTC timestamp of a second counted from the start of 1970.
fn format_unix_seconds(s: i64) -> String {
    // civil_from_days
    let z = s.div_euclid(86400) + 719468;
    let era = if z >= 0 { z } else { z - 146096 } / 146097;
    let doe = (z - era * 146097) as u64;
    let yoe = (doe - doe / 1460 + doe / 36524 - doe / 146096) / 365;
    let y = yoe as i64 + era * 400;
    let doy = doe - (365 * yoe + yoe / 4 - yoe / 100);
    let mp = (5 * doy + 2) / 153;
    let d = doy - (153 * mp + 2) / 5 + 1;
    let m = if mp < 10 { mp + 3 } else { mp - 9 };
    let year = if m <= 2 { y + 1 } else { y };
    let secs_of_day = s.rem_euclid(86400) as u64;
    let hh = secs_of_day / 3600;
    let mm = (secs_of_day / 60) % 60;
    let ss = secs_of_day % 60;
    format!("{year:04}-{m:02}-{d:02}T{hh:02}:{mm:02}:{ss:02}Z")
}

#[test]
fn parse_unix_epoch() {
    assert_eq!(parse_rfc3339_utc_seconds("1970-01-01T00:00:00Z"), Some(0));
}

#[test]
fn parse_known_timestamp() {
    // 2024-01-01T00:00:00Z = 1704067200
    assert_eq!(
        parse_rfc3339_utc_seconds("2024-01-01T00:00:00Z"),
        Some(1_704_067_200)
    );
}

#[test]
fn parse_with_fractional_seconds() {
    // We ignore the fractional part — should still parse the integer
    // seconds successfully.
    assert_eq!(
        parse_rfc3339_utc_seconds("2024-01-01T00:00:00.123Z"),
        Some(1_704_067_200)
    );
}

#[test]
fn parse_rejects_bad_format() {
    assert_eq!(parse_rfc3339_utc_seconds("not a date"), None);
    assert_eq!(parse_rfc3339_utc_seconds("2024-01-01"), None);
    assert_eq!(parse_rfc3339_utc_seconds("2024/01/01T00:00:00Z"), None);
    assert_eq!(parse_rfc3339_utc_seconds("2024-13-01T00:00:00Z"), None);
}

#[test]
fn humanize_age_handles_unparseable() {
    assert_eq!(humanize_age("not a date"), "-");
}

#[test]
fn humanize_age_buckets_by_unit() {
    // We can't test against "now", but we can test the bucketing logic
    // by parsing known timestamps and checking format.
    let now = std::time::SystemTime::now()
        .duration_since(std::time::UNIX_EPOCH)
        .unwrap()
        .as_secs() as i64;
    // 5 seconds ago
    let secs = format_unix_seconds(now - 5);
    assert!(humanize_age(&secs).ends_with('s'));
    // 5 minutes ago
    let secs = format_unix_seconds(now - 5 * 60);
    assert!(humanize_age(&secs).ends_with('m'));
    // 5 hours ago
    let secs = format_unix_seconds(now - 5 * 3600);
    assert!(humanize_age(&secs).ends_with('h'));
    // 5 days ago
    let secs = format_unix_seconds(now - 5 * 86400);
    assert!(humanize_age(&secs).ends_with('d'));
}

#[test]
fn last_state_label_picks_first_present_key() {
    let cs = j(r##"{"lastState": {"terminated": {"reason": "OOMKilled"}}}"##);
    assert_eq!(last_state_label(&cs), "terminated");
    let cs = j(r##"{"lastState": {"waiting": {"reason": "CrashLoopBackOff"}}}"##);
    assert_eq!(last_state_label(&cs), "waiting");
    let cs = j(r##"{"lastState": {}}"##);
    assert_eq!(last_state_label(&cs), "-");
    let cs = j(r##"{}"##);
    assert_eq!(last_state_label(&cs), "-");
}

#[test]
fn last_terminated_reason_prefers_terminated_over_waiting() {
    let cs = j(r##"{"lastState": { "terminated": {"reason": "Error"}, "waiting": {"reason": "CrashLoopBackOff"} }}"##);
    assert_eq!(last_terminated_reason(&cs), "Error");
    let cs = j(r##"{"lastState": {"waiting": {"reason": "CrashLoopBackOff"}}}"##);
    assert_eq!(last_terminated_reason(&cs), "CrashLoopBackOff");
    let cs = j(r##"{}"##);
    assert_eq!(last_terminated_reason(&cs), "-");
}
