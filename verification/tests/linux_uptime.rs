use sak::linux::FloatReading;
use sak::linux::uptime::{build_json, humanize, parse_uptime, Uptime};
use sak::value::Json;

fn from_value(v: serde_json::Value) -> Json {
    match v {
        serde_json::Value::Null => Json::Null,
        serde_json::Value::Bool(b) => Json::Bool(b),
        serde_json::Value::Number(n) => match (n.as_u64(), n.as_i64()) {
            (Some(u), _) => Json::Unsigned(u),
            (None, Some(i)) => Json::Negative(i),
            (None, None) => Json::Float(n.to_string()),
        },
        serde_json::Value::String(s) => Json::Text(s),
        serde_json::Value::Array(items) => Json::Array(items.into_iter().map(from_value).collect()),
        serde_json::Value::Object(map) => {
            Json::Object(map.into_iter().map(|(k, v)| (k, from_value(v))).collect())
        }
    }
}

/// The value that a JSON text writes.
fn j(text: &str) -> Json {
    from_value(serde_json::from_str(text).unwrap())
}

/// What a text says as a floating-point number.
fn reading(s: &str) -> FloatReading {
    match s.parse::<f64>() {
        Ok(f) => match serde_json::Number::from_f64(f) {
            Some(n) => FloatReading::Finite {
                json: n.to_string(),
                whole: f.max(0.0) as u64,
            },
            None => FloatReading::NotFinite {
                whole: f.max(0.0) as u64,
            },
        },
        Err(_) => FloatReading::NotANumber,
    }
}

/// The whole seconds of a time that is not negative.
fn whole(seconds: f64) -> u64 {
    seconds.max(0.0) as u64
}

#[test]
fn uptime_parses_standard_line() {
    let up = parse_uptime("12345.67 98765.43\n").unwrap();
    assert_eq!(
        up,
        Uptime {
            uptime: "12345.67".into(),
            idle: "98765.43".into(),
        }
    );
}

#[test]
fn uptime_rejects_short_line() {
    assert_eq!(parse_uptime("12345.67\n"), None);
}

#[test]
fn humanize_breaks_down_days_hours_minutes() {
    // 1 day, 1 hour, 1 minute, 1 second -> seconds truncated.
    assert_eq!(humanize(whole(90_061.0)), "1d 1h 1m");
    assert_eq!(humanize(whole(0.0)), "0d 0h 0m");
    assert_eq!(humanize(whole(3_661.0)), "0d 1h 1m");
    assert_eq!(humanize(whole(172_800.0)), "2d 0h 0m");
}

#[test]
fn humanize_clamps_negative_to_zero() {
    assert_eq!(humanize(whole(-5.0)), "0d 0h 0m");
}

#[test]
fn json_adds_human_only_when_requested() {
    let up = parse_uptime("90061.0 100000.0\n").unwrap();
    let plain = build_json(&up, &reading("90061.0"), &reading("100000.0"), false);
    assert!(plain.get("uptime_human").is_none());
    assert_eq!(plain.get("uptime_seconds"), Some(&j(r##"90061.0"##)));

    let human = build_json(&up, &reading("90061.0"), &reading("100000.0"), true);
    assert_eq!(human.get("uptime_human"), Some(&j(r##""1d 1h 1m""##)));
}
