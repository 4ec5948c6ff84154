use sak::linux::FloatReading;
use sak::linux::loadavg::{build_json, parse_loadavg, LoadAvg, LoadReadings};
use sak::value::Json;

fn from_value(v: serde_json::Value) -> Json {
    match v {
        serde_json::Value::Null => Json::Null,
        serde_json::Value::Bool(b) => Json::Bool(b),
        serde_json::Value::Number(n) => match (n.as_u64(), n.as_i64()) {
            (Some(u), _) => Json::Unsigned(u),
            (None, Some(i)) => Json::Negative(i),
            (None, None) => Json::Float(n.to_string()),
        },
        serde_json::Value::String(s) => Json::Text(s),
        serde_json::Value::Array(items) => Json::Array(items.into_iter().map(from_value).collect()),
        serde_json::Value::Object(map) => {
            Json::Object(map.into_iter().map(|(k, v)| (k, from_value(v))).collect())
        }
    }
}

/// The value that a JSON text writes.
fn j(text: &str) -> Json {
    from_value(serde_json::from_str(text).unwrap())
}

/// What a text says as a floating-point number.
fn reading(s: &str) -> FloatReading {
    match s.parse::<f64>() {
        Ok(f) => match serde_json::Number::from_f64(f) {
            Some(n) => FloatReading::Finite {
                json: n.to_string(),
                whole: f.max(0.0) as u64,
            },
            None => FloatReading::NotFinite {
                whole: f.max(0.0) as u64,
            },
        },
        Err(_) => FloatReading::NotANumber,
    }
}

#[test]
fn loadavg_parses_standard_line() {
    let la = parse_loadavg("3.14 2.71 1.41 1/284 12345\n").unwrap();
    assert_eq!(
        la,
        LoadAvg {
            one: "3.14".into(),
            five: "2.71".into(),
            fifteen: "1.41".into(),
            running: "1".into(),
            total: "284".into(),
            last_pid: "12345".into(),
        }
    );
}

#[test]
fn loadavg_rejects_short_line() {
    assert_eq!(parse_loadavg("3.14 2.71 1.41\n"), None);
}

#[test]
fn rejects_running_field_without_slash() {
    assert_eq!(parse_loadavg("3.14 2.71 1.41 284 12345\n"), None);
}

#[test]
fn json_is_typed() {
    let la = parse_loadavg("0.50 0.25 0.10 2/284 999\n").unwrap();
    let readings = LoadReadings {
        one: reading(&la.one),
        five: reading(&la.five),
        fifteen: reading(&la.fifteen),
        running: reading(&la.running),
        total: reading(&la.total),
        last_pid: reading(&la.last_pid),
    };
    let v = build_json(&la, &readings);
    assert_eq!(v.get("1m"), Some(&j(r##"0.5"##)));
    assert_eq!(v.get("running"), Some(&j(r##"2"##)));
    assert_eq!(v.get("total"), Some(&j(r##"284"##)));
    assert_eq!(v.get("last_pid"), Some(&j(r##"999"##)));
}
