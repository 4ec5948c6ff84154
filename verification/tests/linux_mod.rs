use sak::linux::{check_proc_path, json_num, parse_kv_line, sanitize, FloatReading};
use sak::value::Json;

fn from_value(v: serde_json::Value) -> Json {
    match v {
        serde_json::Value::Null => Json::Null,
        serde_json::Value::Bool(b) => Json::Bool(b),
        serde_json::Value::Number(n) => match (n.as_u64(), n.as_i64()) {
            (Some(u), _) => Json::Unsigned(u),
            (None, Some(i)) => Json::Negative(i),
            (None, None) => Json::Float(n.to_string()),
        },
        serde_json::Value::String(s) => Json::Text(s),
        serde_json::Value::Array(items) => Json::Array(items.into_iter().map(from_value).collect()),
        serde_json::Value::Object(map) => {
            Json::Object(map.into_iter().map(|(k, v)| (k, from_value(v))).collect())
        }
    }
}

/// The value that a JSON text writes.
fn j(text: &str) -> Json {
    from_value(serde_json::from_str(text).unwrap())
}

/// What a text says as a floating-point number.
fn reading(s: &str) -> FloatReading {
    match s.parse::<f64>() {
        Ok(f) => match serde_json::Number::from_f64(f) {
            Some(n) => FloatReading::Finite {
                json: n.to_string(),
                whole: f.max(0.0) as u64,
            },
            None => FloatReading::NotFinite {
                whole: f.max(0.0) as u64,
            },
        },
        Err(_) => FloatReading::NotANumber,
    }
}

#[test]
fn read_proc_file_rejects_paths_outside_proc() {
    let err = check_proc_path("/etc/passwd").unwrap_err();
    assert!(err.message.contains("only reads paths under /proc/"));
}

#[test]
fn parse_kv_line_splits_on_first_colon() {
    assert_eq!(
        parse_kv_line("model name\t: Intel(R) Core(TM) i7"),
        Some(("model name".to_string(), "Intel(R) Core(TM) i7".to_string()))
    );
}

#[test]
fn parse_kv_line_keeps_value_colons() {
    assert_eq!(
        parse_kv_line("address sizes\t: 39 bits physical, 48 bits virtual"),
        Some((
            "address sizes".to_string(),
            "39 bits physical, 48 bits virtual".to_string()
        ))
    );
}

#[test]
fn parse_kv_line_rejects_lines_without_colon() {
    assert_eq!(parse_kv_line(""), None);
    assert_eq!(parse_kv_line("just some text"), None);
}

#[test]
fn sanitize_collapses_control_whitespace() {
    assert_eq!(sanitize("a\tb\nc\rd"), "a b c d");
    assert_eq!(sanitize("no control chars"), "no control chars");
}

#[test]
fn json_num_prefers_integer_then_float_then_string() {
    assert_eq!(json_num("12345", &reading("12345")), j(r##"12345"##));
    assert_eq!(json_num("2.71", &reading("2.71")), j(r##"2.71"##));
    assert_eq!(json_num("1/284", &reading("1/284")), j(r##""1/284""##));
    assert_eq!(json_num("-", &reading("-")), j(r##""-""##));
}
