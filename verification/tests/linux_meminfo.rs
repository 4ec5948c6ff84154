use sak::linux::meminfo::{build_json, parse_meminfo};
use sak::value::Json;

const MEMINFO: &str = "\
MemTotal:       16384256 kB
MemFree:         1234567 kB
MemAvailable:    8000000 kB
Buffers:          123456 kB
Cached:          2345678 kB
SwapTotal:       2097148 kB
SwapFree:        2097148 kB
HugePages_Total:       0
HugePages_Free:        0
HugePages_Rsvd:        0
HugePages_Surp:        0
Hugepagesize:       2048 kB
DirectMap4k:      198388 kB
";

fn from_value(v: serde_json::Value) -> Json {
    match v {
        serde_json::Value::Null => Json::Null,
        serde_json::Value::Bool(b) => Json::Bool(b),
        serde_json::Value::Number(n) => match (n.as_u64(), n.as_i64()) {
            (Some(u), _) => Json::Unsigned(u),
            (None, Some(i)) => Json::Negative(i),
            (None, None) => Json::Float(n.to_string()),
        },
        serde_json::Value::String(s) => Json::Text(s),
        serde_json::Value::Array(items) => Json::Array(items.into_iter().map(from_value).collect()),
        serde_json::Value::Object(map) => {
            Json::Object(map.into_iter().map(|(k, v)| (k, from_value(v))).collect())
        }
    }
}

/// The value that a JSON text writes.
fn j(text: &str) -> Json {
    from_value(serde_json::from_str(text).unwrap())
}

#[test]
fn parses_sized_and_unitless_fields() {
    let fields = parse_meminfo(MEMINFO);
    assert_eq!(fields.len(), 13);
    // First field stays in file order (no sorting in the parser).
    assert_eq!(fields[0], ("MemTotal".to_string(), "16384256".to_string()));
    // The kB suffix is dropped from a sized field.
    let cached = fields.iter().find(|(k, _)| k == "Cached").unwrap();
    assert_eq!(cached.1, "2345678");
    // Unitless huge-page counters keep their plain count.
    let hp = fields.iter().find(|(k, _)| k == "HugePages_Total").unwrap();
    assert_eq!(hp.1, "0");
    // Hugepagesize is back to a kB value.
    let hps = fields.iter().find(|(k, _)| k == "Hugepagesize").unwrap();
    assert_eq!(hps.1, "2048");
}

#[test]
fn skips_lines_without_colon() {
    let fields = parse_meminfo("MemTotal: 100 kB\ngarbage line\nMemFree: 50 kB\n");
    assert_eq!(fields.len(), 2);
}

#[test]
fn name_order_sorts_alphabetically() {
    let mut fields = parse_meminfo(MEMINFO);
    fields.sort_by(|a, b| a.0.cmp(&b.0));
    let keys: Vec<&str> = fields.iter().map(|(k, _)| k.as_str()).collect();
    let mut sorted = keys.clone();
    sorted.sort_unstable();
    assert_eq!(keys, sorted);
    assert_eq!(keys[0], "Buffers");
}

#[test]
fn json_emits_numeric_value() {
    assert_eq!(
        build_json("MemTotal", "16384256"),
        j(r##"{ "key": "MemTotal", "value_kb": 16384256 }"##)
    );
}

#[test]
fn json_falls_back_to_string_for_non_numeric() {
    assert_eq!(
        build_json("Weird", "n/a"),
        j(r##"{ "key": "Weird", "value_kb": "n/a" }"##)
    );
}
