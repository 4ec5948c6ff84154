use sak::lxc::images::format_row;
use sak::value::Json;

fn from_value(v: serde_json::Value) -> Json {
    match v {
        serde_json::Value::Null => Json::Null,
        serde_json::Value::Bool(b) => Json::Bool(b),
        serde_json::Value::Number(n) => match (n.as_u64(), n.as_i64()) {
            (Some(u), _) => Json::Unsigned(u),
            (None, Some(i)) => Json::Negative(i),
            (None, None) => Json::Float(n.to_string()),
        },
        serde_json::Value::String(s) => Json::Text(s),
        serde_json::Value::Array(items) => Json::Array(items.into_iter().map(from_value).collect()),
        serde_json::Value::Object(map) => {
            Json::Object(map.into_iter().map(|(k, v)| (k, from_value(v))).collect())
        }
    }
}

/// The value that a JSON text writes.
fn j(text: &str) -> Json {
    from_value(serde_json::from_str(text).unwrap())
}

#[test]
fn format_row_full_image() {
    let item = j(r##"{ "fingerprint": "abc123def456", "aliases": [ {"name": "ubuntu/22.04", "description": ""}, {"name": "jammy", "description": ""} ], "architecture": "x86_64", "size": 123456789, "properties": { "description": "Ubuntu 22.04 LTS", "os": "ubuntu" } }"##);
    assert_eq!(
        format_row(&item),
        "abc123def456\tubuntu/22.04,jammy\tx86_64\t123456789\tUbuntu 22.04 LTS"
    );
}

#[test]
fn format_row_no_aliases_or_description() {
    let item = j(r##"{ "fingerprint": "deadbeef", "aliases": [], "architecture": "aarch64", "size": 42 }"##);
    assert_eq!(format_row(&item), "deadbeef\t-\taarch64\t42\t-");
}

#[test]
fn format_row_handles_missing_fields() {
    let item = j(r##"{}"##);
    assert_eq!(format_row(&item), "-\t-\t-\t-\t-");
}
