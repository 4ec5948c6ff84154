use sak::lxc::config::config_subset;
use sak::value::Json;

fn from_value(v: serde_json::Value) -> Json {
    match v {
        serde_json::Value::Null => Json::Null,
        serde_json::Value::Bool(b) => Json::Bool(b),
        serde_json::Value::Number(n) => match (n.as_u64(), n.as_i64()) {
            (Some(u), _) => Json::Unsigned(u),
            (None, Some(i)) => Json::Negative(i),
            (None, None) => Json::Float(n.to_string()),
        },
        serde_json::Value::String(s) => Json::Text(s),
        serde_json::Value::Array(items) => Json::Array(items.into_iter().map(from_value).collect()),
        serde_json::Value::Object(map) => {
            Json::Object(map.into_iter().map(|(k, v)| (k, from_value(v))).collect())
        }
    }
}

/// The value that a JSON text writes.
fn j(text: &str) -> Json {
    from_value(serde_json::from_str(text).unwrap())
}

fn has(members: &[(String, Json)], key: &str) -> bool {
    members.iter().any(|(k, _)| k == key)
}

#[test]
fn config_subset_keeps_only_configured_keys() {
    let meta = j(r##"{ "name": "web1", "status": "Running", "config": {"image.os": "Debian"}, "devices": {"eth0": {"type": "nic"}}, "profiles": ["default"], "expanded_config": {"image.os": "Debian", "limits.cpu": "2"}, "expanded_devices": {"eth0": {"type": "nic", "network": "lxdbr0"}}, "state": {"network": {}} }"##);
    let subset = config_subset(&meta);
    let obj = subset.as_object().unwrap();
    assert_eq!(obj.len(), 5);
    assert!(has(obj, "config"));
    assert!(has(obj, "devices"));
    assert!(has(obj, "profiles"));
    assert!(has(obj, "expanded_config"));
    assert!(has(obj, "expanded_devices"));
    assert!(!has(obj, "state"));
    assert!(!has(obj, "name"));
}

#[test]
fn config_subset_skips_missing_keys() {
    let meta = j(r##"{ "name": "fresh", "config": {}, "devices": {} }"##);
    let subset = config_subset(&meta);
    let obj = subset.as_object().unwrap();
    assert_eq!(obj.len(), 2);
    assert!(has(obj, "config"));
    assert!(has(obj, "devices"));
}

#[test]
fn config_subset_handles_non_object_input() {
    let subset = config_subset(&j(r##""oops""##));
    assert!(subset.as_object().unwrap().is_empty());
}
