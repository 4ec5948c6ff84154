use sak::lxc::list::format_row;
use sak::value::Json;

fn from_value(v: serde_json::Value) -> Json {
    match v {
        serde_json::Value::Null => Json::Null,
        serde_json::Value::Bool(b) => Json::Bool(b),
        serde_json::Value::Number(n) => match (n.as_u64(), n.as_i64()) {
            (Some(u), _) => Json::Unsigned(u),
            (None, Some(i)) => Json::Negative(i),
            (None, None) => Json::Float(n.to_string()),
        },
        serde_json::Value::String(s) => Json::Text(s),
        serde_json::Value::Array(items) => Json::Array(items.into_iter().map(from_value).collect()),
        serde_json::Value::Object(map) => {
            Json::Object(map.into_iter().map(|(k, v)| (k, from_value(v))).collect())
        }
    }
}

/// The value that a JSON text writes.
fn j(text: &str) -> Json {
    from_value(serde_json::from_str(text).unwrap())
}

#[test]
fn format_row_picks_first_global_addresses() {
    let item = j(r##"{ "name": "web1", "type": "container", "status": "Running", "state": { "network": { "lo": { "addresses": [ {"family": "inet", "address": "127.0.0.1", "scope": "local"} ] }, "eth0": { "addresses": [ {"family": "inet", "address": "10.0.0.5", "scope": "global"}, {"family": "inet6", "address": "fe80::1", "scope": "link"}, {"family": "inet6", "address": "fd00::1", "scope": "global"} ] } } } }"##);
    assert_eq!(
        format_row(&item),
        "web1\tcontainer\tRunning\t10.0.0.5\tfd00::1"
    );
}

#[test]
fn format_row_handles_missing_state() {
    let item = j(r##"{ "name": "stopped", "type": "virtual-machine", "status": "Stopped" }"##);
    assert_eq!(format_row(&item), "stopped\tvirtual-machine\tStopped\t-\t-");
}

#[test]
fn format_row_handles_no_global_addresses() {
    let item = j(r##"{ "name": "iso", "type": "container", "status": "Running", "state": { "network": { "lo": { "addresses": [ {"family": "inet", "address": "127.0.0.1", "scope": "local"} ] } } } }"##);
    assert_eq!(format_row(&item), "iso\tcontainer\tRunning\t-\t-");
}
