use sak::json::select::{default_alias, parse_fields, project};
use sak::value::Json;

fn from_value(v: serde_json::Value) -> Json {
    match v {
        serde_json::Value::Null => Json::Null,
        serde_json::Value::Bool(b) => Json::Bool(b),
        serde_json::Value::Number(n) => match (n.as_u64(), n.as_i64()) {
            (Some(u), _) => Json::Unsigned(u),
            (None, Some(i)) => Json::Negative(i),
            (None, None) => Json::Float(n.to_string()),
        },
        serde_json::Value::String(s) => Json::Text(s),
        serde_json::Value::Array(items) => Json::Array(items.into_iter().map(from_value).collect()),
        serde_json::Value::Object(map) => {
            Json::Object(map.into_iter().map(|(k, v)| (k, from_value(v))).collect())
        }
    }
}

/// The value that a JSON text writes.
fn j(text: &str) -> Json {
    from_value(serde_json::from_str(text).unwrap())
}

#[test]
fn default_alias_dot_path() {
    assert_eq!(default_alias(".name").unwrap(), "name");
    assert_eq!(default_alias("name").unwrap(), "name");
    assert_eq!(default_alias(".user.id").unwrap(), "id");
    assert_eq!(default_alias(".users[0].name").unwrap(), "name");
}

#[test]
fn default_alias_pointer() {
    assert_eq!(default_alias("/user/name").unwrap(), "name");
    // ~1 is the JSON Pointer escape for '/'
    assert_eq!(default_alias("/data/tls~1crt").unwrap(), "tls/crt");
}

#[test]
fn default_alias_rejects_root_and_bare_index() {
    assert!(default_alias(".").is_err());
    assert!(default_alias("").is_err());
    assert!(default_alias(".users[0]").is_err());
    assert!(default_alias("/").is_err());
}

#[test]
fn parse_fields_with_alias_and_default() {
    let fields = parse_fields("id=.user.id, .name").unwrap();
    assert_eq!(fields.len(), 2);
    assert_eq!(fields[0].alias, "id");
    assert_eq!(fields[0].path, ".user.id");
    assert_eq!(fields[1].alias, "name");
    assert_eq!(fields[1].path, ".name");
}

#[test]
fn parse_fields_rejects_duplicate_alias() {
    let err = parse_fields(".user.name, .name").unwrap_err().message;
    assert!(err.contains("duplicate"), "{err}");
}

#[test]
fn parse_fields_rejects_empty() {
    assert!(parse_fields("").is_err());
    assert!(parse_fields(".name,").is_err());
    assert!(parse_fields("=.foo").is_err());
    assert!(parse_fields("alias=").is_err());
}

#[test]
fn project_basic() {
    let v = j(r##"{"name": "alice", "age": 30, "city": "nyc"}"##);
    let fields = parse_fields(".name,.age").unwrap();
    let m = project(&v, &fields, false).unwrap();
    assert_eq!(m.entries.len(), 2);
    assert_eq!(m.get("name"), Some(&j(r##""alice""##)));
    assert_eq!(m.get("age"), Some(&j(r##"30"##)));
    assert!(m.get("city").is_none());
}

#[test]
fn project_nested_with_alias() {
    let v = j(r##"{"user": {"id": 7, "name": "alice"}, "ts": "2024"}"##);
    let fields = parse_fields("id=.user.id,name=.user.name,ts=.ts").unwrap();
    let m = project(&v, &fields, false).unwrap();
    assert_eq!(m.get("id"), Some(&j(r##"7"##)));
    assert_eq!(m.get("name"), Some(&j(r##""alice""##)));
    assert_eq!(m.get("ts"), Some(&j(r##""2024""##)));
}

#[test]
fn project_missing_omitted_by_default() {
    let v = j(r##"{"a": 1}"##);
    let fields = parse_fields(".a,.b").unwrap();
    let m = project(&v, &fields, false).unwrap();
    assert_eq!(m.entries.len(), 1);
    assert_eq!(m.get("a"), Some(&j(r##"1"##)));
}

#[test]
fn project_missing_becomes_null_with_flag() {
    let v = j(r##"{"a": 1}"##);
    let fields = parse_fields(".a,.b").unwrap();
    let m = project(&v, &fields, true).unwrap();
    assert_eq!(m.entries.len(), 2);
    assert_eq!(m.get("b"), Some(&Json::Null));
}

#[test]
fn project_output_keys_are_sorted_alphabetically() {
    // sak convention: object output is sorted by key for deterministic
    // results, regardless of the projection order in the spec.
    let v = j(r##"{"a": 1, "b": 2, "c": 3}"##);
    let fields = parse_fields(".c,.a,.b").unwrap();
    let m = project(&v, &fields, false).unwrap();
    let keys: Vec<&String> = m.entries.iter().map(|(k, _)| k).collect();
    assert_eq!(keys, vec!["a", "b", "c"]);
}

#[test]
fn project_supports_json_pointer() {
    let v = j(r##"{"user": {"name": "alice"}}"##);
    let fields = parse_fields("/user/name").unwrap();
    let m = project(&v, &fields, false).unwrap();
    assert_eq!(m.get("name"), Some(&j(r##""alice""##)));
}
