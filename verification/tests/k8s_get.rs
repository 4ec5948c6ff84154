use sak::k8s::get::{derive_header, parse_column_specs, path_miss_hint, render_cell};
use sak::value::Json;

fn from_value(v: serde_json::Value) -> Json {
    match v {
        serde_json::Value::Null => Json::Null,
        serde_json::Value::Bool(b) => Json::Bool(b),
        serde_json::Value::Number(n) => match (n.as_u64(), n.as_i64()) {
            (Some(u), _) => Json::Unsigned(u),
            (None, Some(i)) => Json::Negative(i),
            (None, None) => Json::Float(n.to_string()),
        },
        serde_json::Value::String(s) => Json::Text(s),
        serde_json::Value::Array(items) => Json::Array(items.into_iter().map(from_value).collect()),
        serde_json::Value::Object(map) => {
            Json::Object(map.into_iter().map(|(k, v)| (k, from_value(v))).collect())
        }
    }
}

/// The value that a JSON text writes.
fn j(text: &str) -> Json {
    from_value(serde_json::from_str(text).unwrap())
}

#[test]
fn hint_fires_on_zero_matches() {
    let h = path_miss_hint(".items[0].metadata.name", 7, 0).expect("hint expected");
    assert!(h.contains("matched 0 of 7 record(s)"));
    assert!(h.contains("NDJSON"));
    assert!(h.contains(".metadata.name"));
}

#[test]
fn no_hint_when_some_matched() {
    assert!(path_miss_hint(".metadata.name", 7, 3).is_none());
}

#[test]
fn no_hint_when_no_records() {
    // An empty list (no records) should not look like a path mistake.
    assert!(path_miss_hint(".items[0].metadata.name", 0, 0).is_none());
}

#[test]
fn derive_header_from_leaf() {
    assert_eq!(derive_header(".metadata.name"), "NAME");
    assert_eq!(derive_header("/spec/hostNetwork"), "HOSTNETWORK");
    assert_eq!(derive_header(".spec.containers[0]"), "CONTAINERS");
    // No usable leaf → whole expression uppercased.
    assert_eq!(derive_header("."), ".");
}

#[test]
fn parse_specs_explicit_and_derived_headers() {
    let specs = parse_column_specs(&[
        ".metadata.name".to_string(),
        "HOST=.spec.hostNetwork".to_string(),
    ]);
    assert_eq!(specs.len(), 2);
    assert_eq!(specs[0].header, "NAME");
    assert_eq!(specs[0].expr, ".metadata.name");
    assert_eq!(specs[1].header, "HOST");
    assert_eq!(specs[1].expr, ".spec.hostNetwork");
}

#[test]
fn render_cell_renders_scalars_missing_and_complex() {
    let obj = j(r##"{ "metadata": {"name": "p"}, "spec": {"hostNetwork": true, "containers": [{"name": "c"}]}, "status": {"phase": "Running"} }"##);
    // String scalar comes through raw (no JSON quotes).
    assert_eq!(render_cell(&obj, ".metadata.name").unwrap(), "p");
    // Boolean scalar.
    assert_eq!(render_cell(&obj, ".spec.hostNetwork").unwrap(), "true");
    // Missing path → dash.
    assert_eq!(render_cell(&obj, ".spec.missing").unwrap(), "-");
    // Array → compact JSON.
    assert_eq!(
        render_cell(&obj, ".spec.containers").unwrap(),
        r#"[{"name":"c"}]"#
    );
}

#[test]
fn render_cell_collapses_whitespace() {
    let obj = j(r##"{"metadata": {"annotations": {"k": "a\tb\nc"}}}"##);
    // Tabs/newlines in a value must not break the TSV row.
    let cell = render_cell(&obj, ".metadata.annotations.k").unwrap();
    assert!(!cell.contains('\t'));
    assert!(!cell.contains('\n'));
    assert_eq!(cell, "a b c");
}
