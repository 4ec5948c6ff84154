use sak::k8s::discovery::GroupVersionKind;
use sak::k8s::schema::{openapi_path_key, parse_qualified, schema_matches_gvk};
use sak::value::Json;

fn from_value(v: serde_json::Value) -> Json {
    match v {
        serde_json::Value::Null => Json::Null,
        serde_json::Value::Bool(b) => Json::Bool(b),
        serde_json::Value::Number(n) => match (n.as_u64(), n.as_i64()) {
            (Some(u), _) => Json::Unsigned(u),
            (None, Some(i)) => Json::Negative(i),
            (None, None) => Json::Float(n.to_string()),
        },
        serde_json::Value::String(s) => Json::Text(s),
        serde_json::Value::Array(items) => Json::Array(items.into_iter().map(from_value).collect()),
        serde_json::Value::Object(map) => {
            Json::Object(map.into_iter().map(|(k, v)| (k, from_value(v))).collect())
        }
    }
}

/// The value that a JSON text writes.
fn j(text: &str) -> Json {
    from_value(serde_json::from_str(text).unwrap())
}

#[test]
fn parse_qualified_three_parts() {
    let g = parse_qualified("apps/v1/Deployment").unwrap();
    assert_eq!(g.group, "apps");
    assert_eq!(g.version, "v1");
    assert_eq!(g.kind, "Deployment");
}

#[test]
fn parse_qualified_two_parts_is_core() {
    let g = parse_qualified("v1/Pod").unwrap();
    assert_eq!(g.group, "");
    assert_eq!(g.version, "v1");
    assert_eq!(g.kind, "Pod");
}

#[test]
fn parse_qualified_plain_returns_none() {
    assert!(parse_qualified("Deployment").is_none());
}

#[test]
fn parse_qualified_empty_segments_rejected() {
    assert!(parse_qualified("/v1/Pod").is_none());
    assert!(parse_qualified("apps//Deployment").is_none());
    assert!(parse_qualified("apps/v1/").is_none());
}

#[test]
fn openapi_path_key_core_vs_grouped() {
    assert_eq!(openapi_path_key("", "v1"), "api/v1");
    assert_eq!(openapi_path_key("apps", "v1"), "apis/apps/v1");
    assert_eq!(
        openapi_path_key("networking.k8s.io", "v1"),
        "apis/networking.k8s.io/v1"
    );
}

#[test]
fn schema_matches_gvk_finds_tagged_entry() {
    let schema = j(r##"{ "type": "object", "x-kubernetes-group-version-kind": [ {"group": "apps", "version": "v1", "kind": "Deployment"} ] }"##);
    let gvk = GroupVersionKind {
        group: "apps".into(),
        version: "v1".into(),
        kind: "Deployment".into(),
    };
    assert!(schema_matches_gvk(&schema, &gvk));
}

#[test]
fn schema_matches_gvk_kind_is_case_insensitive() {
    let schema = j(r##"{ "x-kubernetes-group-version-kind": [ {"group": "", "version": "v1", "kind": "Pod"} ] }"##);
    let gvk = GroupVersionKind {
        group: "".into(),
        version: "v1".into(),
        kind: "pod".into(),
    };
    assert!(schema_matches_gvk(&schema, &gvk));
}

#[test]
fn schema_matches_gvk_rejects_wrong_group() {
    let schema = j(r##"{ "x-kubernetes-group-version-kind": [ {"group": "extensions", "version": "v1beta1", "kind": "Ingress"} ] }"##);
    let gvk = GroupVersionKind {
        group: "networking.k8s.io".into(),
        version: "v1".into(),
        kind: "Ingress".into(),
    };
    assert!(!schema_matches_gvk(&schema, &gvk));
}

#[test]
fn schema_matches_gvk_handles_missing_annotation() {
    let schema = j(r##"{"type": "object"}"##);
    let gvk = GroupVersionKind {
        group: "apps".into(),
        version: "v1".into(),
        kind: "Deployment".into(),
    };
    assert!(!schema_matches_gvk(&schema, &gvk));
}

#[test]
fn schema_matches_gvk_walks_multi_tagged_array() {
    // Some schemas (e.g. shared list types) tag multiple GVKs.
    let schema = j(r##"{ "x-kubernetes-group-version-kind": [ {"group": "apps", "version": "v1", "kind": "DeploymentList"}, {"group": "apps", "version": "v1beta1", "kind": "DeploymentList"} ] }"##);
    let gvk = GroupVersionKind {
        group: "apps".into(),
        version: "v1beta1".into(),
        kind: "DeploymentList".into(),
    };
    assert!(schema_matches_gvk(&schema, &gvk));
}
