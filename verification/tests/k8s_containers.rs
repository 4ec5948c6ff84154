use sak::k8s::containers::walk_containers;
use sak::value::Json;

fn from_value(v: serde_json::Value) -> Json {
    match v {
        serde_json::Value::Null => Json::Null,
        serde_json::Value::Bool(b) => Json::Bool(b),
        serde_json::Value::Number(n) => match (n.as_u64(), n.as_i64()) {
            (Some(u), _) => Json::Unsigned(u),
            (None, Some(i)) => Json::Negative(i),
            (None, None) => Json::Float(n.to_string()),
        },
        serde_json::Value::String(s) => Json::Text(s),
        serde_json::Value::Array(items) => Json::Array(items.into_iter().map(from_value).collect()),
        serde_json::Value::Object(map) => {
            Json::Object(map.into_iter().map(|(k, v)| (k, from_value(v))).collect())
        }
    }
}

/// The value that a JSON text writes.
fn j(text: &str) -> Json {
    from_value(serde_json::from_str(text).unwrap())
}

#[test]
fn pod_shape_yields_each_container() {
    let pod = j(r##"{ "metadata": {"namespace": "default", "name": "web"}, "spec": { "containers": [ {"name": "app", "image": "nginx:1.27"}, {"name": "sidecar", "image": "envoy:v1.31"} ] } }"##);
    let v = walk_containers(&pod);
    assert_eq!(v.len(), 2);
    assert_eq!(v[0].namespace, Some("default"));
    assert_eq!(v[0].name, "web");
    assert_eq!(v[0].container, "app");
    assert_eq!(v[0].image, "nginx:1.27");
    assert_eq!(v[1].container, "sidecar");
    assert_eq!(v[1].image, "envoy:v1.31");
}

#[test]
fn deployment_shape_walks_template_spec() {
    let deploy = j(r##"{ "metadata": {"namespace": "ns1", "name": "api"}, "spec": { "template": { "spec": { "containers": [ {"name": "api", "image": "registry/api:1.0"} ] } } } }"##);
    let v = walk_containers(&deploy);
    assert_eq!(v.len(), 1);
    assert_eq!(v[0].namespace, Some("ns1"));
    assert_eq!(v[0].name, "api");
    assert_eq!(v[0].container, "api");
    assert_eq!(v[0].image, "registry/api:1.0");
}

#[test]
fn cronjob_shape_walks_through_job_template() {
    let cj = j(r##"{ "metadata": {"namespace": "batch", "name": "nightly"}, "spec": { "jobTemplate": { "spec": { "template": { "spec": { "containers": [ {"name": "runner", "image": "tools:latest"} ] } } } } } }"##);
    let v = walk_containers(&cj);
    assert_eq!(v.len(), 1);
    assert_eq!(v[0].name, "nightly");
    assert_eq!(v[0].container, "runner");
    assert_eq!(v[0].image, "tools:latest");
}

#[test]
fn unknown_shape_yields_nothing() {
    let svc = j(r##"{ "metadata": {"namespace": "default", "name": "svc"}, "spec": {"selector": {"app": "x"}} }"##);
    assert_eq!(walk_containers(&svc).len(), 0);
}

#[test]
fn missing_metadata_uses_empty_name_and_no_namespace() {
    let pod = j(r##"{ "spec": {"containers": [{"name": "c", "image": "i"}]} }"##);
    let v = walk_containers(&pod);
    assert_eq!(v.len(), 1);
    assert_eq!(v[0].namespace, None);
    assert_eq!(v[0].name, "");
}

#[test]
fn env_array_passed_through_when_present() {
    let pod = j(r##"{ "metadata": {"namespace": "ns", "name": "p"}, "spec": { "containers": [{ "name": "c", "image": "i", "env": [ {"name": "FOO", "value": "bar"}, {"name": "REF", "valueFrom": {"secretKeyRef": {"name": "s", "key": "k"}}} ] }] } }"##);
    let v = walk_containers(&pod);
    assert_eq!(v[0].env.len(), 2);
    assert_eq!(v[0].env[0].get("name").and_then(Json::as_str), Some("FOO"));
}

#[test]
fn env_absent_yields_empty_slice() {
    let pod = j(r##"{ "metadata": {"namespace": "ns", "name": "p"}, "spec": {"containers": [{"name": "c", "image": "i"}]} }"##);
    let v = walk_containers(&pod);
    assert!(v[0].env.is_empty());
}

#[test]
fn cronjob_takes_precedence_over_deployment_shape() {
    // Pathologically constructed: both `spec.template.spec.containers`
    // and the deeper CronJob path resolve. The walker must prefer the
    // more specific (deeper) shape so a CronJob with a redundant inner
    // template still walks the right containers.
    let weird = j(r##"{ "metadata": {"namespace": "ns", "name": "x"}, "spec": { "template": {"spec": {"containers": [{"name": "wrong", "image": "wrong"}]}}, "jobTemplate": {"spec": {"template": {"spec": { "containers": [{"name": "right", "image": "right"}] }}}} } }"##);
    let v = walk_containers(&weird);
    assert_eq!(v.len(), 1);
    assert_eq!(v[0].container, "right");
}
