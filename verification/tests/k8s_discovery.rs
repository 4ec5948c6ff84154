use sak::k8s::discovery::{builtins, lookup_builtin};

#[test]
fn pod_aliases_resolve_to_core_v1_pod() {
    for alias in ["po", "pod", "pods", "Pod", "PODS"] {
        let gvk = lookup_builtin(alias).unwrap_or_else(|| panic!("alias {alias:?} missing"));
        assert_eq!(gvk.group, "");
        assert_eq!(gvk.version, "v1");
        assert_eq!(gvk.kind, "Pod");
    }
}

#[test]
fn deployment_aliases_resolve_to_apps_v1() {
    for alias in ["deploy", "deployment", "deployments", "Deployment"] {
        let gvk = lookup_builtin(alias).unwrap();
        assert_eq!(gvk.group, "apps");
        assert_eq!(gvk.version, "v1");
        assert_eq!(gvk.kind, "Deployment");
    }
}

#[test]
fn cronjob_short_alias() {
    let gvk = lookup_builtin("cj").unwrap();
    assert_eq!(gvk.group, "batch");
    assert_eq!(gvk.kind, "CronJob");
}

#[test]
fn ingress_in_networking_group() {
    let gvk = lookup_builtin("ing").unwrap();
    assert_eq!(gvk.group, "networking.k8s.io");
    assert_eq!(gvk.kind, "Ingress");
}

#[test]
fn unknown_kind_returns_none() {
    assert!(lookup_builtin("widget").is_none());
    assert!(lookup_builtin("").is_none());
}

#[test]
fn no_duplicate_aliases() {
    // Catches typos where the same alias is accidentally registered for
    // two different kinds.
    let mut seen = std::collections::HashMap::<&str, &str>::new();
    for b in builtins() {
        for alias in b.aliases {
            if let Some(prev) = seen.insert(alias, b.kind) {
                panic!("alias {alias:?} registered for both {prev} and {}", b.kind);
            }
        }
    }
}
