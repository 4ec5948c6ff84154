//! The names by which the common kinds of objects go, and the search among a cluster's kinds.
use crate::order::views;
use crate::output::Error;
use crate::text::{lowered, quote, quoted, same, to_lower};
use vstd::prelude::*;
use vstd::string::*;

verus! {

/// A kind with its group and version; the core group is the empty text.
#[derive(Debug, PartialEq)]
pub struct GroupVersionKind {
    pub group: String,
    pub version: String,
    pub kind: String,
}

/// What a `GroupVersionKind` says.
#[verifier::ext_equal]
pub struct Gvk {
    pub group: Seq<char>,
    pub version: Seq<char>,
    pub kind: Seq<char>,
}

impl View for GroupVersionKind {
    type V = Gvk;

    open spec fn view(&self) -> Gvk {
        Gvk { group: self.group@, version: self.version@, kind: self.kind@ }
    }
}

/// A common kind and the names by which it can be called, in lower case.
pub struct Builtin {
    pub aliases: Vec<&'static str>,
    pub group: &'static str,
    pub version: &'static str,
    pub kind: &'static str,
}

/// What a `Builtin` says.
#[verifier::ext_equal]
pub struct BuiltinModel {
    pub aliases: Seq<Seq<char>>,
    pub gvk: Gvk,
}

impl View for Builtin {
    type V = BuiltinModel;

    open spec fn view(&self) -> BuiltinModel {
        BuiltinModel {
            aliases: self.aliases.deep_view(),
            gvk: Gvk { group: self.group@, version: self.version@, kind: self.kind@ },
        }
    }
}

pub open spec fn two(
    a: Seq<char>,
    b: Seq<char>,
    group: Seq<char>,
    version: Seq<char>,
    kind: Seq<char>,
) -> BuiltinModel {
    BuiltinModel { aliases: seq![a, b], gvk: Gvk { group, version, kind } }
}

pub open spec fn three(
    a: Seq<char>,
    b: Seq<char>,
    c: Seq<char>,
    group: Seq<char>,
    version: Seq<char>,
    kind: Seq<char>,
) -> BuiltinModel {
    BuiltinModel { aliases: seq![a, b, c], gvk: Gvk { group, version, kind } }
}

fn entry_of_two(
    a: &'static str,
    b: &'static str,
    group: &'static str,
    version: &'static str,
    kind: &'static str,
) -> (r: Builtin)
    ensures
        r@ == two(a@, b@, group@, version@, kind@),
{
    let r = Builtin { aliases: vec![a, b], group, version, kind };
    assert(r@ =~= two(a@, b@, group@, version@, kind@));
    r
}

fn entry_of_three(
    a: &'static str,
    b: &'static str,
    c: &'static str,
    group: &'static str,
    version: &'static str,
    kind: &'static str,
) -> (r: Builtin)
    ensures
        r@ == three(a@, b@, c@, group@, version@, kind@),
{
    let r = Builtin { aliases: vec![a, b, c], group, version, kind };
    assert(r@ =~= three(a@, b@, c@, group@, version@, kind@));
    r
}

/// The common kinds.
pub open spec fn builtin_table() -> Seq<BuiltinModel> {
    seq![
        three("po"@, "pod"@, "pods"@, ""@, "v1"@, "Pod"@),
        three("svc"@, "service"@, "services"@, ""@, "v1"@, "Service"@),
        three("cm"@, "configmap"@, "configmaps"@, ""@, "v1"@, "ConfigMap"@),
        two("secret"@, "secrets"@, ""@, "v1"@, "Secret"@),
        three("ns"@, "namespace"@, "namespaces"@, ""@, "v1"@, "Namespace"@),
        three("no"@, "node"@, "nodes"@, ""@, "v1"@, "Node"@),
        three("pv"@, "persistentvolume"@, "persistentvolumes"@, ""@, "v1"@, "PersistentVolume"@),
        three("pvc"@, "persistentvolumeclaim"@, "persistentvolumeclaims"@, ""@, "v1"@, "PersistentVolumeClaim"@),
        two("ep"@, "endpoints"@, ""@, "v1"@, "Endpoints"@),
        three("sa"@, "serviceaccount"@, "serviceaccounts"@, ""@, "v1"@, "ServiceAccount"@),
        three("ev"@, "event"@, "events"@, ""@, "v1"@, "Event"@),
        three("rc"@, "replicationcontroller"@, "replicationcontrollers"@, ""@, "v1"@, "ReplicationController"@),
        three("limits"@, "limitrange"@, "limitranges"@, ""@, "v1"@, "LimitRange"@),
        three("quota"@, "resourcequota"@, "resourcequotas"@, ""@, "v1"@, "ResourceQuota"@),
        three("deploy"@, "deployment"@, "deployments"@, "apps"@, "v1"@, "Deployment"@),
        three("sts"@, "statefulset"@, "statefulsets"@, "apps"@, "v1"@, "StatefulSet"@),
        three("ds"@, "daemonset"@, "daemonsets"@, "apps"@, "v1"@, "DaemonSet"@),
        three("rs"@, "replicaset"@, "replicasets"@, "apps"@, "v1"@, "ReplicaSet"@),
        two("job"@, "jobs"@, "batch"@, "v1"@, "Job"@),
        three("cj"@, "cronjob"@, "cronjobs"@, "batch"@, "v1"@, "CronJob"@),
        three("ing"@, "ingress"@, "ingresses"@, "networking.k8s.io"@, "v1"@, "Ingress"@),
        three("netpol"@, "networkpolicy"@, "networkpolicies"@, "networking.k8s.io"@, "v1"@, "NetworkPolicy"@),
        two("ingressclass"@, "ingressclasses"@, "networking.k8s.io"@, "v1"@, "IngressClass"@),
        two("role"@, "roles"@, "rbac.authorization.k8s.io"@, "v1"@, "Role"@),
        two("rolebinding"@, "rolebindings"@, "rbac.authorization.k8s.io"@, "v1"@, "RoleBinding"@),
        two("clusterrole"@, "clusterroles"@, "rbac.authorization.k8s.io"@, "v1"@, "ClusterRole"@),
        two("clusterrolebinding"@, "clusterrolebindings"@, "rbac.authorization.k8s.io"@, "v1"@, "ClusterRoleBinding"@),
        three("sc"@, "storageclass"@, "storageclasses"@, "storage.k8s.io"@, "v1"@, "StorageClass"@),
        three("hpa"@, "horizontalpodautoscaler"@, "horizontalpodautoscalers"@, "autoscaling"@, "v2"@, "HorizontalPodAutoscaler"@),
        three("pdb"@, "poddisruptionbudget"@, "poddisruptionbudgets"@, "policy"@, "v1"@, "PodDisruptionBudget"@),
        three("crd"@, "customresourcedefinition"@, "customresourcedefinitions"@, "apiextensions.k8s.io"@, "v1"@, "CustomResourceDefinition"@),
    ]
}

/// The common kinds.
pub fn builtins() -> (r: Vec<Builtin>)
    ensures
        views(r@) == builtin_table(),
{
    let r = vec![
        entry_of_three("po", "pod", "pods", "", "v1", "Pod"),
        entry_of_three("svc", "service", "services", "", "v1", "Service"),
        entry_of_three("cm", "configmap", "configmaps", "", "v1", "ConfigMap"),
        entry_of_two("secret", "secrets", "", "v1", "Secret"),
        entry_of_three("ns", "namespace", "namespaces", "", "v1", "Namespace"),
        entry_of_three("no", "node", "nodes", "", "v1", "Node"),
        entry_of_three("pv", "persistentvolume", "persistentvolumes", "", "v1", "PersistentVolume"),
        entry_of_three("pvc", "persistentvolumeclaim", "persistentvolumeclaims", "", "v1", "PersistentVolumeClaim"),
        entry_of_two("ep", "endpoints", "", "v1", "Endpoints"),
        entry_of_three("sa", "serviceaccount", "serviceaccounts", "", "v1", "ServiceAccount"),
        entry_of_three("ev", "event", "events", "", "v1", "Event"),
        entry_of_three("rc", "replicationcontroller", "replicationcontrollers", "", "v1", "ReplicationController"),
        entry_of_three("limits", "limitrange", "limitranges", "", "v1", "LimitRange"),
        entry_of_three("quota", "resourcequota", "resourcequotas", "", "v1", "ResourceQuota"),
        entry_of_three("deploy", "deployment", "deployments", "apps", "v1", "Deployment"),
        entry_of_three("sts", "statefulset", "statefulsets", "apps", "v1", "StatefulSet"),
        entry_of_three("ds", "daemonset", "daemonsets", "apps", "v1", "DaemonSet"),
        entry_of_three("rs", "replicaset", "replicasets", "apps", "v1", "ReplicaSet"),
        entry_of_two("job", "jobs", "batch", "v1", "Job"),
        entry_of_three("cj", "cronjob", "cronjobs", "batch", "v1", "CronJob"),
        entry_of_three("ing", "ingress", "ingresses", "networking.k8s.io", "v1", "Ingress"),
        entry_of_three("netpol", "networkpolicy", "networkpolicies", "networking.k8s.io", "v1", "NetworkPolicy"),
        entry_of_two("ingressclass", "ingressclasses", "networking.k8s.io", "v1", "IngressClass"),
        entry_of_two("role", "roles", "rbac.authorization.k8s.io", "v1", "Role"),
        entry_of_two("rolebinding", "rolebindings", "rbac.authorization.k8s.io", "v1", "RoleBinding"),
        entry_of_two("clusterrole", "clusterroles", "rbac.authorization.k8s.io", "v1", "ClusterRole"),
        entry_of_two("clusterrolebinding", "clusterrolebindings", "rbac.authorization.k8s.io", "v1", "ClusterRoleBinding"),
        entry_of_three("sc", "storageclass", "storageclasses", "storage.k8s.io", "v1", "StorageClass"),
        entry_of_three("hpa", "horizontalpodautoscaler", "horizontalpodautoscalers", "autoscaling", "v2", "HorizontalPodAutoscaler"),
        entry_of_three("pdb", "poddisruptionbudget", "poddisruptionbudgets", "policy", "v1", "PodDisruptionBudget"),
        entry_of_three("crd", "customresourcedefinition", "customresourcedefinitions", "apiextensions.k8s.io", "v1", "CustomResourceDefinition"),
    ];
    assert(views(r@) =~= builtin_table());
    r
}

/// The first entry that goes by that name.
pub open spec fn entry_named(table: Seq<BuiltinModel>, name: Seq<char>) -> Option<Gvk>
    decreases table.len(),
{
    if table.len() == 0 {
        None
    } else if table[0].aliases.contains(name) {
        Some(table[0].gvk)
    } else {
        entry_named(table.drop_first(), name)
    }
}

/// The common kind that goes by `name`, whatever its case.
pub open spec fn builtin(name: Seq<char>) -> Option<Gvk> {
    entry_named(builtin_table(), lowered(name))
}

fn has_alias(entry: &Builtin, name: &str) -> (r: bool)
    ensures
        r == entry@.aliases.contains(name@),
{
    for i in 0..entry.aliases.len()
        invariant
            forall|k: int| 0 <= k < i ==> entry@.aliases[k] != name@,
    {
        assert(entry@.aliases[i as int] == entry.aliases@[i as int]@);
        if same(entry.aliases[i], name) {
            return true;
        }
    }
    assert(entry@.aliases.len() == entry.aliases@.len());
    false
}

/// The common kind that goes by `name`, whatever its case.
pub fn lookup_builtin(name: &str) -> (r: Option<GroupVersionKind>)
    ensures
        match r {
            Some(gvk) => builtin(name@) == Some(gvk@),
            None => builtin(name@) is None,
        },
{
    let wanted = to_lower(name);
    let all = builtins();
    let ghost table = builtin_table();
    let mut i: usize = 0;
    assert(table.skip(0) =~= table);
    while i < all.len()
        invariant
            i <= all@.len(),
            views(all@) == table,
            wanted@ == lowered(name@),
            builtin(name@) == entry_named(table.skip(i as int), wanted@),
        decreases all@.len() - i,
    {
        assert(table.skip(i as int)[0] == all@[i as int]@);
        assert(table.skip(i as int).drop_first() =~= table.skip(i + 1));
        if has_alias(&all[i], wanted.as_str()) {
            return Some(
                GroupVersionKind {
                    group: all[i].group.to_owned(),
                    version: all[i].version.to_owned(),
                    kind: all[i].kind.to_owned(),
                },
            );
        }
        i += 1;
    }
    assert(table.skip(i as int) =~= seq![]);
    None
}

/// A number by which the names in the table can be told apart.
spec fn mark(s: Seq<char>) -> int {
    let third = if s.len() > 2 { s[2] as int } else { 0 };
    s.len() + 100 * (s[0] as int) + 100_000 * (s[1] as int) + 100_000_000 * third
}

/// No name stands for two common kinds, nor twice for one.
#[verifier::rlimit(100)]
pub proof fn aliases_are_distinct(i: int, a: int, j: int, b: int)
    requires
        0 <= i < builtin_table().len(),
        0 <= j < builtin_table().len(),
        0 <= a < builtin_table()[i].aliases.len(),
        0 <= b < builtin_table()[j].aliases.len(),
        builtin_table()[i].aliases[a] == builtin_table()[j].aliases[b],
    ensures
        i == j,
        a == b,
{
    reveal_strlit("po");
    assert(mark("po"@) == 11111202);
    reveal_strlit("pod");
    assert(mark("pod"@) == 10011111203);
    reveal_strlit("pods");
    assert(mark("pods"@) == 10011111204);
    reveal_strlit("svc");
    assert(mark("svc"@) == 9911811503);
    reveal_strlit("service");
    assert(mark("service"@) == 11410111507);
    reveal_strlit("services");
    assert(mark("services"@) == 11410111508);
    reveal_strlit("cm");
    assert(mark("cm"@) == 10909902);
    reveal_strlit("configmap");
    assert(mark("configmap"@) == 11011109909);
    reveal_strlit("configmaps");
    assert(mark("configmaps"@) == 11011109910);
    reveal_strlit("secret");
    assert(mark("secret"@) == 9910111506);
    reveal_strlit("secrets");
    assert(mark("secrets"@) == 9910111507);
    reveal_strlit("ns");
    assert(mark("ns"@) == 11511002);
    reveal_strlit("namespace");
    assert(mark("namespace"@) == 10909711009);
    reveal_strlit("namespaces");
    assert(mark("namespaces"@) == 10909711010);
    reveal_strlit("no");
    assert(mark("no"@) == 11111002);
    reveal_strlit("node");
    assert(mark("node"@) == 10011111004);
    reveal_strlit("nodes");
    assert(mark("nodes"@) == 10011111005);
    reveal_strlit("pv");
    assert(mark("pv"@) == 11811202);
    reveal_strlit("persistentvolume");
    assert(mark("persistentvolume"@) == 11410111216);
    reveal_strlit("persistentvolumes");
    assert(mark("persistentvolumes"@) == 11410111217);
    reveal_strlit("pvc");
    assert(mark("pvc"@) == 9911811203);
    reveal_strlit("persistentvolumeclaim");
    assert(mark("persistentvolumeclaim"@) == 11410111221);
    reveal_strlit("persistentvolumeclaims");
    assert(mark("persistentvolumeclaims"@) == 11410111222);
    reveal_strlit("ep");
    assert(mark("ep"@) == 11210102);
    reveal_strlit("endpoints");
    assert(mark("endpoints"@) == 10011010109);
    reveal_strlit("sa");
    assert(mark("sa"@) == 9711502);
    reveal_strlit("serviceaccount");
    assert(mark("serviceaccount"@) == 11410111514);
    reveal_strlit("serviceaccounts");
    assert(mark("serviceaccounts"@) == 11410111515);
    reveal_strlit("ev");
    assert(mark("ev"@) == 11810102);
    reveal_strlit("event");
    assert(mark("event"@) == 10111810105);
    reveal_strlit("events");
    assert(mark("events"@) == 10111810106);
    reveal_strlit("rc");
    assert(mark("rc"@) == 9911402);
    reveal_strlit("replicationcontroller");
    assert(mark("replicationcontroller"@) == 11210111421);
    reveal_strlit("replicationcontrollers");
    assert(mark("replicationcontrollers"@) == 11210111422);
    reveal_strlit("limits");
    assert(mark("limits"@) == 10910510806);
    reveal_strlit("limitrange");
    assert(mark("limitrange"@) == 10910510810);
    reveal_strlit("limitranges");
    assert(mark("limitranges"@) == 10910510811);
    reveal_strlit("quota");
    assert(mark("quota"@) == 11111711305);
    reveal_strlit("resourcequota");
    assert(mark("resourcequota"@) == 11510111413);
    reveal_strlit("resourcequotas");
    assert(mark("resourcequotas"@) == 11510111414);
    reveal_strlit("deploy");
    assert(mark("deploy"@) == 11210110006);
    reveal_strlit("deployment");
    assert(mark("deployment"@) == 11210110010);
    reveal_strlit("deployments");
    assert(mark("deployments"@) == 11210110011);
    reveal_strlit("sts");
    assert(mark("sts"@) == 11511611503);
    reveal_strlit("statefulset");
    assert(mark("statefulset"@) == 9711611511);
    reveal_strlit("statefulsets");
    assert(mark("statefulsets"@) == 9711611512);
    reveal_strlit("ds");
    assert(mark("ds"@) == 11510002);
    reveal_strlit("daemonset");
    assert(mark("daemonset"@) == 10109710009);
    reveal_strlit("daemonsets");
    assert(mark("daemonsets"@) == 10109710010);
    reveal_strlit("rs");
    assert(mark("rs"@) == 11511402);
    reveal_strlit("replicaset");
    assert(mark("replicaset"@) == 11210111410);
    reveal_strlit("replicasets");
    assert(mark("replicasets"@) == 11210111411);
    reveal_strlit("job");
    assert(mark("job"@) == 9811110603);
    reveal_strlit("jobs");
    assert(mark("jobs"@) == 9811110604);
    reveal_strlit("cj");
    assert(mark("cj"@) == 10609902);
    reveal_strlit("cronjob");
    assert(mark("cronjob"@) == 11111409907);
    reveal_strlit("cronjobs");
    assert(mark("cronjobs"@) == 11111409908);
    reveal_strlit("ing");
    assert(mark("ing"@) == 10311010503);
    reveal_strlit("ingress");
    assert(mark("ingress"@) == 10311010507);
    reveal_strlit("ingresses");
    assert(mark("ingresses"@) == 10311010509);
    reveal_strlit("netpol");
    assert(mark("netpol"@) == 11610111006);
    reveal_strlit("networkpolicy");
    assert(mark("networkpolicy"@) == 11610111013);
    reveal_strlit("networkpolicies");
    assert(mark("networkpolicies"@) == 11610111015);
    reveal_strlit("ingressclass");
    assert(mark("ingressclass"@) == 10311010512);
    reveal_strlit("ingressclasses");
    assert(mark("ingressclasses"@) == 10311010514);
    reveal_strlit("role");
    assert(mark("role"@) == 10811111404);
    reveal_strlit("roles");
    assert(mark("roles"@) == 10811111405);
    reveal_strlit("rolebinding");
    assert(mark("rolebinding"@) == 10811111411);
    reveal_strlit("rolebindings");
    assert(mark("rolebindings"@) == 10811111412);
    reveal_strlit("clusterrole");
    assert(mark("clusterrole"@) == 11710809911);
    reveal_strlit("clusterroles");
    assert(mark("clusterroles"@) == 11710809912);
    reveal_strlit("clusterrolebinding");
    assert(mark("clusterrolebinding"@) == 11710809918);
    reveal_strlit("clusterrolebindings");
    assert(mark("clusterrolebindings"@) == 11710809919);
    reveal_strlit("sc");
    assert(mark("sc"@) == 9911502);
    reveal_strlit("storageclass");
    assert(mark("storageclass"@) == 11111611512);
    reveal_strlit("storageclasses");
    assert(mark("storageclasses"@) == 11111611514);
    reveal_strlit("hpa");
    assert(mark("hpa"@) == 9711210403);
    reveal_strlit("horizontalpodautoscaler");
    assert(mark("horizontalpodautoscaler"@) == 11411110423);
    reveal_strlit("horizontalpodautoscalers");
    assert(mark("horizontalpodautoscalers"@) == 11411110424);
    reveal_strlit("pdb");
    assert(mark("pdb"@) == 9810011203);
    reveal_strlit("poddisruptionbudget");
    assert(mark("poddisruptionbudget"@) == 10011111219);
    reveal_strlit("poddisruptionbudgets");
    assert(mark("poddisruptionbudgets"@) == 10011111220);
    reveal_strlit("crd");
    assert(mark("crd"@) == 10011409903);
    reveal_strlit("customresourcedefinition");
    assert(mark("customresourcedefinition"@) == 11511709924);
    reveal_strlit("customresourcedefinitions");
    assert(mark("customresourcedefinitions"@) == 11511709925);
}

/// Each name in the table, in any case, stands for the kind of its entry.
pub proof fn alias_finds_its_kind(i: int, a: int, name: Seq<char>)
    requires
        0 <= i < builtin_table().len(),
        0 <= a < builtin_table()[i].aliases.len(),
        lowered(name) == builtin_table()[i].aliases[a],
    ensures
        builtin(name) == Some(builtin_table()[i].gvk),
{
    let table = builtin_table();
    assert(table.skip(0) =~= table);
    entry_is_reached(i, a, 0);
}

proof fn entry_is_reached(i: int, a: int, k: int)
    requires
        0 <= k <= i < builtin_table().len(),
        0 <= a < builtin_table()[i].aliases.len(),
    ensures
        entry_named(builtin_table().skip(k), builtin_table()[i].aliases[a]) == Some(builtin_table()[i].gvk),
    decreases i - k,
{
    let table = builtin_table();
    let name = table[i].aliases[a];
    let rest = table.skip(k);
    assert(rest[0] == table[k]);
    assert(rest.drop_first() =~= table.skip(k + 1));
    if k == i {
        assert(rest[0].aliases.contains(name));
    } else {
        if rest[0].aliases.contains(name) {
            let b = choose|b: int| 0 <= b < table[k].aliases.len() && table[k].aliases[b] == name;
            aliases_are_distinct(i, a, k, b);
        }
        entry_is_reached(i, a, k + 1);
    }
}

/// What is said of a kind that neither the table nor the cluster knows.
pub fn unknown_kind(kind: &str) -> (e: Error)
    ensures
        e.message@ == "unknown kind: "@ + quoted(kind@)
            + " (not in builtin shortname table and not found via cluster discovery)"@,
{
    let mut message = "unknown kind: ".to_owned();
    message.append(quote(kind).as_str());
    message.append(" (not in builtin shortname table and not found via cluster discovery)");
    Error { message }
}

/// The case of a name does not matter.
pub proof fn case_does_not_matter(a: Seq<char>, b: Seq<char>)
    requires
        lowered(a) == lowered(b),
    ensures
        builtin(a) == builtin(b),
{
}

/// The lower case of the kinds.
#[verifier::spinoff_prover]
#[verifier::rlimit(60)]
proof fn kinds_in_lower_case(i: int)
    requires
        0 <= i < builtin_table().len(),
    ensures
        builtin_table()[i].aliases.contains(lowered(builtin_table()[i].gvk.kind)),
{
    assert(lowered("Pod"@) =~= "pod"@) by {
        reveal_strlit("Pod");
        reveal_strlit("pod");
    }
    assert(lowered("Service"@) =~= "service"@) by {
        reveal_strlit("Service");
        reveal_strlit("service");
    }
    assert(lowered("ConfigMap"@) =~= "configmap"@) by {
        reveal_strlit("ConfigMap");
        reveal_strlit("configmap");
    }
    assert(lowered("Secret"@) =~= "secret"@) by {
        reveal_strlit("Secret");
        reveal_strlit("secret");
    }
    assert(lowered("Namespace"@) =~= "namespace"@) by {
        reveal_strlit("Namespace");
        reveal_strlit("namespace");
    }
    assert(lowered("Node"@) =~= "node"@) by {
        reveal_strlit("Node");
        reveal_strlit("node");
    }
    assert(lowered("PersistentVolume"@) =~= "persistentvolume"@) by {
        reveal_strlit("PersistentVolume");
        reveal_strlit("persistentvolume");
    }
    assert(lowered("PersistentVolumeClaim"@) =~= "persistentvolumeclaim"@) by {
        reveal_strlit("PersistentVolumeClaim");
        reveal_strlit("persistentvolumeclaim");
    }
    assert(lowered("Endpoints"@) =~= "endpoints"@) by {
        reveal_strlit("Endpoints");
        reveal_strlit("endpoints");
    }
    assert(lowered("ServiceAccount"@) =~= "serviceaccount"@) by {
        reveal_strlit("ServiceAccount");
        reveal_strlit("serviceaccount");
    }
    assert(lowered("Event"@) =~= "event"@) by {
        reveal_strlit("Event");
        reveal_strlit("event");
    }
    assert(lowered("ReplicationController"@) =~= "replicationcontroller"@) by {
        reveal_strlit("ReplicationController");
        reveal_strlit("replicationcontroller");
    }
    assert(lowered("LimitRange"@) =~= "limitrange"@) by {
        reveal_strlit("LimitRange");
        reveal_strlit("limitrange");
    }
    assert(lowered("ResourceQuota"@) =~= "resourcequota"@) by {
        reveal_strlit("ResourceQuota");
        reveal_strlit("resourcequota");
    }
    assert(lowered("Deployment"@) =~= "deployment"@) by {
        reveal_strlit("Deployment");
        reveal_strlit("deployment");
    }
    assert(lowered("StatefulSet"@) =~= "statefulset"@) by {
        reveal_strlit("StatefulSet");
        reveal_strlit("statefulset");
    }
    assert(lowered("DaemonSet"@) =~= "daemonset"@) by {
        reveal_strlit("DaemonSet");
        reveal_strlit("daemonset");
    }
    assert(lowered("ReplicaSet"@) =~= "replicaset"@) by {
        reveal_strlit("ReplicaSet");
        reveal_strlit("replicaset");
    }
    assert(lowered("Job"@) =~= "job"@) by {
        reveal_strlit("Job");
        reveal_strlit("job");
    }
    assert(lowered("CronJob"@) =~= "cronjob"@) by {
        reveal_strlit("CronJob");
        reveal_strlit("cronjob");
    }
    assert(lowered("Ingress"@) =~= "ingress"@) by {
        reveal_strlit("Ingress");
        reveal_strlit("ingress");
    }
    assert(lowered("NetworkPolicy"@) =~= "networkpolicy"@) by {
        reveal_strlit("NetworkPolicy");
        reveal_strlit("networkpolicy");
    }
    assert(lowered("IngressClass"@) =~= "ingressclass"@) by {
        reveal_strlit("IngressClass");
        reveal_strlit("ingressclass");
    }
    assert(lowered("Role"@) =~= "role"@) by {
        reveal_strlit("Role");
        reveal_strlit("role");
    }
    assert(lowered("RoleBinding"@) =~= "rolebinding"@) by {
        reveal_strlit("RoleBinding");
        reveal_strlit("rolebinding");
    }
    assert(lowered("ClusterRole"@) =~= "clusterrole"@) by {
        reveal_strlit("ClusterRole");
        reveal_strlit("clusterrole");
    }
    assert(lowered("ClusterRoleBinding"@) =~= "clusterrolebinding"@) by {
        reveal_strlit("ClusterRoleBinding");
        reveal_strlit("clusterrolebinding");
    }
    assert(lowered("StorageClass"@) =~= "storageclass"@) by {
        reveal_strlit("StorageClass");
        reveal_strlit("storageclass");
    }
    assert(lowered("HorizontalPodAutoscaler"@) =~= "horizontalpodautoscaler"@) by {
        reveal_strlit("HorizontalPodAutoscaler");
        reveal_strlit("horizontalpodautoscaler");
    }
    assert(lowered("PodDisruptionBudget"@) =~= "poddisruptionbudget"@) by {
        reveal_strlit("PodDisruptionBudget");
        reveal_strlit("poddisruptionbudget");
    }
    assert(lowered("CustomResourceDefinition"@) =~= "customresourcedefinition"@) by {
        reveal_strlit("CustomResourceDefinition");
        reveal_strlit("customresourcedefinition");
    }
    assert(builtin_table()[0].aliases[1] == "pod"@);
    assert(builtin_table()[1].aliases[1] == "service"@);
    assert(builtin_table()[2].aliases[1] == "configmap"@);
    assert(builtin_table()[3].aliases[0] == "secret"@);
    assert(builtin_table()[4].aliases[1] == "namespace"@);
    assert(builtin_table()[5].aliases[1] == "node"@);
    assert(builtin_table()[6].aliases[1] == "persistentvolume"@);
    assert(builtin_table()[7].aliases[1] == "persistentvolumeclaim"@);
    assert(builtin_table()[8].aliases[1] == "endpoints"@);
    assert(builtin_table()[9].aliases[1] == "serviceaccount"@);
    assert(builtin_table()[10].aliases[1] == "event"@);
    assert(builtin_table()[11].aliases[1] == "replicationcontroller"@);
    assert(builtin_table()[12].aliases[1] == "limitrange"@);
    assert(builtin_table()[13].aliases[1] == "resourcequota"@);
    assert(builtin_table()[14].aliases[1] == "deployment"@);
    assert(builtin_table()[15].aliases[1] == "statefulset"@);
    assert(builtin_table()[16].aliases[1] == "daemonset"@);
    assert(builtin_table()[17].aliases[1] == "replicaset"@);
    assert(builtin_table()[18].aliases[0] == "job"@);
    assert(builtin_table()[19].aliases[1] == "cronjob"@);
    assert(builtin_table()[20].aliases[1] == "ingress"@);
    assert(builtin_table()[21].aliases[1] == "networkpolicy"@);
    assert(builtin_table()[22].aliases[0] == "ingressclass"@);
    assert(builtin_table()[23].aliases[0] == "role"@);
    assert(builtin_table()[24].aliases[0] == "rolebinding"@);
    assert(builtin_table()[25].aliases[0] == "clusterrole"@);
    assert(builtin_table()[26].aliases[0] == "clusterrolebinding"@);
    assert(builtin_table()[27].aliases[1] == "storageclass"@);
    assert(builtin_table()[28].aliases[1] == "horizontalpodautoscaler"@);
    assert(builtin_table()[29].aliases[1] == "poddisruptionbudget"@);
    assert(builtin_table()[30].aliases[1] == "customresourcedefinition"@);
}

/// Every common kind goes by its own name, whatever the case.
pub proof fn kinds_go_by_their_own_name(i: int, name: Seq<char>)
    requires
        0 <= i < builtin_table().len(),
        lowered(name) == lowered(builtin_table()[i].gvk.kind),
    ensures
        builtin(name) == Some(builtin_table()[i].gvk),
{
    kinds_in_lower_case(i);
    let a = builtin_table()[i].aliases.index_of(lowered(name));
    alias_finds_its_kind(i, a, name);
}

} // verus!
