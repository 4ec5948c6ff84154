use sak::k8s::contexts::{self, Context, ContextsArgs, NamedContext};
use sak::k8s::describe::{
    self, humanize_age, humanize_age_at, next_owner, owner_reference, parse_rfc3339_utc_seconds, DescribeArgs,
};
use sak::k8s::discovery::{builtins, lookup_builtin, unknown_kind};
use sak::k8s::env::{check_kind, EnvArgs};
use sak::k8s::events::{self, fetch_events_for, parse_filter, EventsArgs};
use sak::k8s::failing::{self, FailingArgs};
use sak::k8s::get::{
    self, derive_header, emit_columns, emit_path, emit_table, emit_value, now_unix, parse_column_specs, path_miss_hint,
    render_cell, sort_objects, GetArgs, OutputFormat,
};
use sak::k8s::images::{self, ImagesArgs};
use sak::k8s::kinds::{self, find_kind, ApiKind, KindsArgs};
use sak::k8s::logs::{self, check_arguments, choose_containers, parse_since, LogsArgs};
use sak::k8s::not_ready::{self, NotReadyArgs};
use sak::k8s::pending::{self, PendingArgs};
use sak::k8s::podtable::{
    age_in_range, days_from_civil, human_duration, parse_rfc3339_utc, pod_ready, pod_restarts, pod_status,
    restarts_in_range, translate_timestamp,
};
use sak::k8s::restarts::{self, container_status_reason, RestartsArgs};
use sak::k8s::schema::{self, document_url, resolve_gvk, SchemaArgs};
use sak::k8s::scope::{check_scope, list_namespace, object_namespace, one_namespace, scoped_namespace, Scope};
use sak::output::{BoundedWriter, Outcome};
use sak::value::Json;

fn from_value(v: serde_json::Value) -> Json {
    match v {
        serde_json::Value::Null => Json::Null,
        serde_json::Value::Bool(b) => Json::Bool(b),
        serde_json::Value::Number(n) => match (n.as_u64(), n.as_i64()) {
            (Some(u), _) => Json::Unsigned(u),
            (None, Some(i)) => Json::Negative(i),
            (None, None) => Json::Float(n.to_string()),
        },
        serde_json::Value::String(s) => Json::Text(s),
        serde_json::Value::Array(items) => Json::Array(items.into_iter().map(from_value).collect()),
        serde_json::Value::Object(map) => {
            Json::Object(map.into_iter().map(|(k, v)| (k, from_value(v))).collect())
        }
    }
}

/// The value that a JSON text writes.
fn j(text: &str) -> Json {
    from_value(serde_json::from_str(text).unwrap())
}

fn text(s: &str) -> Option<String> {
    Some(s.to_string())
}

#[test]
fn timestamps_of_another_shape_are_refused() {
    for s in [
        "", "Z", "2021-1-1T0:0:0Z", "+021-01-01T00:00:00Z", "2021-01-01T00:00:00.Z", "2021-01-01T00:00:00.x1Z",
        "2021-01-01T00:00:00Z ", "2021-01-01 00:00:00Z", "2021-00-01T00:00:00Z", "2021-13-01T00:00:00Z",
        "2021-01-32T00:00:00Z", "99999999999-01-01T00:00:00Z", "2021-01-01T00:00:00", "2021-01-01T0a:00:00Z",
    ] {
        assert_eq!(parse_rfc3339_utc(s), None, "{s:?}");
        assert_eq!(translate_timestamp(Some(s), 0), "-", "{s:?}");
    }
    assert_eq!(parse_rfc3339_utc("0000-01-01T00:00:00Z"), Some(-62167219200));
    assert_eq!(parse_rfc3339_utc("9999-12-31T23:59:59Z"), Some(253402300799));
    assert_eq!(parse_rfc3339_utc("2024-02-29T12:34:56.789Z"), Some(1709210096));
}

#[test]
fn both_timestamp_readers_agree() {
    for s in [
        "1970-01-01T00:00:00Z", "2024-02-29T12:34:56Z", "2024-02-29T12:34:56.5Z", "2024-13-01T00:00:00Z", "x",
        "2024-02-29T12:34:56", "+970-01-01T00:00:00Z", "2024-+1-01T00:00:00Z",
    ] {
        assert_eq!(parse_rfc3339_utc(s), parse_rfc3339_utc_seconds(s), "{s:?}");
    }
    assert_eq!(parse_rfc3339_utc_seconds("2024-+1-01T00:00:00Z"), None);
}

#[test]
fn days_follow_each_other() {
    assert_eq!(days_from_civil(1970, 1, 1), 0);
    assert_eq!(days_from_civil(1969, 12, 31), -1);
    assert_eq!(days_from_civil(2000, 3, 1) - days_from_civil(2000, 2, 28), 2);
    assert_eq!(days_from_civil(1900, 3, 1) - days_from_civil(1900, 2, 28), 1);
    assert_eq!(days_from_civil(-1, 3, 1), -719834);
}

#[test]
fn durations_change_their_units() {
    let cases = [
        (-2, "<invalid>"), (-1, "0s"), (0, "0s"), (119, "119s"), (120, "2m"), (599, "9m59s"), (600, "10m"), (10799, "179m"),
        (10800, "3h"), (10860, "3h1m"), (28799, "7h59m"), (28800, "8h"), (172799, "47h"), (172800, "2d"), (691199, "7d23h"),
        (691200, "8d"), (63071999, "729d"), (63072000, "2y"), (63158400, "2y1d"), (252287999, "7y364d"), (252288000, "8y"),
    ];
    for (secs, want) in cases {
        assert_eq!(human_duration(secs), want, "{secs}");
    }
    assert!(age_in_range(Some("1970-01-01T00:00:00Z"), i64::MAX));
    assert!(!age_in_range(Some("1969-01-01T00:00:00Z"), i64::MAX));
    assert!(age_in_range(None, i64::MAX));
}

#[test]
fn ages_are_coarse_in_descriptions() {
    let ts = "1970-01-02T00:00:00Z";
    let cases = [(0, "0s"), (86400, "0s"), (86459, "59s"), (86460, "1m"), (90000, "1h"), (172800, "1d"), (u64::MAX, "213503982334600d")];
    for (now, want) in cases {
        assert_eq!(humanize_age_at(ts, now), want, "{now}");
    }
    assert_eq!(humanize_age_at("x", 5), "-");
    // The clock is past the year 2020.
    assert!(now_unix() > 1_577_836_800);
    assert!(humanize_age(ts).ends_with('d'));
}

#[test]
fn statuses_of_pods() {
    let cases = [
        (r##"{}"##, "-"),
        (r##"{"status":{"phase":"Pending","reason":"Evicted"}}"##, "Evicted"),
        (r##"{"status":{"phase":"Pending","reason":""}}"##, "Pending"),
        (r##"{"status":{"containerStatuses":[{"state":{"terminated":{"signal":9}}}]}}"##, "Signal:9"),
        (r##"{"status":{"containerStatuses":[{"state":{"terminated":{"exitCode":3}}}]}}"##, "ExitCode:3"),
        (
            r##"{"status":{"containerStatuses":[{"state":{"waiting":{"reason":"A"}}},{"state":{"waiting":{"reason":"B"}}}]}}"##,
            "A",
        ),
        (
            r##"{"status":{"containerStatuses":[{"state":{"terminated":{"reason":"Completed"}}},{"ready":true,"state":{"running":{}}}]}}"##,
            "NotReady",
        ),
        (r##"{"status":{"initContainerStatuses":[{"state":{"terminated":{"exitCode":2}}}]}}"##, "Init:ExitCode:2"),
        (
            r##"{"status":{"initContainerStatuses":[{"state":{"terminated":{"exitCode":2,"signal":-6}}}]}}"##,
            "Init:Signal:-6",
        ),
        (r##"{"status":{"initContainerStatuses":[{"state":{"waiting":{"reason":"PodInitializing"}}}]}}"##, "Init:0/1"),
        (
            r##"{"metadata":{"deletionTimestamp":null},"status":{"initContainerStatuses":[{}]}}"##,
            "Terminating",
        ),
    ];
    for (pod, want) in cases {
        assert_eq!(pod_status(&j(pod)), want, "{pod}");
    }
}

#[test]
fn restarts_come_from_the_init_containers_while_they_run() {
    let pod = j(r##"{"status":{"initContainerStatuses":[{"restartCount":4}],"containerStatuses":[{"restartCount":9}]}}"##);
    assert_eq!(pod_restarts(&pod), 4);
    assert_eq!(pod_ready(&pod), "0/0");
    let much = j(r##"{"status":{"containerStatuses":[{"restartCount":18446744073709551615},{"restartCount":1}]}}"##);
    assert!(!restarts_in_range(&much));
    assert!(restarts_in_range(&pod));
}

fn get_args() -> GetArgs {
    GetArgs {
        kind: "pods".into(),
        name: None,
        namespace: None,
        all_namespaces: false,
        selector: None,
        field_selector: None,
        path: None,
        columns: vec![],
        output: OutputFormat::Json,
        limit: None,
    }
}

fn pods() -> Vec<Json> {
    vec![
        j(r##"{"metadata":{"namespace":"b","name":"x","creationTimestamp":"1970-01-01T00:00:00Z"},"spec":{"containers":[{}],"nodeName":"n1"},"status":{"phase":"Running","podIP":"10.0.0.1"}}"##),
        j(r##"{"metadata":{"namespace":"a","name":"z"}}"##),
        j(r##"{"metadata":{"namespace":"b","name":"a"}}"##),
        j(r##"{}"##),
    ]
}

#[test]
fn objects_are_listed_by_namespace_and_name() {
    let mut args = get_args();
    args.path = text(".metadata.name");
    let r = get::run(&args, "Pod", pods(), 0).unwrap();
    assert_eq!(r.lines, ["\"z\"", "\"a\"", "\"x\""]);
    assert_eq!((r.outcome, r.hint), (Outcome::Found, None));
    assert_eq!(sort_objects(pods()).len(), 4);
    args.limit = Some(0);
    let r = get::run(&args, "Pod", pods(), 0).unwrap();
    assert_eq!((r.lines.len(), r.outcome, r.hint), (0, Outcome::NotFound, None));
}

#[test]
fn one_object_is_pretty_and_many_are_not() {
    let mut args = get_args();
    let one = || vec![j(r##"{"a":[1]}"##)];
    assert_eq!(get::run(&args, "Pod", one(), 0).unwrap().lines, [r##"{"a":[1]}"##]);
    args.name = text("x");
    assert_eq!(get::run(&args, "Pod", one(), 0).unwrap().lines, ["{", "  \"a\": [", "    1", "  ]", "}"]);
    args.limit = Some(2);
    assert_eq!(get::run(&args, "Pod", one(), 0).unwrap().lines, ["{", "  \"a\": ["]);
    assert_eq!(get::run(&args, "Pod", vec![], 0).unwrap().outcome, Outcome::NotFound);
}

#[test]
fn a_path_that_matches_nothing_gives_a_hint() {
    let mut args = get_args();
    args.path = text(".items[0]");
    let r = get::run(&args, "Pod", pods(), 0).unwrap();
    assert_eq!(r.outcome, Outcome::NotFound);
    let hint = r.hint.unwrap();
    assert!(hint.starts_with("sak: --path \".items[0]\" matched 0 of 4 record(s)\nnote: `sak k8s get` output is NDJSON"));
    assert_eq!(path_miss_hint(".items[0]", 4, 0).unwrap(), hint);
    args.path = text(".a[");
    assert_eq!(get::run(&args, "Pod", pods(), 0).unwrap_err().message, "invalid path expression '.a['");
}

#[test]
fn columns_make_a_table() {
    let mut args = get_args();
    args.columns = vec![".metadata.name".into(), "NS=/metadata/namespace".into(), ".größe[0]".into()];
    let r = get::run(&args, "Pod", pods(), 0).unwrap();
    assert_eq!(r.lines, ["NAME\tNS\tGRÖSSE", "-\t-\t-", "z\ta\t-", "a\tb\t-", "x\tb\t-"]);
    args.columns = vec!["X=.a[".into()];
    assert_eq!(get::run(&args, "Pod", pods(), 0).unwrap_err().message, "invalid path expression '.a['");
    assert_eq!(derive_header("."), ".");
    assert_eq!(derive_header("a[0]"), "A");
    assert_eq!(render_cell(&j(r##"{"a":[1,"x"]}"##), ".a").unwrap(), "[1,\"x\"]");
    let mut writer = BoundedWriter::new(Some(1));
    let specs = parse_column_specs(&[".metadata.name".to_string()]);
    assert_eq!(emit_columns(&pods(), &specs, &mut writer).unwrap(), Outcome::Found);
    assert_eq!(writer.lines, ["NAME", "x"]);
    assert_eq!(emit_columns(&vec![], &specs, &mut writer).unwrap(), Outcome::NotFound);
}

#[test]
fn tables_show_pods_and_other_kinds() {
    let mut args = get_args();
    args.output = OutputFormat::Wide;
    args.all_namespaces = true;
    args.limit = Some(4);
    let r = get::run(&args, "Pod", pods(), 7200).unwrap();
    assert_eq!(r.lines[0], "NAMESPACE\tNAME\tREADY\tSTATUS\tRESTARTS\tAGE\tIP\tNODE");
    assert_eq!(r.lines[1], "-\t-\t0/0\t-\t0\t-\t-\t-");
    assert_eq!(r.lines[4], "b\tx\t0/1\tRunning\t0\t120m\t10.0.0.1\tn1");
    args.output = OutputFormat::Table;
    args.all_namespaces = false;
    args.limit = Some(1);
    let r = get::run(&args, "Node", pods(), 7200).unwrap();
    assert_eq!(r.lines, ["NAME\tAGE", "-\t-"]);
    let mut writer = BoundedWriter::new(Some(0));
    assert_eq!(emit_table(&pods(), true, false, false, 0, &mut writer), Outcome::NotFound);
    assert_eq!(writer.lines, ["NAME\tREADY\tSTATUS\tRESTARTS\tAGE"]);
}

#[test]
fn values_are_emitted_until_the_limit() {
    let mut writer = BoundedWriter::new(Some(1));
    let e = emit_value(&j("[1]"), true, &mut writer);
    assert_eq!((e.wrote, e.stop, e.matched), (true, true, true));
    let e = emit_path(&j("{}"), ".a", &mut writer).unwrap();
    assert_eq!((e.wrote, e.stop, e.matched), (false, false, false));
    let e = emit_path(&j(r##"{"a":1}"##), ".a", &mut writer).unwrap();
    assert_eq!((e.wrote, e.stop, e.matched), (false, true, true));
}

#[test]
fn scopes_decide_on_namespaces() {
    let ns = text("web");
    assert_eq!(
        check_scope(Scope::Cluster, &ns, false, "Node").unwrap_err().message,
        "kind \"Node\" is cluster-scoped — --namespace is not valid for it"
    );
    assert_eq!(
        check_scope(Scope::Cluster, &None, true, "a\"b").unwrap_err().message,
        "kind \"a\\\"b\" is cluster-scoped — --all-namespaces is not valid for it"
    );
    assert!(check_scope(Scope::Namespaced, &ns, false, "Pod").is_ok());
    assert_eq!(scoped_namespace(Scope::Cluster, &None, false, "d", "Node").unwrap(), None);
    assert_eq!(scoped_namespace(Scope::Namespaced, &None, false, "d", "Pod").unwrap(), text("d"));
    assert_eq!(list_namespace(&ns, true, "d"), None);
    assert_eq!(list_namespace(&ns, false, "d"), ns);
    assert_eq!(one_namespace(&None, "d"), "d");
    assert_eq!(object_namespace(Scope::Cluster, &ns, "d"), None);
    assert_eq!(object_namespace(Scope::Namespaced, &ns, "d"), ns);
}

#[test]
fn kinds_go_by_several_names() {
    let kind = |api_version: &str, kind: &str, plural: &str| ApiKind {
        api_version: api_version.into(),
        kind: kind.into(),
        plural: plural.into(),
        scope: Scope::Namespaced,
    };
    let all = vec![
        kind("v1", "Pod", "pods"),
        kind("a.io/v1", "Driver", "drivers"),
        kind("csi.ceph.io/v1", "Driver", "drivers"),
        kind("ceph.rook.io/v1", "CephCluster", "cephclusters"),
    ];
    let cases = [
        ("pod", Some(0)),
        ("PODS", Some(0)),
        ("v1/Pod", Some(0)),
        ("pods.", None),
        ("drivers", Some(1)),
        ("drivers.csi.ceph.io", Some(2)),
        ("Driver.csi.ceph.io", Some(2)),
        ("csi.ceph.io/v1/Driver", Some(2)),
        ("csi.ceph.io/v2/Driver", None),
        ("cephcluster.ceph.rook.io", Some(3)),
        ("cephcluster.a.io", None),
        ("", None),
    ];
    for (name, want) in cases {
        assert_eq!(find_kind(&all, name), want, "{name:?}");
    }
    assert_eq!(
        unknown_kind("wid\"get").message,
        "unknown kind: \"wid\\\"get\" (not in builtin shortname table and not found via cluster discovery)"
    );
    let r = kinds::run(&KindsArgs { limit: Some(2) }, all);
    assert_eq!(r.lines, ["a.io/v1\tDriver\tnamespaced", "ceph.rook.io/v1\tCephCluster\tnamespaced"]);
    assert_eq!(kinds::run(&KindsArgs { limit: None }, vec![]).outcome, Outcome::NotFound);
}

#[test]
fn every_alias_finds_its_kind() {
    for b in builtins() {
        for alias in &b.aliases {
            let found = lookup_builtin(&alias.to_uppercase()).unwrap();
            assert_eq!((found.group.as_str(), found.version.as_str(), found.kind.as_str()), (b.group, b.version, b.kind));
        }
    }
}

#[test]
fn contexts_are_marked_and_sorted() {
    let named = |name: &str, context: Option<Context>| NamedContext {
        name: name.into(),
        context,
    };
    let context = Context {
        cluster: "c".into(),
        user: None,
        namespace: text("n"),
    };
    let r = contexts::run(
        &ContextsArgs { limit: None },
        vec![named("b", Some(context)), named("a", None)],
        &text("b"),
    );
    assert_eq!(r.lines, ["\ta\t\t\t", "*\tb\tc\t\tn"]);
    let r = contexts::run(&ContextsArgs { limit: Some(0) }, vec![named("a", None)], &None);
    assert_eq!((r.lines.len(), r.outcome), (0, Outcome::Found));
}

#[test]
fn images_are_sorted() {
    let args = ImagesArgs {
        kind: "pods".into(),
        namespace: None,
        all_namespaces: true,
        selector: None,
        limit: None,
    };
    let objects = vec![
        j(r##"{"metadata":{"namespace":"b","name":"x"},"spec":{"containers":[{"name":"d","image":"i2"},{"name":"c","image":"i1"}]}}"##),
        j(r##"{"metadata":{"name":"y"},"spec":{"template":{"spec":{"containers":[{"image":"i3"}]}}}}"##),
    ];
    let r = images::run(&args, &objects);
    assert_eq!(r.lines, ["y\t\ti3", "b/x\tc\ti1", "b/x\td\ti2"]);
    assert_eq!(images::run(&args, &vec![]).outcome, Outcome::NotFound);
}

#[test]
fn env_lists_variables_and_refuses_other_kinds() {
    let args = EnvArgs {
        kind: "pod".into(),
        name: "x".into(),
        namespace: None,
        limit: None,
    };
    let pod = j(r##"{"spec":{"containers":[{"name":"c","env":[{"name":"A","value":"1"},{"value":"2"},{"name":"B"}]}]}}"##);
    let r = sak::k8s::env::run(&args, "Pod", Some(&pod)).unwrap();
    assert_eq!(r.lines, ["c\tA\t1", "c\tB\t?"]);
    assert_eq!(sak::k8s::env::run(&args, "Pod", None).unwrap().outcome, Outcome::NotFound);
    assert_eq!(
        sak::k8s::env::run(&args, "Service", Some(&pod)).unwrap_err().message,
        "kind \"Service\" has no pod template — `sak k8s env` only supports: Pod, Deployment, StatefulSet, DaemonSet, Job, CronJob, ReplicaSet"
    );
    assert!(check_kind("CronJob").is_ok());
    assert!(check_kind("pod").is_err());
}

#[test]
fn events_are_filtered_and_sorted() {
    let event = |last: &str, kind: &str, name: &str| {
        j(&format!(
            r##"{{"lastTimestamp":"{last}","type":"Normal","reason":"R","involvedObject":{{"kind":"{kind}","name":"{name}"}},"message":"m"}}"##
        ))
    };
    let all = vec![event("1", "Pod", "a"), event("3", "Node", "a"), event("2", "pod", "a"), event("3", "Deployment", "d")];
    let mut args = EventsArgs {
        namespace: None,
        all_namespaces: false,
        for_object: None,
        limit: Some(2),
    };
    let r = events::run(&args, &all).unwrap();
    assert_eq!(r.lines, ["3\tNormal\tR\tDeployment/d\tm", "3\tNormal\tR\tNode/a\tm"]);
    args.for_object = text("po/a");
    let r = events::run(&args, &all).unwrap();
    assert_eq!(r.lines, ["2\tNormal\tR\tpod/a\tm", "1\tNormal\tR\tPod/a\tm"]);
    assert_eq!(fetch_events_for(&all, "deployment", "d").len(), 1);
    for bad in ["pod", "/a", "pod/"] {
        args.for_object = text(bad);
        assert_eq!(events::run(&args, &all).unwrap_err().message, format!("--for expects KIND/NAME (got {bad:?})"));
    }
    assert_eq!(parse_filter("a\"b").unwrap_err().message, "--for expects KIND/NAME (got \"a\\\"b\")");
    assert_eq!(parse_filter("widget/x/y").unwrap(), ("widget".to_string(), "x/y".to_string()));
}

#[test]
fn pods_are_triaged() {
    let failing_args = FailingArgs {
        namespace: None,
        all_namespaces: false,
        selector: None,
        limit: None,
    };
    let objects = vec![
        j(r##"{"metadata":{"namespace":"b","name":"x"},"status":{"phase":"Failed","containerStatuses":[{},{"state":{"waiting":{"reason":"W"}}}]}}"##),
        j(r##"{"metadata":{"name":"y"},"status":{"phase":"Pending","conditions":[{"type":"PodScheduled","status":"False","message":"no room"}]}}"##),
        j(r##"{"metadata":{"name":"z"},"status":{"phase":"Running"}}"##),
    ];
    let r = failing::run(&failing_args, &objects);
    assert_eq!(r.lines, ["y\tPending\t-", "b/x\tFailed\tW"]);
    // A container without a state is passed over.
    assert_eq!(container_status_reason(&objects[0]), text("W"));
    let pending_args = PendingArgs {
        namespace: None,
        all_namespaces: false,
        selector: None,
        limit: None,
    };
    assert_eq!(pending::run(&pending_args, &objects).lines, ["y\tno room"]);
    let mut args = NotReadyArgs {
        kind: "pods".into(),
        namespace: None,
        all_namespaces: false,
        selector: None,
        condition: "PodScheduled".into(),
        status: "False".into(),
        limit: Some(0),
    };
    let r = not_ready::run(&args, &objects);
    assert_eq!((r.lines.len(), r.outcome), (0, Outcome::Found));
    args.limit = None;
    assert_eq!(not_ready::run(&args, &objects).lines, ["z\t-\t-\t-", "b/x\t-\t-\t-"]);
    assert_eq!(not_ready::run(&args, &vec![]).outcome, Outcome::NotFound);
}

#[test]
fn restarts_are_sorted_by_count() {
    let args = RestartsArgs {
        namespace: None,
        all_namespaces: false,
        selector: None,
        min: 2,
        limit: None,
    };
    let pod = |name: &str, counts: &str| j(&format!(r##"{{"metadata":{{"name":"{name}"}},"status":{{"containerStatuses":{counts}}}}}"##));
    let objects = vec![
        pod("b", r##"[{"name":"c","restartCount":3},{"name":"d","restartCount":1}]"##),
        pod("a", r##"[{"name":"c","restartCount":3,"lastState":{"terminated":{"reason":"OOMKilled"}}},{"name":"e","restartCount":10}]"##),
    ];
    let r = restarts::run(&args, &objects);
    assert_eq!(r.lines, ["a\te\t10\t-", "a\tc\t3\tOOMKilled", "b\tc\t3\t-"]);
}

fn logs_args() -> LogsArgs {
    LogsArgs {
        pod: "p".into(),
        container: None,
        all_containers: false,
        tail: None,
        since: None,
        previous: false,
        grep: None,
        namespace: None,
        limit: None,
    }
}

#[test]
fn logs_are_labelled_where_every_container_is_wanted() {
    let one = vec![("app".to_string(), "a\nERROR b\r\n".to_string())];
    let mut args = logs_args();
    assert_eq!(logs::run(&args, &one).unwrap().lines, ["a", "ERROR b"]);
    args.grep = text("^ERR");
    assert_eq!(logs::run(&args, &one).unwrap().lines, ["ERROR b"]);
    args.all_containers = true;
    assert_eq!(logs::run(&args, &one).unwrap().lines, ["[app] ERROR b"]);
    args.limit = Some(0);
    assert_eq!(logs::run(&args, &one).unwrap().outcome, Outcome::NotFound);
    args.grep = text("(");
    assert_eq!(logs::run(&args, &one).unwrap_err().message, "invalid --grep regex: (");
}

#[test]
fn containers_are_chosen() {
    let pod = j(r##"{"spec":{"containers":[{"name":"a"},{"name":"b"}]}}"##);
    let mut args = logs_args();
    assert_eq!(
        choose_containers(&args, "ns", &pod).unwrap_err().message,
        "pod ns/p has multiple containers (a, b); pass --container or --all-containers"
    );
    assert_eq!(choose_containers(&args, "ns", &j("{}")).unwrap_err().message, "pod ns/p has no containers");
    args.all_containers = true;
    assert_eq!(choose_containers(&args, "ns", &pod).unwrap(), ["a", "b"]);
    args.container = text("c");
    assert_eq!(choose_containers(&args, "ns", &pod).unwrap(), ["c"]);
}

#[test]
fn since_faults_are_told_apart() {
    let message = |s: &str| parse_since(s).unwrap_err().message;
    assert_eq!(message(""), "empty --since duration");
    assert_eq!(message("99999999999999999999s"), "--since duration overflow: 99999999999999999999s");
    assert_eq!(message("9223372036854775807m"), "--since duration overflow: 9223372036854775807m");
    assert_eq!(message("9223372036854775807s1s"), "--since duration overflow: 9223372036854775807s1s");
    assert_eq!(message("m"), "invalid --since duration `m`: unit without digits");
    assert_eq!(message("5x"), "invalid --since unit `x` in `5x` (expected s/m/h/d)");
    assert_eq!(message("5m3"), "invalid --since duration `5m3`: trailing digits without unit");
    assert_eq!(parse_since("1d2h3m4s").unwrap(), 93784);
    assert_eq!(parse_since("2h30m").unwrap(), parse_since("2h").unwrap() + parse_since("30m").unwrap());
    let mut args = logs_args();
    args.since = text("1m");
    assert_eq!(check_arguments(&args).unwrap(), Some(60));
    args.since = text("1");
    assert!(check_arguments(&args).is_err());
}

fn schema_args(kind: &str, group: Option<&str>, version: Option<&str>) -> SchemaArgs {
    SchemaArgs {
        kind: kind.into(),
        group: group.map(str::to_string),
        version: version.map(str::to_string),
        limit: None,
    }
}

#[test]
fn schemas_are_found_by_group_version_and_kind() {
    let gvk = resolve_gvk(&schema_args("deploy", None, None)).unwrap();
    assert_eq!((gvk.group.as_str(), gvk.version.as_str(), gvk.kind.as_str()), ("apps", "v1", "Deployment"));
    let explicit = resolve_gvk(&schema_args("a/b", Some("g"), Some("v"))).unwrap();
    assert_eq!((explicit.group.as_str(), explicit.version.as_str(), explicit.kind.as_str()), ("g", "v", "a/b"));
    assert_eq!(
        resolve_gvk(&schema_args("x", Some("g"), None)).unwrap_err().message,
        "--group and --version must be supplied together"
    );
    assert_eq!(
        resolve_gvk(&schema_args("widget", None, None)).unwrap_err().message,
        "unknown kind \"widget\": not in the builtin shortname table. Pass --group/--version, or use the fully qualified `group/version/Kind` form."
    );
    let index = j(r##"{"paths":{"apis/apps/v1":{"serverRelativeURL":"/u?hash=1"}}}"##);
    assert_eq!(document_url(&index, &gvk).unwrap(), "/u?hash=1");
    assert_eq!(
        document_url(&j("{}"), &gvk).unwrap_err().message,
        "apiserver does not expose group/version \"apps/v1\" via OpenAPI v3 (looked for paths.apis/apps/v1.serverRelativeURL in /openapi/v3)"
    );
    let args = schema_args("deploy", None, None);
    assert_eq!(
        schema::run(&args, &gvk, &j("{}")).unwrap_err().message,
        "OpenAPI document for apps/v1 has no components.schemas"
    );
    assert_eq!(
        schema::run(&args, &gvk, &j(r##"{"components":{"schemas":{"a":{}}}}"##)).unwrap_err().message,
        "kind \"Deployment\" not found in OpenAPI document for apps/v1 (no components.schemas entry has a matching x-kubernetes-group-version-kind)"
    );
    let doc = j(
        r##"{"components":{"schemas":{"a":{},"b":{"x-kubernetes-group-version-kind":[{"group":"apps","version":"v1","kind":"deployment"}]}}}}"##,
    );
    let r = schema::run(&args, &gvk, &doc).unwrap();
    assert_eq!(r.lines[1], "  \"x-kubernetes-group-version-kind\": [");
    assert_eq!(r.outcome, Outcome::Found);
}

#[test]
fn descriptions_have_five_sections() {
    let mut args = DescribeArgs {
        kind: "pod".into(),
        name: "web-0".into(),
        namespace: None,
        limit: None,
    };
    let pod = j(
        r##"{"metadata":{"namespace":"web","creationTimestamp":"1970-01-01T00:00:00Z","labels":{"b":"2","a":"1"},"annotations":{"n":"x\ny"},
        "ownerReferences":[{"kind":"Other","name":"o"},{"kind":"StatefulSet","name":"web","controller":true}]},
        "spec":{"containers":[{"name":"app","image":"i"},{"name":"side","image":"s"}]},
        "status":{"phase":"Running","conditions":[{"type":"Ready","status":"True","message":"a\rb"}],
        "containerStatuses":[{"name":"app","ready":true,"restartCount":2,"lastState":{"terminated":{"reason":"Error"}}}]}}"##,
    );
    let owner = j("{}");
    let event = j(r##"{"lastTimestamp":"t","involvedObject":{"kind":"Pod","name":"web-0"},"message":"m"}"##);
    let events: Vec<Json> = (0..12).map(|_| event.copy()).collect();
    let chain = vec![pod, owner];
    let r = describe::run(&args, "Pod", Some(&chain), &events, 3 * 86400);
    let mut want: Vec<String> = [
        "# Object", "kind/name\tPod/web-0", "namespace\tweb", "age\t3d", "label\ta=1", "label\tb=2", "annotation\tn=x y", "# Status",
        "phase\tRunning", "Ready\tTrue\t-\ta b", "# Containers", "app\ti\ttrue\t2\tterminated\tError", "side\ts\t-\t-\t-\t-",
        "# Owners", "StatefulSet/web", "# Events",
    ]
    .iter()
    .map(|s| s.to_string())
    .collect();
    for _ in 0..10 {
        want.push("t\t-\t-\tPod/web-0\tm".to_string());
    }
    assert_eq!(r.lines, want);
    assert_eq!(r.outcome, Outcome::Found);
    args.limit = Some(1);
    let r = describe::run(&args, "Pod", Some(&chain), &events, 0);
    assert_eq!(r.lines, ["# Object", "kind/name\tPod/web-0", "# Status", "# Containers", "# Owners", "# Events"]);
    assert_eq!(describe::run(&args, "Pod", None, &events, 0).outcome, Outcome::NotFound);
}

#[test]
fn owners_are_followed_five_times() {
    let owned = j(r##"{"metadata":{"ownerReferences":[{"kind":"ReplicaSet","name":"r"}]}}"##);
    assert_eq!(owner_reference(&owned), Some(("ReplicaSet".to_string(), "r".to_string())));
    assert_eq!(next_owner(&owned, 4), owner_reference(&owned));
    assert_eq!(next_owner(&owned, 5), None);
    assert_eq!(owner_reference(&j(r##"{"metadata":{"ownerReferences":[{"kind":"","name":"r"}]}}"##)), None);
    assert_eq!(owner_reference(&j(r##"{"metadata":{"ownerReferences":[]}}"##)), None);
}

#[test]
fn values_do_not_break_their_columns() {
    let mut args = get_args();
    args.columns = vec!["A=.a".into(), "B=.b".into()];
    let r = get::run(&args, "Pod", vec![j(r##"{"a":"x\ty\r\nz"}"##)], 0).unwrap();
    assert_eq!(r.lines, ["A\tB", "x y  z\t-"]);
}

#[test]
fn qualified_names_are_read_back() {
    let gvk = schema::parse_qualified("apps/v1/Deployment").unwrap();
    assert_eq!([gvk.group, gvk.version, gvk.kind].join("/"), "apps/v1/Deployment");
    let core = schema::parse_qualified("v1/Pod").unwrap();
    assert_eq!((core.group.as_str(), core.version.as_str(), core.kind.as_str()), ("", "v1", "Pod"));
    assert!(schema::parse_qualified("a/b/c/d").is_none());
}

#[test]
fn older_objects_never_look_younger() {
    let value = |text: &str| {
        let mut total: i64 = 0;
        let mut number: i64 = 0;
        for c in text.chars() {
            match c.to_digit(10) {
                Some(d) => number = number * 10 + i64::from(d),
                None => {
                    let unit: i64 = match c {
                        's' => 1,
                        'm' => 60,
                        'h' => 3600,
                        'd' => 86400,
                        _ => 365 * 86400,
                    };
                    total += number * unit;
                    number = 0;
                }
            }
        }
        total
    };
    let mut before: i64 = 0;
    let mut secs: i64 = 0;
    while secs < 400_000_000 {
        let now = value(&human_duration(secs));
        assert!(before <= now && now <= secs, "{secs}");
        before = now;
        secs += 1 + secs / 977;
    }
}
