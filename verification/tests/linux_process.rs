use sak::linux::process::{
    assemble, build_json, decode_cmdline, parse_stat_comm_state, parse_status, CMDLINE_MAX,
};
use sak::value::Json;

const STATUS: &str = "\
Name:\tbash
Umask:\t0022
State:\tS (sleeping)
Tgid:\t1234
Pid:\t1234
PPid:\t1000
Uid:\t1000\t1000\t1000\t1000
Gid:\t1000\t1000\t1000\t1000
Threads:\t1
VmSize:\t   22000 kB
VmRSS:\t    5000 kB
";

fn from_value(v: serde_json::Value) -> Json {
    match v {
        serde_json::Value::Null => Json::Null,
        serde_json::Value::Bool(b) => Json::Bool(b),
        serde_json::Value::Number(n) => match (n.as_u64(), n.as_i64()) {
            (Some(u), _) => Json::Unsigned(u),
            (None, Some(i)) => Json::Negative(i),
            (None, None) => Json::Float(n.to_string()),
        },
        serde_json::Value::String(s) => Json::Text(s),
        serde_json::Value::Array(items) => Json::Array(items.into_iter().map(from_value).collect()),
        serde_json::Value::Object(map) => {
            Json::Object(map.into_iter().map(|(k, v)| (k, from_value(v))).collect())
        }
    }
}

/// The value that a JSON text writes.
fn j(text: &str) -> Json {
    from_value(serde_json::from_str(text).unwrap())
}

#[test]
fn comm_with_spaces_and_inner_parens() {
    // The classic spaces-and-parens case: comm is "(sd-pam)".
    let (comm, state) = parse_stat_comm_state("1234 ((sd-pam)) S 1000 1234 1234 0 -1").unwrap();
    assert_eq!(comm, "(sd-pam)");
    assert_eq!(state, "S");
}

#[test]
fn comm_with_spaces() {
    let (comm, state) = parse_stat_comm_state("42 (my proc) R 1 42 42 0").unwrap();
    assert_eq!(comm, "my proc");
    assert_eq!(state, "R");
}

#[test]
fn stat_without_parens_is_rejected() {
    assert_eq!(parse_stat_comm_state("not a stat line"), None);
}

#[test]
fn assemble_pulls_real_ids_and_memory() {
    let status = parse_status(STATUS);
    let p = assemble("1234", status, "bash", "S", "/usr/bin/bash -i");
    assert_eq!(p.pid, "1234");
    assert_eq!(p.name, "bash");
    assert_eq!(p.state, "S");
    assert_eq!(p.ppid, "1000");
    assert_eq!(p.uid, "1000");
    assert_eq!(p.gid, "1000");
    assert_eq!(p.vm_rss_kb, "5000");
    assert_eq!(p.vm_size_kb, "22000");
    assert_eq!(p.threads, "1");
    assert_eq!(p.cmdline, "/usr/bin/bash -i");
}

#[test]
fn missing_memory_fields_render_as_dash() {
    // A kernel thread has no VmRSS/VmSize lines.
    let status = parse_status(
        "Name:\tkthreadd\nPPid:\t2\nUid:\t0\t0\t0\t0\nGid:\t0\t0\t0\t0\nThreads:\t1\n",
    );
    let p = assemble("2", status, "kthreadd", "S", "[kthreadd]");
    assert_eq!(p.vm_rss_kb, "-");
    assert_eq!(p.vm_size_kb, "-");
}

#[test]
fn cmdline_joins_nul_separated_argv() {
    let raw = b"/usr/bin/foo\0--bar\0baz\0";
    assert_eq!(decode_cmdline(raw, "foo"), "/usr/bin/foo --bar baz");
}

#[test]
fn empty_cmdline_renders_bracketed_name() {
    assert_eq!(decode_cmdline(b"", "kthreadd"), "[kthreadd]");
}

#[test]
fn cmdline_is_truncated_with_ellipsis() {
    let long = format!("/bin/x {}", "a".repeat(500));
    let raw: Vec<u8> = long.bytes().collect();
    let out = decode_cmdline(&raw, "x");
    assert_eq!(out.chars().count(), CMDLINE_MAX + 1); // +1 for the ellipsis
    assert!(out.ends_with('…'));
}

#[test]
fn json_includes_full_status_map() {
    let status = parse_status(STATUS);
    let p = assemble("1234", status, "bash", "S", "/usr/bin/bash");
    let v = build_json(&p);
    assert_eq!(v.get("pid"), Some(&j(r##"1234"##)));
    assert_eq!(v.get("status").unwrap().get("Umask").and_then(Json::as_str), Some("0022"));
    assert_eq!(v.get("status").unwrap().get("State").and_then(Json::as_str), Some("S (sleeping)"));
}
