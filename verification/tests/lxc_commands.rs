use sak::lxc::client::{discover_socket, project_path, recursive_path, socket_candidates, LxcClient, LxcReply};
use sak::lxc::config::{self, config_subset, ConfigArgs};
use sak::lxc::images::{self, ImagesArgs};
use sak::lxc::info::{self, InfoArgs};
use sak::lxc::list::{self, first_global_address, ListArgs};
use sak::output::Outcome;
use sak::value::Json;

fn from_value(v: serde_json::Value) -> Json {
    match v {
        serde_json::Value::Null => Json::Null,
        serde_json::Value::Bool(b) => Json::Bool(b),
        serde_json::Value::Number(n) => match (n.as_u64(), n.as_i64()) {
            (Some(u), _) => Json::Unsigned(u),
            (None, Some(i)) => Json::Negative(i),
            (None, None) => Json::Float(n.to_string()),
        },
        serde_json::Value::String(s) => Json::Text(s),
        serde_json::Value::Array(items) => Json::Array(items.into_iter().map(from_value).collect()),
        serde_json::Value::Object(map) => {
            Json::Object(map.into_iter().map(|(k, v)| (k, from_value(v))).collect())
        }
    }
}

/// The value that a JSON text writes.
fn j(text: &str) -> Json {
    from_value(serde_json::from_str(text).unwrap())
}

fn client() -> LxcClient {
    LxcClient::connect(&Some("/s".into()), &vec![false, false, false]).unwrap()
}

fn reply(metadata: &str) -> LxcReply {
    LxcReply {
        code: 200,
        status: "200 OK".into(),
        body: vec![],
        envelope: Some(j(&format!(r##"{{"metadata":{metadata}}}"##))),
    }
}

fn refusal(code: u16, status: &str, body: &[u8]) -> LxcReply {
    LxcReply {
        code,
        status: status.into(),
        body: body.to_vec(),
        envelope: None,
    }
}

#[test]
fn sockets_are_searched_in_order() {
    assert_eq!(socket_candidates().len(), 3);
    assert_eq!(client().socket(), "/s");
    assert_eq!(discover_socket(&None, &vec![false, true, true]).unwrap(), "/var/lib/lxd/unix.socket");
    assert_eq!(discover_socket(&Some(String::new()), &vec![true, true, true]).unwrap(), "");
    assert_eq!(
        discover_socket(&None, &vec![false, false, false]).unwrap_err().message,
        "no LXD/Incus unix socket found. Set LXD_SOCKET or install LXD/Incus.\nSearched: /var/snap/lxd/common/lxd/unix.socket, /var/lib/lxd/unix.socket, /var/lib/incus/unix.sock"
    );
}

#[test]
fn envelopes_of_the_daemon() {
    let c = client();
    assert_eq!(c.get_json("/1.0", &reply("[1]")).unwrap(), Some(j("[1]")));
    assert_eq!(c.get_json("/1.0", &refusal(404, "404 Not Found", b"")).unwrap(), None);
    assert_eq!(
        c.get_json("/1.0", &refusal(500, "500 Internal Server Error", b"a\xffb")).unwrap_err().message,
        "LXD returned HTTP 500 Internal Server Error for GET /1.0: a\u{fffd}b"
    );
    assert_eq!(
        c.get_json("/1.0", &refusal(200, "200 OK", b"x")).unwrap_err().message,
        "parsing JSON response for /1.0"
    );
    let bare = LxcReply {
        code: 204,
        status: "204 No Content".into(),
        body: vec![],
        envelope: Some(j("{}")),
    };
    assert_eq!(
        c.get_json_recursive("/1.0", 1, &bare).unwrap_err().message,
        "LXD response for /1.0?recursion=1 has no `metadata` field"
    );
}

#[test]
fn paths_of_requests() {
    assert_eq!(recursive_path("/a", 2), "/a?recursion=2");
    assert_eq!(recursive_path("/a?b=c", 1), "/a?b=c&recursion=1");
    assert_eq!(project_path("/a", &Some("p".into())), "/a?project=p");
    assert_eq!(project_path("/a", &None), "/a");
    assert_eq!(info::write_instance_path("web1", &Some("lab".into())), "/1.0/instances/web1?project=lab");
}

#[test]
fn instances_are_listed() {
    let mut args = ListArgs {
        project: None,
        format: list::Format::Tsv,
        limit: None,
    };
    let all = r##"[{"name":"b","type":"container","status":"Running","state":{"network":{"eth0":{"addresses":[{"family":"inet"},{"family":"inet6","scope":"link","address":"fe80::1"},{"family":"inet","scope":"global","address":"10.0.0.2"}]}}}},{"name":"a"}]"##;
    let r = list::run(&args, &client(), &reply(all)).unwrap();
    assert_eq!(r.lines, ["a\t-\t-\t-\t-", "b\tcontainer\tRunning\t10.0.0.2\t-"]);
    args.format = list::Format::Json;
    args.limit = Some(1);
    assert_eq!(list::run(&args, &client(), &reply(all)).unwrap().lines, [r##"{"name":"a"}"##]);
    assert_eq!(list::run(&args, &client(), &refusal(404, "404 Not Found", b"")).unwrap().outcome, Outcome::NotFound);
    assert_eq!(
        list::run(&args, &client(), &reply("{}")).unwrap_err().message,
        "LXD response for /1.0/instances was not an array"
    );
    // An interface without addresses is passed over.
    let item = j(r##"{"state":{"network":{"a":{},"b":{"addresses":[{"family":"inet","scope":"global","address":"x"}]}}}}"##);
    assert_eq!(first_global_address(&item, "inet"), Some("x".to_string()));
}

#[test]
fn images_of_the_daemon_are_listed() {
    let args = ImagesArgs {
        project: Some("lab".into()),
        limit: None,
    };
    assert_eq!(images::request_path(&args), "/1.0/images?project=lab");
    let all = r##"[{"fingerprint":"f2","size":12,"aliases":[{"name":"x"},{},{"name":"y"}],"architecture":"x86_64","properties":{"description":"d"}},{"fingerprint":"f1","size":1.5}]"##;
    let r = images::run(&args, &client(), &reply(all)).unwrap();
    assert_eq!(r.lines, ["f1\t-\t-\t-\t-", "f2\tx,y\tx86_64\t12\td"]);
    assert_eq!(
        images::run(&args, &client(), &reply("1")).unwrap_err().message,
        "LXD response for /1.0/images?project=lab was not an array"
    );
}

#[test]
fn one_instance_is_shown_whole() {
    let args = InfoArgs {
        name: "web1".into(),
        project: None,
        limit: Some(2),
    };
    let r = info::run(&args, &client(), &reply(r##"{"a":1}"##)).unwrap();
    assert_eq!((r.lines, r.outcome), (vec!["{".to_string(), "  \"a\": 1".into()], Outcome::Found));
    assert_eq!(info::run(&args, &client(), &refusal(404, "404 Not Found", b"")).unwrap().outcome, Outcome::NotFound);
}

#[test]
fn configurations_leave_the_state_out() {
    let instance = r##"{"state":{},"profiles":["p"],"config":{"image.os":"u"}}"##;
    assert_eq!(config_subset(&j(instance)), j(r##"{"config":{"image.os":"u"},"profiles":["p"]}"##));
    let mut args = ConfigArgs {
        name: "web1".into(),
        project: None,
        path: Some(".config.\"image.os\"".into()),
        limit: None,
    };
    assert_eq!(config::run(&args, &client(), &reply(instance)).unwrap().lines, ["\"u\""]);
    args.path = Some(".state".into());
    assert_eq!(config::run(&args, &client(), &reply(instance)).unwrap().outcome, Outcome::NotFound);
    args.path = Some(".a[".into());
    assert_eq!(config::run(&args, &client(), &reply(instance)).unwrap_err().message, "invalid path expression '.a['");
    args.path = None;
    assert_eq!(config::run(&args, &client(), &reply("[]")).unwrap().lines, ["{}"]);
}
