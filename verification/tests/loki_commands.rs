use sak::loki::client::{resolve_endpoint_inner, unwrap_loki_envelope, HttpReply, LokiClient};
use sak::loki::common_args::CommonLokiArgs;
use sak::loki::label_values::{self, LabelValuesArgs};
use sak::loki::labels::{self, extract_strings, LabelsArgs};
use sak::loki::query::{
    self, escape_label_value, format_labels, format_matrix, format_result, format_streams, format_vector,
    parse_sample_pair, parse_stream_entry, urlencode, QueryArgs,
};
use sak::loki::range::{self, build_range_path, check_span, to_nanos, RangeArgs};
use sak::loki::runner::emit_json;
use sak::loki::series::{self, build_series_path, extract_series_lines, SeriesArgs};
use sak::loki::{run, LokiCommand};
use sak::output::Outcome;
use sak::value::Json;

fn from_value(v: serde_json::Value) -> Json {
    match v {
        serde_json::Value::Null => Json::Null,
        serde_json::Value::Bool(b) => Json::Bool(b),
        serde_json::Value::Number(n) => match (n.as_u64(), n.as_i64()) {
            (Some(u), _) => Json::Unsigned(u),
            (None, Some(i)) => Json::Negative(i),
            (None, None) => Json::Float(n.to_string()),
        },
        serde_json::Value::String(s) => Json::Text(s),
        serde_json::Value::Array(items) => Json::Array(items.into_iter().map(from_value).collect()),
        serde_json::Value::Object(map) => {
            Json::Object(map.into_iter().map(|(k, v)| (k, from_value(v))).collect())
        }
    }
}

/// The value that a JSON text writes.
fn j(text: &str) -> Json {
    from_value(serde_json::from_str(text).unwrap())
}

fn common(json: bool) -> CommonLokiArgs {
    CommonLokiArgs {
        url: None,
        json,
        limit: None,
    }
}

fn client() -> LokiClient {
    LokiClient::new("http://loki:3100//")
}

fn success(data: &str) -> HttpReply {
    HttpReply::Json(j(&format!(r##"{{"status":"success","data":{data}}}"##)))
}

#[test]
fn replies_are_told_apart() {
    let c = client();
    assert_eq!(c.base_url, "http://loki:3100");
    assert_eq!(c.url("/x"), "http://loki:3100/x");
    assert_eq!(c.get_json("/x", HttpReply::Json(j("[1]"))).unwrap(), Some(j("[1]")));
    assert_eq!(c.get_json("/x", HttpReply::Status(404, None)).unwrap(), None);
    let message = |reply: HttpReply| c.get_json("/x", reply).unwrap_err().message;
    assert_eq!(
        message(HttpReply::Status(500, Some("boom".into()))),
        "GET http://loki:3100/x returned HTTP 500: boom"
    );
    assert_eq!(
        message(HttpReply::Status(502, None)),
        "GET http://loki:3100/x returned HTTP 502: <unreadable body>"
    );
    assert_eq!(message(HttpReply::Failed), "GET http://loki:3100/x");
    assert_eq!(message(HttpReply::Unreadable), "reading response body for GET http://loki:3100/x");
    assert_eq!(message(HttpReply::NotJson), "parsing JSON response for GET http://loki:3100/x");
}

#[test]
fn envelopes_are_opened() {
    let c = client();
    assert_eq!(c.get_loki("/x", success("[1]")).unwrap(), Some(j("[1]")));
    assert_eq!(c.get_loki("/x", HttpReply::Status(404, None)).unwrap(), None);
    let message = |raw: &str| unwrap_loki_envelope(&j(raw), "/x").unwrap_err().message;
    assert_eq!(message("{}"), "Loki response for /x has no `status` field");
    assert_eq!(message(r##"{"status":"success"}"##), "Loki success response for /x has no `data` field");
    assert_eq!(message(r##"{"status":"a\"b"}"##), "Loki response for /x has non-success status \"a\\\"b\"");
}

#[test]
fn the_flag_goes_before_the_environment() {
    assert_eq!(resolve_endpoint_inner(Some("f"), Some("e".into())).unwrap(), "f");
    assert_eq!(resolve_endpoint_inner(Some(""), Some("e".into())).unwrap(), "e");
    assert!(resolve_endpoint_inner(None, Some(String::new()))
        .unwrap_err()
        .message
        .starts_with("no endpoint URL. Pass --url <URL> or set LOKI_URL."));
}

#[test]
fn queries_show_sorted_rows() {
    let args = QueryArgs {
        common: common(false),
        query: "{a=\"ü b\"}".into(),
    };
    assert_eq!(query::request_path(&args), "/loki/api/v1/query?query=%7Ba%3D%22%C3%BC%20b%22%7D");
    let data = r##"{"resultType":"streams","result":[{"stream":{"b":"2","a":"1"},"values":[["20","x\ty"],["10","z"]]}]}"##;
    let r = query::run(&args, &client(), success(data)).unwrap();
    assert_eq!(r.lines, ["10\t{a=\"1\",b=\"2\"}\tz", "20\t{a=\"1\",b=\"2\"}\tx y"]);
    let none = query::run(&args, &client(), HttpReply::Status(404, None)).unwrap();
    assert_eq!((none.lines.len(), none.outcome), (0, Outcome::NotFound));
    let args = QueryArgs {
        common: common(true),
        query: "x".into(),
    };
    let r = query::run(&args, &client(), success("[1]")).unwrap();
    assert_eq!((r.lines, r.outcome), (vec!["[".to_string(), "  1".into(), "]".into()], Outcome::Found));
    let cmd = LokiCommand::Query(args);
    assert_eq!(run(&cmd, &client(), "/x", success("[1]")).unwrap().lines.len(), 3);
}

#[test]
fn results_of_metrics() {
    let vector = j(r##"[{"metric":{"a":"1"},"value":[1.5,"7"]},{"value":["2","8"]}]"##);
    assert_eq!(format_vector(&vector).unwrap(), ["{a=\"1\"}\t7", "{}\t8"]);
    let matrix = j(r##"[{"metric":{},"values":[[1,"7"],["2.5","8"]]}]"##);
    assert_eq!(format_matrix(&matrix).unwrap(), ["{}\t1\t7", "{}\t2.5\t8"]);
}

#[test]
fn faults_of_results() {
    let message = |raw: &str| format_result(&j(raw)).unwrap_err().message;
    assert_eq!(message("{}"), "Loki query response has no `resultType`");
    assert_eq!(message(r##"{"resultType":"streams"}"##), "Loki query response has no `result`");
    assert_eq!(message(r##"{"resultType":"scalar","result":[]}"##), "unknown Loki resultType \"scalar\"");
    let fault = |r: Result<Vec<String>, sak::output::Error>| r.unwrap_err().message;
    assert_eq!(fault(format_streams(&j("{}"))), "streams `result` is not an array");
    assert_eq!(fault(format_vector(&j("{}"))), "vector `result` is not an array");
    assert_eq!(fault(format_matrix(&j("{}"))), "matrix `result` is not an array");
    assert_eq!(fault(format_streams(&j("[{}]"))), "stream has no `values` array");
    assert_eq!(fault(format_matrix(&j("[{}]"))), "matrix series has no `values` array");
    assert_eq!(fault(format_vector(&j("[{}]"))), "vector series has no `value`");
}

#[test]
fn faults_of_entries_and_samples() {
    let entry = |raw: &str| parse_stream_entry(&j(raw)).unwrap_err().message;
    let debug = |raw: &str| format!("{:?}", serde_json::from_str::<serde_json::Value>(raw).unwrap());
    assert_eq!(entry("7"), format!("expected stream entry [\"<ts>\", \"<line>\"], got {}", debug("7")));
    assert_eq!(entry("[]"), "expected stream entry of length 2, got length 0");
    assert_eq!(
        entry("[1,\"a\"]"),
        format!("stream entry timestamp is not a string: {}", debug("[1,\"a\"]"))
    );
    assert_eq!(entry("[\"1\",null]"), format!("stream entry line is not a string: {}", debug("[\"1\",null]")));
    let sample = |raw: &str| parse_sample_pair(&j(raw)).unwrap_err().message;
    assert_eq!(sample("{}"), format!("expected sample [<ts>, \"<value>\"], got {}", debug("{}")));
    assert_eq!(sample("[1,2,3]"), "expected sample of length 2, got length 3");
    assert_eq!(
        sample("[true,\"1\"]"),
        format!("sample timestamp is not a number or string: {}", debug("true"))
    );
    assert_eq!(sample("[1,2]"), format!("sample value is not a string: {}", debug("[1,2]")));
}

#[test]
fn labels_are_escaped() {
    assert_eq!(escape_label_value("a\\b\"c\nd\te"), "a\\\\b\\\"c\\nd\te");
    assert_eq!(format_labels(Some(&j(r##"{"b":1,"a":"x\"y"}"##))), "{a=\"x\\\"y\",b=\"\"}");
    assert_eq!(format_labels(None), "{}");
    assert_eq!(format_labels(Some(&j("[]"))), "{}");
}

#[test]
fn urls_keep_plain_characters() {
    assert_eq!(urlencode("AZaz09-_.~"), "AZaz09-_.~");
    assert_eq!(urlencode("/ %\u{0}€"), "%2F%20%25%00%E2%82%AC");
}

#[test]
fn label_names_and_values_are_sorted() {
    let args = LabelsArgs { common: common(false) };
    assert_eq!(labels::run(&args, &client(), success(r##"["b","a"]"##)).unwrap().lines, ["a", "b"]);
    assert_eq!(labels::run(&args, &client(), success("[]")).unwrap().outcome, Outcome::NotFound);
    let values = LabelValuesArgs {
        common: common(false),
        name: "a/b".into(),
    };
    assert_eq!(label_values::request_path(&values), "/loki/api/v1/label/a%2Fb/values");
    assert_eq!(label_values::run(&values, &client(), success(r##"["z","y"]"##)).unwrap().lines, ["y", "z"]);
    assert_eq!(extract_strings(&j("{}"), "/p").unwrap_err().message, "Loki /p `data` is not an array");
    assert_eq!(
        extract_strings(&j("[7]"), "/p").unwrap_err().message,
        "Loki /p `data` element is not a string: Number(7)"
    );
}

fn range_args() -> RangeArgs {
    RangeArgs {
        common: common(false),
        query: "q".into(),
        since: "1h".into(),
        step: "60s".into(),
    }
}

#[test]
fn ranges_are_checked_and_written() {
    assert_eq!(check_span(&Ok(3600), &Ok(60)).unwrap(), (3600, 60));
    let message = |since: Result<u64, String>, step: Result<u64, String>| check_span(&since, &step).unwrap_err().message;
    assert_eq!(message(Err("bad".into()), Err("worse".into())), "--since: bad");
    assert_eq!(message(Ok(1), Err("worse".into())), "--step: worse");
    assert_eq!(message(Ok(1), Ok(0)), "--step must be a non-zero duration");
    assert_eq!(
        range::path_at(&range_args(), 3600, 60, 10_000),
        "/loki/api/v1/query_range?query=q&start=6400000000000&end=10000000000000&step=60"
    );
    assert_eq!(
        range::path_at(&range_args(), 20_000, 60, 10_000),
        "/loki/api/v1/query_range?query=q&start=0&end=10000000000000&step=60"
    );
    assert_eq!(to_nanos(u64::MAX), u64::MAX);
    assert_eq!(
        build_range_path("a b", 1, u64::MAX, 3),
        "/loki/api/v1/query_range?query=a%20b&start=1000000000&end=18446744073709551615&step=3"
    );
    let path = range::request_path(&range_args(), &Ok(3600), &Ok(60)).unwrap();
    assert!(path.starts_with("/loki/api/v1/query_range?query=q&start=") && path.ends_with("&step=60"));
    let data = r##"{"resultType":"matrix","result":[{"values":[[2,"b"],[1,"a"]]}]}"##;
    let r = range::run(&range_args(), &client(), &path, success(data)).unwrap();
    assert_eq!(r.lines, ["{}\t1\ta", "{}\t2\tb"]);
    let cmd = LokiCommand::QueryRange(range_args());
    assert_eq!(run(&cmd, &client(), &path, success(data)).unwrap().lines.len(), 2);
}

fn series_args() -> SeriesArgs {
    SeriesArgs {
        common: common(false),
        selector: "{a=\"1\"}".into(),
        start: Some("1h".into()),
        end: None,
    }
}

#[test]
fn series_are_listed() {
    let args = series_args();
    assert_eq!(
        build_series_path("{a=\"1\"}", None, Some(2)),
        "/loki/api/v1/series?match%5B%5D=%7Ba%3D%221%22%7D&end=2000000000"
    );
    assert_eq!(
        series::path_at(&args, Some(3600), None, 10_000),
        "/loki/api/v1/series?match%5B%5D=%7Ba%3D%221%22%7D&start=6400000000000"
    );
    let fault = |start: Option<Result<u64, String>>, end: Option<Result<u64, String>>| {
        series::request_path(&args, &start, &end).unwrap_err().message
    };
    assert_eq!(fault(Some(Err("bad".into())), Some(Err("worse".into()))), "--start: bad");
    assert_eq!(fault(None, Some(Err("worse".into()))), "--end: worse");
    let r = series::run(&args, &client(), "/x", success(r##"[{"b":"2"},{"a":"1"}]"##)).unwrap();
    assert_eq!(r.lines, ["{a=\"1\"}", "{b=\"2\"}"]);
    assert_eq!(
        extract_series_lines(&j("{}")).unwrap_err().message,
        "Loki /loki/api/v1/series `data` is not an array"
    );
    assert_eq!(
        extract_series_lines(&j("[null]")).unwrap_err().message,
        "series entry is not an object: Null"
    );
}

#[test]
fn whole_payloads_are_pretty() {
    assert_eq!(emit_json(&j(r##"{"a":1}"##), Some(2)).lines, ["{", "  \"a\": 1"]);
}
