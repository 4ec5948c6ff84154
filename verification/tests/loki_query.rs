use sak::loki::query::{
    format_labels, format_result, parse_sample_pair, parse_stream_entry, urlencode,
};
use sak::value::Json;

fn from_value(v: serde_json::Value) -> Json {
    match v {
        serde_json::Value::Null => Json::Null,
        serde_json::Value::Bool(b) => Json::Bool(b),
        serde_json::Value::Number(n) => match (n.as_u64(), n.as_i64()) {
            (Some(u), _) => Json::Unsigned(u),
            (None, Some(i)) => Json::Negative(i),
            (None, None) => Json::Float(n.to_string()),
        },
        serde_json::Value::String(s) => Json::Text(s),
        serde_json::Value::Array(items) => Json::Array(items.into_iter().map(from_value).collect()),
        serde_json::Value::Object(map) => {
            Json::Object(map.into_iter().map(|(k, v)| (k, from_value(v))).collect())
        }
    }
}

/// The value that a JSON text writes.
fn j(text: &str) -> Json {
    from_value(serde_json::from_str(text).unwrap())
}

#[test]
fn format_labels_canonical_sorted() {
    let m = j(r##"{"app": "api", "level": "info", "ns": "prod"}"##);
    assert_eq!(
        format_labels(Some(&m)),
        r#"{app="api",level="info",ns="prod"}"#
    );
}

#[test]
fn format_labels_empty_or_missing() {
    assert_eq!(format_labels(None), "{}");
    assert_eq!(format_labels(Some(&j(r##"{}"##))), "{}");
}

#[test]
fn format_labels_escapes_special_chars() {
    let m = j(r##"{"path": "a/b\"c\\d"}"##);
    assert_eq!(format_labels(Some(&m)), r#"{path="a/b\"c\\d"}"#);
}

#[test]
fn format_result_streams() {
    let data = j(r##"{ "resultType": "streams", "result": [ { "stream": {"app": "api", "level": "info"}, "values": [ ["1700000000000000000", "started up"], ["1700000000000000001", "ready"] ] } ] }"##);
    let lines = format_result(&data).unwrap();
    assert_eq!(lines.len(), 2);
    assert_eq!(
        lines[0],
        "1700000000000000000\t{app=\"api\",level=\"info\"}\tstarted up"
    );
    assert_eq!(
        lines[1],
        "1700000000000000001\t{app=\"api\",level=\"info\"}\tready"
    );
}

#[test]
fn format_streams_flattens_multiline_log_line() {
    let data = j(r##"{ "resultType": "streams", "result": [{ "stream": {"app": "api"}, "values": [["1700000000000000000", "line1\nline2\twith tab"]] }] }"##);
    let lines = format_result(&data).unwrap();
    // The embedded newline and tab in the log line are collapsed to spaces
    // so the `ts<TAB>labels<TAB>line` contract holds — exactly three tabs'
    // worth of structure (two separators) on the row.
    assert_eq!(lines[0].matches('\t').count(), 2);
    assert_eq!(
        lines[0],
        "1700000000000000000\t{app=\"api\"}\tline1 line2 with tab"
    );
}

#[test]
fn format_result_vector() {
    let data = j(r##"{ "resultType": "vector", "result": [ {"metric": {"app": "api"}, "value": [1700000000.0, "5"]}, {"metric": {"app": "web"}, "value": [1700000000.0, "9"]} ] }"##);
    let lines = format_result(&data).unwrap();
    assert_eq!(lines.len(), 2);
    assert!(lines.iter().any(|l| l == r#"{app="api"}	5"#));
    assert!(lines.iter().any(|l| l == r#"{app="web"}	9"#));
}

#[test]
fn format_result_matrix() {
    let data = j(r##"{ "resultType": "matrix", "result": [{ "metric": {"app": "api"}, "values": [[1700000000.0, "1"], [1700000060.0, "2"]] }] }"##);
    let lines = format_result(&data).unwrap();
    assert_eq!(lines.len(), 2);
    assert!(lines[0].ends_with("\t1"));
    assert!(lines[1].ends_with("\t2"));
    assert!(lines[0].starts_with("{app=\"api\"}"));
}

#[test]
fn format_result_unknown_type_errors() {
    let data = j(r##"{"resultType": "weird", "result": null}"##);
    let err = format_result(&data).unwrap_err();
    assert!(err.message.contains("unknown Loki resultType"));
}

#[test]
fn format_result_missing_result_type_errors() {
    let data = j(r##"{"result": []}"##);
    let err = format_result(&data).unwrap_err();
    assert!(err.message.contains("`resultType`"));
}

#[test]
fn parse_stream_entry_basic() {
    let v = j(r##"["1700000000000000000", "hello"]"##);
    let (ts, line) = parse_stream_entry(&v).unwrap();
    assert_eq!(ts, "1700000000000000000");
    assert_eq!(line, "hello");
}

#[test]
fn parse_stream_entry_rejects_wrong_length() {
    let v = j(r##"["1700000000000000000"]"##);
    let err = parse_stream_entry(&v).unwrap_err();
    assert!(err.message.contains("length 1"));
}

#[test]
fn parse_stream_entry_rejects_non_string_ts() {
    let v = j(r##"[1700000000000000000, "hello"]"##);
    let err = parse_stream_entry(&v).unwrap_err();
    assert!(err.message.contains("timestamp is not a string"));
}

#[test]
fn parse_sample_pair_accepts_string_timestamp() {
    let v = j(r##"["1700000000.000", "42"]"##);
    let (ts, val) = parse_sample_pair(&v).unwrap();
    assert_eq!(ts, "1700000000.000");
    assert_eq!(val, "42");
}

#[test]
fn urlencode_handles_logql_punctuation() {
    assert_eq!(urlencode("foo bar"), "foo%20bar");
    assert_eq!(urlencode("{app=\"api\"}"), "%7Bapp%3D%22api%22%7D");
    assert_eq!(urlencode("a-b_c.d~e"), "a-b_c.d~e");
}

#[test]
fn urlencode_handles_non_ascii() {
    // µ = U+00B5, encoded UTF-8 as C2 B5
    assert_eq!(urlencode("µs"), "%C2%B5s");
}
