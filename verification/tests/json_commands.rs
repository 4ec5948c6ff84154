use sak::json::diff::{self, DiffArgs, DiffEntry};
use sak::json::exists_::{self, ExistsArgs};
use sak::json::flatten::{self, ArrayMode, FlattenArgs};
use sak::json::grep::{self, build_regex, GrepArgs};
use sak::json::keys::{self, KeysArgs};
use sak::json::length::{self, LengthArgs};
use sak::json::paths::{self, PathsArgs};
use sak::json::query::{self, QueryArgs};
use sak::json::schema::{self, collect_schema, infer_schema, SchemaArgs};
use sak::json::select::{self, SelectArgs};
use sak::json::table::{self, TableArgs};
use sak::json::type_::{self, TypeArgs};
use sak::json::validate::{self, ValidateArgs};
use sak::json::ndjson_records;
use sak::output::{Error, Outcome, Report};
use sak::value::Json;

fn from_value(v: serde_json::Value) -> Json {
    match v {
        serde_json::Value::Null => Json::Null,
        serde_json::Value::Bool(b) => Json::Bool(b),
        serde_json::Value::Number(n) => match (n.as_u64(), n.as_i64()) {
            (Some(u), _) => Json::Unsigned(u),
            (None, Some(i)) => Json::Negative(i),
            (None, None) => Json::Float(n.to_string()),
        },
        serde_json::Value::String(s) => Json::Text(s),
        serde_json::Value::Array(items) => Json::Array(items.into_iter().map(from_value).collect()),
        serde_json::Value::Object(map) => {
            Json::Object(map.into_iter().map(|(k, v)| (k, from_value(v))).collect())
        }
    }
}

/// The value that a JSON text writes.
fn j(text: &str) -> Json {
    from_value(serde_json::from_str(text).unwrap())
}

fn inputs(items: &[&str]) -> Vec<(String, Json)> {
    items
        .iter()
        .enumerate()
        .map(|(i, text)| (format!("f{i}.json"), j(text)))
        .collect()
}

fn query_args(expression: &str) -> QueryArgs {
    QueryArgs {
        expression: expression.to_string(),
        files: vec![],
        raw: false,
        compact: false,
        pretty: false,
        limit: None,
    }
}

fn query(expression: &str, items: &[&str]) -> Result<Report, Error> {
    query::run(&query_args(expression), &inputs(items))
}

#[test]
fn query_simple() {
    let r = query(".name", &[r##"{"name":"alice"}"##]).unwrap();
    assert_eq!((r.lines, r.outcome), (vec!["\"alice\"".to_string()], Outcome::Found));
}

#[test]
fn query_pointer() {
    let r = query("/a/0", &[r##"{"a":[1,2]}"##]).unwrap();
    assert_eq!(r.lines, ["1"]);
}

#[test]
fn query_missing_returns_1() {
    let r = query(".b", &[r##"{"a":1}"##]).unwrap();
    assert_eq!((r.lines.len(), r.outcome), (0, Outcome::NotFound));
}

#[test]
fn query_finds_even_what_the_limit_keeps_back() {
    let mut args = query_args(".");
    args.pretty = true;
    args.limit = Some(0);
    let r = query::run(&args, &inputs(&["[1]"])).unwrap();
    assert_eq!((r.lines.len(), r.outcome), (0, Outcome::Found));
    args.limit = Some(2);
    assert_eq!(query::run(&args, &inputs(&["[1]"])).unwrap().lines, ["[", "  1"]);
}

#[test]
fn query_refuses_a_malformed_path() {
    assert_eq!(query(".a[", &["1"]).unwrap_err().message, "invalid path expression '.a['");
    // Without a document the path is never looked at.
    assert_eq!(query(".a[", &[]).unwrap().outcome, Outcome::NotFound);
}

fn presence(expression: &str, any: bool, items: &[&str]) -> Outcome {
    let args = ExistsArgs {
        expression: expression.to_string(),
        files: vec![],
        any,
    };
    exists_::run(&args, &inputs(items)).unwrap()
}

#[test]
fn exists_present() {
    assert_eq!(presence(".a", false, &[r##"{"a":1}"##]), Outcome::Found);
}

#[test]
fn exists_missing_returns_1() {
    assert_eq!(presence(".b", false, &[r##"{"a":1}"##]), Outcome::NotFound);
}

#[test]
fn exists_root_pointer() {
    assert_eq!(presence("", false, &[r##"{"a":1}"##]), Outcome::Found);
}

#[test]
fn exists_null_value_still_counts_as_present() {
    assert_eq!(presence(".a", false, &[r##"{"a":null}"##]), Outcome::Found);
}

#[test]
fn exists_all_requires_every_file() {
    assert_eq!(presence(".a", false, &[r##"{"a":1}"##, "{}"]), Outcome::NotFound);
}

#[test]
fn exists_any_only_requires_one_file() {
    assert_eq!(presence(".a", true, &["{}", r##"{"a":1}"##]), Outcome::Found);
    assert_eq!(presence(".a", true, &[]), Outcome::NotFound);
    assert_eq!(presence(".a", false, &[]), Outcome::Found);
}

fn length(path: Option<&str>, limit: Option<usize>, items: &[&str]) -> Result<Report, Error> {
    let args = LengthArgs {
        path: path.map(str::to_string),
        files: vec![],
        limit,
    };
    length::run(&args, &inputs(items))
}

#[test]
fn length_of_containers_and_texts() {
    let r = length(None, None, &["[1,2,3]", r##"{"a":1,"b":2}"##, r##""héllo""##]).unwrap();
    assert_eq!(r.lines, ["3", "2", "5"]);
    assert_eq!(length(Some("/a"), None, &[r##"{"a":[]}"##]).unwrap().lines, ["0"]);
    assert_eq!(length(Some(".b"), None, &["{}"]).unwrap().outcome, Outcome::NotFound);
}

#[test]
fn length_of_scalar_errors() {
    let e = length(None, None, &["42"]).unwrap_err();
    assert_eq!(e.message, "value of type 'number' has no length (expected array, object, or string)");
    assert!(length(None, None, &["null"]).unwrap_err().message.contains("'null'"));
}

#[test]
fn length_looks_one_value_past_the_limit() {
    assert_eq!(length(None, Some(1), &["[]", "[]", "42"]).unwrap().lines, ["0"]);
    assert!(length(None, Some(1), &["[]", "42"]).is_err());
    assert!(length(None, Some(0), &["42"]).is_err());
}

#[test]
fn type_of_values_at_a_path() {
    let args = |path: Option<&str>| TypeArgs {
        path: path.map(str::to_string),
        files: vec![],
        limit: None,
    };
    let items = inputs(&["{}", "[]", "\"x\"", "1", "true", "null"]);
    let r = type_::run(&args(None), &items).unwrap();
    assert_eq!(r.lines, ["object", "array", "string", "number", "boolean", "null"]);
    let r = type_::run(&args(Some(".users")), &inputs(&[r##"{"users":[1]}"##])).unwrap();
    assert_eq!(r.lines, ["array"]);
    let r = type_::run(&args(Some(".nope")), &items).unwrap();
    assert_eq!(r.outcome, Outcome::NotFound);
}

#[test]
fn keys_are_listed_for_objects_alone() {
    let args = KeysArgs {
        path: Some(".o".to_string()),
        files: vec![],
        depth: None,
        types: false,
        lines: false,
        limit: Some(3),
    };
    assert_eq!(keys::max_depth(&args), 1);
    let items = inputs(&[r##"{"o":{"a":1}}"##, r##"{"o":[]}"##, "{}", r##"{"o":{}}"##]);
    let found = keys::find_objects(&args, &items).unwrap();
    assert_eq!(found.len(), 2);
    let r = keys::run(&args, &vec![vec!["a".to_string(), "b".to_string()], vec!["c".into(), "d".into()]]);
    assert_eq!((r.lines, r.outcome), (vec!["a".to_string(), "b".into(), "c".into()], Outcome::Found));
    assert_eq!(keys::run(&args, &vec![vec![]]).outcome, Outcome::Found);
    assert_eq!(keys::run(&args, &vec![]).outcome, Outcome::NotFound);
}

#[test]
fn flatten_and_paths_list_leaves() {
    let documents = vec![
        vec![("a.b".to_string(), "1".to_string())],
        vec![("c".to_string(), "\"x\"".to_string())],
    ];
    let args = |separator: &str| FlattenArgs {
        files: vec![],
        separator: separator.to_string(),
        max_depth: None,
        arrays: ArrayMode::Index,
        lines: false,
        limit: None,
    };
    assert_eq!(flatten::run(&args("."), &documents).unwrap().lines, ["a.b\t1", "c\t\"x\""]);
    let e = flatten::run(&args(""), &documents).unwrap_err();
    assert_eq!(e.message, "--separator must not be empty");
    let args = |separator: &str| PathsArgs {
        files: vec![],
        separator: separator.to_string(),
        max_depth: None,
        arrays: ArrayMode::Skip,
        limit: Some(1),
    };
    assert_eq!(paths::run(&args("."), &documents).unwrap().lines, ["a.b"]);
    assert!(paths::run(&args(""), &documents).is_err());
    assert_eq!(paths::run(&args("."), &vec![]).unwrap().outcome, Outcome::NotFound);
}

fn grep_args(pattern: &str) -> GrepArgs {
    GrepArgs {
        pattern: pattern.to_string(),
        files: vec![],
        key: false,
        value: false,
        type_filter: None,
        paths_only: false,
        ignore_case: false,
        limit: None,
    }
}

#[test]
fn grep_shows_paths_and_values() {
    let documents = vec![vec![("a".to_string(), j("1")), (String::new(), j("\"x\""))]];
    let mut args = grep_args("a");
    assert_eq!(grep::run(&args, &documents).unwrap().lines, ["(root)\t\"x\"", "a\t1"]);
    args.paths_only = true;
    assert_eq!(grep::run(&args, &documents).unwrap().lines, ["(root)", "a"]);
    assert_eq!(grep::run(&args, &vec![]).unwrap().outcome, Outcome::NotFound);
}

#[test]
fn grep_invalid_regex_errors() {
    let e = grep::run(&grep_args("("), &vec![]).unwrap_err();
    assert_eq!(e.message, "invalid regex: (");
    assert_eq!(build_regex("^a", true).unwrap(), "(?i)^a");
    assert_eq!(build_regex("^a", false).unwrap(), "^a");
}

fn schema_lines(text: &str) -> Vec<String> {
    let args = SchemaArgs {
        files: vec![],
        depth: None,
        limit: None,
    };
    let v = j(text);
    let found = collect_schema(&v, None);
    schema::run(&args, &vec![(v, found)]).lines
}

#[test]
fn schema_simple_object() {
    let lines = schema_lines(r##"{"name":"alice","age":30}"##);
    assert_eq!(lines, ["(root): object", ".age: number", ".name: string"]);
}

#[test]
fn schema_nested_object() {
    let lines = schema_lines(r##"{"a":{"b":1}}"##);
    assert_eq!(lines, ["(root): object", ".a: object", ".a.b: number"]);
}

#[test]
fn schema_array_of_objects_unions_keys() {
    let lines = schema_lines(r##"[{"name":"alice"},{"name":"bob","age":30}]"##);
    assert_eq!(lines, ["(root): array", "[]: object", "[].age: number", "[].name: string"]);
}

#[test]
fn schema_heterogeneous_array() {
    let lines = schema_lines(r##"[1,"two",true]"##);
    assert_eq!(lines, ["(root): array", "[]: boolean|number|string"]);
}

#[test]
fn schema_empty_array() {
    let lines = schema_lines(r##"{"a":[]}"##);
    assert_eq!(lines, ["(root): object", ".a: array"]);
}

#[test]
fn schema_root_scalar() {
    assert_eq!(schema_lines("42"), ["(root): number"]);
}

#[test]
fn schema_max_depth() {
    let v = j(r##"{"a":{"b":{"c":1}}}"##);
    let shape = infer_schema(&v, Some(2));
    let has = |path: &str| shape.iter().any(|(p, _)| p == path);
    assert!(has(".a"));
    assert!(has(".a.b"));
    assert!(!has(".a.b.c"));
    assert_eq!(infer_schema(&v, Some(0)), [(String::new(), vec!["object".to_string()])]);
}

#[test]
fn shapes_are_put_in_order() {
    let args = SchemaArgs {
        files: vec![],
        depth: None,
        limit: None,
    };
    let found = [("z", "string"), ("a", "null"), ("z", "array"), ("z", "string")]
        .map(|(p, t)| (p.to_string(), t.to_string()))
        .to_vec();
    let r = schema::run(&args, &vec![(j("{}"), found), (j("1"), vec![])]);
    assert_eq!(r.lines, ["(root): object", "a: null", "z: array|string", "(root): number"]);
    assert_eq!(r.outcome, Outcome::Found);
    assert_eq!(schema::run(&args, &vec![]).outcome, Outcome::NotFound);
}

#[test]
fn diff_marks_what_changed() {
    let args = DiffArgs {
        a: "a".into(),
        b: "b".into(),
        limit: Some(2),
    };
    let entries = vec![
        DiffEntry::Added("x".into(), j("[1]")),
        DiffEntry::Removed("y".into(), j("null")),
        DiffEntry::Changed(String::new(), j("1"), j("\"1\"")),
    ];
    let r = diff::run(&args, &entries);
    assert_eq!((r.lines, r.identical), (vec!["+ x\t[1]".to_string(), "- y\tnull".into()], false));
    assert_eq!(diff::format_diff_entry(&entries[2]), "~ (root)\t1 -> \"1\"");
    let same = diff::run(&args, &vec![]);
    assert!(same.identical && same.lines.is_empty());
}

fn select_args(paths: &str) -> SelectArgs {
    SelectArgs {
        paths: paths.to_string(),
        files: vec![],
        null_missing: false,
        compact: false,
        pretty: false,
        lines: false,
        limit: None,
    }
}

#[test]
fn select_shows_parts_by_name() {
    let items = inputs(&[r##"{"b":1,"a":{"x":2}}"##, "[1]", "{}"]);
    let r = select::run(&select_args("b,z=.a.x"), &items).unwrap();
    assert_eq!((r.lines, r.outcome), (vec![r##"{"b":1,"z":2}"##.to_string()], Outcome::Found));
    let mut args = select_args("q");
    assert_eq!(select::run(&args, &items).unwrap().outcome, Outcome::NotFound);
    args.null_missing = true;
    args.pretty = true;
    let r = select::run(&args, &items).unwrap();
    assert_eq!(r.lines, ["{", "  \"q\": null", "}", "{", "  \"q\": null", "}"]);
}

#[test]
fn select_names_what_is_wrong() {
    let message = |paths: &str| select::run(&select_args(paths), &inputs(&["{}"])).unwrap_err().message;
    assert_eq!(message("a,,b"), "empty path in --paths spec");
    assert_eq!(message("=a"), "empty alias in '=a'");
    assert_eq!(message(" n = "), "empty path after '=' in 'n ='");
    assert_eq!(message("x.a,a"), "duplicate output key 'a' — disambiguate with '<alias>=<path>'");
    assert_eq!(message("a[0]"), "cannot derive output key from 'a[0]' — use '<alias>=<path>'");
    assert_eq!(message("n=a[,m=b["), "invalid path expression 'a['");
    // A path is looked at only where there is an object.
    assert!(select::run(&select_args("n=a["), &inputs(&["[]"])).is_ok());
}

fn table_args(path: &str, fields: &str) -> TableArgs {
    TableArgs {
        array_path: path.to_string(),
        files: vec![],
        fields: fields.to_string(),
        header: false,
        missing: "-".to_string(),
        lines: false,
        limit: None,
    }
}

#[test]
fn run_wrapped_array() {
    let items = inputs(&[r##"{"issues":[{"id":1,"t":"a"},{"id":2,"t":"b"}]}"##]);
    let mut args = table_args(".issues", "id,t");
    args.header = true;
    let r = table::run(&args, &items).unwrap();
    assert_eq!((r.lines, r.outcome), (vec!["id\tt".to_string(), "1\ta".into(), "2\tb".into()], Outcome::Found));
    args.limit = Some(0);
    let r = table::run(&args, &items).unwrap();
    assert_eq!((r.lines, r.outcome), (vec!["id\tt".to_string()], Outcome::NotFound));
}

#[test]
fn run_empty_array_is_not_found() {
    let mut args = table_args(".issues", "id");
    args.header = true;
    let r = table::run(&args, &inputs(&[r##"{"issues":[]}"##])).unwrap();
    assert_eq!((r.lines.len(), r.outcome), (0, Outcome::NotFound));
}

#[test]
fn run_non_array_path_is_error() {
    let e = table::run(&table_args(".issues", "id"), &inputs(&[r##"{"issues":{"not":"an array"}}"##])).unwrap_err();
    assert_eq!(e.message, "expected a JSON array at \".issues\" in f0.json, found object");
}

#[test]
fn run_missing_path_is_error() {
    let e = table::run(&table_args(".nope", "id"), &inputs(&[r##"{"issues":[]}"##])).unwrap_err();
    assert_eq!(e.message, "path \".nope\" did not resolve in f0.json");
    assert!(table::run(&table_args(".a[", "id"), &inputs(&["{}"])).unwrap_err().message.contains("invalid path"));
    assert_eq!(table::run(&table_args(".", "a,"), &inputs(&[])).unwrap_err().message, "empty field in --fields spec");
}

#[test]
fn run_lines_mode_each_line_is_a_row() {
    let mut args = table_args(".", "level,msg[");
    args.lines = true;
    assert_eq!(table::run(&args, &inputs(&["1"])).unwrap().lines, ["1\t-"]);
    assert!(table::run(&args, &inputs(&["1", "{}"])).is_err());
    args.limit = Some(0);
    assert!(table::run(&args, &inputs(&["1", "{}"])).is_ok());
}

fn validate(quiet: bool, lines: bool, limit: Option<usize>, texts: &[&str], unreadable: bool) -> validate::ValidateReport {
    let args = ValidateArgs {
        files: vec![],
        quiet,
        strict: false,
        lines,
        limit,
    };
    let sources = texts.iter().enumerate().map(|(i, t)| (format!("f{i}"), t.to_string())).collect();
    validate::run(&args, &sources, unreadable)
}

#[test]
fn validate_says_what_is_valid_and_what_is_not() {
    let r = validate(false, false, None, &["{}", "{not json", "[1]"], false);
    assert_eq!(r.lines, ["f0: valid", "f2: valid"]);
    assert_eq!(r.complaints.len(), 1);
    assert!(r.complaints[0].starts_with("f1:1:2: "));
    assert_eq!(r.outcome, Outcome::NotFound);
    assert_eq!(validate(false, false, None, &["{}"], true).outcome, Outcome::NotFound);
    let quiet = validate(true, false, Some(0), &["{}", "nope"], false);
    assert!(quiet.lines.is_empty() && quiet.complaints.is_empty());
    assert_eq!(quiet.outcome, Outcome::NotFound);
}

#[test]
fn validate_looks_past_the_limit() {
    let r = validate(false, false, Some(1), &["1", "2", "nope"], false);
    assert_eq!((r.lines, r.outcome), (vec!["f0: valid".to_string()], Outcome::NotFound));
    assert_eq!(r.complaints.len(), 1);
    let r = validate(false, false, Some(1), &["1", "2"], false);
    assert_eq!((r.lines.len(), r.outcome), (1, Outcome::Found));
}

#[test]
fn lines_mode_counts_records() {
    let r = validate(false, true, None, &["{\"a\":1}\n\n{\"a\":2}\n", "1\nnope\n"], false);
    assert_eq!(r.lines, ["f0: valid (2 records)"]);
    assert!(r.complaints[0].starts_with("f1:2: "));
    assert_eq!(r.outcome, Outcome::NotFound);
}

#[test]
fn records_are_labelled_by_line() {
    let found = ndjson_records("f", "1\n  \n\n2\r\n3");
    let want = [("f:1", "1"), ("f:4", "2"), ("f:5", "3")];
    assert_eq!(found.len(), want.len());
    for ((label, text), (l, t)) in found.iter().zip(want) {
        assert_eq!((label.as_str(), *text), (l, t));
    }
}

#[test]
fn values_do_not_break_their_rows() {
    let items = inputs(&[r##"[{"a":"x\ty\nz","b":["\t"]},"s\tt"]"##]);
    let r = table::run(&table_args(".", "a,b"), &items).unwrap();
    assert_eq!(r.lines, ["x y z\t[\"\\t\"]", "s t\t-"]);
    assert!(r.lines.iter().all(|line| line.split('\t').count() == 2));
}

#[test]
fn leaves_are_written_in_the_order_of_their_paths() {
    let leaves = |items: &[(&str, &str)]| vec![items.iter().map(|(p, v)| (p.to_string(), v.to_string())).collect::<Vec<_>>()];
    let flatten_args = FlattenArgs {
        files: vec![],
        separator: ".".into(),
        max_depth: None,
        arrays: ArrayMode::Index,
        lines: false,
        limit: None,
    };
    let paths_args = PathsArgs {
        files: vec![],
        separator: ".".into(),
        max_depth: None,
        arrays: ArrayMode::Index,
        limit: None,
    };
    for documents in [leaves(&[("b", "1"), ("a", "2")]), leaves(&[("a", "2"), ("b", "1")])] {
        assert_eq!(flatten::run(&flatten_args, &documents).unwrap().lines, ["a\t2", "b\t1"]);
        assert_eq!(paths::run(&paths_args, &documents).unwrap().lines, ["a", "b"]);
    }
}

#[test]
fn the_order_of_fields_does_not_matter() {
    let items = inputs(&[r##"{"a":1,"b":2,"c":3}"##]);
    let a = select::run(&select_args("c,a,x=b"), &items).unwrap();
    let b = select::run(&select_args("x=b,c,a"), &items).unwrap();
    assert_eq!(a.lines, [r##"{"a":1,"c":3,"x":2}"##]);
    assert_eq!(a.lines, b.lines);
}
