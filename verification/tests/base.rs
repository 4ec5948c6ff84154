use sak::clock::{seconds_or_error, seconds_or_zero, unix_time};
use sak::fields::FieldMap;
use sak::format::{format_value, write_compact, write_debug, write_pretty};
use sak::number::{parse_i64, parse_u32, parse_u64, parse_unsigned, write_i64, write_radix, write_u64};
use sak::order::{sort_texts, text_at_most, texts_at_most};
use sak::output::{
    answer_rows, collapse_newlines, collapse_ws, report_rows, BoundedWriter, Outcome,
};
use sak::path::{parse_steps, resolve_expression, unescape_pointer_token, Step};
use sak::text::{
    find_char, is_white, join, rfind_char, same_ignoring_case, split, split_lines, split_once, split_words, to_lower, trim,
    write_row,
};
use sak::value::{type_label, value_length, Json};

fn from_value(v: serde_json::Value) -> Json {
    match v {
        serde_json::Value::Null => Json::Null,
        serde_json::Value::Bool(b) => Json::Bool(b),
        serde_json::Value::Number(n) => match (n.as_u64(), n.as_i64()) {
            (Some(u), _) => Json::Unsigned(u),
            (None, Some(i)) => Json::Negative(i),
            (None, None) => Json::Float(n.to_string()),
        },
        serde_json::Value::String(s) => Json::Text(s),
        serde_json::Value::Array(items) => Json::Array(items.into_iter().map(from_value).collect()),
        serde_json::Value::Object(map) => {
            Json::Object(map.into_iter().map(|(k, v)| (k, from_value(v))).collect())
        }
    }
}

/// The value that a JSON text writes.
fn j(text: &str) -> Json {
    from_value(serde_json::from_str(text).unwrap())
}

fn texts(items: &[&str]) -> Vec<String> {
    items.iter().map(|s| s.to_string()).collect()
}

#[test]
fn white_space_is_the_standard_one() {
    for n in 0..=0x10ffffu32 {
        if let Some(c) = char::from_u32(n) {
            assert_eq!(is_white(c), c.is_whitespace(), "{n:x}");
        }
    }
}

#[test]
fn splitting_is_the_standard_one() {
    for s in ["", "a", ",", "a,b", ",a,,b,", "ä,ö", " a\tb  c\u{3000}d ", "x\r\ny\nz\r", "\n\n", "a\n"] {
        assert_eq!(split(s, ','), s.split(',').collect::<Vec<_>>(), "{s:?}");
        assert_eq!(split_words(s), s.split_whitespace().collect::<Vec<_>>(), "{s:?}");
        assert_eq!(split_lines(s), s.lines().collect::<Vec<_>>(), "{s:?}");
        assert_eq!(split_once(s, ','), s.split_once(','), "{s:?}");
        assert_eq!(trim(s), s.trim(), "{s:?}");
    }
}

#[test]
fn searching_counts_characters() {
    assert_eq!(find_char("äöü(x)", '('), Some(3));
    assert_eq!(rfind_char("äöü(x))", ')'), Some(6));
    assert_eq!(find_char("abc", 'z'), None);
    assert_eq!(rfind_char("", 'z'), None);
}

#[test]
fn case_folding_is_ascii_only() {
    assert_eq!(to_lower("PodÄ"), "podÄ");
    assert!(same_ignoring_case("LISTEN", "listen"));
    assert!(!same_ignoring_case("Ä", "ä"));
}

#[test]
fn numbers_are_read_as_the_standard_library_reads_them() {
    for s in [
        "", "0", "7", "007", "+5", "-5", "-", "+", "++5", "1 ", "18446744073709551615", "18446744073709551616",
        "9223372036854775807", "9223372036854775808", "-9223372036854775808", "-9223372036854775809", "4294967296", "x1",
    ] {
        assert_eq!(parse_u64(s), s.parse().ok(), "{s:?}");
        assert_eq!(parse_u32(s), s.parse().ok(), "{s:?}");
        assert_eq!(parse_i64(s), s.parse().ok(), "{s:?}");
    }
    for s in ["", "0", "fF", "+a", "100", "g", "-1"] {
        assert_eq!(
            parse_unsigned(s, 16, 255),
            u8::from_str_radix(s, 16).ok().map(u64::from),
            "{s:?}"
        );
    }
}

#[test]
fn numbers_are_written_and_read_back() {
    for n in [0, 1, 9, 10, 99, 12345, u64::MAX] {
        assert_eq!(write_u64(n), n.to_string());
        assert_eq!(parse_u64(&write_u64(n)), Some(n));
    }
    for n in [0, -1, i64::MIN, i64::MAX] {
        assert_eq!(write_i64(n), n.to_string());
        assert_eq!(parse_i64(&write_i64(n)), Some(n));
    }
    assert_eq!(write_radix(0xbeef, 16), "beef");
}

#[test]
fn texts_are_ordered_as_the_standard_library_orders_them() {
    let samples = ["", "a", "ab", "b", "ä", "z", "\u{10000}", "\u{ffff}"];
    for x in samples {
        for y in samples {
            assert_eq!(text_at_most(x, y), x <= y, "{x:?} {y:?}");
            assert_eq!(texts_at_most(&vec![x, y], &vec![y, x]), (x, y) <= (y, x));
        }
    }
    assert!(texts_at_most(&vec!["a"], &vec!["a", "b"]));
    assert!(!texts_at_most(&vec!["a", "b"], &vec!["a"]));
}

#[test]
fn sorting_does_not_depend_on_the_order_of_the_input() {
    let want = texts(&["a", "a", "b", "c"]);
    assert_eq!(sort_texts(texts(&["c", "a", "b", "a"])), want);
    assert_eq!(sort_texts(texts(&["a", "b", "a", "c"])), want);
    assert!(sort_texts(Vec::new()).is_empty());
}

#[test]
fn limit_counts_rows_and_not_headers() {
    let mut writer = BoundedWriter::new(Some(2));
    writer.write_decoration("# A".to_string());
    assert!(writer.write_line("1".to_string()));
    writer.write_decoration("# B".to_string());
    assert!(writer.write_line("2".to_string()));
    assert!(!writer.write_line("3".to_string()));
    writer.write_rows(texts(&["4", "5"]));
    assert_eq!(writer.lines, ["# A", "1", "# B", "2"]);
}

#[test]
fn rows_written_in_lots_come_out_as_one() {
    for limit in [None, Some(0), Some(1), Some(3), Some(9)] {
        let mut lots = BoundedWriter::new(limit);
        lots.write_rows(texts(&["1", "2"]));
        lots.write_rows(texts(&["3", "4"]));
        let mut once = BoundedWriter::new(limit);
        once.write_rows(texts(&["1", "2", "3", "4"]));
        assert_eq!(lots.lines, once.lines);
        assert_eq!(lots.left, once.left);
    }
}

#[test]
fn outcome_depends_on_rows_or_on_lines() {
    let none = report_rows(texts(&["1"]), Some(0));
    assert_eq!((none.lines.len(), none.outcome), (0, Outcome::NotFound));
    let some = answer_rows(texts(&["1"]), Some(0));
    assert_eq!((some.lines.len(), some.outcome), (0, Outcome::Found));
    assert_eq!(answer_rows(Vec::new(), None).outcome, Outcome::NotFound);
    assert_eq!(report_rows(texts(&["1", "2"]), Some(1)).lines, ["1"]);
}

#[test]
fn collapsed_texts_keep_their_length() {
    assert_eq!(collapse_ws("a\tb\r\nc"), "a b  c");
    assert_eq!(collapse_newlines("a\tb\r\nc"), "a\tb  c");
    assert_eq!(collapse_ws(&collapse_ws("a\tb")), collapse_ws("a\tb"));
}

#[test]
fn rows_split_back_into_their_fields() {
    let fields = vec!["a", "", "b c"];
    let row = write_row(&fields);
    assert_eq!(row, "a\t\tb c");
    assert_eq!(split(&row, '\t'), fields);
    assert_eq!(join(&vec!["x", "y"], ", "), "x, y");
    assert_eq!(join(&Vec::new(), ", "), "");
}

#[test]
fn json_text_is_that_of_serde() {
    for text in [
        "null", "true", "false", "0", "-7", "18446744073709551615", "-9223372036854775808", "1.5", "1e300", "[]", "{}", "[[],{}]",
        r##"{"b":[1,{"a":null}],"a":"q\"\\\b\f\n\r\t\u0001\u001f\u007fä/"}"##,
    ] {
        let value: serde_json::Value = serde_json::from_str(text).unwrap();
        let mine = j(text);
        assert_eq!(write_compact(&mine), serde_json::to_string(&value).unwrap());
        assert_eq!(write_pretty(&mine, ""), serde_json::to_string_pretty(&value).unwrap());
        assert_eq!(write_debug(&mine), format!("{value:?}"));
        assert_eq!(mine.copy(), mine);
        assert!(!write_compact(&mine).contains('\n'));
    }
}

#[test]
fn raw_format_leaves_a_text_as_it_is() {
    let text = j(r##""a\"b""##);
    assert_eq!(format_value(&text, true, false), "a\"b");
    assert_eq!(format_value(&text, false, false), r##""a\"b""##);
    assert_eq!(format_value(&j("[1]"), true, true), "[\n  1\n]");
    assert_eq!(format_value(&j("[1]"), true, false), "[1]");
}

#[test]
fn types_and_lengths_of_values() {
    let cases = [
        ("null", "null", None),
        ("true", "boolean", None),
        ("1", "number", None),
        ("1.5", "number", None),
        (r##""hé""##, "string", Some(2)),
        ("[1,2]", "array", Some(2)),
        (r##"{"a":1}"##, "object", Some(1)),
    ];
    for (text, kind, length) in cases {
        assert_eq!(type_label(&j(text)), kind);
        assert_eq!(value_length(&j(text)), length);
    }
}

#[test]
fn numbers_of_values_keep_to_their_ranges() {
    assert_eq!(j("9223372036854775808").as_i64(), None);
    assert_eq!(j("9223372036854775808").as_u64(), Some(1 << 63));
    assert_eq!(j("-1").as_u64(), None);
    assert_eq!(j("-1").as_i64(), Some(-1));
    assert_eq!(j("1.5").as_i64(), None);
}

#[test]
fn paths_lead_into_values() {
    let v = j(r##"{"users":[{"name":"a"},{"name":"b"}],"x.y":1,"t/u":2,"m~n":3,"0":4}"##);
    let at = |expr: &str| resolve_expression(&v, expr).unwrap().map(write_compact);
    assert_eq!(at(".users[1].name").as_deref(), Some("\"b\""));
    assert_eq!(at("users[0].name").as_deref(), Some("\"a\""));
    assert_eq!(at("/users/1/name").as_deref(), Some("\"b\""));
    assert_eq!(at(".\"x.y\"").as_deref(), Some("1"));
    assert_eq!(at("/t~1u").as_deref(), Some("2"));
    assert_eq!(at("/m~0n").as_deref(), Some("3"));
    assert_eq!(at("/0").as_deref(), Some("4"));
    assert_eq!(at(".users[2]"), None);
    assert_eq!(at("/users/01"), None);
    assert_eq!(at("/users/+1"), None);
    assert_eq!(at(".users.name"), None);
    assert_eq!(at(".missing"), None);
    assert_eq!(at(""), Some(write_compact(&v)));
    assert_eq!(at("."), Some(write_compact(&v)));
}

#[test]
fn malformed_paths_are_refused() {
    let v = j("{}");
    for expr in [".a..b", ".a[", ".a[x]", ".a]b[0", ".\"a", "a.", ".a[0]b", "..", ".a[99999999999999999999]"] {
        let e = resolve_expression(&v, expr).unwrap_err();
        assert_eq!(e.message, format!("invalid path expression '{expr}'"));
    }
}

#[test]
fn steps_of_paths() {
    assert_eq!(
        parse_steps(".a[3].\"b.c\""),
        Some(vec![Step::Key("a".into()), Step::Index(3), Step::Key("b.c".into())])
    );
    assert_eq!(
        parse_steps("/a/~01/"),
        Some(vec![Step::Token("a".into()), Step::Token("~1".into()), Step::Token("".into())])
    );
    assert_eq!(parse_steps(".[0]"), Some(vec![Step::Index(0)]));
}

#[test]
fn pointer_tokens_are_unescaped_in_order() {
    assert_eq!(unescape_pointer_token("~01"), "~1");
    assert_eq!(unescape_pointer_token("a~1b~0c~2"), "a/b~c~2");
}

#[test]
fn field_maps_keep_their_keys_in_order() {
    let mut map: FieldMap<String> = FieldMap::new();
    for (k, v) in [("b", "1"), ("a", "2"), ("c", "3"), ("b", "4")] {
        map.insert(k.to_string(), v.to_string());
    }
    let keys: Vec<&str> = map.entries.iter().map(|(k, _)| k.as_str()).collect();
    assert_eq!(keys, ["a", "b", "c"]);
    assert_eq!(map.get("b").map(String::as_str), Some("4"));
    assert!(map.get("d").is_none());
}

#[test]
fn a_clock_before_the_epoch_is_zero_or_an_error() {
    let early = Err("too early".to_string());
    assert_eq!(seconds_or_zero(&Ok(7)), 7);
    assert_eq!(seconds_or_zero(&early), 0);
    assert_eq!(unix_time(&Ok(7)), 7);
    assert_eq!(unix_time(&Ok(u64::MAX)), -1);
    assert_eq!(unix_time(&early), 0);
    assert_eq!(seconds_or_error(&Ok(7)).unwrap(), 7);
    assert_eq!(
        seconds_or_error(&early).unwrap_err().message,
        "system clock is before the unix epoch: too early"
    );
}
