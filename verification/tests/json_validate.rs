use sak::json::validate::{validate_lines, validate_one};

#[test]
fn validate_one_reports_position() {
    let err = validate_one("x.json", "{\n  bad").unwrap_err();
    assert!(err.starts_with("x.json:"));
}

#[test]
fn validate_lines_counts_records_and_skips_blanks() {
    let (total, errs) = validate_lines("f.ndjson", "{\"a\":1}\n\n{\"b\":2}\n   \n{\"c\":3}\n");
    assert_eq!(total, 3);
    assert!(errs.is_empty());
}

#[test]
fn validate_lines_reports_bad_records_with_lineno() {
    let (total, errs) = validate_lines("f.ndjson", "{\"a\":1}\nnot json\n{\"b\":2}\n");
    assert_eq!(total, 3);
    assert_eq!(errs.len(), 1);
    assert!(errs[0].starts_with("f.ndjson:2:"));
}
