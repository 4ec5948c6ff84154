use sak::json::hook::jq_has_filter;

fn a(parts: &[&str]) -> Vec<String> {
    parts.iter().map(|s| s.to_string()).collect()
}

#[test]
fn jq_guard_fires_on_any_filter() {
    // File reads still fire.
    assert!(jq_has_filter(&a(&[".name", "pkg.json"])));
    assert!(jq_has_filter(&a(&["-r", ".name", "pkg.json"])));
    // Filter-only (stdin) invocations now fire too — sak reads stdin via `-`.
    assert!(jq_has_filter(&a(&["."])));
    assert!(jq_has_filter(&a(&["-r", "."])));
    // A bare `jq` (no filter) has nothing to redirect.
    assert!(!jq_has_filter(&a(&[])));
    assert!(!jq_has_filter(&a(&["-r"])));
}
