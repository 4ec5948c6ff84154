use sak::loki::range::build_range_path;

#[test]
fn build_path_encodes_query_and_renders_ns() {
    let path = build_range_path("{app=\"api\"}", 1_000, 4_600, 60);
    assert_eq!(
        path,
        "/loki/api/v1/query_range?query=%7Bapp%3D%22api%22%7D\
         &start=1000000000000&end=4600000000000&step=60"
    );
}

#[test]
fn build_path_simple_query() {
    let path = build_range_path("{app=\"api\"}", 100, 200, 15);
    assert_eq!(
        path,
        "/loki/api/v1/query_range?query=%7Bapp%3D%22api%22%7D\
         &start=100000000000&end=200000000000&step=15"
    );
}
