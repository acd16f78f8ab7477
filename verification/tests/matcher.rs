use next_rs::pattern::{RoutePattern, Segment};

fn lit(text: &str) -> Segment {
    Segment::Literal(text.to_string())
}

fn cap(name: &str) -> Segment {
    Segment::Capture(name.to_string())
}

fn pattern(segments: Vec<Segment>) -> RoutePattern {
    RoutePattern { segments }
}

fn pairs(p: &RoutePattern, path: &str) -> Option<Vec<(String, String)>> {
    p.matches(path).map(|f| f.entries)
}

fn pair(name: &str, value: &str) -> (String, String) {
    (name.to_string(), value.to_string())
}

#[test]
fn capture_between_two_anchors() {
    let p = pattern(vec![lit("api/"), cap("id"), lit("/detail")]);
    let fields = p.matches("api/42/detail").expect("the pattern matches");
    assert_eq!(fields.len(), 1);
    assert_eq!(fields.get("id").map(|v| v.as_str()), Some("42"));
    assert!(p.matches("api/detail").is_none());
}

#[test]
fn leading_capture_must_not_be_empty() {
    let p = pattern(vec![cap("field"), lit("/detail")]);
    assert_eq!(pairs(&p, "42/detail"), Some(vec![pair("field", "42")]));
    assert_eq!(pairs(&p, "/detail"), None);
}

#[test]
fn final_capture_takes_the_rest_of_the_path() {
    let p = pattern(vec![lit("api/v1/check/"), cap("id")]);
    assert_eq!(pairs(&p, "api/v1/check/7"), Some(vec![pair("id", "7")]));
    assert_eq!(pairs(&p, "api/v1/check/"), None);
}

#[test]
fn capture_over_several_components_keeps_the_last() {
    let p = pattern(vec![lit("api/"), cap("id"), lit("/detail")]);
    assert_eq!(pairs(&p, "api/a/b/detail"), Some(vec![pair("id", "b")]));
    let q = pattern(vec![lit("files/"), cap("name")]);
    assert_eq!(pairs(&q, "files/2024/05/report"), Some(vec![pair("name", "report")]));
}

#[test]
fn capture_that_ends_in_a_separator_is_empty_after_trimming() {
    let p = pattern(vec![lit("api/"), cap("id"), lit("/detail")]);
    assert_eq!(pairs(&p, "api/a//detail"), None);
}

#[test]
fn missing_anchor_is_no_match() {
    let p = pattern(vec![lit("api/"), cap("id"), lit("/detail")]);
    assert_eq!(pairs(&p, "other/42/detail"), None);
    assert_eq!(pairs(&p, "api/42/x"), None);
    assert_eq!(pairs(&p, ""), None);
}

#[test]
fn anchor_is_looked_for_from_the_cursor_on() {
    let p = pattern(vec![lit("api/"), cap("id"), lit("/detail")]);
    // "/detail" stands at position 3, which is before the cursor
    assert_eq!(pairs(&p, "api/detail"), None);
    assert_eq!(pairs(&p, "api/detail/detail"), Some(vec![pair("id", "detail")]));
}

#[test]
fn two_captures_give_two_fields_in_order() {
    let p = pattern(vec![lit("u/"), cap("user"), lit("/p/"), cap("post")]);
    assert_eq!(
        pairs(&p, "u/ann/p/12"),
        Some(vec![pair("user", "ann"), pair("post", "12")])
    );
    assert_eq!(pairs(&p, "u/ann/p/"), None);
}

#[test]
fn embedded_capture_is_bounded_by_its_anchors() {
    let p = pattern(vec![lit("file-"), cap("id"), lit(".json")]);
    assert_eq!(pairs(&p, "file-9.json"), Some(vec![pair("id", "9")]));
    assert_eq!(pairs(&p, "file-.json"), None);
}

#[test]
fn pattern_without_captures_matches_with_no_fields() {
    let p = pattern(vec![lit("api/v1")]);
    assert_eq!(pairs(&p, "api/v1"), Some(vec![]));
    assert_eq!(pairs(&p, "api/v2"), None);
    let empty = pattern(vec![]);
    assert_eq!(pairs(&empty, "anything"), Some(vec![]));
}

#[test]
fn empty_literal_is_no_anchor() {
    let p = pattern(vec![lit(""), cap("field"), lit("/detail")]);
    assert_eq!(pairs(&p, "42/detail"), Some(vec![pair("field", "42")]));
    let q = pattern(vec![cap("a"), lit("")]);
    assert_eq!(pairs(&q, "x/y"), Some(vec![pair("a", "y")]));
}

#[test]
fn adjacent_captures_never_match() {
    let p = pattern(vec![cap("a"), cap("b")]);
    assert_eq!(pairs(&p, "xy"), None);
    assert_eq!(pairs(&p, ""), None);
}

#[test]
fn non_ascii_paths_are_matched_by_character() {
    let p = pattern(vec![lit("café/"), cap("id"), lit("/é")]);
    assert_eq!(pairs(&p, "café/ü1/é"), Some(vec![pair("id", "ü1")]));
}
