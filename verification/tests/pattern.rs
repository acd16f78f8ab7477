use next_rs::pattern::{name_char, name_char_given, ConventionViolation, RoutePattern, Segment};

fn lit(text: &str) -> Segment {
    Segment::Literal(text.to_string())
}

fn cap(name: &str) -> Segment {
    Segment::Capture(name.to_string())
}

fn compiled(route: &str) -> Vec<Segment> {
    RoutePattern::compile(route).expect("the route compiles").segments
}

#[test]
fn literal_route_compiles_to_one_literal() {
    assert_eq!(compiled("api/v1"), vec![lit("api/v1")]);
}

#[test]
fn empty_route_compiles_to_the_empty_pattern() {
    assert_eq!(compiled(""), vec![]);
}

#[test]
fn dynamic_segment_compiles_to_a_capture_between_anchors() {
    assert_eq!(
        compiled("api/v1/__id/detail"),
        vec![lit("api/v1/"), cap("id"), lit("/detail")]
    );
}

#[test]
fn leading_and_trailing_captures() {
    assert_eq!(compiled("__field/detail"), vec![cap("field"), lit("/detail")]);
    assert_eq!(compiled("api/v1/check/__id"), vec![lit("api/v1/check/"), cap("id")]);
    assert_eq!(compiled("__only"), vec![cap("only")]);
}

#[test]
fn marker_embedded_in_a_segment() {
    assert_eq!(
        compiled("files/v__id.json"),
        vec![lit("files/v"), cap("id"), lit(".json")]
    );
}

#[test]
fn capture_name_is_the_longest_run_of_name_characters() {
    assert_eq!(compiled("a___b"), vec![lit("a"), cap("_b")]);
    assert_eq!(compiled("__my-id_2/x"), vec![cap("my-id_2"), lit("/x")]);
    assert_eq!(compiled("__Id9.txt"), vec![cap("Id9"), lit(".txt")]);
}

#[test]
fn marker_without_a_name_is_literal_text() {
    assert_eq!(compiled("a__"), vec![lit("a__")]);
    assert_eq!(compiled("__/x"), vec![lit("__/x")]);
    assert_eq!(compiled("a_b"), vec![lit("a_b")]);
    assert_eq!(compiled("__.x"), vec![lit("__.x")]);
}

#[test]
fn word_characters_beyond_ascii_stand_in_capture_names() {
    assert_eq!(compiled("__é"), vec![cap("é")]);
    assert_eq!(compiled("api/__名前/x"), vec![lit("api/"), cap("名前"), lit("/x")]);
    assert_eq!(compiled("__id١٢"), vec![cap("id١٢")]);
}

#[test]
fn other_characters_beyond_ascii_end_a_capture_name() {
    assert_eq!(compiled("__€"), vec![lit("__€")]);
    assert_eq!(compiled("__a€b"), vec![cap("a"), lit("€b")]);
    assert_eq!(compiled("__a\u{a0}b"), vec![cap("a"), lit("\u{a0}b")]);
    assert_eq!(compiled("__x—y"), vec![cap("x"), lit("—y")]);
}

#[test]
fn name_characters() {
    for c in ['a', 'z', 'A', 'Z', '0', '9', '_', '-', 'é', 'ß', '中'] {
        assert!(name_char(c), "{c} is a name character");
    }
    for c in ['/', '.', ' ', '?', '=', '~', '\u{7f}', '€', '—', '\u{a0}'] {
        assert!(!name_char(c), "{c} is no name character");
    }
    assert!(name_char_given('é', true));
    assert!(!name_char_given('é', false));
    assert!(name_char_given('a', false));
    assert!(!name_char_given('/', true));
}

#[test]
fn several_captures() {
    assert_eq!(
        compiled("u/__user/p/__post"),
        vec![lit("u/"), cap("user"), lit("/p/"), cap("post")]
    );
}

#[test]
fn route_with_a_repeated_capture_name_is_refused() {
    assert_eq!(
        RoutePattern::compile("a/__id/b/__id"),
        Err(ConventionViolation::DuplicateCapture)
    );
}

#[test]
fn new_accepts_valid_segments() {
    let p = RoutePattern::new(vec![lit("api/"), cap("id"), lit("/detail")]).unwrap();
    assert_eq!(p.segments, vec![lit("api/"), cap("id"), lit("/detail")]);
    assert!(p.check().is_none());
    assert!(RoutePattern::new(vec![]).is_ok());
    assert!(RoutePattern::new(vec![cap("a"), lit("")]).is_ok());
    assert!(RoutePattern::new(vec![lit(""), cap("a")]).is_ok());
}

#[test]
fn new_refuses_an_empty_capture_name() {
    assert_eq!(
        RoutePattern::new(vec![lit("a/"), cap("")]),
        Err(ConventionViolation::EmptyCapture)
    );
}

#[test]
fn new_refuses_a_repeated_capture_name() {
    assert_eq!(
        RoutePattern::new(vec![cap("id"), lit("/"), cap("id")]),
        Err(ConventionViolation::DuplicateCapture)
    );
}

#[test]
fn new_refuses_a_capture_without_anchor_before_another() {
    assert_eq!(
        RoutePattern::new(vec![cap("a"), cap("b")]),
        Err(ConventionViolation::UnresolvableAnchor)
    );
    assert_eq!(
        RoutePattern::new(vec![cap("a"), lit(""), lit("/"), cap("b")]),
        Err(ConventionViolation::UnresolvableAnchor)
    );
}

#[test]
fn empty_name_is_reported_before_a_repeated_one() {
    assert_eq!(
        RoutePattern::new(vec![cap("a"), lit("/"), cap("a"), lit("/"), cap("")]),
        Err(ConventionViolation::EmptyCapture)
    );
}

#[test]
fn is_dynamic_tells_captures() {
    assert!(!RoutePattern { segments: vec![lit("a")] }.is_dynamic());
    assert!(!RoutePattern { segments: vec![] }.is_dynamic());
    assert!(RoutePattern { segments: vec![lit("a"), cap("b")] }.is_dynamic());
}

#[test]
fn literal_chars_joins_the_literals() {
    let p = RoutePattern { segments: vec![lit("a/"), cap("x"), lit("/b")] };
    assert_eq!(p.literal_chars().into_iter().collect::<String>(), "a//b");
}
