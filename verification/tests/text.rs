use next_rs::fields::FieldMap;
use next_rs::mime::{to_lower, MimeType};
use next_rs::text::{
    final_component, find_from, from_first, from_last, has_char, matches_at, same_chars, same_text,
    slice_of, split_at_char, strip_query, to_chars, to_text, trim_separators, until_first,
};

fn chars(s: &str) -> Vec<char> {
    s.chars().collect()
}

fn text(v: Vec<char>) -> String {
    v.into_iter().collect()
}

#[test]
fn strings_and_characters_convert_both_ways() {
    assert_eq!(to_chars("aé/"), vec!['a', 'é', '/']);
    assert_eq!(to_chars(""), Vec::<char>::new());
    assert_eq!(to_text(&['h', 'ï']), "hï");
    assert_eq!(to_text(&to_chars("round trip")), "round trip");
}

#[test]
fn equality_of_texts() {
    assert!(same_text("abc", "abc"));
    assert!(!same_text("abc", "abd"));
    assert!(!same_text("abc", "ab"));
    assert!(same_text("", ""));
    assert!(same_chars(&chars("x"), &chars("x")));
    assert!(!same_chars(&chars("x"), &chars("")));
}

#[test]
fn find_from_gives_the_first_position_at_or_after_the_start() {
    let hay = chars("abcabcabc");
    assert_eq!(find_from(&hay, &chars("bc"), 0), Some(1));
    assert_eq!(find_from(&hay, &chars("bc"), 1), Some(1));
    assert_eq!(find_from(&hay, &chars("bc"), 2), Some(4));
    assert_eq!(find_from(&hay, &chars("bc"), 8), None);
    assert_eq!(find_from(&hay, &chars("x"), 0), None);
    assert_eq!(find_from(&hay, &chars("abcabcabcd"), 0), None);
    assert_eq!(find_from(&hay, &chars(""), 3), Some(3));
    assert_eq!(find_from(&hay, &chars(""), 9), Some(9));
    assert_eq!(find_from(&hay, &chars(""), 10), None);
    assert_eq!(find_from(&hay, &chars("a"), 100), None);
}

#[test]
fn matches_at_compares_in_place() {
    let hay = chars("hello");
    assert!(matches_at(&hay, &chars("ell"), 1));
    assert!(!matches_at(&hay, &chars("ell"), 0));
    assert!(!matches_at(&hay, &chars("lo!"), 3));
    assert!(matches_at(&hay, &chars(""), 5));
    assert!(!matches_at(&hay, &chars(""), 6));
}

#[test]
fn trimming_removes_only_boundary_separators() {
    assert_eq!(text(trim_separators(&chars("//a/b//"))), "a/b");
    assert_eq!(text(trim_separators(&chars("a"))), "a");
    assert_eq!(text(trim_separators(&chars("///"))), "");
    assert_eq!(text(trim_separators(&chars(""))), "");
}

#[test]
fn cutting_at_characters() {
    assert_eq!(text(strip_query(&chars("a/b?c?d"))), "a/b");
    assert_eq!(text(strip_query(&chars("a/b"))), "a/b");
    assert_eq!(text(until_first(&chars("k=v=w"), '=')), "k");
    assert_eq!(text(from_first(&chars("k=v=w"), '=')), "v=w");
    assert_eq!(text(from_first(&chars("kv"), '=')), "");
    assert_eq!(text(from_last(&chars("a.b.c"), '.')), "c");
    assert_eq!(text(from_last(&chars("abc"), '.')), "abc");
    assert_eq!(text(final_component(&chars("x/y/z"))), "z");
    assert_eq!(text(final_component(&chars("x/y/"))), "");
    assert!(has_char(&chars("a?b"), '?'));
    assert!(!has_char(&chars("ab"), '?'));
    assert_eq!(text(slice_of(&chars("abcdef"), 2, 4)), "cd");
}

#[test]
fn split_keeps_empty_pieces() {
    let pieces = |s: &str| -> Vec<String> {
        split_at_char(&chars(s), '&').into_iter().map(text).collect()
    };
    assert_eq!(pieces("a&b&c"), vec!["a", "b", "c"]);
    assert_eq!(pieces(""), vec![""]);
    assert_eq!(pieces("&"), vec!["", ""]);
    assert_eq!(pieces("a&&b&"), vec!["a", "", "b", ""]);
    assert_eq!(pieces("abc"), vec!["abc"]);
}

#[test]
fn field_map_replaces_in_place_and_adds_at_the_end() {
    let mut m = FieldMap::new();
    assert_eq!(m.len(), 0);
    assert_eq!(m.get("a"), None);
    m.insert("a".to_string(), "1".to_string());
    m.insert("b".to_string(), "2".to_string());
    m.insert("a".to_string(), "3".to_string());
    assert_eq!(m.len(), 2);
    assert_eq!(m.get("a").map(|v| v.as_str()), Some("3"));
    assert_eq!(m.get("b").map(|v| v.as_str()), Some("2"));
    assert_eq!(m.get("c"), None);
    assert_eq!(m.position("b"), Some(1));
    assert_eq!(m.position("z"), None);
    assert_eq!(
        m.entries,
        vec![("a".to_string(), "3".to_string()), ("b".to_string(), "2".to_string())]
    );
}

#[test]
fn field_map_get_reads_the_first_entry_of_a_name() {
    let m = FieldMap {
        entries: vec![("k".to_string(), "first".to_string()), ("k".to_string(), "second".to_string())],
    };
    assert_eq!(m.get("k").map(|v| v.as_str()), Some("first"));
}

#[test]
fn mime_types_by_extension() {
    assert_eq!(MimeType::from("html"), Some(MimeType::Html));
    assert_eq!(MimeType::from("htm"), Some(MimeType::Html));
    assert_eq!(MimeType::from("HTML"), Some(MimeType::Html));
    assert_eq!(MimeType::from("JpEg"), Some(MimeType::Jpeg));
    assert_eq!(MimeType::from("jpg"), Some(MimeType::Jpeg));
    assert_eq!(MimeType::from("js"), Some(MimeType::JavaScript));
    assert_eq!(MimeType::from("mjs"), Some(MimeType::JavaScript));
    assert_eq!(MimeType::from("woff2"), Some(MimeType::Woff2));
    assert_eq!(MimeType::from("rs"), None);
    assert_eq!(MimeType::from(""), None);
    assert_eq!(MimeType::from("htmlx"), None);
}

#[test]
fn content_type_strings() {
    let table = [
        ("html", "text/html"),
        ("css", "text/css"),
        ("js", "text/javascript"),
        ("json", "application/json"),
        ("txt", "text/plain"),
        ("xml", "application/xml"),
        ("csv", "text/csv"),
        ("png", "image/png"),
        ("jpeg", "image/jpeg"),
        ("gif", "image/gif"),
        ("svg", "image/svg+xml"),
        ("ico", "image/x-icon"),
        ("webp", "image/webp"),
        ("pdf", "application/pdf"),
        ("wasm", "application/wasm"),
        ("woff", "font/woff"),
        ("woff2", "font/woff2"),
        ("ttf", "font/ttf"),
        ("mp3", "audio/mpeg"),
        ("mp4", "video/mp4"),
        ("zip", "application/zip"),
    ];
    for (ext, expected) in table {
        assert_eq!(MimeType::from(ext).map(|m| m.get()), Some(expected));
    }
}

#[test]
fn lowering_touches_only_ascii_upper_case() {
    assert_eq!(text(to_lower(&chars("AbC-É9z"))), "abc-É9z");
    assert_eq!(text(to_lower(&chars("@[`{AZ"))), "@[`{az");
}
