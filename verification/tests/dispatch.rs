use next_rs::dispatch::{clean, Outcome, RouteTable};
use next_rs::pattern::{RoutePattern, Segment};
use next_rs::table::{sort, RouteEntry, Target};
use next_rs::tree::{Route, Snapshot};

const MARKED: &[u8] = b"use x;\npub async fn handler(req: Request) -> Response { respond(req) }\n";

fn file(path: &str, content: &[u8]) -> Snapshot {
    Snapshot::File { path: path.to_string(), content: content.to_vec() }
}

fn dir(path: &str, entries: Vec<Snapshot>) -> Snapshot {
    Snapshot::Directory { path: path.to_string(), entries }
}

fn sample_tree() -> Snapshot {
    dir(
        "./src/routes",
        vec![
            file("./src/routes/index.html", b"<html></html>"),
            dir(
                "./src/routes/api",
                vec![dir(
                    "./src/routes/api/v1",
                    vec![
                        dir(
                            "./src/routes/api/v1/__id",
                            vec![file("./src/routes/api/v1/__id/detail.rs", MARKED)],
                        ),
                        file("./src/routes/api/v1/mod.rs", MARKED),
                    ],
                )],
            ),
        ],
    )
}

fn handler_entry(route: &str, module: &str) -> RouteEntry {
    RouteEntry {
        pattern: RoutePattern::compile(route).unwrap(),
        target: Target::Handler { module: module.to_string() },
    }
}

fn module_of(table: &RouteTable, raw: &str) -> Option<String> {
    match table.dispatch(raw) {
        Outcome::Found { index, .. } => match &table.entries()[index].target {
            Target::Handler { module } => Some(module.clone()),
            Target::Asset { .. } => Some("asset".to_string()),
        },
        Outcome::NotFound => None,
    }
}

#[test]
fn static_index_versioned_and_detail_routes_resolve() {
    let snapshot = sample_tree();
    let table = RouteTable::from_snapshot(Some(&snapshot)).unwrap();
    assert_eq!(table.len(), 3);

    assert_eq!(module_of(&table, "/"), Some("asset".to_string()));
    assert_eq!(module_of(&table, "/api/v1/"), Some("routes::api::v1::r#mod".to_string()));
    match table.dispatch("/api/v1/77/detail") {
        Outcome::Found { index, fields } => {
            assert_eq!(
                table.entries()[index].target,
                Target::Handler { module: "routes::api::v1::__id::detail".to_string() }
            );
            assert_eq!(fields.entries, vec![("id".to_string(), "77".to_string())]);
        }
        Outcome::NotFound => panic!("the detail route is not found"),
    }
    assert_eq!(table.dispatch("/api/v1/77/x"), Outcome::NotFound);
}

#[test]
fn root_index_handler_and_nested_routes_resolve() {
    let snapshot = dir(
        "routes",
        vec![
            file("routes/mod.rs", MARKED),
            dir(
                "routes/api",
                vec![dir(
                    "routes/api/v1",
                    vec![
                        file("routes/api/v1/mod.rs", MARKED),
                        dir("routes/api/v1/__id", vec![file("routes/api/v1/__id/detail.rs", MARKED)]),
                    ],
                )],
            ),
        ],
    );
    let table = RouteTable::from_snapshot(Some(&snapshot)).unwrap();
    assert_eq!(module_of(&table, "/"), Some("routes::r#mod".to_string()));
    assert_eq!(module_of(&table, "/api/v1/"), Some("routes::api::v1::r#mod".to_string()));
    assert_eq!(
        module_of(&table, "/api/v1/77/detail"),
        Some("routes::api::v1::__id::detail".to_string())
    );
    match table.dispatch("/api/v1/77/detail") {
        Outcome::Found { fields, .. } => {
            assert_eq!(fields.get("id").map(|v| v.as_str()), Some("77"));
            assert_eq!(fields.len(), 1);
        }
        Outcome::NotFound => panic!("the detail route is not found"),
    }
    assert_eq!(module_of(&table, "/api/v1/77/x"), None);
}

#[test]
fn literal_route_wins_over_a_matching_capture_route() {
    let table = RouteTable::new(vec![
        handler_entry("api/v1/check/__id", "dynamic"),
        handler_entry("api/v1/check/this", "literal"),
    ]);
    assert_eq!(module_of(&table, "api/v1/check/this"), Some("literal".to_string()));
    assert_eq!(module_of(&table, "/api/v1/check/this/"), Some("literal".to_string()));
    assert_eq!(module_of(&table, "api/v1/check/that"), Some("dynamic".to_string()));
    match table.dispatch("api/v1/check/this") {
        Outcome::Found { index, fields } => {
            assert_eq!(index, 0);
            assert_eq!(fields.len(), 0);
        }
        Outcome::NotFound => panic!("the literal route is not found"),
    }
}

#[test]
fn first_matching_capture_route_wins() {
    let table = RouteTable::new(vec![
        handler_entry("a/__x", "first"),
        handler_entry("a/__y", "second"),
    ]);
    match table.dispatch("a/1") {
        Outcome::Found { index, fields } => {
            assert_eq!(index, 0);
            assert_eq!(fields.entries, vec![("x".to_string(), "1".to_string())]);
        }
        Outcome::NotFound => panic!("no route is found"),
    }
}

#[test]
fn first_of_two_equal_literal_routes_wins() {
    let table = RouteTable::new(vec![handler_entry("a", "first"), handler_entry("a", "second")]);
    assert_eq!(module_of(&table, "a"), Some("first".to_string()));
}

#[test]
fn query_is_cut_at_the_first_question_mark() {
    let table = RouteTable::new(vec![handler_entry("api/items", "items")]);
    assert_eq!(module_of(&table, "/api/items?page=2"), Some("items".to_string()));
    assert_eq!(module_of(&table, "/api/items/?a=1?b=2"), Some("items".to_string()));
    assert_eq!(module_of(&table, "/api/item?s"), None);
}

#[test]
fn path_with_a_question_mark_in_a_literal_route_is_not_reached_verbatim() {
    let table = RouteTable::new(vec![handler_entry("a?b", "odd"), handler_entry("a", "plain")]);
    assert_eq!(module_of(&table, "a?b"), Some("plain".to_string()));
}

#[test]
fn clean_cuts_the_query_and_trims_separators() {
    let text = |raw: &str| clean(raw).into_iter().collect::<String>();
    assert_eq!(text("/api/v1/"), "api/v1");
    assert_eq!(text("///a//b///?x=/"), "a//b");
    assert_eq!(text("/"), "");
    assert_eq!(text(""), "");
    assert_eq!(text("?a"), "");
    assert_eq!(text("a/b"), "a/b");
}

#[test]
fn empty_table_finds_nothing() {
    let table = RouteTable::new(vec![]);
    assert_eq!(table.len(), 0);
    assert_eq!(table.dispatch("/"), Outcome::NotFound);
}

#[test]
fn sort_moves_literal_entries_ahead_and_keeps_order() {
    let sorted = sort(vec![
        handler_entry("a/__x", "d1"),
        handler_entry("b", "l1"),
        handler_entry("c/__y", "d2"),
        handler_entry("", "l2"),
        handler_entry("e", "l3"),
    ]);
    let modules: Vec<String> = sorted
        .iter()
        .map(|e| match &e.target {
            Target::Handler { module } => module.clone(),
            Target::Asset { .. } => String::new(),
        })
        .collect();
    assert_eq!(modules, vec!["l1", "l2", "l3", "d1", "d2"]);
}

#[test]
fn sort_twice_is_sort_once() {
    let entries = || {
        vec![
            handler_entry("a/__x", "d1"),
            handler_entry("b", "l1"),
            handler_entry("c/__y", "d2"),
        ]
    };
    assert_eq!(sort(sort(entries())), sort(entries()));
}

#[test]
fn rebuilding_from_the_same_snapshot_gives_the_same_table() {
    let snapshot = sample_tree();
    let first = RouteTable::from_snapshot(Some(&snapshot)).unwrap();
    let second = RouteTable::from_snapshot(Some(&sample_tree())).unwrap();
    assert_eq!(first, second);
    assert_eq!(first.entries(), second.entries());
    assert_eq!(Route::base(Some(&snapshot)).unwrap().get_handlers(), *first.entries());
}

#[test]
fn repeated_dispatch_gives_the_same_results() {
    let snapshot = sample_tree();
    let table = RouteTable::from_snapshot(Some(&snapshot)).unwrap();
    let paths = ["/", "/api/v1/", "/api/v1/77/detail", "/api/v1/77/x", "/api/v1/a/b/detail?q=1"];
    let expected: Vec<Outcome> = paths.iter().map(|p| table.dispatch(p)).collect();
    for round in 0..1000 {
        let k = round % paths.len();
        assert_eq!(table.dispatch(paths[k]), expected[k]);
    }
}

#[test]
fn a_pattern_of_segments_can_be_put_in_a_table_directly() {
    let pattern = RoutePattern {
        segments: vec![
            Segment::Literal("api/".to_string()),
            Segment::Capture("id".to_string()),
            Segment::Literal("/detail".to_string()),
        ],
    };
    let table = RouteTable::new(vec![RouteEntry {
        pattern,
        target: Target::Handler { module: "m".to_string() },
    }]);
    match table.dispatch("/api/42/detail?x") {
        Outcome::Found { index, fields } => {
            assert_eq!(index, 0);
            assert_eq!(fields.get("id").map(|v| v.as_str()), Some("42"));
        }
        Outcome::NotFound => panic!("no route is found"),
    }
}
