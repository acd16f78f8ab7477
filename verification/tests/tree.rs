use next_rs::trail::{clean_name, Trail};
use next_rs::dispatch::RouteTable;
use next_rs::handle::{handle, Action};
use next_rs::request::{ReqMethod, Request, Response};
use next_rs::mime::MimeType;
use next_rs::pattern::{ConventionViolation, RoutePattern, Segment};
use next_rs::table::{RouteEntry, Target};
use next_rs::tree::{contains_marker, ConfigError, Kind, Route, Snapshot};

const MARKED: &[u8] = b"pub async fn handler(req: Request) {}";

fn file(path: &str, content: &[u8]) -> Snapshot {
    Snapshot::File { path: path.to_string(), content: content.to_vec() }
}

fn dir(path: &str, entries: Vec<Snapshot>) -> Snapshot {
    Snapshot::Directory { path: path.to_string(), entries }
}

fn text(chars: Vec<char>) -> String {
    chars.into_iter().collect()
}

fn trail(route: &str, module: &str) -> Trail {
    Trail { route: route.chars().collect(), module: module.chars().collect() }
}

fn node(path: &str, route: &str, module: &str, kind: Kind) -> Route {
    Route { path: path.to_string(), trail: trail(route, module), kind }
}

fn children_of(node: &Route) -> &Vec<Route> {
    match &node.kind {
        Kind::Group(children) => children,
        _ => panic!("the node is no group"),
    }
}

#[test]
fn static_index_at_the_root_has_the_empty_pattern() {
    let snapshot = dir("routes", vec![file("routes/index.html", b"<h1>Hello world</h1>")]);
    let table = RouteTable::from_snapshot(Some(&snapshot)).unwrap();
    assert_eq!(table.len(), 1);
    let entry = &table.entries()[0];
    assert!(entry.pattern.segments.is_empty());
    assert_eq!(
        entry.target,
        Target::Asset {
            content_type: Some("text/html".to_string()),
            body: b"<h1>Hello world</h1>".to_vec(),
        }
    );
    let request = Request {
        method: ReqMethod::Get,
        path: "/".to_string(),
        body: None,
        headers: vec![],
        dyn_fields: None,
    };
    assert_eq!(
        handle(&table, request),
        Action::Respond(Response {
            code: 200,
            headers: Some(b"Content-Type=text/html".to_vec()),
            body: Some(b"<h1>Hello world</h1>".to_vec()),
        })
    );
}

#[test]
fn missing_root_is_a_config_error() {
    assert_eq!(Route::base(None), Err(ConfigError::Missing));
    assert_eq!(RouteTable::from_snapshot(None).err(), Some(ConfigError::Missing));
}

#[test]
fn root_that_is_a_file_is_a_config_error() {
    let snapshot = file("routes", b"");
    assert_eq!(Route::base(Some(&snapshot)), Err(ConfigError::NotADirectory));
    assert_eq!(
        RouteTable::from_snapshot(Some(&snapshot)).err(),
        Some(ConfigError::NotADirectory)
    );
}

#[test]
fn files_are_classified() {
    let snapshot = dir(
        "routes",
        vec![
            file("routes/a.rs", MARKED),
            file("routes/helper.rs", b"pub fn helper() {}"),
            file("routes/logo.PNG", &[1, 2, 3]),
            file("routes/notes", b"pub async fn handler("),
            dir("routes/empty", vec![]),
        ],
    );
    let tree = Route::base(Some(&snapshot)).unwrap();
    assert_eq!(tree.path, "routes");
    assert_eq!(tree.trail, trail("", "routes"));
    let children = children_of(&tree);
    assert_eq!(children.len(), 5);
    assert_eq!(children[0], node("routes/a.rs", "a", "routes::a", Kind::Handler));
    assert_eq!(children[1], node("routes/helper.rs", "helper", "routes::helper", Kind::Source));
    assert_eq!(
        children[2],
        node(
            "routes/logo.PNG",
            "logo.PNG",
            "routes::logo_PNG",
            Kind::StaticAsset { body: vec![1, 2, 3], mime_type: Some(MimeType::Png) },
        )
    );
    assert_eq!(
        children[3],
        node(
            "routes/notes",
            "notes",
            "routes::notes",
            Kind::StaticAsset { body: b"pub async fn handler(".to_vec(), mime_type: None },
        )
    );
    assert_eq!(children[4], node("routes/empty", "empty", "routes::empty", Kind::Group(vec![])));
    assert!(children[0].is_api());
    assert!(!children[0].is_static());
    assert!(!children[1].is_api());
    assert!(!children[1].is_static());
    assert!(children[2].is_static());
    assert!(!children[4].is_api());
}

#[test]
fn source_file_without_marker_is_a_node_without_entry() {
    let parent = trail("api", "routes::api");
    let plain = Route::new(&file("routes/api/helper.rs", b"fn main() {}"), &parent);
    assert_eq!(plain, node("routes/api/helper.rs", "api/helper", "routes::api::helper", Kind::Source));
    assert_eq!(plain.handler(), None);
    assert_eq!(plain.violation(), Some(ConventionViolation::MissingHandler));
    assert_eq!(plain.get_handlers(), vec![]);
    assert!(plain.is_mod());

    let marked = Route::new(&file("routes/api/h.rs", MARKED), &parent);
    assert_eq!(marked.kind, Kind::Handler);
    assert_eq!(marked.violation(), None);
    assert_eq!(
        marked.handler(),
        Some(RouteEntry {
            pattern: RoutePattern::compile("api/h").unwrap(),
            target: Target::Handler { module: "routes::api::h".to_string() },
        })
    );
}

#[test]
fn node_violations() {
    let repeated = node("routes/__id/__id.rs", "__id/__id", "routes::__id::__id", Kind::Handler);
    assert_eq!(repeated.violation(), Some(ConventionViolation::DuplicateCapture));
    assert_eq!(repeated.handler(), None);
    let group = node("routes/api", "api", "routes::api", Kind::Group(vec![]));
    assert_eq!(group.violation(), None);
    assert_eq!(group.handler(), None);
    let asset = node(
        "routes/a.css",
        "a.css",
        "routes::a_css",
        Kind::StaticAsset { body: vec![], mime_type: Some(MimeType::Css) },
    );
    assert_eq!(asset.violation(), None);
    assert_eq!(
        asset.handler().map(|e| e.target),
        Some(Target::Asset { content_type: Some("text/css".to_string()), body: vec![] })
    );
}

#[test]
fn is_mod_tells_source_files_at_or_below_a_node() {
    let snapshot = dir(
        "routes",
        vec![
            dir("routes/assets", vec![file("routes/assets/a.css", b""), dir("routes/assets/e", vec![])]),
            dir("routes/api", vec![dir("routes/api/v1", vec![file("routes/api/v1/helper.rs", b"")])]),
            file("routes/index.html", b""),
        ],
    );
    let tree = Route::base(Some(&snapshot)).unwrap();
    assert!(tree.is_mod());
    let children = children_of(&tree);
    assert!(!children[0].is_mod());
    assert!(children[1].is_mod());
    assert!(!children[2].is_mod());
    assert!(!Route::any_mod(&vec![]));
}

#[test]
fn marker_is_found_anywhere_in_the_content() {
    assert!(contains_marker(b"pub async fn handler("));
    assert!(contains_marker(b"// x\n  pub async fn handler(req"));
    assert!(!contains_marker(b"pub async fn handler"));
    assert!(!contains_marker(b"pub fn handler("));
    assert!(!contains_marker(b""));
}

#[test]
fn entries_come_in_depth_first_order_with_literals_first() {
    let snapshot = dir(
        "site/routes",
        vec![
            dir(
                "site/routes/users",
                vec![
                    file("site/routes/users/__id.rs", MARKED),
                    file("site/routes/users/mod.rs", MARKED),
                ],
            ),
            file("site/routes/about.rs", MARKED),
            file("site/routes/style.css", b"body{}"),
            file("site/routes/data.bin", &[0, 255]),
        ],
    );
    let entries = Route::base(Some(&snapshot)).unwrap().get_handlers();
    let lit = |t: &str| Segment::Literal(t.to_string());
    let patterns: Vec<Vec<Segment>> = entries.iter().map(|e| e.pattern.segments.clone()).collect();
    assert_eq!(
        patterns,
        vec![
            vec![lit("users")],
            vec![lit("about")],
            vec![lit("style.css")],
            vec![lit("data.bin")],
            vec![lit("users/"), Segment::Capture("id".to_string())],
        ]
    );
    let targets: Vec<Target> = entries.into_iter().map(|e: RouteEntry| e.target).collect();
    assert_eq!(
        targets,
        vec![
            Target::Handler { module: "routes::users::r#mod".to_string() },
            Target::Handler { module: "routes::about".to_string() },
            Target::Asset { content_type: Some("text/css".to_string()), body: b"body{}".to_vec() },
            Target::Asset { content_type: None, body: vec![0, 255] },
            Target::Handler { module: "routes::users::__id".to_string() },
        ]
    );
}

#[test]
fn leaf_with_a_repeated_capture_name_is_left_out() {
    let snapshot = dir(
        "routes",
        vec![
            dir("routes/__id", vec![file("routes/__id/__id.rs", MARKED)]),
            file("routes/ok.rs", MARKED),
        ],
    );
    let entries = Route::base(Some(&snapshot)).unwrap().get_handlers();
    assert_eq!(entries.len(), 1);
    assert_eq!(entries[0].target, Target::Handler { module: "routes::ok".to_string() });
}

#[test]
fn super_keeps_its_route_and_changes_its_module() {
    let snapshot = dir("routes", vec![file("routes/super.rs", MARKED)]);
    let entries = Route::base(Some(&snapshot)).unwrap().get_handlers();
    assert_eq!(entries[0].pattern.segments, vec![Segment::Literal("super".to_string())]);
    assert_eq!(entries[0].target, Target::Handler { module: "routes::_super".to_string() });
}

#[test]
fn module_names_replace_punctuation() {
    assert_eq!(text(clean_name(&"a.b-c,d;e_f".chars().collect::<Vec<char>>())), "a_b_c_d_e_f");
    let leaf = node("routes/my-file.v2.rs", "my-file.v2", "routes::my_file_v2", Kind::Handler);
    assert_eq!(leaf.mod_name(), "my_file_v2");
    assert_eq!(leaf.mod_path(), "my-file.v2.rs");
    let index = node("routes/api/mod.rs", "api", "routes::api::r#mod", Kind::Handler);
    assert_eq!(index.mod_name(), "r#mod");
    assert_eq!(index.mod_path(), "mod.rs");
    let bare = node("routes", "", "routes", Kind::Group(vec![]));
    assert_eq!(bare.mod_path(), "routes");
}

#[test]
fn trail_extends_by_segment_and_module() {
    let start = Trail::root("./src/routes");
    assert_eq!(start, trail("", "routes"));
    assert_eq!(start.child("./src/routes/api"), trail("api", "routes::api"));
    let api = start.extend(&"api".chars().collect::<Vec<char>>());
    assert_eq!(text(api.route.clone()), "api");
    assert_eq!(text(api.module.clone()), "routes::api");
    let index = api.extend(&"mod.rs".chars().collect::<Vec<char>>());
    assert_eq!(text(index.route), "api");
    assert_eq!(text(index.module), "routes::api::r#mod");
    let page = api.extend(&"index.html".chars().collect::<Vec<char>>());
    assert_eq!(text(page.route), "api");
    assert_eq!(text(page.module), "routes::api::index_html");
    let leaf = api.extend(&"item.rs".chars().collect::<Vec<char>>());
    assert_eq!(text(leaf.route), "api/item");
}

#[test]
fn get_handlers_below_the_root_keeps_the_path_from_the_root() {
    let snapshot = dir(
        "./src/routes",
        vec![dir(
            "./src/routes/api",
            vec![dir(
                "./src/routes/api/v1",
                vec![dir(
                    "./src/routes/api/v1/check",
                    vec![
                        file("./src/routes/api/v1/check/__id.rs", MARKED),
                        file("./src/routes/api/v1/check/this.rs", MARKED),
                    ],
                )],
            )],
        )],
    );
    let tree = Route::base(Some(&snapshot)).unwrap();
    let api = &children_of(&tree)[0];
    let v1 = &children_of(api)[0];
    let check = &children_of(v1)[0];
    assert_eq!(check.path, "./src/routes/api/v1/check");
    assert_eq!(check.trail, trail("api/v1/check", "routes::api::v1::check"));

    let expected = vec![
        RouteEntry {
            pattern: RoutePattern {
                segments: vec![Segment::Literal("api/v1/check/this".to_string())],
            },
            target: Target::Handler { module: "routes::api::v1::check::this".to_string() },
        },
        RouteEntry {
            pattern: RoutePattern {
                segments: vec![
                    Segment::Literal("api/v1/check/".to_string()),
                    Segment::Capture("id".to_string()),
                ],
            },
            target: Target::Handler { module: "routes::api::v1::check::__id".to_string() },
        },
    ];
    assert_eq!(check.get_handlers(), expected);
    assert_eq!(v1.get_handlers(), expected);
    assert_eq!(tree.get_handlers(), expected);
}

#[test]
fn get_handlers_on_a_leaf_gives_its_route_from_the_root() {
    let snapshot = dir("x", vec![dir("x/docs", vec![file("x/docs/about.rs", MARKED)])]);
    let tree = Route::base(Some(&snapshot)).unwrap();
    let leaf = &children_of(&children_of(&tree)[0])[0];
    let entries = leaf.get_handlers();
    assert_eq!(entries.len(), 1);
    assert_eq!(entries[0].pattern.segments, vec![Segment::Literal("docs/about".to_string())]);
    assert_eq!(entries[0].target, Target::Handler { module: "x::docs::about".to_string() });
    assert_eq!(leaf.handler(), Some(entries[0].clone()));
}

#[test]
fn every_entry_of_a_built_table_has_a_valid_pattern() {
    let snapshot = dir(
        "routes",
        vec![
            dir("routes/__a", vec![file("routes/__a/__b.rs", MARKED), file("routes/__a/__a.rs", MARKED)]),
            file("routes/x__y.z", b""),
        ],
    );
    let table = RouteTable::from_snapshot(Some(&snapshot)).unwrap();
    assert_eq!(table.len(), 2);
    for entry in table.entries() {
        assert_eq!(entry.pattern.check(), None);
    }
}
