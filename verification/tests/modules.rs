use next_rs::mime::MimeType;
use next_rs::modules::{Module, ModuleBody};
use next_rs::trail::Trail;
use next_rs::tree::{Kind, Route, Snapshot};

const MARKED: &[u8] = b"pub async fn handler(req: Request) {}";

fn file(path: &str, content: &[u8]) -> Snapshot {
    Snapshot::File { path: path.to_string(), content: content.to_vec() }
}

fn dir(path: &str, entries: Vec<Snapshot>) -> Snapshot {
    Snapshot::Directory { path: path.to_string(), entries }
}

fn module(path: &str, name: &str, body: ModuleBody) -> Module {
    Module { path: path.to_string(), name: name.to_string(), body }
}

#[test]
fn module_tree_follows_the_route_tree() {
    let snapshot = dir(
        "./src/routes",
        vec![
            file("./src/routes/index.html", b"<p>"),
            dir(
                "./src/routes/api",
                vec![
                    file("./src/routes/api/mod.rs", MARKED),
                    file("./src/routes/api/super.rs", MARKED),
                    file("./src/routes/api/helper.rs", b"pub fn help() {}"),
                    file("./src/routes/api/raw.data", &[7]),
                ],
            ),
        ],
    );
    let tree = Route::base(Some(&snapshot)).unwrap();
    assert_eq!(
        tree.get_mod(),
        module(
            "routes",
            "routes",
            ModuleBody::Nested(vec![
                module(
                    "index.html",
                    "index_html",
                    ModuleBody::Asset {
                        headers: b"Content-Type=text/html".to_vec(),
                        body: b"<p>".to_vec(),
                    },
                ),
                module(
                    "api",
                    "api",
                    ModuleBody::Nested(vec![
                        module("mod.rs", "r#mod", ModuleBody::Source),
                        module("super.rs", "_super", ModuleBody::Source),
                        module("helper.rs", "helper", ModuleBody::Source),
                        module(
                            "raw.data",
                            "raw_data",
                            ModuleBody::Asset { headers: vec![], body: vec![7] },
                        ),
                    ]),
                ),
            ]),
        )
    );
}

#[test]
fn module_of_a_leaf() {
    let place = |route: &str, module: &str| Trail {
        route: route.chars().collect(),
        module: module.chars().collect(),
    };
    let handler = Route {
        path: "routes/a-b.rs".to_string(),
        trail: place("a-b", "routes::a_b"),
        kind: Kind::Handler,
    };
    assert_eq!(handler.get_mod(), module("a-b.rs", "a_b", ModuleBody::Source));
    let asset = Route {
        path: "logo.png".to_string(),
        trail: place("logo.png", "logo_png"),
        kind: Kind::StaticAsset { body: vec![1], mime_type: Some(MimeType::Png) },
    };
    assert_eq!(
        asset.get_mod(),
        module(
            "logo.png",
            "logo_png",
            ModuleBody::Asset { headers: b"Content-Type=image/png".to_vec(), body: vec![1] },
        )
    );
    assert_eq!(Route::get_mods(&vec![]), vec![]);
}
