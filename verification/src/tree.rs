//! The route tree: groups, handlers and static assets, as found in a
//! directory snapshot.

use vstd::prelude::*;
use vstd::utf8::encode_utf8;
use crate::mime::{mime_of, MimeType};
use crate::text::{after_last, from_last, has_char, last_component, to_chars, to_text};
use crate::trail::{extend, is_source, root_trail, source_path, Trail, TrailView};

verus! {

/// A directory snapshot: what the tree builder reads.
#[derive(Debug, PartialEq, Eq)]
pub enum Snapshot {
    /// A file, by its path and what it holds.
    File { path: String, content: Vec<u8> },
    /// A directory, by its path and its immediate entries.
    Directory { path: String, entries: Vec<Snapshot> },
}

/// The mathematical value of a [`Snapshot`].
pub enum SnapshotView {
    File { path: Seq<char>, content: Seq<u8> },
    Directory { path: Seq<char>, entries: Seq<SnapshotView> },
}

/// The value of one snapshot.
pub open spec fn snapshot_view(s: Snapshot) -> SnapshotView
    decreases s,
{
    match s {
        Snapshot::File { path, content } => SnapshotView::File { path: path@, content: content@ },
        Snapshot::Directory { path, entries } => SnapshotView::Directory {
            path: path@,
            entries: snapshot_views(entries@),
        },
    }
}

/// The values of a list of snapshots.
pub open spec fn snapshot_views(list: Seq<Snapshot>) -> Seq<SnapshotView>
    decreases list,
{
    if list.len() == 0 {
        Seq::empty()
    } else {
        snapshot_views(list.drop_last()).push(snapshot_view(list.last()))
    }
}

impl View for Snapshot {
    type V = SnapshotView;

    open spec fn view(&self) -> SnapshotView {
        snapshot_view(*self)
    }
}

/// What a node of the route tree is.
#[derive(Debug, PartialEq, Eq)]
pub enum Kind {
    /// A directory, with its nodes in the order of the snapshot.
    Group(Vec<Route>),
    /// A source file that holds the handler marker.
    Handler,
    /// A source file that does not hold the handler marker: it is a module of
    /// the tree, and no route leads to it.
    Source,
    /// Any other file: its payload and the content type of its extension.
    StaticAsset { body: Vec<u8>, mime_type: Option<MimeType> },
}

/// A node of the route tree: the path it was read from, its place under the
/// root, and what it is.
#[derive(Debug, PartialEq, Eq)]
pub struct Route {
    pub path: String,
    pub trail: Trail,
    pub kind: Kind,
}

/// The mathematical value of a [`Kind`].
pub enum KindView {
    Group(Seq<RouteView>),
    Handler,
    Source,
    StaticAsset { body: Seq<u8>, mime_type: Option<MimeType> },
}

/// The mathematical value of a [`Route`].
pub struct RouteView {
    pub path: Seq<char>,
    pub trail: TrailView,
    pub kind: KindView,
}

/// The value of one node.
pub open spec fn route_view(r: Route) -> RouteView
    decreases r,
{
    RouteView {
        path: r.path@,
        trail: r.trail@,
        kind: match r.kind {
            Kind::Group(children) => KindView::Group(route_views(children@)),
            Kind::Handler => KindView::Handler,
            Kind::Source => KindView::Source,
            Kind::StaticAsset { body, mime_type } => KindView::StaticAsset { body: body@, mime_type },
        },
    }
}

/// The values of a list of nodes.
pub open spec fn route_views(list: Seq<Route>) -> Seq<RouteView>
    decreases list,
{
    if list.len() == 0 {
        Seq::empty()
    } else {
        route_views(list.drop_last()).push(route_view(list.last()))
    }
}

impl View for Route {
    type V = RouteView;

    open spec fn view(&self) -> RouteView {
        route_view(*self)
    }
}

/// Why no route tree can be built.
#[derive(Debug, Clone, Copy, PartialEq, Eq, Structural)]
pub enum ConfigError {
    /// The root path does not exist.
    Missing,
    /// The root path is not a directory.
    NotADirectory,
}

/// The text that marks a source file as a handler, as bytes.
pub open spec fn marker() -> Seq<u8> {
    encode_utf8("pub async fn handler("@)
}

/// `needle` stands in `content` at `at`.
pub open spec fn holds_at(content: Seq<u8>, needle: Seq<u8>, at: int) -> bool {
    &&& 0 <= at
    &&& at + needle.len() <= content.len()
    &&& content.subrange(at, at + needle.len()) == needle
}

/// `content` holds the handler marker somewhere.
pub open spec fn has_marker(content: Seq<u8>) -> bool {
    exists|at: int| holds_at(content, marker(), at)
}

/// The extension of the file at `path`: what follows the last `.` of its name.
pub open spec fn extension(path: Seq<char>) -> Option<Seq<char>> {
    let name = last_component(path);
    if name.contains('.') {
        Some(after_last(name, '.'))
    } else {
        None
    }
}

/// The content type of the static asset at `path`.
pub open spec fn asset_mime(path: Seq<char>) -> Option<MimeType> {
    match extension(path) {
        Some(ext) => mime_of(ext),
        None => None,
    }
}

/// What the file at `path` with the content `content` is: a source file is a
/// handler where it holds the marker and a plain source where it does not,
/// any other file is a static asset.
pub open spec fn file_kind(path: Seq<char>, content: Seq<u8>) -> KindView {
    if is_source(path) {
        if has_marker(content) {
            KindView::Handler
        } else {
            KindView::Source
        }
    } else {
        KindView::StaticAsset { body: content, mime_type: asset_mime(path) }
    }
}

/// The node that a snapshot entry becomes under a parent at `parent`: its
/// place is the parent's, extended by its own name; a directory is a group of
/// the nodes of its entries, each under the directory's place.
pub open spec fn node_of(s: SnapshotView, parent: TrailView) -> RouteView
    decreases s,
{
    match s {
        SnapshotView::File { path, content } => RouteView {
            path,
            trail: extend(parent, last_component(path)),
            kind: file_kind(path, content),
        },
        SnapshotView::Directory { path, entries } => RouteView {
            path,
            trail: extend(parent, last_component(path)),
            kind: KindView::Group(nodes_of(entries, extend(parent, last_component(path)))),
        },
    }
}

/// The nodes of a list of snapshot entries under a parent at `parent`, one
/// for each entry, in order.
pub open spec fn nodes_of(list: Seq<SnapshotView>, parent: TrailView) -> Seq<RouteView>
    decreases list,
{
    if list.len() == 0 {
        Seq::empty()
    } else {
        nodes_of(list.drop_last(), parent).push(node_of(list.last(), parent))
    }
}

/// The tree of the root entry `root`, or why there is none. The root is a
/// group at the root trail of its path.
pub open spec fn tree_of(root: Option<SnapshotView>) -> Result<RouteView, ConfigError> {
    match root {
        None => Err(ConfigError::Missing),
        Some(SnapshotView::File { .. }) => Err(ConfigError::NotADirectory),
        Some(SnapshotView::Directory { path, entries }) => Ok(
            RouteView {
                path,
                trail: root_trail(path),
                kind: KindView::Group(nodes_of(entries, root_trail(path))),
            },
        ),
    }
}

/// Every node below `node` stands at the place of its parent, extended by its
/// own name.
pub open spec fn placed(node: RouteView) -> bool
    decreases node,
{
    match node.kind {
        KindView::Group(children) => placed_all(children, node.trail),
        _ => true,
    }
}

/// Each of `nodes` stands at `parent` extended by its own name, and so does
/// every node below it under its parent.
pub open spec fn placed_all(nodes: Seq<RouteView>, parent: TrailView) -> bool
    decreases nodes,
{
    nodes.len() == 0 || {
        &&& placed_all(nodes.drop_last(), parent)
        &&& nodes.last().trail == extend(parent, last_component(nodes.last().path))
        &&& placed(nodes.last())
    }
}

/// The node of a snapshot entry is placed, and so is every node below it.
pub proof fn lemma_node_placed(s: SnapshotView, parent: TrailView)
    ensures
        placed(node_of(s, parent)),
        node_of(s, parent).trail == extend(
            parent,
            last_component(
                match s {
                    SnapshotView::File { path, .. } => path,
                    SnapshotView::Directory { path, .. } => path,
                },
            ),
        ),
    decreases s,
{
    match s {
        SnapshotView::File { .. } => {},
        SnapshotView::Directory { path, entries } => {
            lemma_nodes_placed(entries, extend(parent, last_component(path)));
        },
    }
}

/// The nodes of a list of snapshot entries are placed under their parent.
pub proof fn lemma_nodes_placed(list: Seq<SnapshotView>, parent: TrailView)
    ensures
        placed_all(nodes_of(list, parent), parent),
    decreases list,
{
    if list.len() > 0 {
        lemma_nodes_placed(list.drop_last(), parent);
        lemma_node_placed(list.last(), parent);
        let nodes = nodes_of(list, parent);
        assert(nodes.drop_last() =~= nodes_of(list.drop_last(), parent));
        assert(nodes.last() == node_of(list.last(), parent));
    }
}

/// A built tree is placed: its root stands at the root trail of its path, and
/// every node below stands at the place of its parent, extended by its own
/// name. So the route text of a node is the joined path from the root to it.
pub proof fn law_tree_placed(root: Option<SnapshotView>)
    ensures
        tree_of(root) matches Ok(tree) ==> placed(tree) && tree.trail == root_trail(tree.path),
{
    match root {
        Some(SnapshotView::Directory { path, entries }) => {
            lemma_nodes_placed(entries, root_trail(path));
        },
        _ => {},
    }
}

/// Whether `needle` stands in `content` at `at`.
pub fn bytes_at(content: &[u8], needle: &[u8], at: usize) -> (found: bool)
    ensures
        found == holds_at(content@, needle@, at as int),
{
    if at > content.len() || needle.len() > content.len() - at {
        return false;
    }
    let mut k: usize = 0;
    while k < needle.len()
        invariant
            k <= needle.len(),
            at + needle.len() <= content.len(),
            forall|j: int| 0 <= j < k ==> content@[at + j] == needle@[j],
        decreases needle.len() - k,
    {
        if content[at + k] != needle[k] {
            proof {
                let sub = content@.subrange(at as int, at + needle.len());
                assert(sub[k as int] == content@[at + k]);
            }
            return false;
        }
        k += 1;
    }
    assert(content@.subrange(at as int, at + needle.len()) =~= needle@);
    true
}

/// Whether `content` holds the handler marker.
pub fn contains_marker(content: &[u8]) -> (found: bool)
    ensures
        found == has_marker(content@),
{
    let needle = "pub async fn handler(".as_bytes();
    if needle.len() > content.len() {
        return false;
    }
    let last = content.len() - needle.len();
    let mut at: usize = 0;
    loop
        invariant
            at <= last,
            last == content.len() - needle.len(),
            needle@ == marker(),
            forall|q: int| 0 <= q < at ==> !holds_at(content@, marker(), q),
        decreases last - at,
    {
        if bytes_at(content, needle, at) {
            return true;
        }
        if at == last {
            return false;
        }
        at += 1;
    }
}

/// The content type of the static asset at `path`.
pub fn mime_for(path: &[char]) -> (out: Option<MimeType>)
    ensures
        out == asset_mime(path@),
{
    let name = from_last(path, '/');
    if has_char(name.as_slice(), '.') {
        let ext = from_last(name.as_slice(), '.');
        MimeType::from(to_text(ext.as_slice()).as_str())
    } else {
        None
    }
}

impl Route {
    /// The node that the snapshot entry `s` becomes under a parent at
    /// `parent`. Every entry becomes a node; a source file that does not hold
    /// the handler marker becomes a plain source.
    pub fn new(s: &Snapshot, parent: &Trail) -> (out: Route)
        ensures
            out@ == node_of(s@, parent@),
            placed(out@),
        decreases s,
    {
        proof {
            lemma_node_placed(s@, parent@);
        }
        match s {
            Snapshot::File { path, content } => {
                let chars = to_chars(path.as_str());
                let kind = if source_path(chars.as_slice()) {
                    if contains_marker(content.as_slice()) {
                        Kind::Handler
                    } else {
                        Kind::Source
                    }
                } else {
                    Kind::StaticAsset { body: content.clone(), mime_type: mime_for(chars.as_slice()) }
                };
                Route { path: path.clone(), trail: parent.child(path.as_str()), kind }
            },
            Snapshot::Directory { path, entries } => {
                let trail = parent.child(path.as_str());
                let children = Route::children(entries, &trail);
                Route { path: path.clone(), trail, kind: Kind::Group(children) }
            },
        }
    }

    /// The nodes of the snapshot entries `entries` under a parent at `parent`.
    pub fn children(entries: &Vec<Snapshot>, parent: &Trail) -> (out: Vec<Route>)
        ensures
            route_views(out@) == nodes_of(snapshot_views(entries@), parent@),
            placed_all(route_views(out@), parent@),
        decreases entries,
    {
        proof {
            lemma_nodes_placed(snapshot_views(entries@), parent@);
        }
        let mut out: Vec<Route> = Vec::new();
        let mut i: usize = 0;
        while i < entries.len()
            invariant
                i <= entries.len(),
                route_views(out@) == nodes_of(snapshot_views(entries@.take(i as int)), parent@),
            decreases entries.len() - i,
        {
            proof {
                let seen = snapshot_views(entries@.take(i as int));
                let next = snapshot_views(entries@.take(i + 1));
                assert(entries@.take(i + 1).drop_last() =~= entries@.take(i as int));
                assert(entries@.take(i + 1).last() == entries@[i as int]);
                assert(next == seen.push(entries@[i as int]@));
                assert(next.drop_last() =~= seen);
            }
            let node = Route::new(&entries[i], parent);
            let ghost before = out@;
            out.push(node);
            assert(out@.drop_last() =~= before);
            assert(out@.last() == node);
            i += 1;
        }
        assert(entries@.take(entries.len() as int) =~= entries@);
        out
    }

    /// The route tree of the root entry `root`. There is none where the root
    /// is missing or is not a directory.
    pub fn base(root: Option<&Snapshot>) -> (out: Result<Route, ConfigError>)
        ensures
            match out {
                Ok(tree) => tree_of(
                    match root {
                        Some(s) => Some(s@),
                        None => None,
                    },
                ) == Ok::<RouteView, ConfigError>(tree@) && placed(tree@),
                Err(e) => tree_of(
                    match root {
                        Some(s) => Some(s@),
                        None => None,
                    },
                ) == Err::<RouteView, ConfigError>(e),
            },
    {
        match root {
            None => Err(ConfigError::Missing),
            Some(Snapshot::File { .. }) => Err(ConfigError::NotADirectory),
            Some(Snapshot::Directory { path, entries }) => {
                let trail = Trail::root(path.as_str());
                let children = Route::children(entries, &trail);
                Ok(Route { path: path.clone(), trail, kind: Kind::Group(children) })
            },
        }
    }
}

} // verus!
