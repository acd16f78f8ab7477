//! The pattern compiler: flattens a route tree into route entries, one for
//! each leaf, in depth-first order.

use vstd::prelude::*;
use crate::dispatch::{law_precedence_idempotent, lemma_groups_keep, RouteTable};
use crate::mime::content_type;
use crate::pattern::{compile_segments, compiled, ConventionViolation, RoutePattern};
use crate::table::{
    all_valid,
    by_precedence,
    entry_views,
    sort,
    RouteEntry,
    RouteEntryView,
    Target,
    TargetView,
};
use crate::text::{final_component, last_component, to_chars, to_text, trim_separators, trimmed};
use crate::trail::{mod_name_of, module_name};
use crate::tree::{
    route_views,
    tree_of,
    ConfigError,
    Kind,
    KindView,
    Route,
    RouteView,
    Snapshot,
    SnapshotView,
};
use crate::validity::{valid, violation};

verus! {

/// The entry of a leaf with the route text `route`: its pattern is compiled
/// from the text without its boundary separators. A pattern that breaks a
/// rule gives no entry.
pub open spec fn leaf_entry(target: TargetView, route: Seq<char>) -> Seq<RouteEntryView> {
    let pattern = compiled(trimmed(route));
    if valid(pattern) {
        seq![RouteEntryView { pattern, target }]
    } else {
        Seq::empty()
    }
}

/// The content-type string of an optional content type.
pub open spec fn type_text(mime_type: Option<crate::mime::MimeType>) -> Option<Seq<char>> {
    match mime_type {
        Some(m) => Some(content_type(m)),
        None => None,
    }
}

/// The entry of `node` itself: a handler or a static asset has the entry of
/// its route text, where the pattern of that text is valid; a group and a
/// plain source have none.
pub open spec fn route_at(node: RouteView) -> Seq<RouteEntryView> {
    match node.kind {
        KindView::Group(_) => Seq::empty(),
        KindView::Source => Seq::empty(),
        KindView::Handler => leaf_entry(
            TargetView::Handler { module: node.trail.module },
            node.trail.route,
        ),
        KindView::StaticAsset { body, mime_type } => leaf_entry(
            TargetView::Asset { content_type: type_text(mime_type), body },
            node.trail.route,
        ),
    }
}

/// Why `node` itself has no entry, where a rule keeps it out: a plain source
/// lacks the handler marker, and the pattern of a handler or a static asset
/// may break a rule. A group is kept out by nothing.
pub open spec fn kept_out(node: RouteView) -> Option<ConventionViolation> {
    match node.kind {
        KindView::Group(_) => None,
        KindView::Source => Some(ConventionViolation::MissingHandler),
        _ => violation(compiled(trimmed(node.trail.route))),
    }
}

/// The entries of the leaves at and below `node`, in depth-first order. Each
/// leaf's route is the joined path from the root of the tree to the leaf, as
/// its trail holds it, wherever in the tree `node` stands.
pub open spec fn routes_of(node: RouteView) -> Seq<RouteEntryView>
    decreases node,
{
    match node.kind {
        KindView::Group(children) => routes_of_all(children),
        _ => route_at(node),
    }
}

/// The entries of the leaves at and below each of `nodes`, in order.
pub open spec fn routes_of_all(nodes: Seq<RouteView>) -> Seq<RouteEntryView>
    decreases nodes,
{
    if nodes.len() == 0 {
        Seq::empty()
    } else {
        routes_of_all(nodes.drop_last()) + routes_of(nodes.last())
    }
}

/// The route entries of the leaves at and below `node`, in precedence order.
pub open spec fn handlers_of(node: RouteView) -> Seq<RouteEntryView> {
    by_precedence(routes_of(node))
}

/// Every entry of the leaves at and below `node` has a valid pattern.
pub proof fn lemma_routes_valid(node: RouteView)
    ensures
        all_valid(routes_of(node)),
    decreases node,
{
    match node.kind {
        KindView::Group(children) => {
            lemma_routes_valid_all(children);
        },
        _ => {},
    }
}

/// Every entry of the leaves at and below each of `nodes` has a valid pattern.
pub proof fn lemma_routes_valid_all(nodes: Seq<RouteView>)
    ensures
        all_valid(routes_of_all(nodes)),
    decreases nodes,
{
    if nodes.len() > 0 {
        lemma_routes_valid_all(nodes.drop_last());
        lemma_routes_valid(nodes.last());
    }
}

/// Every entry of a built table has a valid pattern: its captures have names,
/// no two of them share a name, and each that another follows has an anchor.
pub proof fn law_built_patterns_valid(node: RouteView)
    ensures
        all_valid(handlers_of(node)),
{
    lemma_routes_valid(node);
    lemma_groups_keep(routes_of(node));
}

/// The route table of the directory snapshot `root`, or why there is none.
pub open spec fn table_of(root: Option<SnapshotView>) -> Result<Seq<RouteEntryView>, ConfigError> {
    match tree_of(root) {
        Ok(tree) => Ok(handlers_of(tree)),
        Err(e) => Err(e),
    }
}

/// The value of an optional snapshot.
pub open spec fn root_view(root: Option<&Snapshot>) -> Option<SnapshotView> {
    match root {
        Some(s) => Some(s@),
        None => None,
    }
}

/// Rebuilding changes nothing: tables built from two snapshots of one value,
/// such as two readings of an unchanged directory, hold the same entries in
/// the same order.
pub proof fn law_rebuild_identical(
    first: Snapshot,
    second: Snapshot,
    built_first: RouteTable,
    built_second: RouteTable,
)
    requires
        first@ == second@,
        table_of(Some(first@)) == Ok::<Seq<RouteEntryView>, ConfigError>(built_first@),
        table_of(Some(second@)) == Ok::<Seq<RouteEntryView>, ConfigError>(built_second@),
    ensures
        built_first@ == built_second@,
{
}

impl Route {
    /// The name of the file or directory of this node: the last component of
    /// its path.
    pub fn mod_path(&self) -> (out: String)
        ensures
            out@ == last_component(self.path@),
    {
        let chars = to_chars(self.path.as_str());
        to_text(final_component(chars.as_slice()).as_slice())
    }

    /// The name of the module of this node.
    pub fn mod_name(&self) -> (out: String)
        ensures
            out@ == module_name(last_component(self.path@)),
    {
        let chars = to_chars(self.path.as_str());
        let name = final_component(chars.as_slice());
        to_text(mod_name_of(name.as_slice()).as_slice())
    }

    /// Whether this node is a static asset.
    pub fn is_static(&self) -> (yes: bool)
        ensures
            yes == (self@.kind is StaticAsset),
    {
        match &self.kind {
            Kind::StaticAsset { .. } => true,
            _ => false,
        }
    }

    /// Whether this node is a handler.
    pub fn is_api(&self) -> (yes: bool)
        ensures
            yes == (self@.kind is Handler),
    {
        match &self.kind {
            Kind::Handler => true,
            _ => false,
        }
    }

    /// What this node itself resolves to, where it is a handler or a static
    /// asset.
    fn target(&self) -> (out: Option<Target>)
        ensures
            match out {
                Some(target) => match self@.kind {
                    KindView::Handler => target@ == (TargetView::Handler {
                        module: self@.trail.module,
                    }),
                    KindView::StaticAsset { body, mime_type } => target@ == (TargetView::Asset {
                        content_type: type_text(mime_type),
                        body,
                    }),
                    _ => false,
                },
                None => self@.kind is Group || self@.kind is Source,
            },
    {
        match &self.kind {
            Kind::Group(_) => None,
            Kind::Source => None,
            Kind::Handler => Some(
                Target::Handler { module: to_text(self.trail.module.as_slice()) },
            ),
            Kind::StaticAsset { body, mime_type } => {
                let content_type = match mime_type {
                    Some(m) => Some(String::from_str(m.get())),
                    None => None,
                };
                Some(Target::Asset { content_type, body: body.clone() })
            },
        }
    }

    /// The route entry of this node itself: its pattern is compiled from the
    /// joined path from the root to the node. A group, a plain source, and a
    /// leaf whose pattern breaks a rule have none.
    pub fn handler(&self) -> (out: Option<RouteEntry>)
        ensures
            match out {
                Some(entry) => route_at(self@) == seq![entry@] && kept_out(self@) is None,
                None => route_at(self@) == Seq::<RouteEntryView>::empty() && (self@.kind is Group
                    || kept_out(self@) is Some),
            },
    {
        match self.target() {
            Some(target) => {
                let text = trim_separators(self.trail.route.as_slice());
                match RoutePattern::new(compile_segments(text.as_slice())) {
                    Ok(pattern) => Some(RouteEntry { pattern, target }),
                    Err(_) => None,
                }
            },
            None => None,
        }
    }

    /// The rule that keeps this node itself out of the table, if any.
    pub fn violation(&self) -> (out: Option<ConventionViolation>)
        ensures
            out == kept_out(self@),
    {
        match &self.kind {
            Kind::Group(_) => None,
            Kind::Source => Some(ConventionViolation::MissingHandler),
            _ => {
                let text = trim_separators(self.trail.route.as_slice());
                let pattern = RoutePattern { segments: compile_segments(text.as_slice()) };
                pattern.check()
            },
        }
    }

    /// Adds the entries of the leaves at and below this node to `out`.
    pub fn collect(&self, out: &mut Vec<RouteEntry>)
        ensures
            entry_views(final(out)@) == entry_views(old(out)@) + routes_of(self@),
        decreases self,
    {
        match &self.kind {
            Kind::Group(children) => {
                Route::collect_all(children, out);
            },
            _ => {
                let ghost before = entry_views(out@);
                match self.handler() {
                    Some(entry) => {
                        out.push(entry);
                        assert(entry_views(out@) =~= before + seq![entry@]);
                    },
                    None => {
                        assert(entry_views(out@) =~= before + Seq::<RouteEntryView>::empty());
                    },
                }
            },
        }
    }

    /// Adds the entries of the leaves at and below each of `nodes` to `out`.
    pub fn collect_all(nodes: &Vec<Route>, out: &mut Vec<RouteEntry>)
        ensures
            entry_views(final(out)@) == entry_views(old(out)@) + routes_of_all(route_views(nodes@)),
        decreases nodes,
    {
        let ghost start = entry_views(out@);
        let mut i: usize = 0;
        assert(entry_views(out@) =~= start + Seq::<RouteEntryView>::empty());
        while i < nodes.len()
            invariant
                i <= nodes.len(),
                entry_views(out@) == start + routes_of_all(route_views(nodes@.take(i as int))),
            decreases nodes.len() - i,
        {
            proof {
                let seen = route_views(nodes@.take(i as int));
                let next = route_views(nodes@.take(i + 1));
                assert(nodes@.take(i + 1).drop_last() =~= nodes@.take(i as int));
                assert(nodes@.take(i + 1).last() == nodes@[i as int]);
                assert(next == seen.push(nodes@[i as int]@));
                assert(next.drop_last() =~= seen);
            }
            nodes[i].collect(out);
            assert(entry_views(out@) =~= start + (routes_of_all(
                route_views(nodes@.take(i as int)),
            ) + routes_of(nodes@[i as int]@)));
            i += 1;
        }
        assert(nodes@.take(nodes.len() as int) =~= nodes@);
    }

    /// The route entries of the leaves at and below this node, in precedence
    /// order: one entry for each handler and static asset whose pattern is
    /// valid, the entries without a capture first, each group in depth-first
    /// order. Every route is the joined path from the root of the tree, also
    /// where this node is not the root.
    pub fn get_handlers(&self) -> (out: Vec<RouteEntry>)
        ensures
            entry_views(out@) == handlers_of(self@),
            all_valid(entry_views(out@)),
    {
        let mut found: Vec<RouteEntry> = Vec::new();
        assert(entry_views(found@) =~= Seq::<RouteEntryView>::empty());
        self.collect(&mut found);
        assert(entry_views(found@) =~= routes_of(self@));
        proof {
            law_built_patterns_valid(self@);
        }
        sort(found)
    }
}

impl RouteTable {
    /// The route table of the tree under `root`.
    pub fn build(root: &Route) -> (out: RouteTable)
        ensures
            out@ == handlers_of(root@),
            all_valid(out@),
    {
        let entries = root.get_handlers();
        proof {
            law_precedence_idempotent(routes_of(root@));
        }
        RouteTable::new(entries)
    }

    /// The route table of the directory snapshot `root`. There is none where
    /// the root is missing or is not a directory.
    pub fn from_snapshot(root: Option<&Snapshot>) -> (out: Result<RouteTable, ConfigError>)
        ensures
            match out {
                Ok(table) => table_of(root_view(root)) == Ok::<Seq<RouteEntryView>, ConfigError>(
                    table@,
                ) && all_valid(table@),
                Err(e) => table_of(root_view(root)) == Err::<Seq<RouteEntryView>, ConfigError>(e),
            },
    {
        match Route::base(root) {
            Ok(tree) => Ok(RouteTable::build(&tree)),
            Err(e) => Err(e),
        }
    }
}

} // verus!
