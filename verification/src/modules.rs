//! The modules that a route tree stands for: one module for each node, named
//! after its file or directory.

use vstd::prelude::*;
use crate::compile::type_text;
use crate::trail::{is_source, module_name, source_path};
use crate::handle::asset_headers;
use crate::text::{last_component, to_chars};
use crate::tree::{route_views, Kind, KindView, Route, RouteView};

verus! {

/// What a module holds.
#[derive(Debug, PartialEq, Eq)]
pub enum ModuleBody {
    /// The modules of a group's nodes, in order.
    Nested(Vec<Module>),
    /// The header line and the payload of a static asset.
    Asset { headers: Vec<u8>, body: Vec<u8> },
    /// A source file, with or without a handler.
    Source,
}

/// The module of one node: the file or directory it is read from, its name,
/// and what it holds.
#[derive(Debug, PartialEq, Eq)]
pub struct Module {
    pub path: String,
    pub name: String,
    pub body: ModuleBody,
}

/// The mathematical value of a [`ModuleBody`].
pub enum ModuleBodyView {
    Nested(Seq<ModuleView>),
    Asset { headers: Seq<u8>, body: Seq<u8> },
    Source,
}

/// The mathematical value of a [`Module`].
pub struct ModuleView {
    pub path: Seq<char>,
    pub name: Seq<char>,
    pub body: ModuleBodyView,
}

/// The value of one module.
pub open spec fn module_view(m: Module) -> ModuleView
    decreases m,
{
    ModuleView {
        path: m.path@,
        name: m.name@,
        body: match m.body {
            ModuleBody::Nested(inner) => ModuleBodyView::Nested(module_views(inner@)),
            ModuleBody::Asset { headers, body } => ModuleBodyView::Asset {
                headers: headers@,
                body: body@,
            },
            ModuleBody::Source => ModuleBodyView::Source,
        },
    }
}

/// The values of a list of modules.
pub open spec fn module_views(list: Seq<Module>) -> Seq<ModuleView>
    decreases list,
{
    if list.len() == 0 {
        Seq::empty()
    } else {
        module_views(list.drop_last()).push(module_view(list.last()))
    }
}

impl View for Module {
    type V = ModuleView;

    open spec fn view(&self) -> ModuleView {
        module_view(*self)
    }
}

/// The module of `node`: it is read from the last component of the node's
/// path and named by `module_name`; a group holds the modules of its nodes, a
/// static asset its header line and payload.
pub open spec fn module_of(node: RouteView) -> ModuleView
    decreases node,
{
    ModuleView {
        path: last_component(node.path),
        name: module_name(last_component(node.path)),
        body: match node.kind {
            KindView::Group(children) => ModuleBodyView::Nested(modules_of(children)),
            KindView::Handler => ModuleBodyView::Source,
            KindView::Source => ModuleBodyView::Source,
            KindView::StaticAsset { body, mime_type } => ModuleBodyView::Asset {
                headers: asset_headers(type_text(mime_type)),
                body,
            },
        },
    }
}

/// The modules of `nodes`, in order.
pub open spec fn modules_of(nodes: Seq<RouteView>) -> Seq<ModuleView>
    decreases nodes,
{
    if nodes.len() == 0 {
        Seq::empty()
    } else {
        modules_of(nodes.drop_last()).push(module_of(nodes.last()))
    }
}

/// `node` is a source file, or a source file stands somewhere below it.
pub open spec fn has_source(node: RouteView) -> bool
    decreases node,
{
    is_source(node.path) || match node.kind {
        KindView::Group(children) => any_source(children),
        _ => false,
    }
}

/// One of `nodes` is a source file or has one below it.
pub open spec fn any_source(nodes: Seq<RouteView>) -> bool
    decreases nodes,
{
    nodes.len() > 0 && (any_source(nodes.drop_last()) || has_source(nodes.last()))
}

/// Where the node at `i` of a list is a source file or has one below it, one
/// of the list has.
proof fn lemma_any_source_at(list: Seq<Route>, i: int)
    requires
        0 <= i < list.len(),
        has_source(list[i]@),
    ensures
        any_source(route_views(list)),
    decreases list.len(),
{
    let views = route_views(list);
    assert(views.drop_last() =~= route_views(list.drop_last()));
    assert(views.last() == list.last()@);
    if i < list.len() - 1 {
        assert(list.drop_last()[i] == list[i]);
        lemma_any_source_at(list.drop_last(), i);
    }
}

impl Route {
    /// Whether this node is a source file or has a source file below it.
    pub fn is_mod(&self) -> (yes: bool)
        ensures
            yes == has_source(self@),
        decreases self,
    {
        let chars = to_chars(self.path.as_str());
        if source_path(chars.as_slice()) {
            return true;
        }
        match &self.kind {
            Kind::Group(children) => Route::any_mod(children),
            _ => false,
        }
    }

    /// Whether one of `nodes` is a source file or has one below it.
    pub fn any_mod(nodes: &Vec<Route>) -> (yes: bool)
        ensures
            yes == any_source(route_views(nodes@)),
        decreases nodes,
    {
        let mut i: usize = 0;
        while i < nodes.len()
            invariant
                i <= nodes.len(),
                !any_source(route_views(nodes@.take(i as int))),
            decreases nodes.len() - i,
        {
            proof {
                let seen = route_views(nodes@.take(i as int));
                let next = route_views(nodes@.take(i + 1));
                assert(nodes@.take(i + 1).drop_last() =~= nodes@.take(i as int));
                assert(nodes@.take(i + 1).last() == nodes@[i as int]);
                assert(next == seen.push(nodes@[i as int]@));
                assert(next.drop_last() =~= seen);
            }
            if nodes[i].is_mod() {
                proof {
                    lemma_any_source_at(nodes@, i as int);
                }
                return true;
            }
            i += 1;
        }
        assert(nodes@.take(nodes.len() as int) =~= nodes@);
        false
    }

    /// The module of this node.
    pub fn get_mod(&self) -> (out: Module)
        ensures
            out@ == module_of(self@),
        decreases self,
    {
        let body = match &self.kind {
            Kind::Group(children) => ModuleBody::Nested(Route::get_mods(children)),
            Kind::Handler => ModuleBody::Source,
            Kind::Source => ModuleBody::Source,
            Kind::StaticAsset { body, mime_type } => {
                let headers = match mime_type {
                    Some(m) => String::from_str("Content-Type=").concat(m.get()).as_str().as_bytes_vec(),
                    None => Vec::new(),
                };
                ModuleBody::Asset { headers, body: body.clone() }
            },
        };
        Module { path: self.mod_path(), name: self.mod_name(), body }
    }

    /// The modules of `nodes`, in order.
    pub fn get_mods(nodes: &Vec<Route>) -> (out: Vec<Module>)
        ensures
            module_views(out@) == modules_of(route_views(nodes@)),
        decreases nodes,
    {
        let mut out: Vec<Module> = Vec::new();
        let mut i: usize = 0;
        while i < nodes.len()
            invariant
                i <= nodes.len(),
                module_views(out@) == modules_of(route_views(nodes@.take(i as int))),
            decreases nodes.len() - i,
        {
            proof {
                let seen = route_views(nodes@.take(i as int));
                let next = route_views(nodes@.take(i + 1));
                assert(nodes@.take(i + 1).drop_last() =~= nodes@.take(i as int));
                assert(nodes@.take(i + 1).last() == nodes@[i as int]);
                assert(next == seen.push(nodes@[i as int]@));
                assert(next.drop_last() =~= seen);
            }
            let module = nodes[i].get_mod();
            let ghost before = out@;
            out.push(module);
            assert(out@.drop_last() =~= before);
            assert(out@.last() == module);
            i += 1;
        }
        assert(nodes@.take(nodes.len() as int) =~= nodes@);
        out
    }
}

} // verus!
