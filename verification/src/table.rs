//! The route table: compiled entries in precedence order, literal patterns
//! ahead of every pattern that holds a capture.

use vstd::prelude::*;
use crate::pattern::{RoutePattern, SegmentView};
use crate::validity::{has_capture, valid};

verus! {

/// What a route resolves to.
#[derive(Debug, Clone, PartialEq, Eq)]
pub enum Target {
    /// A handler, named by the module that defines it.
    Handler { module: String },
    /// A fixed response: an optional content type and the payload.
    Asset { content_type: Option<String>, body: Vec<u8> },
}

/// The mathematical value of a [`Target`].
pub enum TargetView {
    Handler { module: Seq<char> },
    Asset { content_type: Option<Seq<char>>, body: Seq<u8> },
}

impl View for Target {
    type V = TargetView;

    open spec fn view(&self) -> TargetView {
        match self {
            Target::Handler { module } => TargetView::Handler { module: module@ },
            Target::Asset { content_type, body } => TargetView::Asset {
                content_type: match content_type {
                    Some(t) => Some(t@),
                    None => None,
                },
                body: body@,
            },
        }
    }
}

/// One route: a pattern and what it resolves to.
#[derive(Debug, Clone, PartialEq, Eq)]
pub struct RouteEntry {
    pub pattern: RoutePattern,
    pub target: Target,
}

/// The mathematical value of a [`RouteEntry`].
pub struct RouteEntryView {
    pub pattern: Seq<SegmentView>,
    pub target: TargetView,
}

impl View for RouteEntry {
    type V = RouteEntryView;

    open spec fn view(&self) -> RouteEntryView {
        RouteEntryView { pattern: self.pattern@, target: self.target@ }
    }
}

/// The values of a list of entries.
pub open spec fn entry_views(entries: Seq<RouteEntry>) -> Seq<RouteEntryView> {
    entries.map_values(|e: RouteEntry| e@)
}

/// The entries of `es` without a capture, in their order.
pub open spec fn literal_entries(es: Seq<RouteEntryView>) -> Seq<RouteEntryView>
    decreases es.len(),
{
    if es.len() == 0 {
        Seq::empty()
    } else if has_capture(es.last().pattern) {
        literal_entries(es.drop_last())
    } else {
        literal_entries(es.drop_last()).push(es.last())
    }
}

/// The entries of `es` with a capture, in their order.
pub open spec fn dynamic_entries(es: Seq<RouteEntryView>) -> Seq<RouteEntryView>
    decreases es.len(),
{
    if es.len() == 0 {
        Seq::empty()
    } else if has_capture(es.last().pattern) {
        dynamic_entries(es.drop_last()).push(es.last())
    } else {
        dynamic_entries(es.drop_last())
    }
}

/// `es` in precedence order: the literal entries, then the dynamic ones, each
/// group in the order it had.
pub open spec fn by_precedence(es: Seq<RouteEntryView>) -> Seq<RouteEntryView> {
    literal_entries(es) + dynamic_entries(es)
}

/// No entry with a capture stands before an entry without one.
pub open spec fn partitioned(es: Seq<RouteEntryView>) -> bool {
    forall|i: int, j: int|
        0 <= i < j < es.len() && has_capture(#[trigger] es[i].pattern) ==> has_capture(
            #[trigger] es[j].pattern,
        )
}

/// Every entry of `es` has a valid pattern.
pub open spec fn all_valid(es: Seq<RouteEntryView>) -> bool {
    forall|i: int| 0 <= i < es.len() ==> valid(#[trigger] es[i].pattern)
}

/// Moves every entry without a capture ahead of every entry with one, keeping
/// the order within each group.
pub fn sort(entries: Vec<RouteEntry>) -> (out: Vec<RouteEntry>)
    ensures
        entry_views(out@) == by_precedence(entry_views(entries@)),
{
    let ghost all = entry_views(entries@);
    let mut literals: Vec<RouteEntry> = Vec::new();
    let mut dynamics: Vec<RouteEntry> = Vec::new();
    for entry in it: entries
        invariant
            it.seq() == entries@,
            entry_views(literals@) == literal_entries(all.take(it.index() as int)),
            entry_views(dynamics@) == dynamic_entries(all.take(it.index() as int)),
            all == entry_views(entries@),
    {
        let ghost i = it.index() as int;
        assert(all.take(i + 1).drop_last() =~= all.take(i));
        assert(all.take(i + 1).last() == entry@);
        if entry.pattern.is_dynamic() {
            let ghost before = entry_views(dynamics@);
            dynamics.push(entry);
            assert(entry_views(dynamics@) =~= before.push(entry@));
        } else {
            let ghost before = entry_views(literals@);
            literals.push(entry);
            assert(entry_views(literals@) =~= before.push(entry@));
        }
    }
    assert(all.take(all.len() as int) =~= all);
    let ghost a = entry_views(literals@);
    let ghost b = entry_views(dynamics@);
    literals.append(&mut dynamics);
    assert(entry_views(literals@) =~= a + b);
    literals
}

} // verus!
