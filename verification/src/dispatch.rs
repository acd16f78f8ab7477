//! The dispatcher: resolves a raw request path against a route table.

use vstd::prelude::*;
use vstd::seq_lib::{lemma_multiset_commutative, to_multiset_build};
use crate::fields::{FieldMap, Fields};
use crate::matcher::{match_chars, match_path};
use crate::pattern::{RoutePattern, Segment, SegmentView};
use crate::table::{
    by_precedence,
    dynamic_entries,
    entry_views,
    literal_entries,
    partitioned,
    all_valid,
    sort,
    RouteEntry,
    RouteEntryView,
};
use crate::text::{before_query, same_chars, strip_query, to_chars, trim_separators, trimmed};
use crate::validity::{has_capture, valid};

verus! {

/// The text of the literal segments of `segs`, joined in order.
pub open spec fn literal_text(segs: Seq<SegmentView>) -> Seq<char>
    decreases segs.len(),
{
    if segs.len() == 0 {
        Seq::empty()
    } else {
        match segs.last() {
            SegmentView::Literal(text) => literal_text(segs.drop_last()) + text,
            SegmentView::Capture(_) => literal_text(segs.drop_last()),
        }
    }
}

/// The request path as it is matched: cut at the first `?`, then freed of the
/// separators at both ends.
pub open spec fn request_path(raw: Seq<char>) -> Seq<char> {
    trimmed(before_query(raw))
}

/// `entry` has no capture and its text is exactly `path`.
pub open spec fn equals_literal(entry: RouteEntryView, path: Seq<char>) -> bool {
    !has_capture(entry.pattern) && literal_text(entry.pattern) == path
}

/// `entry` has a capture and its pattern matches `path`.
pub open spec fn matches_dynamic(entry: RouteEntryView, path: Seq<char>) -> bool {
    has_capture(entry.pattern) && match_path(path, entry.pattern) is Some
}

/// The first entry at or after `from` whose literal pattern equals `path`.
pub open spec fn first_literal(es: Seq<RouteEntryView>, path: Seq<char>, from: int) -> Option<int>
    decreases es.len() - from,
{
    if from < 0 || from >= es.len() {
        None
    } else if equals_literal(es[from], path) {
        Some(from)
    } else {
        first_literal(es, path, from + 1)
    }
}

/// The first entry at or after `from` whose capture pattern matches `path`.
pub open spec fn first_dynamic(es: Seq<RouteEntryView>, path: Seq<char>, from: int) -> Option<int>
    decreases es.len() - from,
{
    if from < 0 || from >= es.len() {
        None
    } else if matches_dynamic(es[from], path) {
        Some(from)
    } else {
        first_dynamic(es, path, from + 1)
    }
}

/// What `first_literal` finds is a literal entry equal to the path with none
/// before it, and it finds nothing only where there is none.
pub proof fn lemma_first_literal(es: Seq<RouteEntryView>, path: Seq<char>, from: int)
    requires
        0 <= from,
    ensures
        match first_literal(es, path, from) {
            Some(i) => {
                &&& from <= i < es.len()
                &&& equals_literal(es[i], path)
                &&& forall|q: int| from <= q < i ==> !equals_literal(#[trigger] es[q], path)
            },
            None => forall|q: int| from <= q < es.len() ==> !equals_literal(#[trigger] es[q], path),
        },
    decreases es.len() - from,
{
    if from < es.len() && !equals_literal(es[from], path) {
        lemma_first_literal(es, path, from + 1);
    }
}

/// What `first_dynamic` finds is a capture entry that matches the path with
/// none before it, and it finds nothing only where there is none.
pub proof fn lemma_first_dynamic(es: Seq<RouteEntryView>, path: Seq<char>, from: int)
    requires
        0 <= from,
    ensures
        match first_dynamic(es, path, from) {
            Some(i) => {
                &&& from <= i < es.len()
                &&& matches_dynamic(es[i], path)
                &&& forall|q: int| from <= q < i ==> !matches_dynamic(#[trigger] es[q], path)
            },
            None => forall|q: int| from <= q < es.len() ==> !matches_dynamic(#[trigger] es[q], path),
        },
    decreases es.len() - from,
{
    if from < es.len() && !matches_dynamic(es[from], path) {
        lemma_first_dynamic(es, path, from + 1);
    }
}

/// The index that `resolve` gives is an index of the table.
pub open spec fn in_table(outcome: OutcomeView, len: nat) -> bool {
    match outcome {
        OutcomeView::Found { index, .. } => 0 <= index < len,
        OutcomeView::NotFound => true,
    }
}

/// The mathematical value of an [`Outcome`].
pub enum OutcomeView {
    Found { index: int, fields: Fields },
    NotFound,
}

/// The entry that a clean path resolves to: the first literal entry equal to
/// it; where there is none, the first capture entry that matches it.
pub open spec fn resolve(es: Seq<RouteEntryView>, path: Seq<char>) -> OutcomeView {
    match first_literal(es, path, 0) {
        Some(i) => OutcomeView::Found { index: i, fields: Seq::empty() },
        None => match first_dynamic(es, path, 0) {
            Some(j) => OutcomeView::Found {
                index: j,
                fields: match_path(path, es[j].pattern).unwrap(),
            },
            None => OutcomeView::NotFound,
        },
    }
}

/// What a raw request path resolves to.
pub open spec fn dispatched(es: Seq<RouteEntryView>, raw: Seq<char>) -> OutcomeView {
    resolve(es, request_path(raw))
}

/// The result of a dispatch.
#[derive(Debug, Clone, PartialEq, Eq)]
pub enum Outcome {
    /// The entry at `index` was selected, with the values of its captures.
    Found { index: usize, fields: FieldMap },
    /// No entry accepts the path.
    NotFound,
}

impl View for Outcome {
    type V = OutcomeView;

    open spec fn view(&self) -> OutcomeView {
        match self {
            Outcome::Found { index, fields } => OutcomeView::Found {
                index: *index as int,
                fields: fields@,
            },
            Outcome::NotFound => OutcomeView::NotFound,
        }
    }
}

impl RoutePattern {
    /// The text of the literal segments, joined in order.
    pub fn literal_chars(&self) -> (out: Vec<char>)
        ensures
            out@ == literal_text(self@),
    {
        let mut out: Vec<char> = Vec::new();
        let mut k: usize = 0;
        while k < self.segments.len()
            invariant
                k <= self.segments.len(),
                out@ == literal_text(self@.take(k as int)),
            decreases self.segments.len() - k,
        {
            assert(self@[k as int] == self.segments@[k as int]@);
            assert(self@.take(k + 1).drop_last() =~= self@.take(k as int));
            assert(self@.take(k + 1).last() == self@[k as int]);
            match &self.segments[k] {
                Segment::Literal(text) => {
                    let mut chars = to_chars(text.as_str());
                    out.append(&mut chars);
                },
                Segment::Capture(_) => {},
            }
            k += 1;
        }
        assert(self@.take(self.segments.len() as int) =~= self@);
        out
    }
}

/// The cleaned form of a raw request path.
pub fn clean(raw: &str) -> (out: Vec<char>)
    ensures
        out@ == request_path(raw@),
{
    let chars = to_chars(raw);
    let cut = strip_query(chars.as_slice());
    trim_separators(cut.as_slice())
}

/// Resolves the clean path `path` against `entries`.
pub fn resolve_chars(entries: &Vec<RouteEntry>, path: &[char]) -> (out: Outcome)
    ensures
        out@ == resolve(entry_views(entries@), path@),
        in_table(out@, entries@.len()),
{
    let ghost es = entry_views(entries@);
    let n = entries.len();
    let mut i: usize = 0;
    while i < n
        invariant
            i <= n == entries.len(),
            es == entry_views(entries@),
            first_literal(es, path@, 0) == first_literal(es, path@, i as int),
        decreases n - i,
    {
        assert(es[i as int] == entries@[i as int]@);
        if !entries[i].pattern.is_dynamic() {
            let text = entries[i].pattern.literal_chars();
            if same_chars(text.as_slice(), path) {
                return Outcome::Found { index: i, fields: FieldMap::new() };
            }
        }
        i += 1;
    }
    let mut j: usize = 0;
    while j < n
        invariant
            j <= n == entries.len(),
            es == entry_views(entries@),
            first_literal(es, path@, 0) is None,
            first_dynamic(es, path@, 0) == first_dynamic(es, path@, j as int),
        decreases n - j,
    {
        assert(es[j as int] == entries@[j as int]@);
        if entries[j].pattern.is_dynamic() {
            match match_chars(path, &entries[j].pattern) {
                Some(fields) => {
                    return Outcome::Found { index: j, fields };
                },
                None => {},
            }
        }
        j += 1;
    }
    Outcome::NotFound
}

/// The route table: entries in precedence order.
#[derive(Debug, PartialEq, Eq)]
pub struct RouteTable {
    entries: Vec<RouteEntry>,
}

impl View for RouteTable {
    type V = Seq<RouteEntryView>;

    closed spec fn view(&self) -> Seq<RouteEntryView> {
        entry_views(self.entries@)
    }
}

impl RouteTable {
    #[verifier::type_invariant]
    spec fn ordered(self) -> bool {
        partitioned(entry_views(self.entries@))
    }

    /// The table of the given entries, put in precedence order.
    pub fn new(entries: Vec<RouteEntry>) -> (out: RouteTable)
        ensures
            out@ == by_precedence(entry_views(entries@)),
    {
        proof {
            law_precedence_partitions(entry_views(entries@));
        }
        RouteTable { entries: sort(entries) }
    }

    /// The entries, in precedence order.
    pub fn entries(&self) -> (out: &Vec<RouteEntry>)
        ensures
            entry_views(out@) == self@,
            partitioned(self@),
    {
        proof {
            use_type_invariant(self);
        }
        &self.entries
    }

    /// The number of entries.
    pub fn len(&self) -> (n: usize)
        ensures
            n == self@.len(),
    {
        self.entries.len()
    }

    /// Resolves the raw request path `raw`: the query is cut off, the
    /// separators at both ends are dropped, and the first literal entry equal
    /// to what is left is selected; where there is none, the first capture
    /// entry that matches it.
    pub fn dispatch(&self, raw: &str) -> (out: Outcome)
        ensures
            out@ == dispatched(self@, raw@),
            in_table(out@, self@.len()),
    {
        let path = clean(raw);
        resolve_chars(&self.entries, path.as_slice())
    }
}

/// Precedence of literal routes: where the cleaned form of `raw` is exactly
/// the text of the literal entry at `i`, dispatch selects a literal entry with
/// that text, the first one in the table, with no fields, whatever capture
/// patterns would match the path too.
pub proof fn law_literal_precedence(es: Seq<RouteEntryView>, raw: Seq<char>, i: int)
    requires
        0 <= i < es.len(),
        equals_literal(es[i], request_path(raw)),
    ensures
        dispatched(es, raw) matches OutcomeView::Found { index, fields } && {
            &&& 0 <= index <= i
            &&& equals_literal(es[index], request_path(raw))
            &&& fields == Fields::empty()
            &&& forall|q: int| 0 <= q < index ==> !equals_literal(#[trigger] es[q], request_path(raw))
        },
{
    lemma_first_literal(es, request_path(raw), 0);
}

/// Precedence for a verbatim path: a path that is equal to the text of the
/// literal entry at `i`, and that cleaning leaves as it is, selects a literal
/// entry with that text.
pub proof fn law_verbatim_precedence(es: Seq<RouteEntryView>, path: Seq<char>, i: int)
    requires
        0 <= i < es.len(),
        equals_literal(es[i], path),
        request_path(path) == path,
    ensures
        dispatched(es, path) matches OutcomeView::Found { index, fields } && {
            &&& 0 <= index <= i
            &&& equals_literal(es[index], path)
            &&& fields == Fields::empty()
        },
{
    law_literal_precedence(es, path, i);
}

/// A capture entry is selected only where no literal entry equals the path,
/// and then it is the first capture entry that matches.
pub proof fn law_dynamic_selection(es: Seq<RouteEntryView>, raw: Seq<char>)
    ensures
        match dispatched(es, raw) {
            OutcomeView::Found { index, fields } => {
                &&& 0 <= index < es.len()
                &&& equals_literal(es[index], request_path(raw)) || {
                    &&& matches_dynamic(es[index], request_path(raw))
                    &&& match_path(request_path(raw), es[index].pattern) == Some(fields)
                    &&& forall|q: int|
                        0 <= q < es.len() ==> !equals_literal(#[trigger] es[q], request_path(raw))
                    &&& forall|q: int|
                        0 <= q < index ==> !matches_dynamic(#[trigger] es[q], request_path(raw))
                }
            },
            OutcomeView::NotFound => forall|q: int|
                0 <= q < es.len() ==> !equals_literal(#[trigger] es[q], request_path(raw))
                    && !matches_dynamic(es[q], request_path(raw)),
        },
{
    lemma_first_literal(es, request_path(raw), 0);
    lemma_first_dynamic(es, request_path(raw), 0);
}

/// Every entry of `literal_entries` is without a capture, every entry of
/// `dynamic_entries` has one.
pub proof fn lemma_groups(es: Seq<RouteEntryView>)
    ensures
        forall|i: int|
            0 <= i < literal_entries(es).len() ==> !has_capture(
                #[trigger] literal_entries(es)[i].pattern,
            ),
        forall|i: int|
            0 <= i < dynamic_entries(es).len() ==> has_capture(
                #[trigger] dynamic_entries(es)[i].pattern,
            ),
    decreases es.len(),
{
    if es.len() > 0 {
        lemma_groups(es.drop_last());
    }
}

/// Precedence order keeps validity: where every entry of a list has a valid
/// pattern, so has every entry of the list in precedence order.
pub proof fn lemma_groups_keep(es: Seq<RouteEntryView>)
    requires
        all_valid(es),
    ensures
        all_valid(literal_entries(es)),
        all_valid(dynamic_entries(es)),
        all_valid(by_precedence(es)),
    decreases es.len(),
{
    if es.len() > 0 {
        assert(all_valid(es.drop_last())) by {
            assert forall|i: int| 0 <= i < es.drop_last().len() implies valid(
                #[trigger] es.drop_last()[i].pattern,
            ) by {
                assert(es.drop_last()[i] == es[i]);
            }
        }
        lemma_groups_keep(es.drop_last());
        assert(valid(es[es.len() - 1].pattern));
    }
    let lits = literal_entries(es);
    let dyns = dynamic_entries(es);
    assert forall|i: int| 0 <= i < by_precedence(es).len() implies valid(
        #[trigger] by_precedence(es)[i].pattern,
    ) by {
        if i < lits.len() {
            assert(by_precedence(es)[i] == lits[i]);
        } else {
            assert(by_precedence(es)[i] == dyns[i - lits.len()]);
        }
    }
}

/// Precedence order is partitioned.
pub proof fn law_precedence_partitions(es: Seq<RouteEntryView>)
    ensures
        partitioned(by_precedence(es)),
{
    lemma_groups(es);
}

/// The literal entries of a list of literal entries followed by dynamic ones
/// are the former, its dynamic entries the latter.
pub proof fn lemma_split_groups(lits: Seq<RouteEntryView>, dyns: Seq<RouteEntryView>)
    requires
        forall|i: int| 0 <= i < lits.len() ==> !has_capture(#[trigger] lits[i].pattern),
        forall|i: int| 0 <= i < dyns.len() ==> has_capture(#[trigger] dyns[i].pattern),
    ensures
        literal_entries(lits + dyns) == lits,
        dynamic_entries(lits + dyns) == dyns,
    decreases lits.len() + dyns.len(),
{
    let all = lits + dyns;
    if dyns.len() > 0 {
        assert(all.drop_last() =~= lits + dyns.drop_last());
        assert(all.last() == dyns.last());
        lemma_split_groups(lits, dyns.drop_last());
        assert(dyns.drop_last().push(dyns.last()) =~= dyns);
    } else if lits.len() > 0 {
        assert(all =~= lits);
        assert(all.drop_last() =~= lits.drop_last() + dyns);
        lemma_split_groups(lits.drop_last(), dyns);
        assert(lits.drop_last().push(lits.last()) =~= lits);
        assert(dyns =~= Seq::<RouteEntryView>::empty());
    } else {
        assert(all =~= Seq::<RouteEntryView>::empty());
        assert(lits =~= Seq::<RouteEntryView>::empty());
        assert(dyns =~= Seq::<RouteEntryView>::empty());
    }
}

/// Putting a list in precedence order twice gives what doing it once gives.
pub proof fn law_precedence_idempotent(es: Seq<RouteEntryView>)
    ensures
        by_precedence(by_precedence(es)) == by_precedence(es),
{
    lemma_groups(es);
    lemma_split_groups(literal_entries(es), dynamic_entries(es));
}

/// Precedence order keeps every entry: it holds the same entries, each as
/// often as the list it was made from.
pub proof fn law_precedence_keeps_entries(es: Seq<RouteEntryView>)
    ensures
        by_precedence(es).len() == es.len(),
        by_precedence(es).to_multiset() == es.to_multiset(),
    decreases es.len(),
{
    let lits = literal_entries(es);
    let dyns = dynamic_entries(es);
    lemma_multiset_commutative(lits, dyns);
    if es.len() == 0 {
        assert(by_precedence(es) =~= es);
    } else {
        let front = es.drop_last();
        let last = es.last();
        law_precedence_keeps_entries(front);
        lemma_multiset_commutative(literal_entries(front), dynamic_entries(front));
        to_multiset_build(front, last);
        assert(front.push(last) =~= es);
        if has_capture(last.pattern) {
            to_multiset_build(dynamic_entries(front), last);
        } else {
            to_multiset_build(literal_entries(front), last);
        }
        assert(by_precedence(es).to_multiset() =~= es.to_multiset());
    }
}

/// `entry` accepts `path`: as a literal equal to it, or as a capture pattern
/// that matches it.
pub open spec fn accepts(entry: RouteEntryView, path: Seq<char>) -> bool {
    equals_literal(entry, path) || matches_dynamic(entry, path)
}

/// The first entry at or after `from` that accepts `path`.
pub open spec fn first_accepting(es: Seq<RouteEntryView>, path: Seq<char>, from: int) -> Option<int>
    decreases es.len() - from,
{
    if from < 0 || from >= es.len() {
        None
    } else if accepts(es[from], path) {
        Some(from)
    } else {
        first_accepting(es, path, from + 1)
    }
}

/// What `first_accepting` finds accepts the path with none before it, and it
/// finds nothing only where no entry accepts the path.
proof fn lemma_first_accepting(es: Seq<RouteEntryView>, path: Seq<char>, from: int)
    requires
        0 <= from,
    ensures
        match first_accepting(es, path, from) {
            Some(i) => {
                &&& from <= i < es.len()
                &&& accepts(es[i], path)
                &&& forall|q: int| from <= q < i ==> !accepts(#[trigger] es[q], path)
            },
            None => forall|q: int| from <= q < es.len() ==> !accepts(#[trigger] es[q], path),
        },
    decreases es.len() - from,
{
    if from < es.len() && !accepts(es[from], path) {
        lemma_first_accepting(es, path, from + 1);
    }
}

/// In a partitioned table, precedence is table order: the entry that a path
/// resolves to is the first entry of the table that accepts it.
pub proof fn law_table_order(es: Seq<RouteEntryView>, path: Seq<char>)
    requires
        partitioned(es),
    ensures
        match resolve(es, path) {
            OutcomeView::Found { index, .. } => first_accepting(es, path, 0) == Some(index),
            OutcomeView::NotFound => first_accepting(es, path, 0) is None,
        },
{
    lemma_first_literal(es, path, 0);
    lemma_first_dynamic(es, path, 0);
    lemma_first_accepting(es, path, 0);
    match first_accepting(es, path, 0) {
        Some(a) => {
            match first_literal(es, path, 0) {
                Some(i) => {
                    if a < i {
                        assert(matches_dynamic(es[a], path));
                        assert(has_capture(es[a].pattern));
                        assert(has_capture(es[i].pattern));
                    }
                },
                None => {},
            }
        },
        None => {},
    }
}

} // verus!
