//! What holds of every compiled pattern.

use vstd::prelude::*;
use crate::dispatch::{
    request_path,
    dispatched,
    first_dynamic,
    first_literal,
    lemma_first_dynamic,
    lemma_first_literal,
    literal_text,
    OutcomeView,
};
use crate::table::{all_valid, RouteEntryView};
use crate::fields::{names_distinct, Fields};
use crate::matcher::{anchor_after, capture_end, match_path, walk};
use crate::text::{after_last, first_occurrence, last_component, lemma_first_occurrence};
use crate::pattern::{
    capture_starts,
    compile_from,
    compiled,
    is_name_char,
    lemma_name_len_bound,
    literal_piece,
    name_len,
    ConventionViolation,
    SegmentView,
};
use crate::validity::{
    has_capture,
    has_duplicate_name,
    has_empty_name,
    has_unanchored,
    is_capture,
    name_at,
    unanchored_at,
    valid,
    violation,
};

verus! {

/// Literals and capture names have text, and a literal follows every capture
/// that is not the last segment.
pub open spec fn well_shaped(p: Seq<SegmentView>) -> bool {
    forall|k: int|
        0 <= k < p.len() ==> match #[trigger] p[k] {
            SegmentView::Literal(text) => text.len() > 0,
            SegmentView::Capture(name) => name.len() > 0 && (k + 1 < p.len() ==> p[k + 1] is Literal),
        }
}

/// The text that a segment stands for in a joined path.
pub open spec fn segment_text(segment: SegmentView) -> Seq<char> {
    match segment {
        SegmentView::Literal(text) => text,
        SegmentView::Capture(name) => seq!['_', '_'] + name,
    }
}

/// The joined path that a pattern stands for.
pub open spec fn rendered(p: Seq<SegmentView>) -> Seq<char>
    decreases p.len(),
{
    if p.len() == 0 {
        Seq::empty()
    } else {
        segment_text(p[0]) + rendered(p.drop_first())
    }
}

/// No capture begins anywhere in `s`.
pub open spec fn plain(s: Seq<char>) -> bool {
    forall|i: int| !capture_starts(s, i)
}

/// The run of name characters at the start of `s` ends at the end of `s` or
/// before a character that is none.
proof fn lemma_name_len_maximal(s: Seq<char>)
    ensures
        name_len(s) <= s.len(),
        name_len(s) < s.len() ==> !is_name_char(s[name_len(s) as int]),
    decreases s.len(),
{
    if s.len() > 0 && is_name_char(s[0]) {
        lemma_name_len_maximal(s.drop_first());
        let n = name_len(s.drop_first());
        if n < s.drop_first().len() {
            assert(s.drop_first()[n as int] == s[n as int + 1]);
        }
    }
}

/// With literal text pending, the segments begin with a literal.
proof fn lemma_pending_literal(s: Seq<char>, i: int, lit: int)
    requires
        0 <= lit < i <= s.len(),
    ensures
        compile_from(s, i, lit).len() > 0,
        compile_from(s, i, lit)[0] is Literal,
    decreases s.len() - i,
{
    if i >= s.len() {
    } else if capture_starts(s, i) {
        lemma_name_len_bound(s.skip(i + 2));
    } else {
        lemma_pending_literal(s, i + 1, lit);
    }
}

/// Putting a literal or a capture in front of a well-shaped pattern that
/// begins with a literal, or is empty, gives a well-shaped pattern.
proof fn lemma_shape_cons(head: SegmentView, rest: Seq<SegmentView>)
    requires
        well_shaped(rest),
        match head {
            SegmentView::Literal(text) => text.len() > 0,
            SegmentView::Capture(name) => name.len() > 0 && (rest.len() > 0 ==> rest[0] is Literal),
        },
    ensures
        well_shaped(seq![head] + rest),
{
    let p = seq![head] + rest;
    assert forall|k: int| 0 <= k < p.len() implies match #[trigger] p[k] {
        SegmentView::Literal(text) => text.len() > 0,
        SegmentView::Capture(name) => name.len() > 0 && (k + 1 < p.len() ==> p[k + 1] is Literal),
    } by {
        if k > 0 {
            assert(p[k] == rest[k - 1]);
            if k + 1 < p.len() {
                assert(p[k + 1] == rest[k]);
            }
        } else if rest.len() > 0 {
            assert(p[1] == rest[0]);
        }
    }
}

/// The segments that the compiler gives from any point on are well shaped.
proof fn lemma_shape_from(s: Seq<char>, i: int, lit: int)
    requires
        0 <= lit <= i <= s.len(),
    ensures
        well_shaped(compile_from(s, i, lit)),
    decreases s.len() - i,
{
    if i >= s.len() {
    } else if capture_starts(s, i) {
        let tail = s.skip(i + 2);
        lemma_name_len_maximal(tail);
        let n = name_len(tail);
        let e = i + 2 + n;
        assert(is_name_char(tail[0]));
        assert(n >= 1);
        let rest = compile_from(s, e, e);
        lemma_shape_from(s, e, e);
        if e < s.len() {
            assert(tail[n as int] == s[e]);
            assert(!capture_starts(s, e));
            lemma_pending_literal(s, e + 1, e);
        }
        let capture = SegmentView::Capture(s.subrange(i + 2, e));
        lemma_shape_cons(capture, rest);
        let after = seq![capture] + rest;
        if lit < i {
            let literal = SegmentView::Literal(s.subrange(lit, i));
            lemma_shape_cons(literal, after);
            assert(literal_piece(s, lit, i) + seq![capture] + rest =~= seq![literal] + after);
        } else {
            assert(literal_piece(s, lit, i) + seq![capture] + rest =~= after);
        }
    } else {
        lemma_shape_from(s, i + 1, lit);
    }
}

/// Every compiled pattern is well shaped.
pub proof fn law_compiled_shape(s: Seq<char>)
    ensures
        well_shaped(compiled(s)),
{
    lemma_shape_from(s, 0, 0);
}

/// A well-shaped pattern has no capture without a name and no capture
/// without an anchor.
pub proof fn lemma_shape_rules(p: Seq<SegmentView>)
    requires
        well_shaped(p),
    ensures
        !has_empty_name(p),
        !has_unanchored(p),
{
    assert forall|k: int| #[trigger] is_capture(p, k) implies name_at(p, k).len() > 0 by {
        assert(p[k] is Capture);
    }
    assert forall|k: int| !(#[trigger] unanchored_at(p, k)) by {
        if unanchored_at(p, k) {
            let j = choose|j: int| k < j && #[trigger] is_capture(p, j);
            assert(p[k] is Capture);
            assert(k + 1 < p.len());
            assert(p[k + 1] is Literal);
        }
    }
}

/// The only rule that a compiled pattern can break is the one on repeated
/// capture names.
pub proof fn law_compiled_violation(s: Seq<char>)
    ensures
        violation(compiled(s)) is None || violation(compiled(s)) == Some(
            ConventionViolation::DuplicateCapture,
        ),
{
    law_compiled_shape(s);
    lemma_shape_rules(compiled(s));
}

/// The text of two patterns put together is the text of each, put together.
proof fn lemma_rendered_add(a: Seq<SegmentView>, b: Seq<SegmentView>)
    ensures
        rendered(a + b) == rendered(a) + rendered(b),
    decreases a.len(),
{
    if a.len() == 0 {
        assert(a + b =~= b);
        assert(rendered(a) + rendered(b) =~= rendered(b));
    } else {
        assert((a + b).drop_first() =~= a.drop_first() + b);
        assert((a + b)[0] == a[0]);
        lemma_rendered_add(a.drop_first(), b);
        assert(segment_text(a[0]) + (rendered(a.drop_first()) + rendered(b)) =~= (segment_text(a[0])
            + rendered(a.drop_first())) + rendered(b));
    }
}

/// The text of a pattern of one segment.
proof fn lemma_rendered_one(segment: SegmentView)
    ensures
        rendered(seq![segment]) == segment_text(segment),
{
    let p = seq![segment];
    assert(p.drop_first() =~= Seq::<SegmentView>::empty());
    assert(segment_text(p[0]) + rendered(p.drop_first()) =~= segment_text(segment));
}

/// The segments from any point on stand for the text from the pending
/// literal on.
proof fn lemma_rendered_from(s: Seq<char>, i: int, lit: int)
    requires
        0 <= lit <= i <= s.len(),
    ensures
        rendered(compile_from(s, i, lit)) == s.subrange(lit, s.len() as int),
    decreases s.len() - i,
{
    let n = s.len() as int;
    if i >= s.len() {
        if lit < n {
            lemma_rendered_one(SegmentView::Literal(s.subrange(lit, n)));
        } else {
            assert(s.subrange(lit, n) =~= Seq::<char>::empty());
        }
    } else if capture_starts(s, i) {
        lemma_name_len_bound(s.skip(i + 2));
        let e = i + 2 + name_len(s.skip(i + 2));
        let capture = SegmentView::Capture(s.subrange(i + 2, e));
        let rest = compile_from(s, e, e);
        lemma_rendered_from(s, e, e);
        let front = literal_piece(s, lit, i);
        lemma_rendered_add(front + seq![capture], rest);
        lemma_rendered_add(front, seq![capture]);
        lemma_rendered_one(capture);
        if lit < i {
            lemma_rendered_one(SegmentView::Literal(s.subrange(lit, i)));
        }
        assert(rendered(front) =~= s.subrange(lit, i));
        assert(segment_text(capture) =~= s.subrange(i, e));
        assert(s.subrange(lit, i) + s.subrange(i, e) + s.subrange(e, n) =~= s.subrange(lit, n));
    } else {
        lemma_rendered_from(s, i + 1, lit);
    }
}

/// Compiling loses nothing: a compiled pattern stands for the joined path it
/// was compiled from.
pub proof fn law_compiled_renders(s: Seq<char>)
    ensures
        rendered(compiled(s)) == s,
{
    lemma_rendered_from(s, 0, 0);
    assert(s.subrange(0, s.len() as int) =~= s);
}

/// Where no capture begins from `i` on, the segments are the pending literal.
proof fn lemma_plain_from(s: Seq<char>, i: int, lit: int)
    requires
        0 <= lit <= i <= s.len(),
        plain(s),
    ensures
        compile_from(s, i, lit) == literal_piece(s, lit, s.len() as int),
    decreases s.len() - i,
{
    if i < s.len() {
        assert(!capture_starts(s, i));
        lemma_plain_from(s, i + 1, lit);
    }
}

/// A joined path in which no capture begins compiles to a pattern without a
/// capture whose literal text is the path itself.
pub proof fn law_plain_route(s: Seq<char>)
    requires
        plain(s),
    ensures
        !has_capture(compiled(s)),
        literal_text(compiled(s)) == s,
        violation(compiled(s)) is None,
{
    lemma_plain_from(s, 0, 0);
    let p = compiled(s);
    assert(!has_capture(p)) by {
        if has_capture(p) {
            let k = choose|k: int| #[trigger] is_capture(p, k);
            assert(p[k] is Literal);
        }
    }
    if s.len() > 0 {
        assert(p.drop_last() =~= Seq::<SegmentView>::empty());
        assert(s.subrange(0, s.len() as int) =~= s);
        assert(literal_text(p.drop_last()) + s =~= s);
    }
    assert(violation(p) is None) by {
        assert forall|k: int| !(#[trigger] is_capture(p, k)) by {
            if is_capture(p, k) {
                assert(p[k] is Literal);
            }
        }
        assert(!has_empty_name(p));
        assert(!crate::validity::has_duplicate_name(p));
        assert(!has_unanchored(p));
    }
}

/// The names of the captures of `p` from the segment `k` on, in order.
pub open spec fn capture_names(p: Seq<SegmentView>, k: int) -> Seq<Seq<char>>
    decreases p.len() - k,
{
    if k < 0 || k >= p.len() {
        Seq::empty()
    } else {
        match p[k] {
            SegmentView::Literal(_) => capture_names(p, k + 1),
            SegmentView::Capture(name) => seq![name] + capture_names(p, k + 1),
        }
    }
}

/// `fields` binds exactly `names`, in order, each to a value that has text
/// and holds no separator.
pub open spec fn binds(fields: Fields, names: Seq<Seq<char>>) -> bool {
    &&& fields.len() == names.len()
    &&& forall|i: int|
        0 <= i < fields.len() ==> {
            &&& (#[trigger] fields[i]).0 == names[i]
            &&& fields[i].1.len() > 0
            &&& !fields[i].1.contains('/')
        }
}

/// What follows the last `c` holds no `c`.
proof fn lemma_after_last_free(s: Seq<char>, c: char)
    ensures
        !after_last(s, c).contains(c),
    decreases s.len(),
{
    if s.len() == 0 || s.last() == c {
    } else {
        lemma_after_last_free(s.drop_last(), c);
        let before = after_last(s.drop_last(), c);
        let all = before.push(s.last());
        assert forall|i: int| 0 <= i < all.len() implies all[i] != c by {
            if i < before.len() {
                assert(before.contains(before[i]));
            }
        }
    }
}

/// A walk that succeeds binds every capture it passes.
proof fn lemma_walk_binds(path: Seq<char>, p: Seq<SegmentView>, k: int, cursor: int)
    requires
        0 <= k,
        0 <= cursor <= path.len(),
    ensures
        walk(path, p, k, cursor) matches Some(fields) ==> binds(fields, capture_names(p, k)),
    decreases p.len() - k,
{
    if k >= p.len() {
    } else {
        match p[k] {
            SegmentView::Literal(text) => {
                if text.len() == 0 {
                    lemma_walk_binds(path, p, k + 1, cursor);
                } else {
                    lemma_first_occurrence(path, text, cursor);
                    match first_occurrence(path, text, cursor) {
                        Some(at) => {
                            lemma_walk_binds(path, p, k + 1, at + text.len());
                        },
                        None => {},
                    }
                }
            },
            SegmentView::Capture(name) => {
                match anchor_after(p, k) {
                    Some(anchor) => {
                        lemma_first_occurrence(path, anchor, cursor);
                    },
                    None => {},
                }
                match capture_end(path, p, k, cursor) {
                    Some(end) => {
                        let value = last_component(path.subrange(cursor, end));
                        lemma_after_last_free(path.subrange(cursor, end), '/');
                        lemma_walk_binds(path, p, k + 1, end);
                        match walk(path, p, k + 1, end) {
                            Some(rest) => {
                                if value.len() > 0 {
                                    let fields = seq![(name, value)] + rest;
                                    let names = seq![name] + capture_names(p, k + 1);
                                    assert forall|i: int| 0 <= i < fields.len() implies {
                                        &&& (#[trigger] fields[i]).0 == names[i]
                                        &&& fields[i].1.len() > 0
                                        &&& !fields[i].1.contains('/')
                                    } by {
                                        if i > 0 {
                                            assert(fields[i] == rest[i - 1]);
                                            assert(names[i] == capture_names(p, k + 1)[i - 1]);
                                        }
                                    }
                                }
                            },
                            None => {},
                        }
                    },
                    None => {},
                }
            },
        }
    }
}

/// A match is complete: the fields are the captures of the pattern, in order,
/// and every value has text and holds no separator.
pub proof fn law_match_complete(path: Seq<char>, p: Seq<SegmentView>)
    ensures
        match_path(path, p) matches Some(fields) ==> binds(fields, capture_names(p, 0)),
{
    lemma_walk_binds(path, p, 0, 0);
}

/// The name at `i` of `capture_names(p, k)` is the name of a capture at or
/// after `k`, and names further on belong to later captures.
proof fn lemma_name_positions(p: Seq<SegmentView>, k: int, i: int) -> (at: int)
    requires
        0 <= k,
        0 <= i < capture_names(p, k).len(),
    ensures
        k <= at < p.len(),
        is_capture(p, at),
        name_at(p, at) == capture_names(p, k)[i],
        capture_names(p, at + 1) == capture_names(p, k).skip(i + 1),
    decreases p.len() - k,
{
    if k >= p.len() {
        0
    } else {
        match p[k] {
            SegmentView::Literal(_) => lemma_name_positions(p, k + 1, i),
            SegmentView::Capture(name) => {
                if i == 0 {
                    assert(capture_names(p, k).skip(1) =~= capture_names(p, k + 1));
                    k
                } else {
                    let at = lemma_name_positions(p, k + 1, i - 1);
                    assert(capture_names(p, k).skip(i + 1) =~= capture_names(p, k + 1).skip(i));
                    at
                }
            },
        }
    }
}

/// Under a pattern whose capture names differ, a match binds no name twice.
pub proof fn law_match_names_distinct(path: Seq<char>, p: Seq<SegmentView>)
    requires
        !has_duplicate_name(p),
    ensures
        match_path(path, p) matches Some(fields) ==> names_distinct(fields),
{
    law_match_complete(path, p);
    match match_path(path, p) {
        Some(fields) => {
            let names = capture_names(p, 0);
            assert forall|i: int, j: int| 0 <= i < j < fields.len() implies (#[trigger] fields[i]).0
                != (#[trigger] fields[j]).0 by {
                let a = lemma_name_positions(p, 0, i);
                assert(names.skip(i + 1)[j - i - 1] == names[j]);
                let b = lemma_name_positions(p, a + 1, j - i - 1);
                assert(a < b && is_capture(p, a) && is_capture(p, b));
            }
        },
        None => {},
    }
}

/// A dispatch on a table whose patterns are valid, such as a built table,
/// binds no name twice.
pub proof fn law_dispatch_names_distinct(es: Seq<RouteEntryView>, raw: Seq<char>)
    requires
        all_valid(es),
    ensures
        dispatched(es, raw) matches OutcomeView::Found { fields, .. } ==> names_distinct(fields),
{
    let path = request_path(raw);
    lemma_first_literal(es, path, 0);
    lemma_first_dynamic(es, path, 0);
    match first_literal(es, path, 0) {
        Some(_) => {},
        None => match first_dynamic(es, path, 0) {
            Some(j) => {
                assert(valid(es[j].pattern));
                law_match_names_distinct(path, es[j].pattern);
            },
            None => {},
        },
    }
}

} // verus!
