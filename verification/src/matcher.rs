//! The dynamic matcher: walks a pattern over a request path with a cursor and
//! extracts the value of each capture.

use vstd::prelude::*;
use crate::fields::{FieldMap, Fields};
use crate::pattern::{RoutePattern, Segment, SegmentView};
use crate::text::{
    final_component,
    find_from,
    first_occurrence,
    last_component,
    lemma_first_occurrence,
    slice_of,
    to_chars,
    to_text,
};

verus! {

/// The literal anchor that bounds the capture at `k`: the segment after it,
/// where that is a literal with text.
pub open spec fn anchor_after(segs: Seq<SegmentView>, k: int) -> Option<Seq<char>> {
    if k + 1 < segs.len() {
        match segs[k + 1] {
            SegmentView::Literal(text) => if text.len() > 0 {
                Some(text)
            } else {
                None
            },
            SegmentView::Capture(_) => None,
        }
    } else {
        None
    }
}

/// Where the raw value of the capture at `k` ends: at the next occurrence of
/// its anchor, or at the end of the path where it has no anchor.
pub open spec fn capture_end(path: Seq<char>, segs: Seq<SegmentView>, k: int, cursor: int) -> Option<
    int,
> {
    match anchor_after(segs, k) {
        Some(anchor) => first_occurrence(path, anchor, cursor),
        None => Some(path.len() as int),
    }
}

/// The fields that the segments from `k` on extract from `path`, with the
/// cursor at `cursor`; `None` where an anchor is not found or a capture's
/// value is empty.
pub open spec fn walk(path: Seq<char>, segs: Seq<SegmentView>, k: int, cursor: int) -> Option<
    Fields,
>
    decreases segs.len() - k,
{
    if k < 0 || k >= segs.len() {
        Some(Seq::empty())
    } else {
        match segs[k] {
            SegmentView::Literal(text) => if text.len() == 0 {
                walk(path, segs, k + 1, cursor)
            } else {
                match first_occurrence(path, text, cursor) {
                    Some(at) => walk(path, segs, k + 1, at + text.len()),
                    None => None,
                }
            },
            SegmentView::Capture(name) => match capture_end(path, segs, k, cursor) {
                Some(end) => {
                    let value = last_component(path.subrange(cursor, end));
                    if value.len() == 0 {
                        None
                    } else {
                        match walk(path, segs, k + 1, end) {
                            Some(rest) => Some(seq![(name, value)] + rest),
                            None => None,
                        }
                    }
                },
                None => None,
            },
        }
    }
}

/// The fields that `segs` extracts from `path`, or `None` where the pattern
/// does not match. A pattern without captures that matches gives `Some` of
/// no fields.
pub open spec fn match_path(path: Seq<char>, segs: Seq<SegmentView>) -> Option<Fields> {
    walk(path, segs, 0, 0)
}

/// `found` put in front of what the rest of the walk gives.
pub open spec fn prepend(found: Fields, rest: Option<Fields>) -> Option<Fields> {
    match rest {
        Some(more) => Some(found + more),
        None => None,
    }
}

/// Where the raw value of the capture at `k` ends, given the cursor.
fn end_of_capture(path: &[char], pattern: &RoutePattern, k: usize, cursor: usize) -> (end: Option<
    usize,
>)
    requires
        k < pattern.segments.len(),
        cursor <= path.len(),
    ensures
        match end {
            Some(e) => capture_end(path@, pattern@, k as int, cursor as int) == Some(e as int)
                && cursor <= e <= path.len(),
            None => capture_end(path@, pattern@, k as int, cursor as int) is None,
        },
{
    if k + 1 < pattern.segments.len() {
        assert(pattern@[k + 1] == pattern.segments@[k + 1]@);
        match &pattern.segments[k + 1] {
            Segment::Literal(text) => {
                let anchor = to_chars(text.as_str());
                if anchor.len() > 0 {
                    proof {
                        lemma_first_occurrence(path@, anchor@, cursor as int);
                    }
                    find_from(path, anchor.as_slice(), cursor)
                } else {
                    Some(path.len())
                }
            },
            Segment::Capture(_) => Some(path.len()),
        }
    } else {
        Some(path.len())
    }
}

/// Matches `path` against `pattern`.
pub fn match_chars(path: &[char], pattern: &RoutePattern) -> (out: Option<FieldMap>)
    ensures
        match out {
            Some(fields) => match_path(path@, pattern@) == Some(fields@),
            None => match_path(path@, pattern@) is None,
        },
{
    let mut fields = FieldMap::new();
    let mut cursor: usize = 0;
    let mut k: usize = 0;
    let n = pattern.segments.len();
    assert(fields@ + walk(path@, pattern@, 0, 0).unwrap() =~= walk(path@, pattern@, 0, 0).unwrap());
    while k < n
        invariant
            k <= n == pattern.segments.len(),
            cursor <= path.len(),
            match_path(path@, pattern@) == prepend(
                fields@,
                walk(path@, pattern@, k as int, cursor as int),
            ),
        decreases n - k,
    {
        assert(pattern@[k as int] == pattern.segments@[k as int]@);
        match &pattern.segments[k] {
            Segment::Literal(text) => {
                let anchor = to_chars(text.as_str());
                if anchor.len() > 0 {
                    proof {
                        lemma_first_occurrence(path@, anchor@, cursor as int);
                    }
                    match find_from(path, anchor.as_slice(), cursor) {
                        Some(at) => {
                            cursor = at + anchor.len();
                        },
                        None => {
                            return None;
                        },
                    }
                }
            },
            Segment::Capture(name) => {
                match end_of_capture(path, pattern, k, cursor) {
                    Some(end) => {
                        let raw = slice_of(path, cursor, end);
                        let value = final_component(raw.as_slice());
                        if value.len() == 0 {
                            return None;
                        }
                        let ghost before = fields@;
                        let ghost rest = walk(path@, pattern@, k + 1, end as int);
                        fields.entries.push((name.clone(), to_text(value.as_slice())));
                        assert(fields@ =~= before.push((name@, value@)));
                        assert(rest is Some ==> before + (seq![(name@, value@)] + rest.unwrap())
                            =~= fields@ + rest.unwrap());
                        cursor = end;
                    },
                    None => {
                        return None;
                    },
                }
            },
        }
        k += 1;
    }
    assert(fields@ + Fields::empty() =~= fields@);
    Some(fields)
}

impl RoutePattern {
    /// Matches the request path `path` against this pattern and gives the
    /// value of each capture.
    pub fn matches(&self, path: &str) -> (out: Option<FieldMap>)
        ensures
            match out {
                Some(fields) => match_path(path@, self@) == Some(fields@),
                None => match_path(path@, self@) is None,
            },
    {
        let chars = to_chars(path);
        match_chars(chars.as_slice(), self)
    }
}

} // verus!
