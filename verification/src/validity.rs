//! Validity of route patterns: capture names are present and unique, and every
//! capture that another capture follows is bounded by a literal anchor.

use vstd::prelude::*;
use crate::matcher::anchor_after;
use crate::pattern::{compile_segments, compiled, ConventionViolation, RoutePattern, Segment, SegmentView};
use crate::text::{same_text, to_chars};

verus! {

/// The segment at `k` is a capture.
pub open spec fn is_capture(segs: Seq<SegmentView>, k: int) -> bool {
    0 <= k < segs.len() && segs[k] is Capture
}

/// The name of the capture at `k`.
pub open spec fn name_at(segs: Seq<SegmentView>, k: int) -> Seq<char> {
    segs[k]->Capture_0
}

/// Some capture has an empty name.
pub open spec fn has_empty_name(segs: Seq<SegmentView>) -> bool {
    exists|k: int| #[trigger] is_capture(segs, k) && name_at(segs, k).len() == 0
}

/// Two captures share a name.
pub open spec fn has_duplicate_name(segs: Seq<SegmentView>) -> bool {
    exists|i: int, j: int|
        i < j && #[trigger] is_capture(segs, i) && #[trigger] is_capture(segs, j) && name_at(
            segs,
            i,
        ) == name_at(segs, j)
}

/// A capture stands somewhere after `k`.
pub open spec fn capture_follows(segs: Seq<SegmentView>, k: int) -> bool {
    exists|j: int| k < j && #[trigger] is_capture(segs, j)
}

/// The capture at `k` is followed by another capture and has no literal
/// anchor right behind it, so its value can never be bounded.
pub open spec fn unanchored_at(segs: Seq<SegmentView>, k: int) -> bool {
    is_capture(segs, k) && capture_follows(segs, k) && anchor_after(segs, k) is None
}

/// Some capture is unanchored.
pub open spec fn has_unanchored(segs: Seq<SegmentView>) -> bool {
    exists|k: int| #[trigger] unanchored_at(segs, k)
}

/// The first rule that `segs` breaks, if any.
pub open spec fn violation(segs: Seq<SegmentView>) -> Option<ConventionViolation> {
    if has_empty_name(segs) {
        Some(ConventionViolation::EmptyCapture)
    } else if has_duplicate_name(segs) {
        Some(ConventionViolation::DuplicateCapture)
    } else if has_unanchored(segs) {
        Some(ConventionViolation::UnresolvableAnchor)
    } else {
        None
    }
}

/// `segs` breaks no rule.
pub open spec fn valid(segs: Seq<SegmentView>) -> bool {
    violation(segs) is None
}

/// Some segment is a capture.
pub open spec fn has_capture(segs: Seq<SegmentView>) -> bool {
    exists|k: int| #[trigger] is_capture(segs, k)
}

impl RoutePattern {
    /// Whether the pattern holds a capture.
    pub fn is_dynamic(&self) -> (dynamic: bool)
        ensures
            dynamic == has_capture(self@),
    {
        let mut k: usize = 0;
        while k < self.segments.len()
            invariant
                k <= self.segments.len(),
                forall|j: int| 0 <= j < k ==> !is_capture(self@, j),
            decreases self.segments.len() - k,
        {
            assert(self@[k as int] == self.segments@[k as int]@);
            match &self.segments[k] {
                Segment::Capture(_) => {
                    assert(is_capture(self@, k as int));
                    return true;
                },
                Segment::Literal(_) => {},
            }
            k += 1;
        }
        false
    }

    /// Whether every capture has a name.
    fn names_present(&self) -> (ok: bool)
        ensures
            ok == !has_empty_name(self@),
    {
        let mut k: usize = 0;
        while k < self.segments.len()
            invariant
                k <= self.segments.len(),
                forall|j: int| 0 <= j < k && is_capture(self@, j) ==> name_at(self@, j).len() > 0,
            decreases self.segments.len() - k,
        {
            assert(self@[k as int] == self.segments@[k as int]@);
            match &self.segments[k] {
                Segment::Capture(name) => {
                    if to_chars(name.as_str()).len() == 0 {
                        assert(is_capture(self@, k as int));
                        return false;
                    }
                },
                Segment::Literal(_) => {},
            }
            k += 1;
        }
        true
    }

    /// Whether a capture after `i` has the name `name`.
    fn named_later(&self, i: usize, name: &str) -> (found: bool)
        requires
            i < self.segments.len(),
        ensures
            found == exists|j: int| i < j && #[trigger] is_capture(self@, j) && name_at(self@, j) == name@,
    {
        let mut j: usize = i + 1;
        while j < self.segments.len()
            invariant
                i < j <= self.segments.len(),
                forall|m: int| i < m < j && is_capture(self@, m) ==> name_at(self@, m) != name@,
            decreases self.segments.len() - j,
        {
            assert(self@[j as int] == self.segments@[j as int]@);
            match &self.segments[j] {
                Segment::Capture(other) => {
                    if same_text(other.as_str(), name) {
                        assert(is_capture(self@, j as int));
                        return true;
                    }
                },
                Segment::Literal(_) => {},
            }
            j += 1;
        }
        false
    }

    /// Whether the capture names are pairwise different.
    fn names_unique(&self) -> (ok: bool)
        ensures
            ok == !has_duplicate_name(self@),
    {
        let mut i: usize = 0;
        while i < self.segments.len()
            invariant
                i <= self.segments.len(),
                forall|a: int, b: int|
                    0 <= a < i && a < b && is_capture(self@, a) && is_capture(self@, b)
                        ==> name_at(self@, a) != name_at(self@, b),
            decreases self.segments.len() - i,
        {
            assert(self@[i as int] == self.segments@[i as int]@);
            match &self.segments[i] {
                Segment::Capture(name) => {
                    if self.named_later(i, name.as_str()) {
                        assert(is_capture(self@, i as int));
                        return false;
                    }
                },
                Segment::Literal(_) => {},
            }
            i += 1;
        }
        true
    }

    /// Whether a literal with text stands right after the segment at `k`.
    fn anchored(&self, k: usize) -> (ok: bool)
        requires
            k < self.segments.len(),
        ensures
            ok == anchor_after(self@, k as int) is Some,
    {
        if k + 1 < self.segments.len() {
            assert(self@[k + 1] == self.segments@[k + 1]@);
            match &self.segments[k + 1] {
                Segment::Literal(text) => to_chars(text.as_str()).len() > 0,
                Segment::Capture(_) => false,
            }
        } else {
            false
        }
    }

    /// Whether every capture that another capture follows has an anchor.
    fn anchors_resolvable(&self) -> (ok: bool)
        ensures
            ok == !has_unanchored(self@),
    {
        let n = self.segments.len();
        let mut k: usize = n;
        let mut later: bool = false;
        while k > 0
            invariant
                k <= n == self.segments.len(),
                later == capture_follows(self@, k as int - 1),
                forall|j: int| k <= j < n ==> !unanchored_at(self@, j),
            decreases k,
        {
            k -= 1;
            assert(self@[k as int] == self.segments@[k as int]@);
            match &self.segments[k] {
                Segment::Capture(_) => {
                    if later && !self.anchored(k) {
                        assert(unanchored_at(self@, k as int));
                        return false;
                    }
                    assert(is_capture(self@, k as int));
                    later = true;
                },
                Segment::Literal(_) => {
                    assert(later ==> capture_follows(self@, k as int - 1)) by {
                        if later {
                            let j = choose|j: int| k < j && #[trigger] is_capture(self@, j);
                            assert(k - 1 < j && is_capture(self@, j));
                        }
                    }
                    assert(!later ==> !capture_follows(self@, k as int - 1)) by {
                        if !later && capture_follows(self@, k as int - 1) {
                            let j = choose|j: int| k - 1 < j && #[trigger] is_capture(self@, j);
                            assert(j != k);
                            assert(k < j && is_capture(self@, j));
                        }
                    }
                },
            }
        }
        true
    }

    /// The first rule that the pattern breaks, if any.
    pub fn check(&self) -> (found: Option<ConventionViolation>)
        ensures
            found == violation(self@),
    {
        if !self.names_present() {
            Some(ConventionViolation::EmptyCapture)
        } else if !self.names_unique() {
            Some(ConventionViolation::DuplicateCapture)
        } else if !self.anchors_resolvable() {
            Some(ConventionViolation::UnresolvableAnchor)
        } else {
            None
        }
    }

    /// A pattern of the given segments, where they break no rule.
    pub fn new(segments: Vec<Segment>) -> (out: Result<RoutePattern, ConventionViolation>)
        ensures
            match out {
                Ok(pattern) => pattern.segments == segments && valid(pattern@),
                Err(e) => violation(segments@.map_values(|s: Segment| s@)) == Some(e),
            },
    {
        let pattern = RoutePattern { segments };
        match pattern.check() {
            Some(e) => Err(e),
            None => Ok(pattern),
        }
    }

    /// The pattern that the joined path `route` stands for. A route is refused
    /// only where two of its captures share a name.
    pub fn compile(route: &str) -> (out: Result<RoutePattern, ConventionViolation>)
        ensures
            match out {
                Ok(pattern) => pattern@ == compiled(route@) && valid(compiled(route@)),
                Err(e) => e == ConventionViolation::DuplicateCapture && has_duplicate_name(
                    compiled(route@),
                ),
            },
    {
        proof {
            crate::shape::law_compiled_violation(route@);
        }
        let chars = to_chars(route);
        RoutePattern::new(compile_segments(chars.as_slice()))
    }
}

} // verus!
