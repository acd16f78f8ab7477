//! Route patterns: alternating literal anchors and named captures, and the
//! compiler that derives a pattern from a route's joined path.

use vstd::prelude::*;
use crate::text::{slice_of, to_text};

verus! {

/// One piece of a route pattern.
#[derive(Debug, Clone, PartialEq, Eq)]
pub enum Segment {
    /// Fixed text that must occur in the request path.
    Literal(String),
    /// A named placeholder whose value is taken from the request path.
    Capture(String),
}

/// The mathematical value of a [`Segment`].
pub enum SegmentView {
    Literal(Seq<char>),
    Capture(Seq<char>),
}

impl View for Segment {
    type V = SegmentView;

    open spec fn view(&self) -> SegmentView {
        match self {
            Segment::Literal(text) => SegmentView::Literal(text@),
            Segment::Capture(name) => SegmentView::Capture(name@),
        }
    }
}

/// An ordered sequence of segments.
#[derive(Debug, Clone, PartialEq, Eq)]
pub struct RoutePattern {
    pub segments: Vec<Segment>,
}

impl View for RoutePattern {
    type V = Seq<SegmentView>;

    open spec fn view(&self) -> Seq<SegmentView> {
        self.segments@.map_values(|s: Segment| s@)
    }
}

/// Why a node or a pattern is kept out of the route table.
#[derive(Debug, Clone, Copy, PartialEq, Eq, Structural)]
pub enum ConventionViolation {
    /// A source file does not hold the handler marker.
    MissingHandler,
    /// A capture has no name.
    EmptyCapture,
    /// Two captures of one pattern share a name.
    DuplicateCapture,
    /// A capture that is not the last one has no literal anchor behind it.
    UnresolvableAnchor,
}

/// Whether the regular expression `pattern` finds a match in `text`, as the
/// `regex` crate decides it. A pattern that does not compile finds nothing.
pub uninterp spec fn regex_finds(pattern: Seq<char>, text: Seq<char>) -> bool;

/// Trusted: compiles `pattern` with `regex::Regex::new` and searches `text`
/// with `Regex::is_match`. The result is what `regex_finds` names.
#[verifier::external_body]
fn regex_match(pattern: &str, text: &str) -> (found: bool)
    ensures
        found == regex_finds(pattern@, text@),
{
    regex::Regex::new(pattern).map_or(false, |compiled| compiled.is_match(text))
}

/// The regular expression that a text of one name character matches.
pub open spec fn name_class() -> Seq<char> {
    r"^[\w\-_]$"@
}

/// The first character beyond ASCII.
pub const BEYOND_ASCII: char = '\u{80}';

/// ASCII letters, digits, `_` and `-`.
pub open spec fn is_ascii_name_char(c: char) -> bool {
    ('a' <= c && c <= 'z') || ('A' <= c && c <= 'Z') || ('0' <= c && c <= '9') || c == '_' || c
        == '-'
}

/// Characters that may stand in a capture name: the ASCII name characters,
/// and the characters beyond ASCII that are word characters to `name_class`.
pub open spec fn is_name_char(c: char) -> bool {
    is_ascii_name_char(c) || (c >= BEYOND_ASCII && regex_finds(name_class(), seq![c]))
}

/// The length of the longest run of name characters at the start of `s`.
pub open spec fn name_len(s: Seq<char>) -> nat
    decreases s.len(),
{
    if s.len() > 0 && is_name_char(s[0]) {
        1 + name_len(s.drop_first())
    } else {
        0
    }
}

/// A run of name characters is no longer than the text it starts.
pub proof fn lemma_name_len_bound(s: Seq<char>)
    ensures
        name_len(s) <= s.len(),
    decreases s.len(),
{
    if s.len() > 0 && is_name_char(s[0]) {
        lemma_name_len_bound(s.drop_first());
    }
}

/// A capture begins at `i`: the marker `__` followed by a name character.
pub open spec fn capture_starts(s: Seq<char>, i: int) -> bool {
    &&& 0 <= i
    &&& i + 2 < s.len()
    &&& s[i] == '_'
    &&& s[i + 1] == '_'
    &&& is_name_char(s[i + 2])
}

/// The literal made of `s[from..to]`, or nothing where that range is empty.
pub open spec fn literal_piece(s: Seq<char>, from: int, to: int) -> Seq<SegmentView> {
    if from < to {
        seq![SegmentView::Literal(s.subrange(from, to))]
    } else {
        Seq::empty()
    }
}

/// The segments of `s[lit..]`, given that no capture begins in `s[lit..i]`.
pub open spec fn compile_from(s: Seq<char>, i: int, lit: int) -> Seq<SegmentView>
    decreases s.len() - i,
{
    if i >= s.len() {
        literal_piece(s, lit, s.len() as int)
    } else if capture_starts(s, i) {
        let n = name_len(s.skip(i + 2));
        proof {
            lemma_name_len_bound(s.skip(i + 2));
        }
        literal_piece(s, lit, i) + seq![SegmentView::Capture(s.subrange(i + 2, i + 2 + n))]
            + compile_from(s, i + 2 + n, i + 2 + n)
    } else {
        compile_from(s, i + 1, lit)
    }
}

/// The pattern that a route's joined path stands for: each `__name` is a
/// capture, and the text between captures is a literal anchor.
pub open spec fn compiled(s: Seq<char>) -> Seq<SegmentView> {
    compile_from(s, 0, 0)
}

/// Whether `c` may stand in a capture name, where `word` tells whether
/// `name_class` finds a match in the text of `c` alone.
pub fn name_char_given(c: char, word: bool) -> (yes: bool)
    ensures
        yes == (is_ascii_name_char(c) || (c >= BEYOND_ASCII && word)),
{
    ('a' <= c && c <= 'z') || ('A' <= c && c <= 'Z') || ('0' <= c && c <= '9') || c == '_' || c
        == '-' || (c >= BEYOND_ASCII && word)
}

/// Whether `c` may stand in a capture name. The regular expression is asked
/// only about characters beyond ASCII.
pub fn name_char(c: char) -> (yes: bool)
    ensures
        yes == is_name_char(c),
{
    let word = if c >= BEYOND_ASCII {
        let mut text = String::new();
        text.push(c);
        assert(text@ =~= seq![c]);
        regex_match(r"^[\w\-_]$", text.as_str())
    } else {
        false
    };
    name_char_given(c, word)
}

/// The end of the run of name characters that starts at `from`.
pub fn name_end(s: &[char], from: usize) -> (end: usize)
    requires
        from <= s.len(),
    ensures
        end == from + name_len(s@.skip(from as int)),
        end <= s.len(),
{
    let mut end: usize = from;
    while end < s.len() && name_char(s[end])
        invariant
            from <= end <= s.len(),
            name_len(s@.skip(from as int)) == (end - from) + name_len(s@.skip(end as int)),
        decreases s.len() - end,
    {
        assert(s@.skip(end as int).drop_first() =~= s@.skip(end as int + 1));
        end += 1;
    }
    end
}

/// Splits a joined path into literal anchors and captures.
pub fn compile_segments(s: &[char]) -> (out: Vec<Segment>)
    ensures
        out@.map_values(|g: Segment| g@) == compiled(s@),
{
    let n = s.len();
    let mut out: Vec<Segment> = Vec::new();
    let mut i: usize = 0;
    let mut lit: usize = 0;
    assert(out@.map_values(|g: Segment| g@) + compile_from(s@, 0, 0) =~= compiled(s@));
    while i < n
        invariant
            lit <= i <= n == s.len(),
            compiled(s@) == out@.map_values(|g: Segment| g@) + compile_from(s@, i as int, lit as int),
        decreases n - i,
    {
        if n - i > 2 && s[i] == '_' && s[i + 1] == '_' && name_char(s[i + 2]) {
            let end = name_end(s, i + 2);
            let ghost before = out@.map_values(|g: Segment| g@);
            if lit < i {
                let text = to_text(slice_of(s, lit, i).as_slice());
                out.push(Segment::Literal(text));
            }
            assert(out@.map_values(|g: Segment| g@) =~= before + literal_piece(s@, lit as int, i as int));
            let name = to_text(slice_of(s, i + 2, end).as_slice());
            out.push(Segment::Capture(name));
            assert(out@.map_values(|g: Segment| g@) =~= before + literal_piece(
                s@,
                lit as int,
                i as int,
            ) + seq![SegmentView::Capture(s@.subrange(i + 2, end as int))]);
            i = end;
            lit = end;
        } else {
            i += 1;
        }
    }
    let ghost before = out@.map_values(|g: Segment| g@);
    if lit < n {
        let text = to_text(slice_of(s, lit, n).as_slice());
        out.push(Segment::Literal(text));
    }
    assert(out@.map_values(|g: Segment| g@) =~= before + literal_piece(s@, lit as int, n as int));
    out
}

} // verus!
