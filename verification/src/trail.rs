//! Trails: the place of a node under the routes root, as the route text and
//! the module path that the names on the way add up to.

use vstd::prelude::*;
use crate::text::{final_component, last_component, same_chars, slice_of, to_chars};

verus! {

/// `s` ends with `suffix`.
pub open spec fn ends_with(s: Seq<char>, suffix: Seq<char>) -> bool {
    s.len() >= suffix.len() && s.subrange(s.len() - suffix.len(), s.len() as int) == suffix
}

/// `path` names a source file.
pub open spec fn is_source(path: Seq<char>) -> bool {
    ends_with(path, ".rs"@)
}

/// The place of a node under the root: the route text and the module path
/// that the names from the root down to the node add up to.
#[derive(Debug, Clone, PartialEq, Eq)]
pub struct Trail {
    pub route: Vec<char>,
    pub module: Vec<char>,
}

/// The mathematical value of a [`Trail`].
pub struct TrailView {
    pub route: Seq<char>,
    pub module: Seq<char>,
}

impl View for Trail {
    type V = TrailView;

    open spec fn view(&self) -> TrailView {
        TrailView { route: self.route@, module: self.module@ }
    }
}

/// `name` without the source extension, where it has it.
pub open spec fn stem(name: Seq<char>) -> Seq<char> {
    if ends_with(name, ".rs"@) {
        name.take(name.len() - ".rs"@.len())
    } else {
        name
    }
}

/// The character that stands for `c` in a module name.
pub open spec fn clean_char(c: char) -> char {
    if c == '.' || c == '-' || c == ',' || c == ';' {
        '_'
    } else {
        c
    }
}

/// `name` as a module name: punctuation becomes `_`.
pub open spec fn cleaned_name(name: Seq<char>) -> Seq<char> {
    name.map_values(|c: char| clean_char(c))
}

/// The module that the file or directory `name` is: the index file is
/// `r#mod`, the name `super` is `_super`.
pub open spec fn module_name(name: Seq<char>) -> Seq<char> {
    let s = stem(name);
    if s == "mod"@ {
        "r#mod"@
    } else if s == "super"@ {
        "_super"@
    } else {
        cleaned_name(s)
    }
}

/// The path segment that the file or directory `name` adds to a route: none
/// for the index names `mod` and `index.html`, else the name without the
/// source extension.
pub open spec fn route_segment(name: Seq<char>) -> Option<Seq<char>> {
    if stem(name) == "mod"@ || name == "index.html"@ {
        None
    } else {
        Some(stem(name))
    }
}

/// `prefix` and `name` joined by `sep`; `name` alone under an empty prefix.
pub open spec fn join(prefix: Seq<char>, sep: Seq<char>, name: Seq<char>) -> Seq<char> {
    if prefix.len() == 0 {
        name
    } else {
        prefix + sep + name
    }
}

/// The trail after passing the file or directory `name`.
pub open spec fn extend(trail: TrailView, name: Seq<char>) -> TrailView {
    TrailView {
        route: match route_segment(name) {
            Some(segment) => join(trail.route, "/"@, segment),
            None => trail.route,
        },
        module: join(trail.module, "::"@, module_name(name)),
    }
}

/// The trail of the root at `path`: the root adds no segment to the routes,
/// and its module is named after it.
pub open spec fn root_trail(path: Seq<char>) -> TrailView {
    TrailView { route: Seq::empty(), module: module_name(last_component(path)) }
}

/// Whether `path` names a source file.
pub fn source_path(path: &[char]) -> (yes: bool)
    ensures
        yes == is_source(path@),
{
    proof {
        reveal_strlit(".rs");
    }
    let n = path.len();
    if n < 3 {
        return false;
    }
    let yes = path[n - 3] == '.' && path[n - 2] == 'r' && path[n - 1] == 's';
    proof {
        let tail = path@.subrange(n - 3, n as int);
        assert(tail[0] == path@[n - 3] && tail[1] == path@[n - 2] && tail[2] == path@[n - 1]);
        if yes {
            assert(tail =~= ".rs"@);
        }
    }
    yes
}

/// `name` without the source extension.
pub fn stem_of(name: &[char]) -> (out: Vec<char>)
    ensures
        out@ == stem(name@),
{
    proof {
        reveal_strlit(".rs");
    }
    if source_path(name) {
        slice_of(name, 0, name.len() - 3)
    } else {
        let out = slice_of(name, 0, name.len());
        assert(out@ =~= name@);
        out
    }
}

/// Replaces the punctuation of `name` that cannot stand in a module name.
pub fn clean_name(name: &[char]) -> (out: Vec<char>)
    ensures
        out@ == cleaned_name(name@),
{
    let mut out: Vec<char> = Vec::new();
    let mut i: usize = 0;
    while i < name.len()
        invariant
            i <= name.len(),
            out@ == cleaned_name(name@.take(i as int)),
        decreases name.len() - i,
    {
        let c = name[i];
        let r = if c == '.' || c == '-' || c == ',' || c == ';' {
            '_'
        } else {
            c
        };
        out.push(r);
        assert(out@ =~= cleaned_name(name@.take(i + 1)));
        i += 1;
    }
    assert(name@.take(name.len() as int) =~= name@);
    out
}

/// The module that the file or directory `name` is.
pub fn mod_name_of(name: &[char]) -> (out: Vec<char>)
    ensures
        out@ == module_name(name@),
{
    let s = stem_of(name);
    if same_chars(s.as_slice(), to_chars("mod").as_slice()) {
        to_chars("r#mod")
    } else if same_chars(s.as_slice(), to_chars("super").as_slice()) {
        to_chars("_super")
    } else {
        clean_name(s.as_slice())
    }
}

/// The path segment that the file or directory `name` adds to a route.
pub fn segment_of(name: &[char]) -> (out: Option<Vec<char>>)
    ensures
        match out {
            Some(segment) => route_segment(name@) == Some(segment@),
            None => route_segment(name@) is None,
        },
{
    let s = stem_of(name);
    if same_chars(s.as_slice(), to_chars("mod").as_slice()) || same_chars(
        name,
        to_chars("index.html").as_slice(),
    ) {
        None
    } else {
        Some(s)
    }
}

/// Joins `prefix` and `name` by `sep`.
pub fn join_chars(prefix: &[char], sep: &str, name: &[char]) -> (out: Vec<char>)
    ensures
        out@ == join(prefix@, sep@, name@),
{
    let mut out: Vec<char> = Vec::new();
    if prefix.len() > 0 {
        out.extend_from_slice(prefix);
        let mut s = to_chars(sep);
        out.append(&mut s);
    }
    out.extend_from_slice(name);
    assert(out@ =~= join(prefix@, sep@, name@));
    out
}

impl Trail {
    /// The trail after passing the file or directory `name`.
    pub fn extend(&self, name: &[char]) -> (out: Trail)
        ensures
            out@ == extend(self@, name@),
    {
        let route = match segment_of(name) {
            Some(segment) => join_chars(self.route.as_slice(), "/", segment.as_slice()),
            None => {
                let same = slice_of(self.route.as_slice(), 0, self.route.len());
                assert(same@ =~= self.route@);
                same
            },
        };
        let module = join_chars(self.module.as_slice(), "::", mod_name_of(name).as_slice());
        Trail { route, module }
    }

    /// The trail of the root at `path`.
    pub fn root(path: &str) -> (out: Trail)
        ensures
            out@ == root_trail(path@),
    {
        let chars = to_chars(path);
        let name = final_component(chars.as_slice());
        let out = Trail { route: Vec::new(), module: mod_name_of(name.as_slice()) };
        assert(out@.route =~= Seq::<char>::empty());
        out
    }

    /// The trail of the node at `path` under a parent at this trail.
    pub fn child(&self, path: &str) -> (out: Trail)
        ensures
            out@ == extend(self@, last_component(path@)),
    {
        let chars = to_chars(path);
        let name = final_component(chars.as_slice());
        self.extend(name.as_slice())
    }
}

} // verus!
