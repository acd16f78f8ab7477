//! Character-sequence helpers shared by the route compiler and the dispatcher.

use vstd::prelude::*;

verus! {

/// Trusted: `String::push` appends the character `c` to the end of the string
/// and changes nothing else.
pub assume_specification[ String::push ](s: &mut String, c: char)
    ensures
        final(s)@ == old(s)@.push(c),
;

/// The characters of `s`, in order.
pub fn to_chars(s: &str) -> (out: Vec<char>)
    ensures
        out@ == s@,
{
    let mut out: Vec<char> = Vec::new();
    for c in it: s.chars()
        invariant
            out@ == it.seq().take(it.index() as int),
            it.seq() == s@,
    {
        out.push(c);
    }
    out
}

/// The string made of the characters of `chars`, in order.
pub fn to_text(chars: &[char]) -> (out: String)
    ensures
        out@ == chars@,
{
    let mut out = String::new();
    let mut i: usize = 0;
    while i < chars.len()
        invariant
            i <= chars.len(),
            out@ == chars@.take(i as int),
        decreases chars.len() - i,
    {
        out.push(chars[i]);
        i += 1;
    }
    out
}

/// Whether two strings hold the same characters.
pub fn same_text(a: &str, b: &str) -> (same: bool)
    ensures
        same == (a@ == b@),
{
    let x = to_chars(a);
    let y = to_chars(b);
    same_chars(x.as_slice(), y.as_slice())
}

/// Whether two character sequences are equal.
pub fn same_chars(a: &[char], b: &[char]) -> (same: bool)
    ensures
        same == (a@ == b@),
{
    if a.len() != b.len() {
        return false;
    }
    let mut i: usize = 0;
    while i < a.len()
        invariant
            i <= a.len() == b.len(),
            a@.take(i as int) == b@.take(i as int),
        decreases a.len() - i,
    {
        if a[i] != b[i] {
            return false;
        }
        assert(a@.take(i + 1) =~= a@.take(i as int).push(a@[i as int]));
        assert(b@.take(i + 1) =~= b@.take(i as int).push(b@[i as int]));
        i += 1;
    }
    assert(a@.take(a.len() as int) =~= a@);
    assert(b@.take(b.len() as int) =~= b@);
    true
}

/// `needle` stands in `hay` at position `at`.
pub open spec fn occurs_at(hay: Seq<char>, needle: Seq<char>, at: int) -> bool {
    &&& 0 <= at
    &&& at + needle.len() <= hay.len()
    &&& hay.subrange(at, at + needle.len()) == needle
}

/// The first position at or after `from` where `needle` stands in `hay`, if any.
pub open spec fn first_occurrence(hay: Seq<char>, needle: Seq<char>, from: int) -> Option<int>
    decreases hay.len() + 1 - from,
{
    if from + needle.len() > hay.len() {
        None
    } else if occurs_at(hay, needle, from) {
        Some(from)
    } else {
        first_occurrence(hay, needle, from + 1)
    }
}

/// What `first_occurrence` finds is an occurrence with none before it, and it
/// finds nothing only where there is none.
pub proof fn lemma_first_occurrence(hay: Seq<char>, needle: Seq<char>, from: int)
    requires
        0 <= from,
    ensures
        match first_occurrence(hay, needle, from) {
            Some(p) => {
                &&& from <= p
                &&& occurs_at(hay, needle, p)
                &&& forall|q: int| from <= q < p ==> !occurs_at(hay, needle, q)
            },
            None => forall|q: int| from <= q ==> !occurs_at(hay, needle, q),
        },
    decreases hay.len() + 1 - from,
{
    if from + needle.len() > hay.len() {
    } else if occurs_at(hay, needle, from) {
    } else {
        lemma_first_occurrence(hay, needle, from + 1);
    }
}

/// Whether `needle` stands in `hay` at `at`.
pub fn matches_at(hay: &[char], needle: &[char], at: usize) -> (found: bool)
    ensures
        found == occurs_at(hay@, needle@, at as int),
{
    if at > hay.len() || needle.len() > hay.len() - at {
        return false;
    }
    let mut k: usize = 0;
    while k < needle.len()
        invariant
            k <= needle.len(),
            at + needle.len() <= hay.len(),
            forall|j: int| 0 <= j < k ==> hay@[at + j] == needle@[j],
        decreases needle.len() - k,
    {
        if hay[at + k] != needle[k] {
            proof {
                let sub = hay@.subrange(at as int, at + needle.len());
                assert(sub[k as int] == hay@[at + k]);
            }
            return false;
        }
        k += 1;
    }
    assert(hay@.subrange(at as int, at + needle.len()) =~= needle@);
    true
}

/// Searches `hay` for `needle`, starting at `from`, and gives the first position found.
pub fn find_from(hay: &[char], needle: &[char], from: usize) -> (found: Option<usize>)
    ensures
        match found {
            Some(p) => first_occurrence(hay@, needle@, from as int) == Some(p as int),
            None => first_occurrence(hay@, needle@, from as int) is None,
        },
{
    if from > hay.len() || needle.len() > hay.len() - from {
        return None;
    }
    let last: usize = hay.len() - needle.len();
    let mut p: usize = from;
    loop
        invariant
            from <= p <= last,
            last == hay.len() - needle.len(),
            first_occurrence(hay@, needle@, from as int) == first_occurrence(
                hay@,
                needle@,
                p as int,
            ),
        decreases last - p,
    {
        if matches_at(hay, needle, p) {
            return Some(p);
        }
        if p == last {
            assert(first_occurrence(hay@, needle@, p + 1) is None);
            return None;
        }
        p += 1;
    }
}

/// `s` without the separators `/` at its start.
pub open spec fn trim_front(s: Seq<char>) -> Seq<char>
    decreases s.len(),
{
    if s.len() > 0 && s[0] == '/' {
        trim_front(s.drop_first())
    } else {
        s
    }
}

/// `s` without the separators `/` at its end.
pub open spec fn trim_back(s: Seq<char>) -> Seq<char>
    decreases s.len(),
{
    if s.len() > 0 && s.last() == '/' {
        trim_back(s.drop_last())
    } else {
        s
    }
}

/// `s` without the separators `/` at either end.
pub open spec fn trimmed(s: Seq<char>) -> Seq<char> {
    trim_back(trim_front(s))
}

/// The part of `s` before its first `c`; all of `s` where it has none.
pub open spec fn before_first(s: Seq<char>, c: char) -> Seq<char>
    decreases s.len(),
{
    if s.len() == 0 || s[0] == c {
        Seq::empty()
    } else {
        seq![s[0]] + before_first(s.drop_first(), c)
    }
}

/// The part of `s` after its first `c`; nothing where it has none.
pub open spec fn after_first(s: Seq<char>, c: char) -> Seq<char>
    decreases s.len(),
{
    if s.len() == 0 {
        Seq::empty()
    } else if s[0] == c {
        s.drop_first()
    } else {
        after_first(s.drop_first(), c)
    }
}

/// The part of `s` after its last `c`; all of `s` where it has none.
pub open spec fn after_last(s: Seq<char>, c: char) -> Seq<char>
    decreases s.len(),
{
    if s.len() == 0 || s.last() == c {
        Seq::empty()
    } else {
        after_last(s.drop_last(), c).push(s.last())
    }
}

/// The part of `s` before its first `?`; all of `s` where it has none.
pub open spec fn before_query(s: Seq<char>) -> Seq<char> {
    before_first(s, '?')
}

/// The part of `s` after its last `/`; all of `s` where it has none.
pub open spec fn last_component(s: Seq<char>) -> Seq<char> {
    after_last(s, '/')
}

/// The pieces of `s` between the occurrences of `c`, in order.
pub open spec fn split(s: Seq<char>, c: char) -> Seq<Seq<char>>
    decreases s.len(),
{
    if s.contains(c) {
        proof {
            lemma_first_cut(s, c);
        }
        seq![before_first(s, c)] + split(after_first(s, c), c)
    } else {
        seq![s]
    }
}

/// How the first `c` cuts `s`: what stands before it is a prefix that holds no
/// `c`, the `c` follows it, and what stands after it is the rest.
pub proof fn lemma_first_cut(s: Seq<char>, c: char)
    ensures
        after_first(s, c).len() <= s.len(),
        s.contains(c) ==> before_first(s, c).len() + 1 + after_first(s, c).len() == s.len(),
        s.contains(c) ==> s[before_first(s, c).len() as int] == c,
        !s.contains(c) ==> before_first(s, c) == s,
        before_first(s, c).len() <= s.len(),
        before_first(s, c) == s.take(before_first(s, c).len() as int),
        !before_first(s, c).contains(c),
    decreases s.len(),
{
    if s.len() == 0 {
        assert(!s.contains(c));
        assert(s.take(0) =~= Seq::<char>::empty());
    } else if s[0] == c {
        assert(s.contains(c));
        assert(s.take(0) =~= Seq::<char>::empty());
    } else {
        let rest = s.drop_first();
        lemma_first_cut(rest, c);
        let b = before_first(rest, c);
        assert(s.contains(c) ==> rest.contains(c)) by {
            if s.contains(c) {
                let i = choose|i: int| 0 <= i < s.len() && s[i] == c;
                assert(rest[i - 1] == c);
            }
        }
        assert(rest.contains(c) ==> s.contains(c)) by {
            if rest.contains(c) {
                let i = choose|i: int| 0 <= i < rest.len() && rest[i] == c;
                assert(s[i + 1] == c);
            }
        }
        if s.contains(c) {
            assert(s[(1 + b.len()) as int] == rest[b.len() as int]);
        } else {
            assert(seq![s[0]] + rest =~= s);
        }
        assert(seq![s[0]] + rest.take(b.len() as int) =~= s.take(1 + b.len() as int));
        let whole = seq![s[0]] + b;
        assert forall|i: int| 0 <= i < whole.len() implies whole[i] != c by {
            if i > 0 {
                assert(whole[i] == b[i - 1]);
                assert(b.contains(b[i - 1]));
            }
        }
    }
}

/// A copy of the characters of `s` from `lo` up to `hi`.
pub fn slice_of(s: &[char], lo: usize, hi: usize) -> (out: Vec<char>)
    requires
        lo <= hi <= s.len(),
    ensures
        out@ == s@.subrange(lo as int, hi as int),
{
    let mut out: Vec<char> = Vec::new();
    let mut i: usize = lo;
    while i < hi
        invariant
            lo <= i <= hi <= s.len(),
            out@ == s@.subrange(lo as int, i as int),
        decreases hi - i,
    {
        out.push(s[i]);
        i += 1;
    }
    out
}

/// Removes the separators `/` at both ends of `s`.
pub fn trim_separators(s: &[char]) -> (out: Vec<char>)
    ensures
        out@ == trimmed(s@),
{
    let n = s.len();
    let mut lo: usize = 0;
    assert(s@.skip(0) =~= s@);
    while lo < n && s[lo] == '/'
        invariant
            lo <= n == s.len(),
            trim_front(s@) == trim_front(s@.skip(lo as int)),
        decreases n - lo,
    {
        assert(s@.skip(lo as int).drop_first() =~= s@.skip(lo as int + 1));
        lo += 1;
    }
    assert(trim_front(s@) == s@.skip(lo as int));
    let ghost front = s@.skip(lo as int);
    let mut hi: usize = n;
    assert(front.take(n - lo) =~= front);
    while hi > lo && s[hi - 1] == '/'
        invariant
            lo <= hi <= n == s.len(),
            front == s@.skip(lo as int),
            trim_back(front) == trim_back(front.take(hi - lo)),
        decreases hi,
    {
        assert(front.take(hi - lo).drop_last() =~= front.take(hi - lo - 1));
        hi -= 1;
    }
    assert(front.take(hi - lo) =~= s@.subrange(lo as int, hi as int));
    slice_of(s, lo, hi)
}

/// The part of `s` before its first `c`.
pub fn until_first(s: &[char], c: char) -> (out: Vec<char>)
    ensures
        out@ == before_first(s@, c),
{
    let n = s.len();
    let mut out: Vec<char> = Vec::new();
    let mut i: usize = 0;
    assert(s@.skip(0) =~= s@);
    assert(out@ + before_first(s@, c) =~= before_first(s@, c));
    while i < n && s[i] != c
        invariant
            i <= n == s.len(),
            before_first(s@, c) == out@ + before_first(s@.skip(i as int), c),
        decreases n - i,
    {
        assert(s@.skip(i as int).drop_first() =~= s@.skip(i as int + 1));
        out.push(s[i]);
        i += 1;
    }
    out
}

/// The part of `s` after its first `c`.
pub fn from_first(s: &[char], c: char) -> (out: Vec<char>)
    ensures
        out@ == after_first(s@, c),
{
    let n = s.len();
    let mut i: usize = 0;
    assert(s@.skip(0) =~= s@);
    while i < n && s[i] != c
        invariant
            i <= n == s.len(),
            after_first(s@, c) == after_first(s@.skip(i as int), c),
        decreases n - i,
    {
        assert(s@.skip(i as int).drop_first() =~= s@.skip(i as int + 1));
        i += 1;
    }
    if i < n {
        assert(s@.skip(i as int).drop_first() =~= s@.subrange(i + 1, n as int));
        slice_of(s, i + 1, n)
    } else {
        Vec::new()
    }
}

/// The part of `s` after its last `c`.
pub fn from_last(s: &[char], c: char) -> (out: Vec<char>)
    ensures
        out@ == after_last(s@, c),
{
    let n = s.len();
    let mut lo: usize = n;
    assert(s@.take(n as int) =~= s@);
    assert(after_last(s@, c) + s@.skip(n as int) =~= after_last(s@, c));
    while lo > 0 && s[lo - 1] != c
        invariant
            lo <= n == s.len(),
            after_last(s@, c) == after_last(s@.take(lo as int), c) + s@.skip(lo as int),
        decreases lo,
    {
        assert(s@.take(lo as int).drop_last() =~= s@.take(lo as int - 1));
        assert(seq![s@[lo as int - 1]] + s@.skip(lo as int) =~= s@.skip(lo as int - 1));
        lo -= 1;
    }
    assert(s@.skip(lo as int) =~= s@.subrange(lo as int, n as int));
    slice_of(s, lo, n)
}

/// Whether `c` stands in `s`.
pub fn has_char(s: &[char], c: char) -> (found: bool)
    ensures
        found == s@.contains(c),
{
    let mut i: usize = 0;
    while i < s.len()
        invariant
            i <= s.len(),
            forall|j: int| 0 <= j < i ==> s@[j] != c,
        decreases s.len() - i,
    {
        if s[i] == c {
            return true;
        }
        i += 1;
    }
    false
}

/// Cuts `s` at its first `?`.
pub fn strip_query(s: &[char]) -> (out: Vec<char>)
    ensures
        out@ == before_query(s@),
{
    until_first(s, '?')
}

/// The part of `s` that follows its last `/`.
pub fn final_component(s: &[char]) -> (out: Vec<char>)
    ensures
        out@ == last_component(s@),
{
    from_last(s, '/')
}

/// Cuts `s` at every `c`.
pub fn split_at_char(s: &[char], c: char) -> (out: Vec<Vec<char>>)
    ensures
        out@.map_values(|p: Vec<char>| p@) == split(s@, c),
{
    let mut out: Vec<Vec<char>> = Vec::new();
    let mut rest: Vec<char> = slice_of(s, 0, s.len());
    assert(rest@ =~= s@);
    assert(out@.map_values(|p: Vec<char>| p@) + split(rest@, c) =~= split(s@, c));
    while has_char(rest.as_slice(), c)
        invariant
            split(s@, c) == out@.map_values(|p: Vec<char>| p@) + split(rest@, c),
        decreases rest@.len(),
    {
        proof {
            lemma_first_cut(rest@, c);
        }
        let ghost before = out@.map_values(|p: Vec<char>| p@);
        let piece = until_first(rest.as_slice(), c);
        let next = from_first(rest.as_slice(), c);
        out.push(piece);
        assert(out@.map_values(|p: Vec<char>| p@) =~= before.push(piece@));
        assert(before + (seq![piece@] + split(next@, c)) =~= before.push(piece@) + split(next@, c));
        rest = next;
    }
    let ghost before = out@.map_values(|p: Vec<char>| p@);
    out.push(rest);
    assert(out@.map_values(|p: Vec<char>| p@) =~= before.push(rest@));
    assert(before.push(rest@) =~= before + seq![rest@]);
    out
}

} // verus!
