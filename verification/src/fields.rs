//! Named fields: an ordered list of name and value pairs in which a name is
//! looked up by its first entry.

use vstd::prelude::*;
use crate::text::same_text;

verus! {

/// The mathematical value of a [`FieldMap`]: its pairs of name and value, in order.
pub type Fields = Seq<(Seq<char>, Seq<char>)>;

/// Named string values, such as the captures of one matched request path.
#[derive(Debug, Clone, PartialEq, Eq)]
pub struct FieldMap {
    pub entries: Vec<(String, String)>,
}

impl View for FieldMap {
    type V = Fields;

    open spec fn view(&self) -> Fields {
        self.entries@.map_values(|e: (String, String)| (e.0@, e.1@))
    }
}

/// The value of the first entry of `m` named `key`.
pub open spec fn lookup(m: Fields, key: Seq<char>) -> Option<Seq<char>>
    decreases m.len(),
{
    if m.len() == 0 {
        None
    } else if m[0].0 == key {
        Some(m[0].1)
    } else {
        lookup(m.drop_first(), key)
    }
}

/// `m` with `key` bound to `value`: the entry named `key` is replaced where
/// there is one, and a new entry is added at the end where there is none.
pub open spec fn upsert(m: Fields, key: Seq<char>, value: Seq<char>) -> Fields
    decreases m.len(),
{
    if m.len() == 0 {
        seq![(key, value)]
    } else if m[0].0 == key {
        seq![(key, value)] + m.drop_first()
    } else {
        seq![m[0]] + upsert(m.drop_first(), key, value)
    }
}

/// No two entries of `m` share a name.
pub open spec fn names_distinct(m: Fields) -> bool {
    forall|i: int, j: int| 0 <= i < j < m.len() ==> (#[trigger] m[i]).0 != (#[trigger] m[j]).0
}

/// No entry of `m` before `upto` is named `key`.
pub open spec fn absent_before(m: Fields, key: Seq<char>, upto: int) -> bool {
    forall|j: int| 0 <= j < upto ==> (#[trigger] m[j]).0 != key
}

/// Where the first entry named `key` stands at `i`, `upsert` replaces that entry
/// and `lookup` reads it.
pub proof fn lemma_first_named(m: Fields, key: Seq<char>, value: Seq<char>, i: int)
    requires
        0 <= i < m.len(),
        m[i].0 == key,
        absent_before(m, key, i),
    ensures
        lookup(m, key) == Some(m[i].1),
        upsert(m, key, value) == m.update(i, (key, value)),
    decreases m.len(),
{
    if i == 0 {
        assert(seq![(key, value)] + m.drop_first() =~= m.update(0, (key, value)));
    } else {
        assert(m[0].0 != key);
        let rest = m.drop_first();
        assert forall|j: int| 0 <= j < i - 1 implies (#[trigger] rest[j]).0 != key by {
            assert(rest[j] == m[j + 1]);
        }
        lemma_first_named(rest, key, value, i - 1);
        assert(seq![m[0]] + rest.update(i - 1, (key, value)) =~= m.update(i, (key, value)));
    }
}

/// Where no entry is named `key`, `upsert` adds one at the end and `lookup`
/// finds nothing.
pub proof fn lemma_not_named(m: Fields, key: Seq<char>, value: Seq<char>)
    requires
        absent_before(m, key, m.len() as int),
    ensures
        lookup(m, key) is None,
        upsert(m, key, value) == m.push((key, value)),
    decreases m.len(),
{
    if m.len() == 0 {
        assert(seq![(key, value)] =~= m.push((key, value)));
    } else {
        assert(m[0].0 != key);
        let rest = m.drop_first();
        assert forall|j: int| 0 <= j < rest.len() implies (#[trigger] rest[j]).0 != key by {
            assert(rest[j] == m[j + 1]);
        }
        lemma_not_named(rest, key, value);
        assert(seq![m[0]] + rest.push((key, value)) =~= m.push((key, value)));
    }
}

/// After `key` is bound to `value`, looking `key` up gives `value`, and
/// looking any other name up gives what it gave before.
pub proof fn law_upsert_lookup(m: Fields, key: Seq<char>, value: Seq<char>, other: Seq<char>)
    ensures
        lookup(upsert(m, key, value), key) == Some(value),
        other != key ==> lookup(upsert(m, key, value), other) == lookup(m, other),
    decreases m.len(),
{
    if m.len() == 0 {
        assert(seq![(key, value)].drop_first() =~= m);
    } else if m[0].0 == key {
        let after = seq![(key, value)] + m.drop_first();
        assert(after.drop_first() =~= m.drop_first());
    } else {
        law_upsert_lookup(m.drop_first(), key, value, other);
        let after = seq![m[0]] + upsert(m.drop_first(), key, value);
        assert(after.drop_first() =~= upsert(m.drop_first(), key, value));
    }
}

/// Binding a name keeps the names apart: where no two entries share a name,
/// none do afterwards.
pub proof fn law_upsert_distinct(m: Fields, key: Seq<char>, value: Seq<char>)
    requires
        names_distinct(m),
    ensures
        names_distinct(upsert(m, key, value)),
{
    if exists|i: int| 0 <= i < m.len() && #[trigger] m[i].0 == key {
        let found = choose|i: int| 0 <= i < m.len() && #[trigger] m[i].0 == key;
        assert(absent_before(m, key, found)) by {
            assert forall|j: int| 0 <= j < found implies (#[trigger] m[j]).0 != key by {
                assert(m[j].0 != m[found].0);
            }
        }
        lemma_first_named(m, key, value, found);
        let after = m.update(found, (key, value));
        assert forall|i: int, j: int| 0 <= i < j < after.len() implies (#[trigger] after[i]).0 != (
        #[trigger] after[j]).0 by {
            assert(after[i].0 == m[i].0);
            assert(after[j].0 == m[j].0);
        }
    } else {
        assert(absent_before(m, key, m.len() as int));
        lemma_not_named(m, key, value);
        let after = m.push((key, value));
        assert forall|i: int, j: int| 0 <= i < j < after.len() implies (#[trigger] after[i]).0 != (
        #[trigger] after[j]).0 by {
            if j < m.len() {
                assert(after[i] == m[i] && after[j] == m[j]);
            } else {
                assert(after[i] == m[i]);
            }
        }
    }
}

impl FieldMap {
    /// A map without entries.
    pub fn new() -> (out: FieldMap)
        ensures
            out@ == Fields::empty(),
    {
        let out = FieldMap { entries: Vec::new() };
        assert(out@ =~= Fields::empty());
        out
    }

    /// The number of entries.
    pub fn len(&self) -> (n: usize)
        ensures
            n == self@.len(),
    {
        self.entries.len()
    }

    /// The position of the first entry named `key`.
    pub fn position(&self, key: &str) -> (found: Option<usize>)
        ensures
            match found {
                Some(i) => i < self@.len() && self@[i as int].0 == key@ && absent_before(
                    self@,
                    key@,
                    i as int,
                ),
                None => absent_before(self@, key@, self@.len() as int),
            },
    {
        let mut i: usize = 0;
        while i < self.entries.len()
            invariant
                i <= self.entries.len(),
                absent_before(self@, key@, i as int),
            decreases self.entries.len() - i,
        {
            if same_text(self.entries[i].0.as_str(), key) {
                return Some(i);
            }
            i += 1;
        }
        None
    }

    /// The value bound to `key`.
    pub fn get(&self, key: &str) -> (found: Option<&String>)
        ensures
            match found {
                Some(value) => lookup(self@, key@) == Some(value@),
                None => lookup(self@, key@) is None,
            },
    {
        match self.position(key) {
            Some(i) => {
                proof {
                    lemma_first_named(self@, key@, Seq::empty(), i as int);
                }
                Some(&self.entries[i].1)
            },
            None => {
                proof {
                    lemma_not_named(self@, key@, Seq::empty());
                }
                None
            },
        }
    }

    /// Binds `key` to `value`, replacing the value that `key` had.
    pub fn insert(&mut self, key: String, value: String)
        ensures
            final(self)@ == upsert(old(self)@, key@, value@),
    {
        match self.position(key.as_str()) {
            Some(i) => {
                proof {
                    lemma_first_named(self@, key@, value@, i as int);
                }
                self.entries.set(i, (key, value));
                assert(self@ =~= old(self)@.update(i as int, (key@, value@)));
            },
            None => {
                proof {
                    lemma_not_named(self@, key@, value@);
                }
                self.entries.push((key, value));
                assert(self@ =~= old(self)@.push((key@, value@)));
            },
        }
    }
}

} // verus!
