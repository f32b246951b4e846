//! An ordered mapping from string to string, as used for header fields,
//! allowed methods and the members of a response body.
//!
//! The model of a mapping is the sequence of its `(name, value)` pairs, each
//! a sequence of characters, in the order in which the names were first set.

use vstd::prelude::*;

verus! {

/// The model of one entry: its name and its value.
pub type Pair = (Seq<char>, Seq<char>);

/// Index of the first pair of `s` named `name`, or the length of `s` when
/// there is none.
pub open spec fn index_of(s: Seq<Pair>, name: Seq<char>) -> nat
    decreases s.len(),
{
    if s.len() == 0 {
        0
    } else if s[0].0 == name {
        0
    } else {
        1 + index_of(s.skip(1), name)
    }
}

/// Whether some pair of `s` is named `name`.
pub open spec fn has_name(s: Seq<Pair>, name: Seq<char>) -> bool {
    index_of(s, name) < s.len()
}

/// The value that `s` gives to `name`, if any.
pub open spec fn value_of(s: Seq<Pair>, name: Seq<char>) -> Option<Seq<char>> {
    if has_name(s, name) {
        Some(s[index_of(s, name) as int].1)
    } else {
        None
    }
}

/// `s` with `name` set to `value`: in place where `s` names it already, at
/// the end otherwise.
pub open spec fn with_pair(s: Seq<Pair>, name: Seq<char>, value: Seq<char>) -> Seq<Pair> {
    if has_name(s, name) {
        s.update(index_of(s, name) as int, (name, value))
    } else {
        s.push((name, value))
    }
}

/// No two pairs of `s` have the same name.
pub open spec fn distinct_names(s: Seq<Pair>) -> bool {
    forall|i: int, j: int| 0 <= i < j < s.len() ==> (#[trigger] s[i]).0 != (#[trigger] s[j]).0
}

/// What `index_of` finds: the first pair of that name, and none before it.
pub proof fn lemma_index_of(s: Seq<Pair>, name: Seq<char>)
    ensures
        index_of(s, name) <= s.len(),
        has_name(s, name) ==> s[index_of(s, name) as int].0 == name,
        forall|i: int| 0 <= i < index_of(s, name) ==> (#[trigger] s[i]).0 != name,
        has_name(s, name) <==> exists|i: int| 0 <= i < s.len() && (#[trigger] s[i]).0 == name,
    decreases s.len(),
{
    if s.len() > 0 && s[0].0 != name {
        let t = s.skip(1);
        lemma_index_of(t, name);
        assert forall|i: int| 0 <= i < index_of(s, name) implies (#[trigger] s[i]).0 != name by {
            if i > 0 {
                assert(s[i] == t[i - 1]);
            }
        }
        if has_name(s, name) {
            assert(s[index_of(s, name) as int] == t[index_of(t, name) as int]);
        }
    }
    if exists|i: int| 0 <= i < s.len() && (#[trigger] s[i]).0 == name {
        let i = choose|i: int| 0 <= i < s.len() && (#[trigger] s[i]).0 == name;
        if index_of(s, name) >= s.len() {
            assert(s[i].0 != name);
        }
    }
}

/// Setting a name keeps the names distinct, makes the name present with the
/// new value, and leaves every other name as it was.
pub proof fn lemma_with_pair(s: Seq<Pair>, name: Seq<char>, value: Seq<char>, other: Seq<char>)
    requires
        distinct_names(s),
    ensures
        distinct_names(with_pair(s, name, value)),
        value_of(with_pair(s, name, value), name) == Some(value),
        other != name ==> value_of(with_pair(s, name, value), other) == value_of(s, other),
{
    let t = with_pair(s, name, value);
    lemma_index_of(s, name);
    lemma_index_of(s, other);
    lemma_index_of(t, name);
    lemma_index_of(t, other);
    let i = index_of(s, name) as int;
    if has_name(s, name) {
        assert(t[i].0 == name);
        assert forall|a: int, b: int| 0 <= a < b < t.len() implies (#[trigger] t[a]).0 != (
        #[trigger] t[b]).0 by {
            assert(t[a].0 == s[a].0);
            assert(t[b].0 == s[b].0);
        }
    } else {
        assert(t[s.len() as int].0 == name);
        assert forall|a: int, b: int| 0 <= a < b < t.len() implies (#[trigger] t[a]).0 != (
        #[trigger] t[b]).0 by {
            if b < s.len() {
                assert(t[a] == s[a]);
                assert(t[b] == s[b]);
            } else {
                assert(t[a] == s[a]);
            }
        }
    }
    assert(has_name(t, name));
    let k = index_of(t, name) as int;
    if has_name(s, name) {
        if k != i {
            if k < i {
                assert(t[k] == s[k]);
            } else {
                assert(t[i].0 == name);
            }
        }
    } else {
        if k != s.len() {
            assert(t[k] == s[k]);
        }
    }
    if other != name {
        let a = index_of(s, other) as int;
        let b = index_of(t, other) as int;
        if has_name(s, other) {
            assert(t[a].0 == other);
            assert(t[a] == s[a]);
            if b < a {
                assert(t[b].0 == s[b].0);
            }
            if a < b {
            }
        } else {
            if has_name(t, other) {
                if b < s.len() {
                    assert(t[b].0 == s[b].0);
                }
            }
        }
    }
}

/// An ordered mapping from string to string in which no name occurs twice.
#[derive(Clone, Debug)]
pub struct StringMap {
    entries: Vec<(String, String)>,
}

impl View for StringMap {
    type V = Seq<Pair>;

    closed spec fn view(&self) -> Seq<Pair> {
        self.entries.deep_view()
    }
}

impl StringMap {
    /// The invariant of the type: no name occurs twice.
    pub closed spec fn wf(&self) -> bool {
        distinct_names(self.entries.deep_view())
    }

    /// The names of a well-formed mapping are distinct.
    pub proof fn lemma_distinct(&self)
        requires
            self.wf(),
        ensures
            distinct_names(self@),
    {
    }

    /// The empty mapping.
    pub fn new() -> (map: StringMap)
        ensures
            map.wf(),
            map@ == Seq::<Pair>::empty(),
    {
        let map = StringMap { entries: Vec::new() };
        assert(map@ =~= Seq::<Pair>::empty());
        map
    }

    /// Number of names.
    pub fn len(&self) -> (n: usize)
        ensures
            n == self@.len(),
    {
        self.entries.len()
    }

    /// Position of `name`, or the number of names when it is absent.
    fn position(&self, name: &str) -> (at: usize)
        ensures
            at == index_of(self@, name@),
            at <= self@.len(),
    {
        let n = self.entries.len();
        let key = name.to_owned();
        let mut i: usize = 0;
        assert(self@.skip(0) == self@);
        while i < n
            invariant
                key@ == name@,
                n == self@.len(),
                n == self.entries@.len(),
                i <= n,
                index_of(self@, name@) == i + index_of(self@.skip(i as int), name@),
            decreases n - i,
        {
            assert(self@.skip(i as int)[0] == self@[i as int]);
            assert(self@[i as int].0 == self.entries@[i as int].0@);
            if self.entries[i].0 == key {
                return i;
            }
            assert(self@.skip(i as int).skip(1) == self@.skip(i + 1));
            i += 1;
        }
        n
    }

    /// Whether `name` is present.
    pub fn contains_key(&self, name: &str) -> (present: bool)
        ensures
            present == has_name(self@, name@),
    {
        self.position(name) < self.entries.len()
    }

    /// The value of `name`, if it is present.
    pub fn get(&self, name: &str) -> (value: Option<&String>)
        ensures
            value.deep_view() == value_of(self@, name@),
    {
        let at = self.position(name);
        if at < self.entries.len() {
            assert(self@[at as int].1 == self.entries@[at as int].1@);
            Some(&self.entries[at].1)
        } else {
            None
        }
    }

    /// Sets `name` to `value`: in place where the name is present, at the end
    /// otherwise.
    pub fn insert(&mut self, name: &str, value: &str)
        requires
            old(self).wf(),
        ensures
            final(self).wf(),
            final(self)@ == with_pair(old(self)@, name@, value@),
    {
        proof {
            lemma_with_pair(self@, name@, value@, name@);
        }
        let at = self.position(name);
        let pair = (name.to_owned(), value.to_owned());
        if at < self.entries.len() {
            self.entries.set(at, pair);
        } else {
            self.entries.push(pair);
        }
        assert(self.entries.deep_view() =~= with_pair(old(self)@, name@, value@));
    }

    /// The pairs themselves.
    pub(crate) fn as_vec(&self) -> (entries: &Vec<(String, String)>)
        ensures
            entries.deep_view() == self@,
    {
        &self.entries
    }

    /// The name and the value at position `i`, if there are that many.
    pub fn entry(&self, i: usize) -> (pair: Option<(&String, &String)>)
        ensures
            match pair {
                Some((name, value)) => i < self@.len() && (name@, value@) == self@[i as int],
                None => i >= self@.len(),
            },
    {
        if i < self.entries.len() {
            Some((&self.entries[i].0, &self.entries[i].1))
        } else {
            None
        }
    }

    /// The name at position `i`.
    pub(crate) fn name_at(&self, i: usize) -> (name: &String)
        requires
            i < self@.len(),
        ensures
            name@ == self@[i as int].0,
    {
        &self.entries[i].0
    }

    /// The value at position `i`.
    pub(crate) fn value_at(&self, i: usize) -> (value: &String)
        requires
            i < self@.len(),
        ensures
            value@ == self@[i as int].1,
    {
        &self.entries[i].1
    }
}

} // verus!
