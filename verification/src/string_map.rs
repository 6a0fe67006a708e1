//! An insertion-ordered map from strings to strings, used for container
//! labels and environment variables.

use vstd::prelude::*;
use vstd::string::*;
use crate::text::str_eq;

verus! {

/// Whether no key occurs twice among `entries`.
pub open spec fn keys_unique(entries: Seq<(Seq<char>, Seq<char>)>) -> bool {
    forall|i: int, j: int| 0 <= i < j < entries.len() ==> #[trigger] entries[i].0 != #[trigger] entries[j].0
}

/// Entries are kept in insertion order; a key occurs at most once.
pub struct StringMap {
    entries: Vec<(String, String)>,
}

impl View for StringMap {
    type V = Seq<(Seq<char>, Seq<char>)>;

    open spec fn view(&self) -> Seq<(Seq<char>, Seq<char>)> {
        self.spec_entries()
    }
}

/// The value stored under `key` among `entries`, if any.
pub open spec fn lookup(entries: Seq<(Seq<char>, Seq<char>)>, key: Seq<char>) -> Option<Seq<char>> {
    if exists|i: int| 0 <= i < entries.len() && #[trigger] entries[i].0 == key {
        Some(entries[choose|i: int| 0 <= i < entries.len() && #[trigger] entries[i].0 == key].1)
    } else {
        None
    }
}

/// `entries` with `key` bound to `value`: replaced in place when present, appended otherwise.
pub open spec fn insert_entry(entries: Seq<(Seq<char>, Seq<char>)>, key: Seq<char>, value: Seq<char>)
    -> Seq<(Seq<char>, Seq<char>)>
{
    if exists|i: int| 0 <= i < entries.len() && #[trigger] entries[i].0 == key {
        entries.update(choose|i: int| 0 <= i < entries.len() && #[trigger] entries[i].0 == key, (key, value))
    } else {
        entries.push((key, value))
    }
}

impl StringMap {
    /// The entries, in insertion order, as character sequences.
    pub closed spec fn spec_entries(&self) -> Seq<(Seq<char>, Seq<char>)> {
        self.entries@.map_values(|e: (String, String)| (e.0@, e.1@))
    }

    #[verifier::type_invariant]
    closed spec fn inv(&self) -> bool {
        keys_unique(self.spec_entries())
    }

    /// Creates an empty map.
    pub fn new() -> (m: Self)
        ensures
            m@ == Seq::<(Seq<char>, Seq<char>)>::empty(),
    {
        let m = StringMap { entries: Vec::new() };
        assert(m.spec_entries() =~= Seq::<(Seq<char>, Seq<char>)>::empty());
        m
    }

    /// Number of entries.
    pub fn len(&self) -> (n: usize)
        ensures
            n == self@.len(),
    {
        self.entries.len()
    }

    /// Whether the map is empty.
    pub fn is_empty(&self) -> (b: bool)
        ensures
            b == (self@.len() == 0),
    {
        self.entries.len() == 0
    }

    /// Position of `key`, if present.
    fn position(&self, key: &str) -> (r: Option<usize>)
        ensures
            match r {
                Some(i) => i < self@.len() && self@[i as int].0 == key@,
                None => forall|i: int| 0 <= i < self@.len() ==> #[trigger] self@[i].0 != key@,
            },
    {
        let mut i: usize = 0;
        while i < self.entries.len()
            invariant
                i <= self@.len(),
                self@.len() == self.entries@.len(),
                forall|j: int| 0 <= j < i ==> #[trigger] self@[j].0 != key@,
            decreases self.entries@.len() - i,
        {
            if str_eq(self.entries[i].0.as_str(), key) {
                return Some(i);
            }
            i = i + 1;
        }
        None
    }

    /// The value stored under `key`.
    pub fn get(&self, key: &str) -> (r: Option<&String>)
        ensures
            match r {
                Some(v) => lookup(self@, key@) == Some(v@),
                None => lookup(self@, key@) is None,
            },
    {
        proof { use_type_invariant(self); }
        match self.position(key) {
            Some(i) => {
                proof {
                    let k = choose|j: int| 0 <= j < self@.len() && #[trigger] self@[j].0 == key@;
                    assert(self@[i as int].0 == key@);
                    assert(k == i);
                }
                Some(&self.entries[i].1)
            },
            None => None,
        }
    }

    /// Whether `key` is bound.
    pub fn contains_key(&self, key: &str) -> (b: bool)
        ensures
            b == (lookup(self@, key@) is Some),
    {
        self.get(key).is_some()
    }

    /// Binds `key` to `value`, replacing in place or appending; returns the previous value.
    pub fn insert(&mut self, key: String, value: String) -> (prev: Option<String>)
        ensures
            final(self)@ == insert_entry(old(self)@, key@, value@),
            match prev {
                Some(v) => lookup(old(self)@, key@) == Some(v@),
                None => lookup(old(self)@, key@) is None,
            },
    {
        proof { use_type_invariant(&*self); }
        match self.position(key.as_str()) {
            Some(i) => {
                let ghost old_entries = self@;
                proof {
                    let k = choose|j: int| 0 <= j < old_entries.len() && #[trigger] old_entries[j].0 == key@;
                    assert(k == i);
                }
                let old_value = self.entries[i].1.clone();
                let mut entries: Vec<(String, String)> = Vec::new();
                std::mem::swap(&mut entries, &mut self.entries);
                entries.set(i, (key, value));
                proof {
                    let nv = entries@.map_values(|e: (String, String)| (e.0@, e.1@));
                    assert(nv =~= old_entries.update(i as int, (key@, value@)));
                    assert forall|a: int, b: int| 0 <= a < b < nv.len() implies #[trigger] nv[a].0 != #[trigger] nv[b].0 by {
                        if a != i && b != i {
                            assert(nv[a] == old_entries[a]);
                            assert(nv[b] == old_entries[b]);
                        } else if a == i {
                            assert(nv[b] == old_entries[b]);
                        } else {
                            assert(nv[a] == old_entries[a]);
                        }
                    }
                }
                self.entries = entries;
                assert(self@ =~= insert_entry(old_entries, key@, value@));
                Some(old_value)
            },
            None => {
                let ghost old_entries = self@;
                let mut entries: Vec<(String, String)> = Vec::new();
                std::mem::swap(&mut entries, &mut self.entries);
                entries.push((key, value));
                proof {
                    let nv = entries@.map_values(|e: (String, String)| (e.0@, e.1@));
                    assert(nv =~= old_entries.push((key@, value@)));
                    assert forall|a: int, b: int| 0 <= a < b < nv.len() implies #[trigger] nv[a].0 != #[trigger] nv[b].0 by {
                        assert(nv[a] == old_entries[a]);
                        if b < old_entries.len() {
                            assert(nv[b] == old_entries[b]);
                        }
                    }
                }
                self.entries = entries;
                assert(self@ =~= insert_entry(old_entries, key@, value@));
                None
            },
        }
    }

    /// The entries in insertion order.
    pub fn entries(&self) -> (r: &[(String, String)])
        ensures
            r@.map_values(|e: (String, String)| (e.0@, e.1@)) == self@,
            keys_unique(self@),
    {
        proof { use_type_invariant(self); }
        self.entries.as_slice()
    }
}

/// Reading a map back after `insert`: the key reads the inserted value, every other
/// key reads what it read before, and keys stay unique.
pub proof fn lemma_lookup_after_insert(
    entries: Seq<(Seq<char>, Seq<char>)>,
    key: Seq<char>,
    value: Seq<char>,
    other: Seq<char>,
)
    requires
        keys_unique(entries),
    ensures
        lookup(insert_entry(entries, key, value), key) == Some(value),
        other != key ==> lookup(insert_entry(entries, key, value), other) == lookup(entries, other),
        keys_unique(insert_entry(entries, key, value)),
{
    let n = insert_entry(entries, key, value);
    if exists|i: int| 0 <= i < entries.len() && #[trigger] entries[i].0 == key {
        let i = choose|i: int| 0 <= i < entries.len() && #[trigger] entries[i].0 == key;
        assert(n[i].0 == key);
        let k = choose|j: int| 0 <= j < n.len() && #[trigger] n[j].0 == key;
        assert(k == i) by {
            if k != i {
                assert(entries[k].0 == key);
            }
        }
        if exists|j: int| 0 <= j < entries.len() && #[trigger] entries[j].0 == other {
            let j = choose|j: int| 0 <= j < entries.len() && #[trigger] entries[j].0 == other;
            if other != key {
                assert(n[j].0 == other);
                let j2 = choose|q: int| 0 <= q < n.len() && #[trigger] n[q].0 == other;
                assert(j2 != i);
                assert(n[j2] == entries[j2]);
            }
        } else if other != key {
            assert forall|q: int| 0 <= q < n.len() implies #[trigger] n[q].0 != other by {
                if q != i {
                    assert(n[q] == entries[q]);
                }
            }
        }
        assert forall|a: int, b: int| 0 <= a < b < n.len() implies #[trigger] n[a].0 != #[trigger] n[b].0 by {
            if a != i { assert(n[a] == entries[a]); }
            if b != i { assert(n[b] == entries[b]); }
        }
    } else {
        let last = entries.len() as int;
        assert(n[last].0 == key);
        let k = choose|j: int| 0 <= j < n.len() && #[trigger] n[j].0 == key;
        assert(k == last) by {
            if k != last {
                assert(n[k] == entries[k]);
            }
        }
        if other != key {
            if exists|j: int| 0 <= j < entries.len() && #[trigger] entries[j].0 == other {
                let j = choose|j: int| 0 <= j < entries.len() && #[trigger] entries[j].0 == other;
                assert(n[j] == entries[j]);
                let j2 = choose|q: int| 0 <= q < n.len() && #[trigger] n[q].0 == other;
                assert(j2 != last);
                assert(n[j2] == entries[j2]);
            } else {
                assert forall|q: int| 0 <= q < n.len() implies #[trigger] n[q].0 != other by {
                    if q != last {
                        assert(n[q] == entries[q]);
                    }
                }
            }
        }
        assert forall|a: int, b: int| 0 <= a < b < n.len() implies #[trigger] n[a].0 != #[trigger] n[b].0 by {
            assert(n[a] == entries[a]);
            if b != last { assert(n[b] == entries[b]); }
        }
    }
}

} // verus!
