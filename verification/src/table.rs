//! A table from text keys to text values that keeps the order in which its
//! keys were first inserted.

use vstd::prelude::*;

verus! {

/// The entries of a table: pairs of a key and its value.
pub type Pairs = Seq<(Seq<char>, Seq<char>)>;

/// No key occurs twice.
pub open spec fn distinct_keys(entries: Pairs) -> bool {
    forall|i: int, j: int|
        0 <= i < entries.len() && 0 <= j < entries.len() && i != j ==> entries[i].0 != entries[j].0
}

/// Some entry has this key.
pub open spec fn has_key(entries: Pairs, key: Seq<char>) -> bool {
    exists|i: int| 0 <= i < entries.len() && entries[i].0 == key
}

/// The position of the first entry with this key, or the number of entries.
pub open spec fn key_index(entries: Pairs, key: Seq<char>) -> int
    decreases entries.len(),
{
    if entries.len() == 0 {
        0
    } else if entries[0].0 == key {
        0
    } else {
        1 + key_index(entries.skip(1), key)
    }
}

/// The value stored under a key, if any.
pub open spec fn value_of(entries: Pairs, key: Seq<char>) -> Option<Seq<char>> {
    if key_index(entries, key) < entries.len() {
        Some(entries[key_index(entries, key)].1)
    } else {
        None
    }
}

/// The entries after storing `value` under `key`: the value of an entry with
/// that key is replaced where it stands, a new key goes to the end.
pub open spec fn with_entry(entries: Pairs, key: Seq<char>, value: Seq<char>) -> Pairs {
    if key_index(entries, key) < entries.len() {
        entries.update(key_index(entries, key), (key, value))
    } else {
        entries.push((key, value))
    }
}

/// What `key_index` finds: the first entry with the key, or the end.
pub proof fn lemma_key_index(entries: Pairs, key: Seq<char>)
    ensures
        0 <= key_index(entries, key) <= entries.len(),
        forall|j: int| 0 <= j < key_index(entries, key) ==> entries[j].0 != key,
        key_index(entries, key) < entries.len() ==> entries[key_index(entries, key)].0 == key,
        has_key(entries, key) <==> key_index(entries, key) < entries.len(),
    decreases entries.len(),
{
    if entries.len() == 0 {
    } else if entries[0].0 == key {
    } else {
        let rest = entries.skip(1);
        lemma_key_index(rest, key);
        let k = key_index(rest, key);
        assert forall|j: int| 0 <= j < k + 1 implies entries[j].0 != key by {
            if j > 0 {
                assert(rest[j - 1] == entries[j]);
            }
        }
        if k < rest.len() {
            assert(rest[k] == entries[k + 1]);
        }
        if has_key(entries, key) {
            let i = choose|i: int| 0 <= i < entries.len() && entries[i].0 == key;
            assert(rest[i - 1] == entries[i]);
        }
    }
}

/// Storing an entry keeps the keys distinct, and afterwards the key has the
/// stored value while every other key keeps its own.
pub proof fn lemma_with_entry(entries: Pairs, key: Seq<char>, value: Seq<char>)
    requires
        distinct_keys(entries),
    ensures
        distinct_keys(with_entry(entries, key, value)),
        value_of(with_entry(entries, key, value), key) == Some(value),
        forall|other: Seq<char>|
            other != key ==> value_of(with_entry(entries, key, value), other) == value_of(
                entries,
                other,
            ),
{
    let after = with_entry(entries, key, value);
    let k = key_index(entries, key);
    lemma_key_index(entries, key);
    lemma_key_index(after, key);
    assert(after[k].0 == key);
    assert(key_index(after, key) == k);
    assert forall|other: Seq<char>| other != key implies value_of(after, other) == value_of(
        entries,
        other,
    ) by {
        lemma_key_index(entries, other);
        lemma_key_index(after, other);
        let a = key_index(entries, other);
        if a < entries.len() {
            assert(after[a].0 == other);
        }
    }
}

/// A table from text keys to text values.
#[derive(Debug)]
pub struct StringMap {
    entries: Vec<(String, String)>,
}

impl View for StringMap {
    type V = Pairs;

    closed spec fn view(&self) -> Pairs {
        self.entries.deep_view()
    }
}

impl StringMap {
    #[verifier::type_invariant]
    spec fn keys_are_distinct(&self) -> bool {
        distinct_keys(self.entries.deep_view())
    }

    /// The empty table.
    pub fn new() -> (r: Self)
        ensures
            r@ == Seq::<(Seq<char>, Seq<char>)>::empty(),
    {
        let r = StringMap { entries: Vec::new() };
        r
    }

    /// The number of keys.
    pub fn len(&self) -> (n: usize)
        ensures
            n == self@.len(),
            distinct_keys(self@),
    {
        proof {
            use_type_invariant(self);
        }
        self.entries.len()
    }

    /// Whether the table has no key.
    pub fn is_empty(&self) -> (r: bool)
        ensures
            r == (self@.len() == 0),
    {
        self.entries.len() == 0
    }

    /// The key of the entry at `i`.
    pub fn key_at(&self, i: usize) -> (r: &String)
        requires
            i < self@.len(),
        ensures
            r@ == self@[i as int].0,
    {
        &self.entries[i].0
    }

    /// The value of the entry at `i`.
    pub fn value_at(&self, i: usize) -> (r: &String)
        requires
            i < self@.len(),
        ensures
            r@ == self@[i as int].1,
    {
        &self.entries[i].1
    }

    /// The position of the entry with this key, or the number of entries.
    pub fn position(&self, key: &String) -> (r: usize)
        ensures
            r == key_index(self@, key@),
            r <= self@.len(),
    {
        let n: usize = self.entries.len();
        let mut i: usize = 0;
        while i < n && !(self.entries[i].0 == *key)
            invariant
                n == self.entries.len(),
                i <= n,
                forall|j: int| 0 <= j < i ==> self.entries.deep_view()[j].0 != key@,
            decreases n - i,
        {
            i = i + 1;
        }
        proof {
            lemma_key_index(self@, key@);
            let k = key_index(self@, key@);
            if i < k {
                assert(self@[i as int].0 == key@);
            }
        }
        i
    }

    /// The value stored under a key, if any.
    pub fn get(&self, key: &String) -> (r: Option<&String>)
        ensures
            match r {
                Some(value) => value_of(self@, key@) == Some(value@),
                None => value_of(self@, key@).is_none(),
            },
            r.is_some() == has_key(self@, key@),
    {
        let i = self.position(key);
        proof {
            lemma_key_index(self@, key@);
        }
        if i < self.entries.len() {
            Some(&self.entries[i].1)
        } else {
            None
        }
    }

    /// Stores `value` under `key`. A key already present keeps its place and
    /// gets the new value.
    pub fn insert(&mut self, key: String, value: String)
        ensures
            final(self)@ == with_entry(old(self)@, key@, value@),
    {
        proof {
            use_type_invariant(&*self);
            lemma_with_entry(self@, key@, value@);
        }
        let i = self.position(&key);
        let mut taken = StringMap::new();
        core::mem::swap(self, &mut taken);
        let mut entries = taken.entries;
        if i < entries.len() {
            entries.set(i, (key, value));
        } else {
            entries.push((key, value));
        }
        assert(entries.deep_view() =~= with_entry(old(self)@, key@, value@));
        *self = StringMap { entries };
    }
}

} // verus!
