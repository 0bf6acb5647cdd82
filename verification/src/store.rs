//! The in-memory store: entries in the order in which their keys first
//! appeared, no key twice.

use crate::text::{first_index, lemma_first_index, lemma_first_index_is_first, texts_of};
use vstd::prelude::*;

verus! {

/// What an entry is in contracts: a key and the password kept under it.
pub struct Record {
    pub key: Seq<char>,
    pub password: Seq<char>,
}

/// One key/password pair.
#[derive(Clone, Debug, PartialEq, Eq)]
pub struct Entry {
    pub key: String,
    pub password: String,
}

impl View for Entry {
    type V = Record;

    open spec fn view(&self) -> Record {
        Record { key: self.key@, password: self.password@ }
    }
}

/// The keys of `s`, in order.
pub open spec fn keys_of(s: Seq<Record>) -> Seq<Seq<char>> {
    s.map_values(|r: Record| r.key)
}

/// No key occurs twice in `s`.
pub open spec fn distinct_keys(s: Seq<Record>) -> bool {
    forall|i: int, j: int| 0 <= i < j < s.len() ==> s[i].key != s[j].key
}

/// The position of the entry of `s` with key `key`, or `s.len()` where
/// there is none.
pub open spec fn key_index(s: Seq<Record>, key: Seq<char>) -> int {
    first_index(keys_of(s), key)
}

/// Whether `s` holds an entry with key `key`.
pub open spec fn has_key(s: Seq<Record>, key: Seq<char>) -> bool {
    key_index(s, key) < s.len()
}

/// The password kept under `key`, if any.
pub open spec fn lookup(s: Seq<Record>, key: Seq<char>) -> Option<Seq<char>> {
    if has_key(s, key) {
        Some(s[key_index(s, key)].password)
    } else {
        None
    }
}

/// `s` after `password` is recorded under `key`: a key already present
/// keeps its place and takes the new password, a new key goes to the end.
pub open spec fn put(s: Seq<Record>, key: Seq<char>, password: Seq<char>) -> Seq<Record> {
    if has_key(s, key) {
        s.update(key_index(s, key), Record { key, password })
    } else {
        s.push(Record { key, password })
    }
}

/// The mapping from key to password that `s` stands for.
pub open spec fn as_map(s: Seq<Record>) -> Map<Seq<char>, Seq<char>> {
    Map::new(|k: Seq<char>| has_key(s, k), |k: Seq<char>| s[key_index(s, k)].password)
}

/// `key_index` is within `s`, stands on an entry with that key unless it is
/// `s.len()`, and no entry before it has the key.
pub proof fn lemma_key_index(s: Seq<Record>, key: Seq<char>)
    ensures
        0 <= key_index(s, key) <= s.len(),
        has_key(s, key) ==> s[key_index(s, key)].key == key,
        forall|j: int| 0 <= j < key_index(s, key) ==> s[j].key != key,
        has_key(s, key) <==> exists|j: int| 0 <= j < s.len() && s[j].key == key,
{
    let ks = keys_of(s);
    lemma_first_index_is_first(ks, key);
    assert forall|j: int| 0 <= j < key_index(s, key) implies s[j].key != key by {
        assert(ks[j] == s[j].key);
    }
    if has_key(s, key) {
        assert(ks[key_index(s, key)] == s[key_index(s, key)].key);
    } else {
        assert forall|j: int| 0 <= j < s.len() implies s[j].key != key by {
            assert(ks[j] == s[j].key);
        }
    }
}

/// Where no key occurs twice, an entry is found at its own position.
pub proof fn lemma_key_index_of(s: Seq<Record>, i: int)
    requires
        distinct_keys(s),
        0 <= i < s.len(),
    ensures
        key_index(s, s[i].key) == i,
        lookup(s, s[i].key) == Some(s[i].password),
{
    assert forall|j: int| 0 <= j < i implies keys_of(s)[j] != s[i].key by {
        assert(keys_of(s)[j] == s[j].key);
    }
    assert(keys_of(s)[i] == s[i].key);
    lemma_first_index(keys_of(s), s[i].key, i);
}

/// Recording a password keeps the keys distinct.
pub proof fn lemma_put_distinct(s: Seq<Record>, key: Seq<char>, password: Seq<char>)
    requires
        distinct_keys(s),
    ensures
        distinct_keys(put(s, key, password)),
{
    lemma_key_index(s, key);
}

/// After `put`, `key` leads to `password` and every other key to what it
/// led to before.
pub proof fn lemma_put_lookup(
    s: Seq<Record>,
    key: Seq<char>,
    password: Seq<char>,
    other: Seq<char>,
)
    ensures
        lookup(put(s, key, password), other) == if other == key {
            Some(password)
        } else {
            lookup(s, other)
        },
{
    let t = put(s, key, password);
    lemma_key_index(s, key);
    lemma_key_index(s, other);
    let i = key_index(s, other);
    if other == key {
        let k = key_index(s, key);
        assert(t[k].key == key);
        assert forall|j: int| 0 <= j < k implies keys_of(t)[j] != key by {
            assert(t[j] == s[j]);
        }
        assert(keys_of(t)[k] == key);
        lemma_first_index(keys_of(t), key, k);
    } else {
        assert forall|j: int| 0 <= j < i implies keys_of(t)[j] != other by {
            assert(t[j].key == s[j].key);
        }
        if i < s.len() {
            assert(t[i].key == s[i].key);
            assert(keys_of(t)[i] == other);
            lemma_first_index(keys_of(t), other, i);
            assert(t[i] == s[i]);
        } else {
            assert forall|j: int| 0 <= j < t.len() implies keys_of(t)[j] != other by {
                if j < s.len() {
                    assert(t[j].key == s[j].key);
                }
            }
            lemma_first_index(keys_of(t), other, t.len() as int);
        }
    }
}

/// `put` on the entries is `insert` on the mapping.
pub proof fn lemma_put_map(s: Seq<Record>, key: Seq<char>, password: Seq<char>)
    ensures
        as_map(put(s, key, password)) == as_map(s).insert(key, password),
{
    let t = put(s, key, password);
    assert forall|k: Seq<char>|
        as_map(t).contains_key(k) == as_map(s).insert(key, password).contains_key(k) by {
        lemma_put_lookup(s, key, password, k);
    }
    assert forall|k: Seq<char>| as_map(t).contains_key(k) implies as_map(t)[k] == as_map(s).insert(
        key,
        password,
    )[k] by {
        lemma_put_lookup(s, key, password, k);
    }
    assert(as_map(t) =~= as_map(s).insert(key, password));
}

/// The entries of a store file, as loaded.
#[derive(Debug, PartialEq, Eq)]
pub struct Store {
    entries: Vec<Entry>,
}

impl View for Store {
    type V = Seq<Record>;

    closed spec fn view(&self) -> Seq<Record> {
        self.entries@.map_values(|e: Entry| e@)
    }
}

impl Store {
    #[verifier::type_invariant]
    spec fn keys_are_distinct(self) -> bool {
        distinct_keys(self@)
    }

    /// A store without entries.
    pub fn new() -> (store: Store)
        ensures
            store@ == Seq::<Record>::empty(),
    {
        let store = Store { entries: Vec::new() };
        assert(store@ =~= Seq::<Record>::empty());
        store
    }

    /// The number of entries.
    pub fn len(&self) -> (n: usize)
        ensures
            n == self@.len(),
    {
        self.entries.len()
    }

    /// The entry at position `i`.
    pub fn entry(&self, i: usize) -> (e: &Entry)
        requires
            i < self@.len(),
        ensures
            e@ == self@[i as int],
    {
        &self.entries[i]
    }

    /// States what every store satisfies: no key occurs twice.
    pub fn distinct(&self)
        ensures
            distinct_keys(self@),
    {
        proof {
            use_type_invariant(self);
        }
    }

    /// The position of the entry with key `key`, or `len()` where there is
    /// none.
    pub fn position(&self, key: &String) -> (i: usize)
        ensures
            i == key_index(self@, key@),
            i <= self@.len(),
    {
        let mut i: usize = 0;
        while i < self.entries.len() && self.entries[i].key != *key
            invariant
                i <= self.entries@.len(),
                forall|j: int| 0 <= j < i ==> keys_of(self@)[j] != key@,
            decreases self.entries@.len() - i,
        {
            i += 1;
        }
        proof {
            lemma_first_index(keys_of(self@), key@, i as int);
        }
        i
    }

    /// The password kept under `key`, if any.
    pub fn get(&self, key: &String) -> (password: Option<&String>)
        ensures
            match password {
                Some(p) => lookup(self@, key@) == Some(p@),
                None => lookup(self@, key@) is None,
            },
    {
        let i = self.position(key);
        if i < self.entries.len() {
            Some(&self.entries[i].password)
        } else {
            None
        }
    }

    /// Records `password` under `key`. A key already present keeps its
    /// place and takes the new password; a new key goes to the end.
    pub fn insert(&mut self, key: String, password: String)
        ensures
            final(self)@ == put(old(self)@, key@, password@),
    {
        proof {
            use_type_invariant(&*self);
            lemma_put_distinct(self@, key@, password@);
        }
        let i = self.position(&key);
        let ghost before = self@;
        let mut entries: Vec<Entry> = Vec::new();
        assert(entries@.map_values(|e: Entry| e@) =~= Seq::<Record>::empty());
        std::mem::swap(&mut self.entries, &mut entries);
        let ghost held = entries@;
        if i < entries.len() {
            proof {
                lemma_key_index(before, key@);
                assert(before[i as int] == held[i as int]@);
            }
            entries[i].password = password;
            assert(entries@ == held.update(i as int, entries@[i as int]));
        } else {
            entries.push(Entry { key, password });
        }
        assert(entries@.map_values(|e: Entry| e@) =~= put(before, key@, password@));
        std::mem::swap(&mut self.entries, &mut entries);
    }

    /// The keys, in the order of the entries.
    pub fn keys(&self) -> (keys: Vec<String>)
        ensures
            texts_of(keys@) == keys_of(self@),
    {
        let mut keys: Vec<String> = Vec::new();
        let mut i: usize = 0;
        assert(texts_of(keys@) =~= keys_of(self@).take(0));
        while i < self.entries.len()
            invariant
                i <= self.entries@.len(),
                keys@.len() == i,
                texts_of(keys@) == keys_of(self@).take(i as int),
            decreases self.entries@.len() - i,
        {
            let ghost listed = keys@;
            keys.push(self.entries[i].key.clone());
            assert forall|j: int| 0 <= j <= i implies texts_of(keys@)[j] == keys_of(self@)[j] by {
                if j < i {
                    assert(texts_of(listed)[j] == keys_of(self@).take(i as int)[j]);
                }
            }
            assert(texts_of(keys@) =~= keys_of(self@).take(i as int + 1));
            i += 1;
        }
        assert(keys_of(self@).take(i as int) =~= keys_of(self@));
        keys
    }
}

} // verus!
