//! Records kept under text keys, in the order in which their keys arrived.

use vstd::prelude::*;

verus! {

/// A list of records, each under a key. A well-formed registry holds no key
/// twice; `new` and `insert` keep it so.
#[derive(Debug, Clone, PartialEq, Eq)]
pub struct Registry<V> {
    pub entries: Vec<(String, V)>,
}

impl<V> Registry<V> {
    /// The number of records.
    pub open spec fn count(&self) -> nat {
        self.entries@.len()
    }

    /// The key of the record at `at`.
    pub open spec fn key(&self, at: int) -> Seq<char> {
        self.entries@[at].0@
    }

    /// The record at `at`.
    pub open spec fn value(&self, at: int) -> V {
        self.entries@[at].1
    }

    /// No key stands twice.
    pub open spec fn well_formed(&self) -> bool {
        forall|i: int, j: int|
            0 <= i < j < self.count() ==> #[trigger] self.key(i) != #[trigger] self.key(j)
    }

    /// Whether `at` is the first place at which `key` stands.
    pub open spec fn is_first(&self, key: Seq<char>, at: int) -> bool {
        &&& 0 <= at < self.count()
        &&& self.key(at) == key
        &&& forall|j: int| 0 <= j < at ==> self.key(j) != key
    }

    /// Whether a record stands under `key`.
    pub open spec fn contains_key(&self, key: Seq<char>) -> bool {
        exists|at: int| self.is_first(key, at)
    }

    /// The first place at which `key` stands.
    pub open spec fn position(&self, key: Seq<char>) -> int {
        choose|at: int| self.is_first(key, at)
    }

    /// The record under `key`.
    pub open spec fn lookup(&self, key: Seq<char>) -> V {
        self.value(self.position(key))
    }

    /// The place that a record put under `key` takes: that of the record
    /// that stands under `key`, or the place behind all records if none does.
    pub open spec fn place_for(&self, key: Seq<char>) -> int {
        if self.contains_key(key) {
            self.position(key)
        } else {
            self.count() as int
        }
    }

    /// Whether `self` is `before` with some record put under `key`: `key`
    /// stands at its place, and every other key and record is as before.
    pub open spec fn is_insertion_under(&self, before: &Registry<V>, key: Seq<char>) -> bool {
        &&& self.count() == if before.contains_key(key) {
            before.count()
        } else {
            before.count() + 1
        }
        &&& self.key(before.place_for(key)) == key
        &&& forall|i: int|
            0 <= i < before.count() ==> #[trigger] self.key(i) == before.key(i)
        &&& forall|i: int|
            0 <= i < before.count() && i != before.place_for(key) ==> #[trigger] self.value(i)
                == before.value(i)
    }

    /// Whether `self` is `before` with `value` put under `key`.
    pub open spec fn is_insertion(&self, before: &Registry<V>, key: Seq<char>, value: V) -> bool {
        self.is_insertion_under(before, key) && self.value(before.place_for(key)) == value
    }

    /// A key that stands anywhere has a first place.
    pub proof fn lemma_key_has_first_place(&self, at: int)
        requires
            0 <= at < self.count(),
        ensures
            self.contains_key(self.key(at)),
            self.position(self.key(at)) <= at,
        decreases at,
    {
        let key = self.key(at);
        if forall|j: int| 0 <= j < at ==> self.key(j) != key {
            assert(self.is_first(key, at));
        } else {
            let j = choose|j: int| 0 <= j < at && self.key(j) == key;
            self.lemma_key_has_first_place(j);
        }
    }

    /// An empty registry.
    pub fn new() -> (registry: Registry<V>)
        ensures
            registry.count() == 0,
            registry.well_formed(),
    {
        Registry { entries: Vec::new() }
    }

    /// The number of records.
    pub fn len(&self) -> (count: usize)
        ensures
            count == self.count(),
    {
        self.entries.len()
    }

    /// The key of the record at `at`.
    pub fn key_at(&self, at: usize) -> (key: &String)
        requires
            at < self.count(),
        ensures
            key@ == self.key(at as int),
    {
        &self.entries[at].0
    }

    /// The record at `at`.
    pub fn value_at(&self, at: usize) -> (value: &V)
        requires
            at < self.count(),
        ensures
            *value == self.value(at as int),
    {
        &self.entries[at].1
    }

    /// The first place at which `key` stands, if it stands anywhere.
    pub fn find(&self, key: &String) -> (found: Option<usize>)
        ensures
            match found {
                Some(at) => self.is_first(key@, at as int) && self.position(key@) == at,
                None => !self.contains_key(key@),
            },
            found is Some <==> self.contains_key(key@),
    {
        let mut at: usize = 0;
        while at < self.entries.len()
            invariant
                at <= self.count(),
                forall|j: int| 0 <= j < at ==> self.key(j) != key@,
            decreases self.entries.len() - at,
        {
            if self.entries[at].0 == *key {
                assert(self.is_first(key@, at as int));
                return Some(at);
            }
            at = at + 1;
        }
        None
    }

    /// Whether a record stands under `key`.
    pub fn contains(&self, key: &String) -> (found: bool)
        ensures
            found == self.contains_key(key@),
    {
        self.find(key).is_some()
    }

    /// The record under `key`, if there is one.
    pub fn get(&self, key: &String) -> (found: Option<&V>)
        ensures
            match found {
                Some(value) => self.contains_key(key@) && *value == self.lookup(key@),
                None => !self.contains_key(key@),
            },
    {
        match self.find(key) {
            Some(at) => Some(&self.entries[at].1),
            None => None,
        }
    }

    /// Puts `value` under `key`: in the place of the record that stood under
    /// `key`, or behind all records if none did.
    pub fn insert(&mut self, key: String, value: V)
        ensures
            final(self).is_insertion(old(self), key@, value),
            old(self).well_formed() ==> final(self).well_formed(),
    {
        let ghost before = *self;
        let ghost name = key@;
        match self.find(&key) {
            Some(at) => {
                self.entries.set(at, (key, value));
                proof {
                    assert forall|i: int| 0 <= i < self.count() implies #[trigger] self.key(i)
                        == before.key(i) by {}
                }
            },
            None => {
                proof {
                    assert forall|i: int| 0 <= i < self.count() implies self.key(i) != name by {
                        self.lemma_key_has_first_place(i);
                    }
                }
                self.entries.push((key, value));
                proof {
                    assert forall|i: int| 0 <= i < before.count() implies #[trigger] self.key(i)
                        == before.key(i) by {}
                }
            },
        }
        proof {
            if before.well_formed() {
                assert forall|i: int, j: int| 0 <= i < j < self.count() implies #[trigger] self.key(
                    i,
                ) != #[trigger] self.key(j) by {
                    if j < before.count() {
                        assert(before.key(i) != before.key(j));
                    } else {
                        assert(self.key(i) == before.key(i));
                    }
                }
            }
        }
    }
}

} // verus!
