//! Storage media: a key/value surface over encoded text, one implementation
//! that lives in the process, and typed reads and writes on top of any medium.
use vstd::prelude::*;
use crate::codec::{encoded, serde_to_string, try_serde_from_string, Persist};
use crate::hex::unhex;

verus! {

/// The storage medium could not be written.
#[derive(Clone, Copy, Debug, PartialEq, Eq, Structural)]
pub enum CacheError {
    /// The medium refused the write.
    BackendUnavailable,
}

/// A storage medium that maps key text to encoded value text, last write wins.
pub trait StorageBacking: Sized {
    /// What the medium holds.
    spec fn contents(&self) -> Map<Seq<char>, Seq<char>>;

    /// Whether the medium takes writes.
    spec fn available(&self) -> bool;

    /// The medium's own well-formedness.
    spec fn wf(&self) -> bool;

    fn get_raw(&self, key: &String) -> (r: Option<String>)
        requires
            self.wf(),
        ensures
            r is Some <==> self.contents().contains_key(key@),
            r matches Some(s) ==> s@ == self.contents()[key@],
    ;

    fn set_raw(&mut self, key: String, value: String) -> (r: Result<(), CacheError>)
        requires
            old(self).wf(),
        ensures
            final(self).wf(),
            r is Ok ==> final(self).contents() == old(self).contents().insert(key@, value@),
            r is Err ==> final(self).contents() == old(self).contents(),
            r is Ok <==> old(self).available(),
            !old(self).available() ==> r == Err::<(), CacheError>(CacheError::BackendUnavailable),
            final(self).available() == old(self).available(),
    ;
}

/// A medium held in the memory of the process: the cache service that the
/// application creates once and hands to every scope.
pub struct MemoryStorage {
    entries: Vec<(String, String)>,
    model: Ghost<Map<Seq<char>, Seq<char>>>,
}

impl MemoryStorage {
    spec fn inv(&self) -> bool {
        &&& forall|i: int|
            0 <= i < self.entries@.len() ==> {
                &&& self.model@.contains_key(#[trigger] self.entries@[i].0@)
                &&& self.model@[self.entries@[i].0@] == self.entries@[i].1@
            }
        &&& forall|k: Seq<char>|
            #[trigger] self.model@.contains_key(k) ==> exists|i: int|
                0 <= i < self.entries@.len() && #[trigger] self.entries@[i].0@ == k
        &&& forall|i: int, j: int|
            0 <= i < j < self.entries@.len() ==> #[trigger] self.entries@[i].0@
                != #[trigger] self.entries@[j].0@
    }

    /// An empty medium.
    pub fn new() -> (r: Self)
        ensures
            r.wf(),
            r.contents() == Map::<Seq<char>, Seq<char>>::empty(),
    {
        MemoryStorage { entries: Vec::new(), model: Ghost(Map::empty()) }
    }

    fn find(&self, key: &String) -> (r: Option<usize>)
        requires
            self.inv(),
        ensures
            r is Some <==> self.model@.contains_key(key@),
            r matches Some(i) ==> i < self.entries@.len() && self.entries@[i as int].0@ == key@,
    {
        let mut i: usize = 0;
        while i < self.entries.len()
            invariant
                0 <= i <= self.entries@.len(),
                self.inv(),
                forall|j: int| 0 <= j < i ==> self.entries@[j].0@ != key@,
            decreases self.entries@.len() - i,
        {
            if self.entries[i].0 == *key {
                return Some(i);
            }
            i = i + 1;
        }
        None
    }
}

impl StorageBacking for MemoryStorage {
    closed spec fn contents(&self) -> Map<Seq<char>, Seq<char>> {
        self.model@
    }

    open spec fn available(&self) -> bool {
        true
    }

    closed spec fn wf(&self) -> bool {
        self.inv()
    }

    fn get_raw(&self, key: &String) -> (r: Option<String>) {
        match self.find(key) {
            Some(i) => Some(self.entries[i].1.clone()),
            None => None,
        }
    }

    fn set_raw(&mut self, key: String, value: String) -> (r: Result<(), CacheError>) {
        let ghost k = key@;
        let ghost v = value@;
        let ghost old_entries = self.entries@;
        let ghost old_model = self.model@;
        let ghost new_model = old_model.insert(k, v);
        let found = self.find(&key);
        match found {
            Some(i) => {
                self.entries.set(i, (key, value));
            },
            None => {
                self.entries.push((key, value));
            },
        }
        self.model = Ghost(new_model);
        proof {
            let n = self.entries@.len();
            assert forall|i: int| 0 <= i < n implies {
                &&& self.model@.contains_key(#[trigger] self.entries@[i].0@)
                &&& self.model@[self.entries@[i].0@] == self.entries@[i].1@
            } by {
                match found {
                    Some(f) => {
                        if i != f {
                            assert(self.entries@[i] == old_entries[i]);
                            assert(old_entries[i].0@ != old_entries[f as int].0@);
                        }
                    },
                    None => {
                        if i < n - 1 {
                            assert(self.entries@[i] == old_entries[i]);
                            assert(old_model.contains_key(old_entries[i].0@));
                        }
                    },
                }
            }
            assert forall|i: int, j: int| 0 <= i < j < n implies #[trigger] self.entries@[i].0@
                != #[trigger] self.entries@[j].0@ by {
                match found {
                    Some(f) => {
                        assert(old_entries[i].0@ != old_entries[j].0@);
                    },
                    None => {
                        if j == n - 1 {
                            assert(old_model.contains_key(old_entries[i].0@));
                        } else {
                            assert(old_entries[i].0@ != old_entries[j].0@);
                        }
                    },
                }
            }
            assert forall|k2: Seq<char>| #[trigger] self.model@.contains_key(k2) implies exists|
                i: int,
            | 0 <= i < n && #[trigger] self.entries@[i].0@ == k2 by {
                if k2 == k {
                    match found {
                        Some(i) => {
                            assert(self.entries@[i as int].0@ == k2);
                        },
                        None => {
                            assert(self.entries@[n - 1].0@ == k2);
                        },
                    }
                } else {
                    assert(old_model.contains_key(k2));
                    let j = choose|j: int|
                        0 <= j < old_entries.len() && #[trigger] old_entries[j].0@ == k2;
                    assert(self.entries@[j] == old_entries[j]);
                }
            }
        }
        Ok(())
    }
}

/// Reads and decodes the value stored under `key`. A key that is absent, or
/// whose text does not decode, gives `None`.
pub fn get_value<S: StorageBacking, T: Persist>(backend: &S, key: &String) -> (r: Option<T>)
    requires
        backend.wf(),
    ensures
        !backend.contents().contains_key(key@) ==> r is None,
        backend.contents().contains_key(key@) && unhex(backend.contents()[key@]) is None
            ==> r is None,
        forall|v: T::V|
            backend.contents().contains_key(key@) && backend.contents()[key@]
                == #[trigger] encoded::<T>(v) ==> (r is Some && r->0@ == v),
{
    match backend.get_raw(key) {
        Some(text) => try_serde_from_string::<T>(text.as_str()),
        None => None,
    }
}

/// Encodes `value` and stores it under `key`, over whatever was there.
pub fn set_value<S: StorageBacking, T: Persist>(backend: &mut S, key: String, value: &T) -> (r:
    Result<(), CacheError>)
    requires
        old(backend).wf(),
    ensures
        final(backend).wf(),
        r is Ok ==> final(backend).contents() == old(backend).contents().insert(
            key@,
            encoded::<T>(value@),
        ),
        r is Ok ==> reads_as::<T>(final(backend).contents(), key@, value@),
        r is Err ==> final(backend).contents() == old(backend).contents(),
        r is Ok <==> old(backend).available(),
        !old(backend).available() ==> r == Err::<(), CacheError>(CacheError::BackendUnavailable),
        final(backend).available() == old(backend).available(),
{
    let text = serde_to_string(value);
    backend.set_raw(key, text)
}

/// The medium holds, under `key`, the text of the value `v`.
pub open spec fn reads_as<T: Persist>(
    contents: Map<Seq<char>, Seq<char>>,
    key: Seq<char>,
    v: T::V,
) -> bool {
    contents.contains_key(key) && contents[key] == encoded::<T>(v)
}

} // verus!
