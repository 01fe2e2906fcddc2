//! A typed handle on one cached slot of a storage medium.
use vstd::prelude::*;
use crate::backend::{get_value, reads_as, set_value, CacheError, StorageBacking};
use crate::codec::{encoded, serde_to_string, Persist};
use crate::hex::unhex;

verus! {

/// What the medium holds under `key` is absent, or is not hexadecimal text:
/// nothing can be read from it.
pub open spec fn unreadable(contents: Map<Seq<char>, Seq<char>>, key: Seq<char>) -> bool {
    !contents.contains_key(key) || unhex(contents[key]) is None
}

/// Storing the same value twice under a key leaves the medium as one store
/// leaves it, and the key reads as that value.
pub proof fn lemma_set_idempotent<T: Persist>(
    contents: Map<Seq<char>, Seq<char>>,
    key: Seq<char>,
    v: T::V,
)
    ensures
        contents.insert(key, encoded::<T>(v)).insert(key, encoded::<T>(v)) == contents.insert(
            key,
            encoded::<T>(v),
        ),
        reads_as::<T>(contents.insert(key, encoded::<T>(v)).insert(key, encoded::<T>(v)), key, v),
{
    assert(contents.insert(key, encoded::<T>(v)).insert(key, encoded::<T>(v)) =~= contents.insert(
        key,
        encoded::<T>(v),
    ));
}

/// After a write of `v` under `key`, the key reads as `v`, whatever the
/// medium held before.
pub proof fn lemma_write_then_read<T: Persist>(
    before: Map<Seq<char>, Seq<char>>,
    key: Seq<char>,
    v: T::V,
)
    ensures
        reads_as::<T>(before.insert(key, encoded::<T>(v)), key, v),
        !unreadable(before.insert(key, encoded::<T>(v)), key),
{
    crate::codec::lemma_round_trip::<T>(v);
}

/// A second hook call on a key finds the slot that the first call left: where
/// the first call read `v` there (the medium unchanged) or stored `v` there,
/// the key reads as `v` for the next call, which then returns `v`.
pub proof fn lemma_same_slot<T: Persist>(
    before: Map<Seq<char>, Seq<char>>,
    after: Map<Seq<char>, Seq<char>>,
    key: Seq<char>,
    v: T::V,
)
    requires
        (reads_as::<T>(before, key, v) && after == before) || after == before.insert(
            key,
            encoded::<T>(v),
        ),
    ensures
        reads_as::<T>(after, key, v),
{
}

/// One value bound to one key of a medium.
pub struct StorageEntry<T> {
    pub key: String,
    pub data: T,
}

impl<T: Persist> View for StorageEntry<T> {
    type V = (Seq<char>, T::V);

    open spec fn view(&self) -> (Seq<char>, T::V) {
        (self.key@, self.data@)
    }
}

impl<T: Persist> StorageEntry<T> {
    /// A handle on `key` holding `data`; nothing is written.
    pub fn new(key: String, data: T) -> (r: Self)
        ensures
            r.key == key,
            r.data == data,
    {
        StorageEntry { key, data }
    }

    /// The value held, with no read of the medium.
    pub fn read(&self) -> (r: &T)
        ensures
            r@ == self@.1,
    {
        &self.data
    }

    /// The key that the handle is bound to.
    pub fn key(&self) -> (r: &String)
        ensures
            r@ == self@.0,
    {
        &self.key
    }

    /// Writes the value held to the medium.
    pub fn save<S: StorageBacking>(&self, backend: &mut S) -> (r: Result<(), CacheError>)
        requires
            old(backend).wf(),
        ensures
            final(backend).wf(),
            r is Ok ==> final(backend).contents() == old(backend).contents().insert(
                self@.0,
                encoded::<T>(self@.1),
            ),
            r is Ok ==> reads_as::<T>(final(backend).contents(), self@.0, self@.1),
            r is Err ==> final(backend).contents() == old(backend).contents(),
            r is Err ==> !old(backend).available(),
            old(backend).available() ==> r is Ok,
            final(backend).available() == old(backend).available(),
    {
        set_value(backend, self.key.clone(), &self.data)
    }

    /// Mirrors the value held into the medium when the medium does not hold
    /// it already: `Ok(true)` where it wrote, `Ok(false)` where the medium
    /// already held the value's text.
    pub fn mirror<S: StorageBacking>(&self, backend: &mut S) -> (r: Result<bool, CacheError>)
        requires
            old(backend).wf(),
        ensures
            final(backend).wf(),
            final(backend).available() == old(backend).available(),
            r is Ok ==> final(backend).contents() == old(backend).contents().insert(
                self@.0,
                encoded::<T>(self@.1),
            ),
            r == Ok::<bool, CacheError>(false) ==> final(backend).contents() == old(
                backend,
            ).contents(),
            reads_as::<T>(old(backend).contents(), self@.0, self@.1) ==> r == Ok::<
                bool,
                CacheError,
            >(false) && final(backend).contents() == old(backend).contents(),
            !reads_as::<T>(old(backend).contents(), self@.0, self@.1) ==> r != Ok::<
                bool,
                CacheError,
            >(false),
            r is Err ==> final(backend).contents() == old(backend).contents(),
            r is Err ==> !old(backend).available(),
            old(backend).available() ==> r is Ok,
    {
        let text = serde_to_string(&self.data);
        let current = backend.get_raw(&self.key);
        let same = match &current {
            Some(c) => *c == text,
            None => false,
        };
        if same {
            proof {
                assert(old(backend).contents().insert(self@.0, encoded::<T>(self@.1)) =~= old(
                    backend,
                ).contents());
            }
            Ok(false)
        } else {
            match backend.set_raw(self.key.clone(), text) {
                Ok(()) => Ok(true),
                Err(e) => Err(e),
            }
        }
    }

    /// Hands out exclusive access to the value. The change is committed to
    /// the medium when the guard is released.
    pub fn write(self) -> (r: StorageEntryMut<T>)
        ensures
            r@ == self@,
    {
        StorageEntryMut { storage_entry: self }
    }

    /// Applies `f` to the value and writes the result to the medium at once.
    pub fn with_mut<S: StorageBacking, F: FnOnce(&T) -> T>(&mut self, backend: &mut S, f: F) -> (r:
        Result<(), CacheError>)
        requires
            old(backend).wf(),
            f.requires((&old(self).data,)),
        ensures
            final(backend).wf(),
            final(self)@.0 == old(self)@.0,
            f.ensures((&old(self).data,), final(self).data),
            r is Ok ==> final(backend).contents() == old(backend).contents().insert(
                final(self)@.0,
                encoded::<T>(final(self)@.1),
            ),
            r is Ok ==> reads_as::<T>(final(backend).contents(), final(self)@.0, final(self)@.1),
            r is Err ==> final(backend).contents() == old(backend).contents(),
            r is Err ==> !old(backend).available(),
            old(backend).available() ==> r is Ok,
            final(backend).available() == old(backend).available(),
    {
        let v = f(&self.data);
        self.data = v;
        self.save(backend)
    }

    /// Reads the medium again and takes what it holds under the key. Where
    /// nothing can be read there, the value held stays as it was.
    pub fn update<S: StorageBacking>(&mut self, backend: &S)
        requires
            backend.wf(),
        ensures
            final(self)@.0 == old(self)@.0,
            forall|v: T::V|
                #[trigger] reads_as::<T>(backend.contents(), old(self)@.0, v) ==> final(self)@.1
                    == v,
            unreadable(backend.contents(), old(self)@.0) ==> final(self)@ == old(self)@,
    {
        match get_value::<S, T>(backend, &self.key) {
            Some(v) => {
                self.data = v;
            },
            None => {},
        }
    }
}

/// Exclusive access to the value of an entry; releasing it writes the value
/// to the medium. A guard dropped without `release` writes nothing, and the
/// entry goes with it.
pub struct StorageEntryMut<T> {
    storage_entry: StorageEntry<T>,
}

impl<T: Persist> View for StorageEntryMut<T> {
    type V = (Seq<char>, T::V);

    closed spec fn view(&self) -> (Seq<char>, T::V) {
        self.storage_entry@
    }
}

impl<T: Persist> StorageEntryMut<T> {
    /// The value as it stands.
    pub fn read(&self) -> (r: &T)
        ensures
            r@ == self@.1,
    {
        &self.storage_entry.data
    }

    /// Replaces the value.
    pub fn set_data(&mut self, v: T)
        ensures
            final(self)@ == (old(self)@.0, v@),
    {
        self.storage_entry.data = v;
    }

    /// Ends the access: the value is written to the medium once, and the
    /// entry is handed back with the value it now holds.
    pub fn release<S: StorageBacking>(self, backend: &mut S) -> (r: (
        StorageEntry<T>,
        Result<(), CacheError>,
    ))
        requires
            old(backend).wf(),
        ensures
            final(backend).wf(),
            r.0@ == self@,
            r.1 is Ok ==> final(backend).contents() == old(backend).contents().insert(
                self@.0,
                encoded::<T>(self@.1),
            ),
            r.1 is Ok ==> reads_as::<T>(final(backend).contents(), self@.0, self@.1),
            r.1 is Err ==> final(backend).contents() == old(backend).contents(),
            r.1 is Err ==> !old(backend).available(),
            old(backend).available() ==> r.1 is Ok,
            final(backend).available() == old(backend).available(),
    {
        let res = self.storage_entry.save(backend);
        (self.storage_entry, res)
    }
}

/// The value cached under `key`, or, where nothing can be read there, the
/// value of `init`, which is then stored under `key`. The second part of the
/// result reports a failed store.
pub fn storage_entry<S: StorageBacking, T: Persist, F: FnOnce() -> T>(
    backend: &mut S,
    key: String,
    init: F,
) -> (r: (T, Result<(), CacheError>))
    requires
        old(backend).wf(),
        init.requires(()),
    ensures
        final(backend).wf(),
        final(backend).available() == old(backend).available(),
        forall|v: T::V|
            #[trigger] reads_as::<T>(old(backend).contents(), key@, v) ==> r.0@ == v
                && final(backend).contents() == old(backend).contents() && r.1 is Ok,
        unreadable(old(backend).contents(), key@) ==> init.ensures((), r.0),
        unreadable(old(backend).contents(), key@) && r.1 is Ok ==> final(backend).contents()
            == old(backend).contents().insert(key@, encoded::<T>(r.0@)),
        final(backend).contents() == old(backend).contents() || (init.ensures((), r.0) && r.1 is Ok
            && final(backend).contents() == old(backend).contents().insert(
            key@,
            encoded::<T>(r.0@),
        )),
        r.1 is Err ==> final(backend).contents() == old(backend).contents(),
        r.1 is Err ==> init.ensures((), r.0),
        r.1 is Err ==> !old(backend).available(),
        old(backend).available() ==> r.1 is Ok,
{
    match get_value::<S, T>(backend, &key) {
        Some(v) => (v, Ok(())),
        None => {
            let data = init();
            let res = set_value(backend, key, &data);
            (data, res)
        },
    }
}

/// A handle on the value cached under `key`, made as `storage_entry` makes
/// the value.
pub fn synced_storage_entry<S: StorageBacking, T: Persist, F: FnOnce() -> T>(
    backend: &mut S,
    key: String,
    init: F,
) -> (r: (StorageEntry<T>, Result<(), CacheError>))
    requires
        old(backend).wf(),
        init.requires(()),
    ensures
        final(backend).wf(),
        final(backend).available() == old(backend).available(),
        r.0@.0 == key@,
        forall|v: T::V|
            #[trigger] reads_as::<T>(old(backend).contents(), key@, v) ==> r.0@.1 == v
                && final(backend).contents() == old(backend).contents() && r.1 is Ok,
        unreadable(old(backend).contents(), key@) ==> init.ensures((), r.0.data),
        unreadable(old(backend).contents(), key@) && r.1 is Ok ==> final(backend).contents()
            == old(backend).contents().insert(key@, encoded::<T>(r.0@.1)),
        final(backend).contents() == old(backend).contents() || (init.ensures((), r.0.data)
            && r.1 is Ok && final(backend).contents() == old(backend).contents().insert(
            key@,
            encoded::<T>(r.0@.1),
        )),
        r.1 is Err ==> final(backend).contents() == old(backend).contents(),
        r.1 is Err ==> init.ensures((), r.0.data),
        r.1 is Err ==> !old(backend).available(),
        old(backend).available() ==> r.1 is Ok,
{
    let (data, res) = storage_entry::<S, T, F>(backend, key.clone(), init);
    (StorageEntry::new(key, data), res)
}

} // verus!
