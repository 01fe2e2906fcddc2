//! Change notification across instances: which scope listens to which key,
//! and the hook that binds a scope to a cached slot.
use vstd::prelude::*;
use crate::backend::{reads_as, set_value, CacheError, StorageBacking};
use crate::codec::{encoded, Persist};
use crate::entry::{synced_storage_entry, unreadable, StorageEntry};

verus! {

/// The listeners of every scope: each is a scope id and the key it watches.
pub struct ChangeHub {
    subs: Vec<(u64, String)>,
}

impl ChangeHub {
    /// Whether the scope `scope` listens to changes of `key`.
    pub closed spec fn listens(&self, scope: u64, key: Seq<char>) -> bool {
        exists|i: int|
            0 <= i < self.subs@.len() && #[trigger] self.subs@[i].0 == scope && self.subs@[i].1@
                == key
    }

    /// No pair of scope and key is listed twice.
    pub closed spec fn wf(&self) -> bool {
        forall|i: int, j: int|
            0 <= i < j < self.subs@.len() ==> !(#[trigger] self.subs@[i].0 == #[trigger] self.subs@[
                j
            ].0 && self.subs@[i].1@ == self.subs@[j].1@)
    }

    /// Whether the pair of `scope` and `key` is listed.
    fn contains(&self, scope: u64, key: &String) -> (r: bool)
        ensures
            r == self.listens(scope, key@),
    {
        let mut i: usize = 0;
        while i < self.subs.len()
            invariant
                0 <= i <= self.subs@.len(),
                forall|m: int|
                    0 <= m < i ==> !(#[trigger] self.subs@[m].0 == scope && self.subs@[m].1@
                        == key@),
            decreases self.subs@.len() - i,
        {
            if self.subs[i].0 == scope && self.subs[i].1 == *key {
                return true;
            }
            i = i + 1;
        }
        false
    }

    /// A hub with no listener.
    pub fn new() -> (r: Self)
        ensures
            r.wf(),
            forall|s: u64, k: Seq<char>| !#[trigger] r.listens(s, k),
    {
        ChangeHub { subs: Vec::new() }
    }

    /// Makes `scope` listen to changes of `key`; a second call adds nothing.
    pub fn subscribe(&mut self, scope: u64, key: String)
        requires
            old(self).wf(),
        ensures
            final(self).wf(),
            forall|s: u64, k: Seq<char>|
                #[trigger] final(self).listens(s, k) <==> (old(self).listens(s, k) || (s == scope
                    && k == key@)),
    {
        if self.contains(scope, &key) {
            return;
        }
        let ghost old_subs = self.subs@;
        let ghost kv = key@;
        self.subs.push((scope, key));
        proof {
            let n = self.subs@.len();
            assert forall|i: int, j: int| 0 <= i < j < n implies !(#[trigger] self.subs@[i].0
                == #[trigger] self.subs@[j].0 && self.subs@[i].1@ == self.subs@[j].1@) by {
                assert(self.subs@[i] == old_subs[i]);
                if j < n - 1 {
                    assert(self.subs@[j] == old_subs[j]);
                } else if self.subs@[i].0 == scope && self.subs@[i].1@ == kv {
                    assert(old(self).listens(scope, kv));
                }
            }
        }
        proof {
            let n = self.subs@.len();
            assert forall|s: u64, k: Seq<char>|
                #[trigger] self.listens(s, k) <==> (old(self).listens(s, k) || (s == scope && k
                    == key@)) by {
                if old(self).listens(s, k) {
                    let i = choose|i: int|
                        0 <= i < old_subs.len() && #[trigger] old_subs[i].0 == s && old_subs[i].1@
                            == k;
                    assert(self.subs@[i] == old_subs[i]);
                }
                if s == scope && k == key@ {
                    assert(self.subs@[n - 1].0 == s);
                }
                if self.listens(s, k) {
                    let i = choose|i: int|
                        0 <= i < n && #[trigger] self.subs@[i].0 == s && self.subs@[i].1@ == k;
                    if i < n - 1 {
                        assert(old_subs[i] == self.subs@[i]);
                    }
                }
            }
        }
    }

    /// Removes every listener of `scope`, as its owner ends.
    pub fn teardown(&mut self, scope: u64)
        requires
            old(self).wf(),
        ensures
            final(self).wf(),
            forall|s: u64, k: Seq<char>|
                #[trigger] final(self).listens(s, k) <==> (old(self).listens(s, k) && s != scope),
    {
        let ghost old_subs = self.subs@;
        let ghost mut src: Seq<int> = Seq::empty();
        let mut kept: Vec<(u64, String)> = Vec::new();
        let mut i: usize = 0;
        while i < self.subs.len()
            invariant
                0 <= i <= self.subs@.len(),
                self.subs@ == old_subs,
                kept@.len() == src.len(),
                forall|j: int| 0 <= j < src.len() ==> 0 <= #[trigger] src[j] < i,
                forall|j: int| 0 <= j < kept@.len() ==> #[trigger] kept@[j] == old_subs[src[j]],
                forall|j: int| 0 <= j < kept@.len() ==> (#[trigger] kept@[j]).0 != scope,
                forall|a: int, b: int| 0 <= a < b < src.len() ==> #[trigger] src[a] < #[trigger] src[b],
                forall|m: int|
                    0 <= m < i && (#[trigger] old_subs[m]).0 != scope ==> exists|j: int|
                        0 <= j < src.len() && #[trigger] src[j] == m,
            decreases self.subs@.len() - i,
        {
            let ghost prev_kept = kept@;
            let entry = &self.subs[i];
            if entry.0 != scope {
                kept.push((entry.0, entry.1.clone()));
                proof {
                    let ghost prev = src;
                    src = src.push(i as int);
                    assert(kept@[kept@.len() - 1] == old_subs[i as int]);
                    assert forall|j: int| 0 <= j < src.len() implies 0 <= #[trigger] src[j] < i + 1 by {
                        if j < prev.len() {
                            assert(src[j] == prev[j]);
                        }
                    }
                    assert forall|j: int| 0 <= j < kept@.len() implies #[trigger] kept@[j]
                        == old_subs[src[j]] && kept@[j].0 != scope by {
                        if j < prev.len() {
                            assert(kept@[j] == prev_kept[j]);
                            assert(src[j] == prev[j]);
                        } else {
                            assert(src[j] == i);
                        }
                    }
                    assert forall|a: int, b: int| 0 <= a < b < src.len() implies #[trigger] src[a]
                        < #[trigger] src[b] by {
                        assert(src[a] == prev[a]);
                        if b < prev.len() {
                            assert(src[b] == prev[b]);
                        } else {
                            assert(kept@[a] == prev_kept[a]);
                        }
                    }
                    assert forall|m: int|
                        0 <= m < i + 1 && (#[trigger] old_subs[m]).0 != scope implies exists|j: int|
                            0 <= j < src.len() && #[trigger] src[j] == m by {
                        if m < i {
                            let j = choose|j: int| 0 <= j < prev.len() && #[trigger] prev[j] == m;
                            assert(src[j] == m);
                        } else {
                            assert(src[src.len() - 1] == m);
                        }
                    }
                }
            } else {
                proof {
                    assert(kept@ == prev_kept);
                }
            }
            i = i + 1;
        }
        self.subs = kept;
        proof {
            assert forall|a: int, b: int| 0 <= a < b < self.subs@.len() implies !(
            #[trigger] self.subs@[a].0 == #[trigger] self.subs@[b].0 && self.subs@[a].1@
                == self.subs@[b].1@) by {
                assert(src[a] < src[b]);
                assert(self.subs@[a] == old_subs[src[a]]);
                assert(self.subs@[b] == old_subs[src[b]]);
            }
            assert forall|s: u64, k: Seq<char>|
                #[trigger] self.listens(s, k) <==> (old(self).listens(s, k) && s != scope) by {
                if self.listens(s, k) {
                    let j = choose|j: int|
                        0 <= j < self.subs@.len() && #[trigger] self.subs@[j].0 == s
                            && self.subs@[j].1@ == k;
                    assert(self.subs@[j] == old_subs[src[j]]);
                    assert(old_subs[src[j]].0 == s);
                }
                if old(self).listens(s, k) && s != scope {
                    let m = choose|m: int|
                        0 <= m < old_subs.len() && #[trigger] old_subs[m].0 == s && old_subs[m].1@
                            == k;
                    let j = choose|j: int| 0 <= j < src.len() && #[trigger] src[j] == m;
                    assert(self.subs@[j] == old_subs[m]);
                    assert(self.subs@[j].0 == s);
                }
            }
        }
    }

    /// The scopes to tell that `writer` changed `key`: every listener of the
    /// key but the writer itself.
    pub fn notify_targets(&self, writer: u64, key: &String) -> (r: Vec<u64>)
        requires
            self.wf(),
        ensures
            r@.no_duplicates(),
            forall|s: u64| r@.contains(s) <==> (self.listens(s, key@) && s != writer),
    {
        let mut out: Vec<u64> = Vec::new();
        let mut i: usize = 0;
        while i < self.subs.len()
            invariant
                0 <= i <= self.subs@.len(),
                self.wf(),
                out@.no_duplicates(),
                forall|s: u64|
                    out@.contains(s) <==> (s != writer && exists|m: int|
                        0 <= m < i && #[trigger] self.subs@[m].0 == s && self.subs@[m].1@
                            == key@),
            decreases self.subs@.len() - i,
        {
            let ghost prev = out@;
            let entry = &self.subs[i];
            let hit = entry.0 != writer && entry.1 == *key;
            proof {
                if hit && prev.contains(entry.0) {
                    let m = choose|m: int|
                        0 <= m < i && #[trigger] self.subs@[m].0 == entry.0 && self.subs@[m].1@
                            == key@;
                    assert(!(self.subs@[m].0 == self.subs@[i as int].0 && self.subs@[m].1@
                        == self.subs@[i as int].1@));
                }
            }
            if hit {
                out.push(entry.0);
            }
            proof {
                assert forall|s: u64|
                    out@.contains(s) <==> (s != writer && exists|m: int|
                        0 <= m < i + 1 && #[trigger] self.subs@[m].0 == s && self.subs@[m].1@
                            == key@) by {
                    if hit && s == self.subs@[i as int].0 {
                        assert(out@[out@.len() - 1] == s);
                    }
                    if prev.contains(s) {
                        let x = choose|x: int| 0 <= x < prev.len() && prev[x] == s;
                        assert(out@[x] == s);
                    }
                    if out@.contains(s) {
                        let x = choose|x: int| 0 <= x < out@.len() && out@[x] == s;
                        if x < prev.len() {
                            assert(prev[x] == s);
                        }
                    }
                }
            }
            i = i + 1;
        }
        out
    }
}

/// Makes `scope` listen to changes that other writers make to `key`.
pub fn use_onchange(hub: &mut ChangeHub, scope: u64, key: String)
    requires
        old(hub).wf(),
    ensures
        final(hub).wf(),
        forall|s: u64, k: Seq<char>|
            #[trigger] final(hub).listens(s, k) <==> (old(hub).listens(s, k) || (s == scope && k
                == key@)),
{
    hub.subscribe(scope, key);
}

/// The hook of a scope on the slot `key`: the handle is made as
/// `synced_storage_entry` makes it, and the scope listens to the slot from
/// then on.
pub fn use_synced_storage_entry<S: StorageBacking, T: Persist, F: FnOnce() -> T>(
    backend: &mut S,
    hub: &mut ChangeHub,
    scope: u64,
    key: String,
    init: F,
) -> (r: (StorageEntry<T>, Result<(), CacheError>))
    requires
        old(backend).wf(),
        old(hub).wf(),
        init.requires(()),
    ensures
        final(backend).wf(),
        final(hub).wf(),
        final(backend).available() == old(backend).available(),
        r.0@.0 == key@,
        forall|v: T::V|
            #[trigger] reads_as::<T>(old(backend).contents(), key@, v) ==> r.0@.1 == v
                && final(backend).contents() == old(backend).contents() && r.1 is Ok,
        unreadable(old(backend).contents(), key@) ==> init.ensures((), r.0.data),
        unreadable(old(backend).contents(), key@) && r.1 is Ok ==> final(backend).contents()
            == old(backend).contents().insert(key@, encoded::<T>(r.0@.1)),
        final(backend).contents() == old(backend).contents() || (init.ensures((), r.0.data)
            && r.1 is Ok && final(backend).contents() == old(backend).contents().insert(
            key@,
            encoded::<T>(r.0@.1),
        )),
        r.1 is Err ==> final(backend).contents() == old(backend).contents(),
        r.1 is Err ==> init.ensures((), r.0.data),
        r.1 is Err ==> !old(backend).available(),
        old(backend).available() ==> r.1 is Ok,
        forall|s: u64, k: Seq<char>|
            #[trigger] final(hub).listens(s, k) <==> (old(hub).listens(s, k) || (s == scope && k
                == key@)),
{
    let r = synced_storage_entry::<S, T, F>(backend, key.clone(), init);
    use_onchange(hub, scope, key);
    r
}

/// Stores `value` under `key` for the scope `writer`, and names the scopes
/// that must now read the slot again: none where the store failed.
pub fn publish<S: StorageBacking, T: Persist>(
    backend: &mut S,
    hub: &ChangeHub,
    writer: u64,
    key: String,
    value: &T,
) -> (r: (Result<(), CacheError>, Vec<u64>))
    requires
        old(backend).wf(),
        hub.wf(),
    ensures
        final(backend).wf(),
        final(backend).available() == old(backend).available(),
        r.1@.no_duplicates(),
        r.0 is Ok ==> final(backend).contents() == old(backend).contents().insert(
            key@,
            encoded::<T>(value@),
        ),
        r.0 is Ok ==> reads_as::<T>(final(backend).contents(), key@, value@),
        r.0 is Err ==> final(backend).contents() == old(backend).contents(),
        r.0 is Ok <==> old(backend).available(),
        r.0 is Err ==> r.1@.len() == 0,
        r.0 is Ok ==> forall|s: u64| r.1@.contains(s) <==> (hub.listens(s, key@) && s != writer),
{
    let targets = hub.notify_targets(writer, &key);
    let res = set_value(backend, key, value);
    match res {
        Ok(()) => (res, targets),
        Err(_) => (res, Vec::new()),
    }
}

} // verus!
