//! Anonymous cells of one scope instance, told apart by the order in which
//! the scope asks for them during a render.
use vstd::prelude::*;
use crate::codec::{packed, serde_to_bytes, try_serde_from_bytes, Persist};

verus! {

/// The slots of one scope instance: the compressed bytes of each anonymous
/// cell, by ordinal, and the ordinal that the next cell of this render gets.
pub struct PersistentStorage {
    pub data: Vec<Vec<u8>>,
    pub idx: usize,
}

impl PersistentStorage {
    /// The cursor never runs past the slots that exist.
    pub open spec fn wf(&self) -> bool {
        self.idx <= self.data@.len()
    }

    /// A scope instance with no slot yet.
    pub fn new() -> (r: Self)
        ensures
            r.wf(),
            r.data@.len() == 0,
            r.idx == 0,
    {
        PersistentStorage { data: Vec::new(), idx: 0 }
    }

    /// Starts a render: the first cell asked for gets ordinal zero again.
    pub fn begin_render(&mut self)
        ensures
            final(self).wf(),
            final(self).data@ == old(self).data@,
            final(self).idx == 0,
    {
        self.idx = 0;
    }

    /// Writes the value of the cell with ordinal `ordinal` through to its
    /// slot.
    pub fn store<T: Persist>(&mut self, ordinal: usize, value: &T)
        requires
            old(self).wf(),
            ordinal < old(self).data@.len(),
        ensures
            final(self).wf(),
            final(self).idx == old(self).idx,
            final(self).data@.len() == old(self).data@.len(),
            forall|j: int|
                0 <= j < old(self).data@.len() && j != ordinal ==> final(self).data@[j]
                    == old(self).data@[j],
            final(self).data@[ordinal as int]@ == packed::<T>(value@),
    {
        self.data.set(ordinal, serde_to_bytes(value));
    }
}

/// The next anonymous cell of the render: it gets the current ordinal. Where
/// its slot holds a value that reads back, that value is the cell's;
/// otherwise `init` gives the value, which is written to the slot.
pub fn use_cached_signal<T: Persist, F: FnOnce() -> T>(
    slots: &mut PersistentStorage,
    init: F,
) -> (r: (usize, T))
    requires
        old(slots).wf(),
        old(slots).idx < usize::MAX,
        init.requires(()),
    ensures
        final(slots).wf(),
        r.0 == old(slots).idx,
        final(slots).idx == old(slots).idx + 1,
        final(slots).data@.len() == if old(slots).idx < old(slots).data@.len() {
            old(slots).data@.len()
        } else {
            old(slots).data@.len() + 1
        },
        forall|j: int|
            0 <= j < old(slots).data@.len() && j != r.0 ==> final(slots).data@[j] == old(
                slots,
            ).data@[j],
        forall|v: T::V|
            old(slots).idx < old(slots).data@.len() && old(slots).data@[r.0 as int]@
                == #[trigger] packed::<T>(v) ==> r.1@ == v && final(slots).data@ == old(slots).data@,
        old(slots).idx == old(slots).data@.len() ==> init.ensures((), r.1),
        old(slots).idx == old(slots).data@.len() ==> final(slots).data@[r.0 as int]@ == packed::<T>(
            r.1@,
        ),
        (old(slots).idx < old(slots).data@.len() && final(slots).data@[r.0 as int] == old(
            slots,
        ).data@[r.0 as int]) || (init.ensures((), r.1) && final(slots).data@[r.0 as int]@
            == packed::<T>(r.1@)),
{
    let ordinal = slots.idx;
    slots.idx = ordinal + 1;
    if ordinal < slots.data.len() {
        match try_serde_from_bytes::<T>(slots.data[ordinal].as_slice()) {
            Some(v) => {
                return (ordinal, v);
            },
            None => {},
        }
    }
    let value = init();
    let bytes = serde_to_bytes(&value);
    if ordinal < slots.data.len() {
        slots.data.set(ordinal, bytes);
    } else {
        slots.data.push(bytes);
    }
    (ordinal, value)
}

} // verus!
