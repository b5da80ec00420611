//! A direct mapped cache of layer cells.

use vstd::prelude::*;

verus! {

/// The slot of the cell `x`/`z`: the low 4 bits of X, then the low 4 bits of Z.
#[verifier::opaque]
pub open spec fn slot_of(x: i32, z: i32) -> int {
    ((x & 0xF) | ((z & 0xF) << 4u32)) as int
}

/// A hash-table based cache specific to common biome layers coordinates. This cache
/// currently works better when working with 16x16 rectangle aligned by 16 on axis.
pub struct LayerCache<T> {
    data: Vec<Option<(i32, i32, T)>>,
}

impl<T> LayerCache<T> {

    /// The 256 slots of the cache, each empty or holding a cell and its value.
    pub closed spec fn view(&self) -> Seq<Option<(i32, i32, T)>> {
        self.data@
    }

    /// The cache has 256 slots and each filled slot is the slot of its cell.
    pub open spec fn wf(&self) -> bool {
        &&& self.view().len() == 256
        &&& forall|i: int| 0 <= i < 256 ==> (#[trigger] self.view()[i] matches Some(e) ==> slot_of(e.0, e.1) == i)
    }

    /// The value cached for the cell `x`/`z`, if any.
    pub open spec fn lookup(&self, x: i32, z: i32) -> Option<T> {
        match self.view()[slot_of(x, z)] {
            Some(e) => if e.0 == x && e.1 == z { Some(e.2) } else { None },
            None => None,
        }
    }

    /// Storing `f` of a cell keeps a cache that agrees with `f` in agreement.
    pub proof fn lemma_insert_agrees(a: Seq<Option<(i32, i32, T)>>, b: Seq<Option<(i32, i32, T)>>, f: spec_fn(i32, i32) -> T, x: i32, z: i32)
        requires
            a.len() == 256,
            forall|i: int| 0 <= i < 256 ==> (#[trigger] a[i] matches Some(e) ==> e.2 == f(e.0, e.1)),
            0 <= slot_of(x, z) < 256,
            b == a.update(slot_of(x, z), Some((x, z, f(x, z)))),
        ensures
            forall|i: int| 0 <= i < 256 ==> (#[trigger] b[i] matches Some(e) ==> e.2 == f(e.0, e.1)),
    {
        assert forall|i: int| 0 <= i < 256 implies (#[trigger] b[i] matches Some(e) ==> e.2 == f(e.0, e.1)) by {
            if i != slot_of(x, z) {
                assert(a[i] matches Some(e) ==> e.2 == f(e.0, e.1));
            }
        }
    }

    /// Creates an empty cache of 256 slots.
    pub fn new() -> (r: Self)
        ensures
            r.wf(),
            forall|i: int| 0 <= i < 256 ==> #[trigger] r.view()[i] is None,
    {
        let mut data: Vec<Option<(i32, i32, T)>> = Vec::with_capacity(256);
        let mut i: usize = 0;
        while i < 256
            invariant
                i <= 256,
                data@.len() == i,
                forall|j: int| 0 <= j < i ==> #[trigger] data@[j] is None,
            decreases 256 - i,
        {
            data.push(None);
            i = i + 1;
        }
        LayerCache { data }
    }

    /// Empties all the slots.
    pub fn clear(&mut self)
        requires
            old(self).wf(),
        ensures
            final(self).wf(),
            forall|i: int| 0 <= i < 256 ==> #[trigger] final(self).view()[i] is None,
    {
        let mut i: usize = 0;
        while i < 256
            invariant
                i <= 256,
                self.data@.len() == 256,
                forall|j: int| 0 <= j < i ==> #[trigger] self.data@[j] is None,
            decreases 256 - i,
        {
            self.data.set(i, None);
            i = i + 1;
        }
    }

    fn calc_index(x: i32, z: i32) -> (r: usize)
        ensures
            r == slot_of(x, z),
            r < 256,
    {
        proof {
            reveal(slot_of);
            assert(0 <= ((x & 0xF) | ((z & 0xF) << 4u32)) < 256) by (bit_vector);
        }
        ((x & 0xF) | ((z & 0xF) << 4u32)) as usize
    }

    /// Every cell has a slot among the 256.
    pub proof fn lemma_slot_range(x: i32, z: i32)
        ensures
            0 <= slot_of(x, z) < 256,
    {
        reveal(slot_of);
        assert(0 <= ((x & 0xF) | ((z & 0xF) << 4u32)) < 256) by (bit_vector);
    }

    /// Stores the value of the cell `x`/`z` in its slot.
    pub fn insert(&mut self, x: i32, z: i32, item: T)
        requires
            old(self).wf(),
        ensures
            final(self).wf(),
            final(self).view() == old(self).view().update(slot_of(x, z), Some((x, z, item))),
    {
        let i = Self::calc_index(x, z);
        self.data.set(i, Some((x, z, item)));
    }

    /// The value cached for the cell `x`/`z`, if its slot holds this cell.
    pub fn get(&self, x: i32, z: i32) -> (r: Option<&T>)
        requires
            self.wf(),
        ensures
            r matches Some(v) ==> self.lookup(x, z) == Some(*v),
            r is None ==> self.lookup(x, z) is None,
    {
        let i = Self::calc_index(x, z);
        match &self.data[i] {
            Some(e) => {
                if e.0 == x && e.1 == z {
                    Some(&e.2)
                } else {
                    None
                }
            },
            None => None,
        }
    }


    /// The value cached for the cell `x`/`z`, computing it with `func` and storing it in
    /// its slot when the slot does not hold this cell.
    pub fn get_or_insert<F: FnOnce() -> T>(&mut self, x: i32, z: i32, func: F) -> (r: &T)
        requires
            old(self).wf(),
            func.requires(()),
        ensures
            final(self).wf(),
            old(self).lookup(x, z) matches Some(v) ==> *r == v && final(self).view() == old(self).view(),
            old(self).lookup(x, z) is None ==> func.ensures((), *r)
                && final(self).view() == old(self).view().update(slot_of(x, z), Some((x, z, *r))),
    {
        let i = Self::calc_index(x, z);
        let hit = match &self.data[i] {
            Some(e) => e.0 == x && e.1 == z,
            None => false,
        };
        if !hit {
            let item = func();
            self.data.set(i, Some((x, z, item)));
        }
        let e = self.data[i].as_ref().unwrap();
        &e.2
    }

}

/// A value stored in a cell's slot is found again for that cell, and the cells of the
/// other slots keep what they had.
pub proof fn cache_get_after_insert<T>(a: LayerCache<T>, b: LayerCache<T>, x: i32, z: i32, item: T)
    requires
        a.wf(),
        b.view() == a.view().update(slot_of(x, z), Some((x, z, item))),
    ensures
        b.lookup(x, z) == Some(item),
        forall|u: i32, v: i32| slot_of(u, v) != slot_of(x, z) ==> #[trigger] b.lookup(u, v) == a.lookup(u, v),
{
    LayerCache::<T>::lemma_slot_range(x, z);
    assert forall|u: i32, v: i32| slot_of(u, v) != slot_of(x, z) implies #[trigger] b.lookup(u, v) == a.lookup(u, v) by {
        LayerCache::<T>::lemma_slot_range(u, v);
    }
}

/// A cache whose slots are all empty finds no cell.
pub proof fn cache_empty_finds_nothing<T>(c: LayerCache<T>)
    requires
        c.wf(),
        forall|i: int| 0 <= i < 256 ==> #[trigger] c.view()[i] is None,
    ensures
        forall|x: i32, z: i32| #[trigger] c.lookup(x, z) is None,
{
    assert forall|x: i32, z: i32| #[trigger] c.lookup(x, z) is None by {
        LayerCache::<T>::lemma_slot_range(x, z);
    }
}

} // verus!
