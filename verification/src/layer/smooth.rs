//! The smoothing layer.

use vstd::prelude::*;
use vstd::std_specs::cmp::PartialEqSpec;

use crate::layer_new::rand::{LayerRand, world_seed_spec};
use crate::layer_new::cell::{smooth_rule, smooth_cell};
use super::{Layer, LayerCache, in_reach, MAX_REACH};

verus! {

/// This layer smooth the input layer by removed micro biomes and filling
/// gaps between cells of the same biome.
pub struct SmoothLayer<P: Layer> {
    pub parent: P,
    rand: LayerRand,
    cache: LayerCache<P::Item>,
}

impl<P: Layer> SmoothLayer<P> where P::Item: Copy + PartialEq {
    pub fn new(parent: P, base_seed: i64) -> (r: Self)
        requires
            parent.wf(),
            parent.reach() < MAX_REACH,
            <P::Item as PartialEqSpec>::obeys_eq_spec(),
        ensures
            r.wf(),
            r.reach() == parent.reach() + 1,
            forall|s: i64, x: i32, z: i32| #[trigger] r.seeded_cell(s, x, z) == smooth_rule(
                world_seed_spec(crate::layer_new::rand::base_seed_spec(base_seed), s), x, z,
                parent.seeded_cell(s, (x - 1) as i32, z),
                parent.seeded_cell(s, (x + 1) as i32, z),
                parent.seeded_cell(s, x, (z - 1) as i32),
                parent.seeded_cell(s, x, (z + 1) as i32),
                parent.seeded_cell(s, x, z),
            ),
    {
        SmoothLayer { parent, rand: LayerRand::new(base_seed), cache: LayerCache::new() }
    }
}

impl<P: Layer> Layer for SmoothLayer<P> where P::Item: Copy + PartialEq {

    type Item = P::Item;

    closed spec fn wf(&self) -> bool {
        &&& self.parent.wf()
        &&& self.parent.reach() < MAX_REACH
        &&& <P::Item as PartialEqSpec>::obeys_eq_spec()
        &&& self.cache.wf()
        &&& forall|i: int| 0 <= i < 256 ==> (#[trigger] self.cache.view()[i] matches Some(e) ==> e.2 == self.cell(e.0, e.1))
    }

    closed spec fn reach(&self) -> nat {
        self.parent.reach() + 1
    }

    closed spec fn cell(&self, x: i32, z: i32) -> P::Item {
        smooth_rule(
            self.rand.spec_world_seed(), x, z,
            self.parent.cell((x - 1) as i32, z),
            self.parent.cell((x + 1) as i32, z),
            self.parent.cell(x, (z - 1) as i32),
            self.parent.cell(x, (z + 1) as i32),
            self.parent.cell(x, z),
        )
    }

    closed spec fn seeded_cell(&self, seed: i64, x: i32, z: i32) -> P::Item {
        smooth_rule(
            world_seed_spec(self.rand.spec_base_seed(), seed), x, z,
            self.parent.seeded_cell(seed, (x - 1) as i32, z),
            self.parent.seeded_cell(seed, (x + 1) as i32, z),
            self.parent.seeded_cell(seed, x, (z - 1) as i32),
            self.parent.seeded_cell(seed, x, (z + 1) as i32),
            self.parent.seeded_cell(seed, x, z),
        )
    }

    fn seed(&mut self, seed: i64) {
        self.parent.seed(seed);
        self.rand.init_world_seed(seed);
        self.cache.clear();
    }

    fn next(&mut self, x: i32, z: i32) -> (r: P::Item) {
        let ghost old_self = *self;
        match self.cache.get(x, z) {
            Some(v) => {
                proof {
                    LayerCache::<P::Item>::lemma_slot_range(x, z);
                    let i = crate::layer::cache::slot_of(x, z);
                    assert(self.cache.view()[i] matches Some(e) ==> e.2 == self.cell(e.0, e.1));
                }
                *v
            },
            None => {
                let v = self.compute(x, z);
                let ghost mid = *self;
                self.cache.insert(x, z, v);
                proof {
                    LayerCache::<P::Item>::lemma_slot_range(x, z);
                    assert(self.parent == mid.parent && self.rand == mid.rand);
                    assert forall|a: i32, b: i32| #[trigger] self.cell(a, b) == mid.cell(a, b) by {}
                    assert forall|s: i64, a: i32, b: i32| #[trigger] self.seeded_cell(s, a, b) == mid.seeded_cell(s, a, b) by {}
                    let f = |a: i32, b: i32| self.cell(a, b);
                    assert(f(x, z) == v);
                    assert forall|i: int| 0 <= i < 256 implies (#[trigger] mid.cache.view()[i] matches Some(e) ==> e.2 == f(e.0, e.1)) by {
                        assert(mid.cache.view()[i] matches Some(e) ==> e.2 == mid.cell(e.0, e.1));
                    }
                    LayerCache::lemma_insert_agrees(mid.cache.view(), self.cache.view(), f, x, z);
                    assert forall|i: int| 0 <= i < 256 implies (#[trigger] self.cache.view()[i] matches Some(e) ==> e.2 == self.cell(e.0, e.1)) by {
                        assert(self.cache.view()[i] matches Some(e) ==> e.2 == f(e.0, e.1));
                    }
                }
                v
            },
        }
    }

}

impl<P: Layer> SmoothLayer<P> where P::Item: Copy + PartialEq {

    /// Computes the cell at `x`/`z` from the parent cells, without the cache.
    fn compute(&mut self, x: i32, z: i32) -> (r: P::Item)
        requires
            old(self).parent.wf(),
            <P::Item as PartialEqSpec>::obeys_eq_spec(),
            in_reach(x, old(self).parent.reach() + 1),
            in_reach(z, old(self).parent.reach() + 1),
        ensures
            r == old(self).cell(x, z),
            final(self).parent.wf(),
            final(self).parent.reach() == old(self).parent.reach(),
            final(self).cache == old(self).cache,
            final(self).rand.spec_world_seed() == old(self).rand.spec_world_seed(),
            final(self).rand.spec_base_seed() == old(self).rand.spec_base_seed(),
            forall|x: i32, z: i32| #[trigger] final(self).cell(x, z) == old(self).cell(x, z),
            forall|s: i64, x: i32, z: i32| #[trigger] final(self).seeded_cell(s, x, z) == old(self).seeded_cell(s, x, z),
    {
        let ghost old_self = *self;
        let south = self.parent.next(x - 1, z);
        let north = self.parent.next(x + 1, z);
        let west = self.parent.next(x, z - 1);
        let east = self.parent.next(x, z + 1);
        let center = self.parent.next(x, z);
        let v = smooth_cell(&mut self.rand, x, z, south, north, west, east, center);
        proof {
            Self::lemma_frame(old_self, *self);
        }
        v
    }

    proof fn lemma_frame(a: Self, b: Self)
        requires
            a.rand.spec_world_seed() == b.rand.spec_world_seed(),
            a.rand.spec_base_seed() == b.rand.spec_base_seed(),
            forall|x: i32, z: i32| #[trigger] b.parent.cell(x, z) == a.parent.cell(x, z),
            forall|s: i64, x: i32, z: i32| #[trigger] b.parent.seeded_cell(s, x, z) == a.parent.seeded_cell(s, x, z),
        ensures
            forall|x: i32, z: i32| #[trigger] b.cell(x, z) == a.cell(x, z),
            forall|s: i64, x: i32, z: i32| #[trigger] b.seeded_cell(s, x, z) == a.seeded_cell(s, x, z),
    {
    }

}

} // verus!
