//! River layers.

use vstd::prelude::*;

use crate::biome::BiomeId;
use crate::layer_new::rand::{LayerRand, world_seed_spec, base_seed_spec};
use crate::layer_new::cell::{init_river_rule, init_river_cell, add_river_rule, add_river_cell};
use super::{Layer, LayerCache, in_reach, MAX_REACH};

verus! {

/// A layer replacing ocean cells by 0 and other cells by a random river potential in
/// `[2;4[`; its output is combined with the biome layers to place rivers.
pub struct InitRiverLayer<P: Layer<Item = BiomeId>> {
    pub parent: P,
    rand: LayerRand,
}

impl<P: Layer<Item = BiomeId>> InitRiverLayer<P> {

    pub fn new(parent: P, base_seed: i64) -> (r: Self)
        requires
            parent.wf(),
            parent.reach() < MAX_REACH,
        ensures
            r.wf(),
            r.reach() == parent.reach(),
            forall|s: i64, x: i32, z: i32| #[trigger] r.seeded_cell(s, x, z)
                == init_river_rule(world_seed_spec(base_seed_spec(base_seed), s), x, z, parent.seeded_cell(s, x, z)),
    {
        InitRiverLayer { parent, rand: LayerRand::new(base_seed) }
    }

}

impl<P: Layer<Item = BiomeId>> Layer for InitRiverLayer<P> {

    type Item = u8;

    closed spec fn wf(&self) -> bool {
        &&& self.parent.wf()
        &&& self.parent.reach() < MAX_REACH
    }

    closed spec fn reach(&self) -> nat {
        self.parent.reach()
    }

    closed spec fn cell(&self, x: i32, z: i32) -> u8 {
        init_river_rule(self.rand.spec_world_seed(), x, z, self.parent.cell(x, z))
    }

    closed spec fn seeded_cell(&self, seed: i64, x: i32, z: i32) -> u8 {
        init_river_rule(world_seed_spec(self.rand.spec_base_seed(), seed), x, z, self.parent.seeded_cell(seed, x, z))
    }

    fn seed(&mut self, seed: i64) {
        self.parent.seed(seed);
        self.rand.init_world_seed(seed);
    }

    fn next(&mut self, x: i32, z: i32) -> (r: u8) {
        let biome = self.parent.next(x, z);
        init_river_cell(&mut self.rand, x, z, biome)
    }

}

/// A layer that tries to connect rivers.
pub struct AddRiverLayer<P: Layer<Item = u8>> {
    pub parent: P,
    cache: LayerCache<bool>,
}

impl<P: Layer<Item = u8>> AddRiverLayer<P> {

    pub fn new(parent: P) -> (r: Self)
        requires
            parent.wf(),
            parent.reach() < MAX_REACH,
        ensures
            r.wf(),
            r.reach() == parent.reach() + 1,
            forall|s: i64, x: i32, z: i32| #[trigger] r.seeded_cell(s, x, z) == add_river_rule(
                parent.seeded_cell(s, x, z),
                parent.seeded_cell(s, (x - 1) as i32, z),
                parent.seeded_cell(s, (x + 1) as i32, z),
                parent.seeded_cell(s, x, (z - 1) as i32),
                parent.seeded_cell(s, x, (z + 1) as i32),
            ),
    {
        AddRiverLayer { parent, cache: LayerCache::new() }
    }

    /// Computes the cell at `x`/`z` from the parent cells, without the cache.
    fn compute(&mut self, x: i32, z: i32) -> (r: bool)
        requires
            old(self).parent.wf(),
            in_reach(x, old(self).parent.reach() + 1),
            in_reach(z, old(self).parent.reach() + 1),
        ensures
            r == old(self).cell(x, z),
            final(self).parent.wf(),
            final(self).parent.reach() == old(self).parent.reach(),
            final(self).cache == old(self).cache,
            forall|x: i32, z: i32| #[trigger] final(self).cell(x, z) == old(self).cell(x, z),
            forall|s: i64, x: i32, z: i32| #[trigger] final(self).seeded_cell(s, x, z) == old(self).seeded_cell(s, x, z),
    {
        let ghost old_self = *self;
        let south = self.parent.next(x - 1, z);
        let north = self.parent.next(x + 1, z);
        let west = self.parent.next(x, z - 1);
        let east = self.parent.next(x, z + 1);
        let center = self.parent.next(x, z);
        let v = add_river_cell(center, south, north, west, east);
        proof {
            Self::lemma_frame(old_self, *self);
        }
        v
    }

    proof fn lemma_frame(a: Self, b: Self)
        requires
            forall|x: i32, z: i32| #[trigger] b.parent.cell(x, z) == a.parent.cell(x, z),
            forall|s: i64, x: i32, z: i32| #[trigger] b.parent.seeded_cell(s, x, z) == a.parent.seeded_cell(s, x, z),
        ensures
            forall|x: i32, z: i32| #[trigger] b.cell(x, z) == a.cell(x, z),
            forall|s: i64, x: i32, z: i32| #[trigger] b.seeded_cell(s, x, z) == a.seeded_cell(s, x, z),
    {
    }

}

impl<P: Layer<Item = u8>> Layer for AddRiverLayer<P> {

    type Item = bool;

    closed spec fn wf(&self) -> bool {
        &&& self.parent.wf()
        &&& self.parent.reach() < MAX_REACH
        &&& self.cache.wf()
        &&& forall|i: int| 0 <= i < 256 ==> (#[trigger] self.cache.view()[i] matches Some(e) ==> e.2 == self.cell(e.0, e.1))
    }

    closed spec fn reach(&self) -> nat {
        self.parent.reach() + 1
    }

    closed spec fn cell(&self, x: i32, z: i32) -> bool {
        add_river_rule(
            self.parent.cell(x, z),
            self.parent.cell((x - 1) as i32, z),
            self.parent.cell((x + 1) as i32, z),
            self.parent.cell(x, (z - 1) as i32),
            self.parent.cell(x, (z + 1) as i32),
        )
    }

    closed spec fn seeded_cell(&self, seed: i64, x: i32, z: i32) -> bool {
        add_river_rule(
            self.parent.seeded_cell(seed, x, z),
            self.parent.seeded_cell(seed, (x - 1) as i32, z),
            self.parent.seeded_cell(seed, (x + 1) as i32, z),
            self.parent.seeded_cell(seed, x, (z - 1) as i32),
            self.parent.seeded_cell(seed, x, (z + 1) as i32),
        )
    }

    fn seed(&mut self, seed: i64) {
        self.parent.seed(seed);
        self.cache.clear();
    }

    fn next(&mut self, x: i32, z: i32) -> (r: bool) {
        match self.cache.get(x, z) {
            Some(v) => {
                proof {
                    LayerCache::<bool>::lemma_slot_range(x, z);
                    let i = crate::layer::cache::slot_of(x, z);
                    assert(self.cache.view()[i] matches Some(e) ==> e.2 == self.cell(e.0, e.1));
                }
                *v
            },
            None => {
                let v = self.compute(x, z);
                let ghost mid = *self;
                self.cache.insert(x, z, v);
                proof {
                    LayerCache::<bool>::lemma_slot_range(x, z);
                    assert(self.parent == mid.parent);
                    assert forall|a: i32, b: i32| #[trigger] self.cell(a, b) == mid.cell(a, b) by {}
                    assert forall|s: i64, a: i32, b: i32| #[trigger] self.seeded_cell(s, a, b) == mid.seeded_cell(s, a, b) by {}
                    let f = |a: i32, b: i32| self.cell(a, b);
                    assert(f(x, z) == v);
                    assert forall|i: int| 0 <= i < 256 implies (#[trigger] mid.cache.view()[i] matches Some(e) ==> e.2 == f(e.0, e.1)) by {
                        assert(mid.cache.view()[i] matches Some(e) ==> e.2 == mid.cell(e.0, e.1));
                    }
                    LayerCache::lemma_insert_agrees(mid.cache.view(), self.cache.view(), f, x, z);
                    assert forall|i: int| 0 <= i < 256 implies (#[trigger] self.cache.view()[i] matches Some(e) ==> e.2 == self.cell(e.0, e.1)) by {
                        assert(self.cache.view()[i] matches Some(e) ==> e.2 == f(e.0, e.1));
                    }
                }
                v
            },
        }
    }

}

} // verus!
