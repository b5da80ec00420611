//! Island layers: the initial land and ocean cells, land growth and mushroom islands.

use vstd::prelude::*;

use crate::biome::BiomeId;
use crate::layer_new::rand::{LayerRand, world_seed_spec, base_seed_spec};
use crate::layer_new::cell::{
    island_rule, island_cell, add_island_rule, add_island_cell, mushroom_island_rule, mushroom_island_cell,
};
use super::{Layer, LayerCache, in_reach, MAX_REACH};

verus! {

/// The initial island layer: one cell in ten is plains, the others ocean.
pub struct IslandLayer {
    rand: LayerRand,
}

impl IslandLayer {
    pub fn new(base_seed: i64) -> (r: Self)
        ensures
            r.wf(),
            r.reach() == 0,
            forall|s: i64, x: i32, z: i32| #[trigger] r.seeded_cell(s, x, z)
                == island_rule(world_seed_spec(base_seed_spec(base_seed), s), x, z),
    {
        IslandLayer { rand: LayerRand::new(base_seed) }
    }
}

impl Layer for IslandLayer {

    type Item = BiomeId;

    open spec fn wf(&self) -> bool {
        true
    }

    open spec fn reach(&self) -> nat {
        0
    }

    closed spec fn cell(&self, x: i32, z: i32) -> BiomeId {
        island_rule(self.rand.spec_world_seed(), x, z)
    }

    closed spec fn seeded_cell(&self, seed: i64, x: i32, z: i32) -> BiomeId {
        island_rule(world_seed_spec(self.rand.spec_base_seed(), seed), x, z)
    }

    fn seed(&mut self, seed: i64) {
        self.rand.init_world_seed(seed);
    }

    fn next(&mut self, x: i32, z: i32) -> (r: BiomeId) {
        island_cell(&mut self.rand, x, z)
    }

}

/// A layer growing land: ocean cells touching land at a corner may become land, land
/// cells touching ocean at a corner may become ocean.
pub struct AddIslandLayer<P: Layer<Item = BiomeId>> {
    parent: P,
    rand: LayerRand,
    cache: LayerCache<BiomeId>,
}

impl<P: Layer<Item = BiomeId>> AddIslandLayer<P> {

    pub fn new(parent: P, base_seed: i64) -> (r: Self)
        requires
            parent.wf(),
            parent.reach() < MAX_REACH,
        ensures
            r.wf(),
            r.reach() == parent.reach() + 1,
            forall|s: i64, x: i32, z: i32| #[trigger] r.seeded_cell(s, x, z) == add_island_rule(
                world_seed_spec(base_seed_spec(base_seed), s), x, z,
                parent.seeded_cell(s, x, z),
                parent.seeded_cell(s, (x - 1) as i32, (z - 1) as i32),
                parent.seeded_cell(s, (x + 1) as i32, (z - 1) as i32),
                parent.seeded_cell(s, (x - 1) as i32, (z + 1) as i32),
                parent.seeded_cell(s, (x + 1) as i32, (z + 1) as i32),
            ),
    {
        AddIslandLayer { parent, rand: LayerRand::new(base_seed), cache: LayerCache::new() }
    }

    /// Computes the cell at `x`/`z` from the parent cells, without the cache.
    fn compute(&mut self, x: i32, z: i32) -> (r: BiomeId)
        requires
            old(self).parent.wf(),
            in_reach(x, old(self).parent.reach() + 1),
            in_reach(z, old(self).parent.reach() + 1),
        ensures
            r == old(self).cell(x, z),
            final(self).parent.wf(),
            final(self).parent.reach() == old(self).parent.reach(),
            final(self).cache == old(self).cache,
            final(self).rand.spec_world_seed() == old(self).rand.spec_world_seed(),
            final(self).rand.spec_base_seed() == old(self).rand.spec_base_seed(),
            forall|x: i32, z: i32| #[trigger] final(self).cell(x, z) == old(self).cell(x, z),
            forall|s: i64, x: i32, z: i32| #[trigger] final(self).seeded_cell(s, x, z) == old(self).seeded_cell(s, x, z),
    {
        let ghost old_self = *self;
        let center = self.parent.next(x, z);
        let sw = self.parent.next(x - 1, z - 1);
        let nw = self.parent.next(x + 1, z - 1);
        let se = self.parent.next(x - 1, z + 1);
        let ne = self.parent.next(x + 1, z + 1);
        let v = add_island_cell(&mut self.rand, x, z, center, sw, nw, se, ne);
        proof {
            Self::lemma_frame(old_self, *self);
        }
        v
    }

    proof fn lemma_frame(a: Self, b: Self)
        requires
            a.rand.spec_world_seed() == b.rand.spec_world_seed(),
            a.rand.spec_base_seed() == b.rand.spec_base_seed(),
            forall|x: i32, z: i32| #[trigger] b.parent.cell(x, z) == a.parent.cell(x, z),
            forall|s: i64, x: i32, z: i32| #[trigger] b.parent.seeded_cell(s, x, z) == a.parent.seeded_cell(s, x, z),
        ensures
            forall|x: i32, z: i32| #[trigger] b.cell(x, z) == a.cell(x, z),
            forall|s: i64, x: i32, z: i32| #[trigger] b.seeded_cell(s, x, z) == a.seeded_cell(s, x, z),
    {
    }

}

impl<P: Layer<Item = BiomeId>> Layer for AddIslandLayer<P> {

    type Item = BiomeId;

    closed spec fn wf(&self) -> bool {
        &&& self.parent.wf()
        &&& self.parent.reach() < MAX_REACH
        &&& self.cache.wf()
        &&& forall|i: int| 0 <= i < 256 ==> (#[trigger] self.cache.view()[i] matches Some(e) ==> e.2 == self.cell(e.0, e.1))
    }

    closed spec fn reach(&self) -> nat {
        self.parent.reach() + 1
    }

    closed spec fn cell(&self, x: i32, z: i32) -> BiomeId {
        add_island_rule(
            self.rand.spec_world_seed(), x, z,
            self.parent.cell(x, z),
            self.parent.cell((x - 1) as i32, (z - 1) as i32),
            self.parent.cell((x + 1) as i32, (z - 1) as i32),
            self.parent.cell((x - 1) as i32, (z + 1) as i32),
            self.parent.cell((x + 1) as i32, (z + 1) as i32),
        )
    }

    closed spec fn seeded_cell(&self, seed: i64, x: i32, z: i32) -> BiomeId {
        add_island_rule(
            world_seed_spec(self.rand.spec_base_seed(), seed), x, z,
            self.parent.seeded_cell(seed, x, z),
            self.parent.seeded_cell(seed, (x - 1) as i32, (z - 1) as i32),
            self.parent.seeded_cell(seed, (x + 1) as i32, (z - 1) as i32),
            self.parent.seeded_cell(seed, (x - 1) as i32, (z + 1) as i32),
            self.parent.seeded_cell(seed, (x + 1) as i32, (z + 1) as i32),
        )
    }

    fn seed(&mut self, seed: i64) {
        self.parent.seed(seed);
        self.rand.init_world_seed(seed);
        self.cache.clear();
    }

    fn next(&mut self, x: i32, z: i32) -> (r: BiomeId) {
        match self.cache.get(x, z) {
            Some(v) => {
                proof {
                    LayerCache::<BiomeId>::lemma_slot_range(x, z);
                    let i = crate::layer::cache::slot_of(x, z);
                    assert(self.cache.view()[i] matches Some(e) ==> e.2 == self.cell(e.0, e.1));
                }
                *v
            },
            None => {
                let v = self.compute(x, z);
                let ghost mid = *self;
                self.cache.insert(x, z, v);
                proof {
                    LayerCache::<BiomeId>::lemma_slot_range(x, z);
                    assert(self.parent == mid.parent && self.rand == mid.rand);
                    assert forall|a: i32, b: i32| #[trigger] self.cell(a, b) == mid.cell(a, b) by {}
                    assert forall|s: i64, a: i32, b: i32| #[trigger] self.seeded_cell(s, a, b) == mid.seeded_cell(s, a, b) by {}
                    let f = |a: i32, b: i32| self.cell(a, b);
                    assert(f(x, z) == v);
                    assert forall|i: int| 0 <= i < 256 implies (#[trigger] mid.cache.view()[i] matches Some(e) ==> e.2 == f(e.0, e.1)) by {
                        assert(mid.cache.view()[i] matches Some(e) ==> e.2 == mid.cell(e.0, e.1));
                    }
                    LayerCache::lemma_insert_agrees(mid.cache.view(), self.cache.view(), f, x, z);
                    assert forall|i: int| 0 <= i < 256 implies (#[trigger] self.cache.view()[i] matches Some(e) ==> e.2 == self.cell(e.0, e.1)) by {
                        assert(self.cache.view()[i] matches Some(e) ==> e.2 == f(e.0, e.1));
                    }
                }
                v
            },
        }
    }

}

/// A layer placing rare mushroom fields in the middle of the ocean.
pub struct AddMushroomIslandLayer<P: Layer<Item = BiomeId>> {
    parent: P,
    rand: LayerRand,
    cache: LayerCache<BiomeId>,
}

impl<P: Layer<Item = BiomeId>> AddMushroomIslandLayer<P> {

    pub fn new(parent: P, base_seed: i64) -> (r: Self)
        requires
            parent.wf(),
            parent.reach() < MAX_REACH,
        ensures
            r.wf(),
            r.reach() == parent.reach() + 1,
            forall|s: i64, x: i32, z: i32| #[trigger] r.seeded_cell(s, x, z) == mushroom_island_rule(
                world_seed_spec(base_seed_spec(base_seed), s), x, z,
                parent.seeded_cell(s, x, z),
                parent.seeded_cell(s, (x - 1) as i32, (z - 1) as i32),
                parent.seeded_cell(s, (x + 1) as i32, (z - 1) as i32),
                parent.seeded_cell(s, (x - 1) as i32, (z + 1) as i32),
                parent.seeded_cell(s, (x + 1) as i32, (z + 1) as i32),
            ),
    {
        AddMushroomIslandLayer { parent, rand: LayerRand::new(base_seed), cache: LayerCache::new() }
    }

    /// Computes the cell at `x`/`z` from the parent cells, without the cache.
    fn compute(&mut self, x: i32, z: i32) -> (r: BiomeId)
        requires
            old(self).parent.wf(),
            in_reach(x, old(self).parent.reach() + 1),
            in_reach(z, old(self).parent.reach() + 1),
        ensures
            r == old(self).cell(x, z),
            final(self).parent.wf(),
            final(self).parent.reach() == old(self).parent.reach(),
            final(self).cache == old(self).cache,
            final(self).rand.spec_world_seed() == old(self).rand.spec_world_seed(),
            final(self).rand.spec_base_seed() == old(self).rand.spec_base_seed(),
            forall|x: i32, z: i32| #[trigger] final(self).cell(x, z) == old(self).cell(x, z),
            forall|s: i64, x: i32, z: i32| #[trigger] final(self).seeded_cell(s, x, z) == old(self).seeded_cell(s, x, z),
    {
        let ghost old_self = *self;
        let center = self.parent.next(x, z);
        let sw = self.parent.next(x - 1, z - 1);
        let nw = self.parent.next(x + 1, z - 1);
        let se = self.parent.next(x - 1, z + 1);
        let ne = self.parent.next(x + 1, z + 1);
        let v = mushroom_island_cell(&mut self.rand, x, z, center, sw, nw, se, ne);
        proof {
            Self::lemma_frame(old_self, *self);
        }
        v
    }

    proof fn lemma_frame(a: Self, b: Self)
        requires
            a.rand.spec_world_seed() == b.rand.spec_world_seed(),
            a.rand.spec_base_seed() == b.rand.spec_base_seed(),
            forall|x: i32, z: i32| #[trigger] b.parent.cell(x, z) == a.parent.cell(x, z),
            forall|s: i64, x: i32, z: i32| #[trigger] b.parent.seeded_cell(s, x, z) == a.parent.seeded_cell(s, x, z),
        ensures
            forall|x: i32, z: i32| #[trigger] b.cell(x, z) == a.cell(x, z),
            forall|s: i64, x: i32, z: i32| #[trigger] b.seeded_cell(s, x, z) == a.seeded_cell(s, x, z),
    {
    }

}

impl<P: Layer<Item = BiomeId>> Layer for AddMushroomIslandLayer<P> {

    type Item = BiomeId;

    closed spec fn wf(&self) -> bool {
        &&& self.parent.wf()
        &&& self.parent.reach() < MAX_REACH
        &&& self.cache.wf()
        &&& forall|i: int| 0 <= i < 256 ==> (#[trigger] self.cache.view()[i] matches Some(e) ==> e.2 == self.cell(e.0, e.1))
    }

    closed spec fn reach(&self) -> nat {
        self.parent.reach() + 1
    }

    closed spec fn cell(&self, x: i32, z: i32) -> BiomeId {
        mushroom_island_rule(
            self.rand.spec_world_seed(), x, z,
            self.parent.cell(x, z),
            self.parent.cell((x - 1) as i32, (z - 1) as i32),
            self.parent.cell((x + 1) as i32, (z - 1) as i32),
            self.parent.cell((x - 1) as i32, (z + 1) as i32),
            self.parent.cell((x + 1) as i32, (z + 1) as i32),
        )
    }

    closed spec fn seeded_cell(&self, seed: i64, x: i32, z: i32) -> BiomeId {
        mushroom_island_rule(
            world_seed_spec(self.rand.spec_base_seed(), seed), x, z,
            self.parent.seeded_cell(seed, x, z),
            self.parent.seeded_cell(seed, (x - 1) as i32, (z - 1) as i32),
            self.parent.seeded_cell(seed, (x + 1) as i32, (z - 1) as i32),
            self.parent.seeded_cell(seed, (x - 1) as i32, (z + 1) as i32),
            self.parent.seeded_cell(seed, (x + 1) as i32, (z + 1) as i32),
        )
    }

    fn seed(&mut self, seed: i64) {
        self.parent.seed(seed);
        self.rand.init_world_seed(seed);
        self.cache.clear();
    }

    fn next(&mut self, x: i32, z: i32) -> (r: BiomeId) {
        match self.cache.get(x, z) {
            Some(v) => {
                proof {
                    LayerCache::<BiomeId>::lemma_slot_range(x, z);
                    let i = crate::layer::cache::slot_of(x, z);
                    assert(self.cache.view()[i] matches Some(e) ==> e.2 == self.cell(e.0, e.1));
                }
                *v
            },
            None => {
                let v = self.compute(x, z);
                let ghost mid = *self;
                self.cache.insert(x, z, v);
                proof {
                    LayerCache::<BiomeId>::lemma_slot_range(x, z);
                    assert(self.parent == mid.parent && self.rand == mid.rand);
                    assert forall|a: i32, b: i32| #[trigger] self.cell(a, b) == mid.cell(a, b) by {}
                    assert forall|s: i64, a: i32, b: i32| #[trigger] self.seeded_cell(s, a, b) == mid.seeded_cell(s, a, b) by {}
                    let f = |a: i32, b: i32| self.cell(a, b);
                    assert(f(x, z) == v);
                    assert forall|i: int| 0 <= i < 256 implies (#[trigger] mid.cache.view()[i] matches Some(e) ==> e.2 == f(e.0, e.1)) by {
                        assert(mid.cache.view()[i] matches Some(e) ==> e.2 == mid.cell(e.0, e.1));
                    }
                    LayerCache::lemma_insert_agrees(mid.cache.view(), self.cache.view(), f, x, z);
                    assert forall|i: int| 0 <= i < 256 implies (#[trigger] self.cache.view()[i] matches Some(e) ==> e.2 == self.cell(e.0, e.1)) by {
                        assert(self.cache.view()[i] matches Some(e) ==> e.2 == f(e.0, e.1));
                    }
                }
                v
            },
        }
    }

}

} // verus!
