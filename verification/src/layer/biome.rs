//! Biome layers: biome assignment, hills, shores, biome rivers and the mix of the
//! biome and river layers.

use vstd::prelude::*;

use crate::biome::{BiomeId, OCEAN, DESERT, FOREST, MOUNTAINS, SWAMP, PLAINS, TAIGA, JUNGLE};
use crate::layer_new::rand::{LayerRand, world_seed_spec, base_seed_spec, chunk_seed_spec};
use crate::layer_new::cell::{
    biome_rule, biome_cell, hills_rule, hills_variant, hills_variant_of, shore_rule, shore_cell,
    biome_river_rule, biome_river_cell, mix_rule, river_biome_of, draw_at,
};
use super::{Layer, LayerCache, in_reach, MAX_REACH};

verus! {

/// This layer replace all incoming 'plains' biome by a random biome chosen
/// from the internal biomes slice give when constructing the layer.
pub struct BiomeLayer<P: Layer<Item = BiomeId>> {
    pub parent: P,
    rand: LayerRand,
    biomes: Vec<BiomeId>,
}

/// The biomes that plains are replaced with in release 1.2.
pub fn biomes_1_2() -> (r: Vec<BiomeId>)
    ensures
        r@ == seq![DESERT, FOREST, MOUNTAINS, SWAMP, PLAINS, TAIGA, JUNGLE],
{
    vec![DESERT, FOREST, MOUNTAINS, SWAMP, PLAINS, TAIGA, JUNGLE]
}

impl<P: Layer<Item = BiomeId>> BiomeLayer<P> {

    pub fn new(parent: P, base_seed: i64, biomes: Vec<BiomeId>) -> (r: Self)
        requires
            parent.wf(),
            parent.reach() < MAX_REACH,
            0 < biomes@.len() <= u32::MAX,
        ensures
            r.wf(),
            r.reach() == parent.reach(),
            forall|s: i64, x: i32, z: i32| #[trigger] r.seeded_cell(s, x, z)
                == biome_rule(world_seed_spec(base_seed_spec(base_seed), s), x, z, parent.seeded_cell(s, x, z), biomes@),
    {
        BiomeLayer { parent, rand: LayerRand::new(base_seed), biomes }
    }

    /// The biome layer of the given game version, `None` for versions without one.
    pub fn with_version(parent: P, base_seed: i64, version: (u8, u8)) -> (r: Option<Self>)
        requires
            parent.wf(),
            parent.reach() < MAX_REACH,
        ensures
            r is Some <==> version == (1u8, 2u8),
            r matches Some(l) ==> l.wf() && l.reach() == parent.reach()
                && forall|s: i64, x: i32, z: i32| #[trigger] l.seeded_cell(s, x, z)
                    == biome_rule(world_seed_spec(base_seed_spec(base_seed), s), x, z, parent.seeded_cell(s, x, z),
                        seq![DESERT, FOREST, MOUNTAINS, SWAMP, PLAINS, TAIGA, JUNGLE]),
    {
        if version.0 == 1 && version.1 == 2 {
            Some(Self::with_version_1_2(parent, base_seed))
        } else {
            None
        }
    }

    /// The biome layer of the given game version, `None` for versions without one, as
    /// `with_version` gives it.
    pub fn from_version(parent: P, base_seed: i64, version: (u8, u8)) -> (r: Option<Self>)
        requires
            parent.wf(),
            parent.reach() < MAX_REACH,
        ensures
            r is Some <==> version == (1u8, 2u8),
            r matches Some(l) ==> l.wf() && l.reach() == parent.reach()
                && forall|s: i64, x: i32, z: i32| #[trigger] l.seeded_cell(s, x, z)
                    == biome_rule(world_seed_spec(base_seed_spec(base_seed), s), x, z, parent.seeded_cell(s, x, z),
                        seq![DESERT, FOREST, MOUNTAINS, SWAMP, PLAINS, TAIGA, JUNGLE]),
    {
        Self::with_version(parent, base_seed, version)
    }

    /// The biome layer of release 1.2.
    pub fn with_version_1_2(parent: P, base_seed: i64) -> (r: Self)
        requires
            parent.wf(),
            parent.reach() < MAX_REACH,
        ensures
            r.wf(),
            r.reach() == parent.reach(),
            forall|s: i64, x: i32, z: i32| #[trigger] r.seeded_cell(s, x, z)
                == biome_rule(world_seed_spec(base_seed_spec(base_seed), s), x, z, parent.seeded_cell(s, x, z),
                    seq![DESERT, FOREST, MOUNTAINS, SWAMP, PLAINS, TAIGA, JUNGLE]),
    {
        Self::new(parent, base_seed, biomes_1_2())
    }

}

impl<P: Layer<Item = BiomeId>> Layer for BiomeLayer<P> {

    type Item = BiomeId;

    closed spec fn wf(&self) -> bool {
        &&& self.parent.wf()
        &&& self.parent.reach() < MAX_REACH
        &&& 0 < self.biomes@.len() <= u32::MAX
    }

    closed spec fn reach(&self) -> nat {
        self.parent.reach()
    }

    closed spec fn cell(&self, x: i32, z: i32) -> BiomeId {
        biome_rule(self.rand.spec_world_seed(), x, z, self.parent.cell(x, z), self.biomes@)
    }

    closed spec fn seeded_cell(&self, seed: i64, x: i32, z: i32) -> BiomeId {
        biome_rule(world_seed_spec(self.rand.spec_base_seed(), seed), x, z, self.parent.seeded_cell(seed, x, z), self.biomes@)
    }

    fn seed(&mut self, seed: i64) {
        self.parent.seed(seed);
        self.rand.init_world_seed(seed);
    }

    fn next(&mut self, x: i32, z: i32) -> (r: BiomeId) {
        let biome = self.parent.next(x, z);
        biome_cell(&mut self.rand, x, z, biome, self.biomes.as_slice())
    }

}

/// This layer convert 1/3 of the non-hills biomes to their hills variant if the
/// hill is in between normal variant on the 4 sides.
pub struct HillsLayer<P: Layer<Item = BiomeId>> {
    pub parent: P,
    rand: LayerRand,
    repl_cache: LayerCache<BiomeId>,
}

impl<P: Layer<Item = BiomeId>> HillsLayer<P> {

    pub fn new(parent: P, base_seed: i64) -> (r: Self)
        requires
            parent.wf(),
            parent.reach() < MAX_REACH,
        ensures
            r.wf(),
            r.reach() == parent.reach() + 1,
            forall|s: i64, x: i32, z: i32| #[trigger] r.seeded_cell(s, x, z) == hills_rule(
                world_seed_spec(base_seed_spec(base_seed), s), x, z,
                parent.seeded_cell(s, x, z),
                parent.seeded_cell(s, (x - 1) as i32, z),
                parent.seeded_cell(s, (x + 1) as i32, z),
                parent.seeded_cell(s, x, (z - 1) as i32),
                parent.seeded_cell(s, x, (z + 1) as i32),
            ),
    {
        HillsLayer { parent, rand: LayerRand::new(base_seed), repl_cache: LayerCache::new() }
    }

    proof fn lemma_frame(a: Self, b: Self)
        requires
            a.rand.spec_world_seed() == b.rand.spec_world_seed(),
            a.rand.spec_base_seed() == b.rand.spec_base_seed(),
            forall|x: i32, z: i32| #[trigger] b.parent.cell(x, z) == a.parent.cell(x, z),
            forall|s: i64, x: i32, z: i32| #[trigger] b.parent.seeded_cell(s, x, z) == a.parent.seeded_cell(s, x, z),
        ensures
            forall|x: i32, z: i32| #[trigger] b.cell(x, z) == a.cell(x, z),
            forall|s: i64, x: i32, z: i32| #[trigger] b.seeded_cell(s, x, z) == a.seeded_cell(s, x, z),
    {
    }

    /// The hills decision for a cell whose draw selected it and whose biome has a
    /// hills variant, from the four neighbours.
    fn compute_repl(&mut self, x: i32, z: i32, biome: BiomeId, repl: BiomeId) -> (r: BiomeId)
        requires
            old(self).parent.wf(),
            in_reach(x, old(self).parent.reach() + 1),
            in_reach(z, old(self).parent.reach() + 1),
            biome == old(self).parent.cell(x, z),
            hills_variant(biome) == Some(repl),
            draw_at(old(self).rand.spec_world_seed(), chunk_seed_spec(old(self).rand.spec_world_seed(), x, z), 0, 3) == 0,
        ensures
            r == old(self).cell(x, z),
            final(self).parent.wf(),
            final(self).parent.reach() == old(self).parent.reach(),
            final(self).repl_cache == old(self).repl_cache,
            final(self).rand == old(self).rand,
            forall|x: i32, z: i32| #[trigger] final(self).cell(x, z) == old(self).cell(x, z),
            forall|s: i64, x: i32, z: i32| #[trigger] final(self).seeded_cell(s, x, z) == old(self).seeded_cell(s, x, z),
    {
        let ghost old_self = *self;
        let south = self.parent.next(x - 1, z);
        let north = self.parent.next(x + 1, z);
        let west = self.parent.next(x, z - 1);
        let east = self.parent.next(x, z + 1);
        proof {
            Self::lemma_frame(old_self, *self);
        }
        if south == biome && north == biome && west == biome && east == biome {
            repl
        } else {
            biome
        }
    }

}

impl<P: Layer<Item = BiomeId>> Layer for HillsLayer<P> {

    type Item = BiomeId;

    closed spec fn wf(&self) -> bool {
        &&& self.parent.wf()
        &&& self.parent.reach() < MAX_REACH
        &&& self.repl_cache.wf()
        &&& forall|i: int| 0 <= i < 256 ==> (#[trigger] self.repl_cache.view()[i] matches Some(e) ==> e.2 == self.cell(e.0, e.1))
    }

    closed spec fn reach(&self) -> nat {
        self.parent.reach() + 1
    }

    closed spec fn cell(&self, x: i32, z: i32) -> BiomeId {
        hills_rule(
            self.rand.spec_world_seed(), x, z,
            self.parent.cell(x, z),
            self.parent.cell((x - 1) as i32, z),
            self.parent.cell((x + 1) as i32, z),
            self.parent.cell(x, (z - 1) as i32),
            self.parent.cell(x, (z + 1) as i32),
        )
    }

    closed spec fn seeded_cell(&self, seed: i64, x: i32, z: i32) -> BiomeId {
        hills_rule(
            world_seed_spec(self.rand.spec_base_seed(), seed), x, z,
            self.parent.seeded_cell(seed, x, z),
            self.parent.seeded_cell(seed, (x - 1) as i32, z),
            self.parent.seeded_cell(seed, (x + 1) as i32, z),
            self.parent.seeded_cell(seed, x, (z - 1) as i32),
            self.parent.seeded_cell(seed, x, (z + 1) as i32),
        )
    }

    fn seed(&mut self, seed: i64) {
        self.parent.seed(seed);
        self.rand.init_world_seed(seed);
        self.repl_cache.clear();
    }

    fn next(&mut self, x: i32, z: i32) -> (r: BiomeId) {
        let ghost old_self = *self;
        let biome = self.parent.next(x, z);
        proof {
            Self::lemma_frame(old_self, *self);
        }
        self.rand.init_chunk_seed(x, z);
        let ghost c0 = self.rand.spec_chunk_seed();
        let ghost w = self.rand.spec_world_seed();
        assert(crate::layer_new::rand::advance_spec(c0, w, 0) == c0);
        if self.rand.next_int(3) == 0 {
            let ghost before = *self;
            proof {
                Self::lemma_frame(old_self, before);
            }
            match hills_variant_of(biome) {
                Some(repl) => {
                    match self.repl_cache.get(x, z) {
                        Some(v) => {
                            proof {
                                LayerCache::<BiomeId>::lemma_slot_range(x, z);
                                let i = crate::layer::cache::slot_of(x, z);
                                assert(self.repl_cache.view()[i] matches Some(e) ==> e.2 == self.cell(e.0, e.1));
                            }
                            *v
                        },
                        None => {
                            let v = self.compute_repl(x, z, biome, repl);
                            let ghost mid = *self;
                            self.repl_cache.insert(x, z, v);
                            proof {
                                LayerCache::<BiomeId>::lemma_slot_range(x, z);
                                assert(self.parent == mid.parent && self.rand == mid.rand);
                                assert forall|a: i32, b: i32| #[trigger] self.cell(a, b) == mid.cell(a, b) by {}
                                assert forall|s: i64, a: i32, b: i32| #[trigger] self.seeded_cell(s, a, b) == mid.seeded_cell(s, a, b) by {}
                                let f = |a: i32, b: i32| self.cell(a, b);
                                assert(f(x, z) == v);
                                assert forall|i: int| 0 <= i < 256 implies (#[trigger] mid.repl_cache.view()[i] matches Some(e) ==> e.2 == f(e.0, e.1)) by {
                                    assert(mid.repl_cache.view()[i] matches Some(e) ==> e.2 == mid.cell(e.0, e.1));
                                }
                                LayerCache::lemma_insert_agrees(mid.repl_cache.view(), self.repl_cache.view(), f, x, z);
                                assert forall|i: int| 0 <= i < 256 implies (#[trigger] self.repl_cache.view()[i] matches Some(e) ==> e.2 == self.cell(e.0, e.1)) by {
                                    assert(self.repl_cache.view()[i] matches Some(e) ==> e.2 == f(e.0, e.1));
                                }
                            }
                            v
                        },
                    }
                },
                None => biome,
            }
        } else {
            proof {
                Self::lemma_frame(old_self, *self);
            }
            biome
        }
    }

}

/// A layer that add some shore and edge biomes depending on island and hills placements.
pub struct ShoreLayer<P: Layer<Item = BiomeId>> {
    pub parent: P,
    cache: LayerCache<BiomeId>,
}

impl<P: Layer<Item = BiomeId>> ShoreLayer<P> {

    pub fn new(parent: P) -> (r: Self)
        requires
            parent.wf(),
            parent.reach() < MAX_REACH,
        ensures
            r.wf(),
            r.reach() == parent.reach() + 1,
            forall|s: i64, x: i32, z: i32| #[trigger] r.seeded_cell(s, x, z) == shore_rule(
                parent.seeded_cell(s, x, z),
                parent.seeded_cell(s, (x - 1) as i32, z),
                parent.seeded_cell(s, (x + 1) as i32, z),
                parent.seeded_cell(s, x, (z - 1) as i32),
                parent.seeded_cell(s, x, (z + 1) as i32),
            ),
    {
        ShoreLayer { parent, cache: LayerCache::new() }
    }

    /// Computes the cell at `x`/`z` from the parent cells, without the cache.
    fn compute(&mut self, x: i32, z: i32) -> (r: BiomeId)
        requires
            old(self).parent.wf(),
            in_reach(x, old(self).parent.reach() + 1),
            in_reach(z, old(self).parent.reach() + 1),
        ensures
            r == old(self).cell(x, z),
            final(self).parent.wf(),
            final(self).parent.reach() == old(self).parent.reach(),
            final(self).cache == old(self).cache,
            forall|x: i32, z: i32| #[trigger] final(self).cell(x, z) == old(self).cell(x, z),
            forall|s: i64, x: i32, z: i32| #[trigger] final(self).seeded_cell(s, x, z) == old(self).seeded_cell(s, x, z),
    {
        let ghost old_self = *self;
        let center = self.parent.next(x, z);
        let south = self.parent.next(x - 1, z);
        let north = self.parent.next(x + 1, z);
        let west = self.parent.next(x, z - 1);
        let east = self.parent.next(x, z + 1);
        let v = shore_cell(center, south, north, west, east);
        proof {
            Self::lemma_frame(old_self, *self);
        }
        v
    }

    proof fn lemma_frame(a: Self, b: Self)
        requires
            forall|x: i32, z: i32| #[trigger] b.parent.cell(x, z) == a.parent.cell(x, z),
            forall|s: i64, x: i32, z: i32| #[trigger] b.parent.seeded_cell(s, x, z) == a.parent.seeded_cell(s, x, z),
        ensures
            forall|x: i32, z: i32| #[trigger] b.cell(x, z) == a.cell(x, z),
            forall|s: i64, x: i32, z: i32| #[trigger] b.seeded_cell(s, x, z) == a.seeded_cell(s, x, z),
    {
    }

}

impl<P: Layer<Item = BiomeId>> Layer for ShoreLayer<P> {

    type Item = BiomeId;

    closed spec fn wf(&self) -> bool {
        &&& self.parent.wf()
        &&& self.parent.reach() < MAX_REACH
        &&& self.cache.wf()
        &&& forall|i: int| 0 <= i < 256 ==> (#[trigger] self.cache.view()[i] matches Some(e) ==> e.2 == self.cell(e.0, e.1))
    }

    closed spec fn reach(&self) -> nat {
        self.parent.reach() + 1
    }

    closed spec fn cell(&self, x: i32, z: i32) -> BiomeId {
        shore_rule(
            self.parent.cell(x, z),
            self.parent.cell((x - 1) as i32, z),
            self.parent.cell((x + 1) as i32, z),
            self.parent.cell(x, (z - 1) as i32),
            self.parent.cell(x, (z + 1) as i32),
        )
    }

    closed spec fn seeded_cell(&self, seed: i64, x: i32, z: i32) -> BiomeId {
        shore_rule(
            self.parent.seeded_cell(seed, x, z),
            self.parent.seeded_cell(seed, (x - 1) as i32, z),
            self.parent.seeded_cell(seed, (x + 1) as i32, z),
            self.parent.seeded_cell(seed, x, (z - 1) as i32),
            self.parent.seeded_cell(seed, x, (z + 1) as i32),
        )
    }

    fn seed(&mut self, seed: i64) {
        self.parent.seed(seed);
        self.cache.clear();
    }

    fn next(&mut self, x: i32, z: i32) -> (r: BiomeId) {
        match self.cache.get(x, z) {
            Some(v) => {
                proof {
                    LayerCache::<BiomeId>::lemma_slot_range(x, z);
                    let i = crate::layer::cache::slot_of(x, z);
                    assert(self.cache.view()[i] matches Some(e) ==> e.2 == self.cell(e.0, e.1));
                }
                *v
            },
            None => {
                let v = self.compute(x, z);
                let ghost mid = *self;
                self.cache.insert(x, z, v);
                proof {
                    LayerCache::<BiomeId>::lemma_slot_range(x, z);
                    assert(self.parent == mid.parent);
                    assert forall|a: i32, b: i32| #[trigger] self.cell(a, b) == mid.cell(a, b) by {}
                    assert forall|s: i64, a: i32, b: i32| #[trigger] self.seeded_cell(s, a, b) == mid.seeded_cell(s, a, b) by {}
                    let f = |a: i32, b: i32| self.cell(a, b);
                    assert(f(x, z) == v);
                    assert forall|i: int| 0 <= i < 256 implies (#[trigger] mid.cache.view()[i] matches Some(e) ==> e.2 == f(e.0, e.1)) by {
                        assert(mid.cache.view()[i] matches Some(e) ==> e.2 == mid.cell(e.0, e.1));
                    }
                    LayerCache::lemma_insert_agrees(mid.cache.view(), self.cache.view(), f, x, z);
                    assert forall|i: int| 0 <= i < 256 implies (#[trigger] self.cache.view()[i] matches Some(e) ==> e.2 == self.cell(e.0, e.1)) by {
                        assert(self.cache.view()[i] matches Some(e) ==> e.2 == f(e.0, e.1));
                    }
                }
                v
            },
        }
    }

}

/// A layer that adds rivers in swamps and jungles.
pub struct BiomeRiverLayer<P: Layer<Item = BiomeId>> {
    pub parent: P,
    rand: LayerRand,
}

impl<P: Layer<Item = BiomeId>> BiomeRiverLayer<P> {

    pub fn new(parent: P, base_seed: i64) -> (r: Self)
        requires
            parent.wf(),
            parent.reach() < MAX_REACH,
        ensures
            r.wf(),
            r.reach() == parent.reach(),
            forall|s: i64, x: i32, z: i32| #[trigger] r.seeded_cell(s, x, z)
                == biome_river_rule(world_seed_spec(base_seed_spec(base_seed), s), x, z, parent.seeded_cell(s, x, z)),
    {
        BiomeRiverLayer { parent, rand: LayerRand::new(base_seed) }
    }

}

impl<P: Layer<Item = BiomeId>> Layer for BiomeRiverLayer<P> {

    type Item = BiomeId;

    closed spec fn wf(&self) -> bool {
        &&& self.parent.wf()
        &&& self.parent.reach() < MAX_REACH
    }

    closed spec fn reach(&self) -> nat {
        self.parent.reach()
    }

    closed spec fn cell(&self, x: i32, z: i32) -> BiomeId {
        biome_river_rule(self.rand.spec_world_seed(), x, z, self.parent.cell(x, z))
    }

    closed spec fn seeded_cell(&self, seed: i64, x: i32, z: i32) -> BiomeId {
        biome_river_rule(world_seed_spec(self.rand.spec_base_seed(), seed), x, z, self.parent.seeded_cell(seed, x, z))
    }

    fn seed(&mut self, seed: i64) {
        self.parent.seed(seed);
        self.rand.init_world_seed(seed);
    }

    fn next(&mut self, x: i32, z: i32) -> (r: BiomeId) {
        let biome = self.parent.next(x, z);
        biome_river_cell(&mut self.rand, x, z, biome)
    }

}

/// A layer that mix two parent layers, the parent #0 must be the biome layer and
/// the #1 the river layer.
pub struct MixBiomeAndRiverLayer<B: Layer<Item = BiomeId>, R: Layer<Item = bool>> {
    pub biome_parent: B,
    pub river_parent: R,
}

impl<B: Layer<Item = BiomeId>, R: Layer<Item = bool>> MixBiomeAndRiverLayer<B, R> {

    pub fn new(biome_parent: B, river_parent: R) -> (r: Self)
        requires
            biome_parent.wf(),
            river_parent.wf(),
        ensures
            r.wf(),
            r.biome_parent == biome_parent,
            r.river_parent == river_parent,
            r.reach() == (if biome_parent.reach() >= river_parent.reach() { biome_parent.reach() } else { river_parent.reach() }),
            forall|s: i64, x: i32, z: i32| #[trigger] r.seeded_cell(s, x, z)
                == mix_rule(biome_parent.seeded_cell(s, x, z), river_parent.seeded_cell(s, x, z)),
    {
        MixBiomeAndRiverLayer { biome_parent, river_parent }
    }

}

impl<B: Layer<Item = BiomeId>, R: Layer<Item = bool>> Layer for MixBiomeAndRiverLayer<B, R> {

    type Item = BiomeId;

    closed spec fn wf(&self) -> bool {
        &&& self.biome_parent.wf()
        &&& self.river_parent.wf()
    }

    closed spec fn reach(&self) -> nat {
        if self.biome_parent.reach() >= self.river_parent.reach() { self.biome_parent.reach() } else { self.river_parent.reach() }
    }

    closed spec fn cell(&self, x: i32, z: i32) -> BiomeId {
        mix_rule(self.biome_parent.cell(x, z), self.river_parent.cell(x, z))
    }

    closed spec fn seeded_cell(&self, seed: i64, x: i32, z: i32) -> BiomeId {
        mix_rule(self.biome_parent.seeded_cell(seed, x, z), self.river_parent.seeded_cell(seed, x, z))
    }

    fn seed(&mut self, seed: i64) {
        self.biome_parent.seed(seed);
        self.river_parent.seed(seed);
    }

    fn next(&mut self, x: i32, z: i32) -> (r: BiomeId) {
        let biome = self.biome_parent.next(x, z);
        if biome != OCEAN && self.river_parent.next(x, z) {
            river_biome_of(biome)
        } else {
            biome
        }
    }

}

} // verus!
