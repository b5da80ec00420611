//! A builder chaining iterative layers.

use vstd::prelude::*;
use vstd::std_specs::cmp::PartialEqSpec;

use crate::biome::{BiomeId, DESERT, FOREST, MOUNTAINS, SWAMP, PLAINS, TAIGA, JUNGLE};
use crate::layer_new::rand::{world_seed_spec, base_seed_spec};
use crate::layer_new::cell::{
    island_rule, add_island_rule, mushroom_island_rule, snow_rule, init_river_rule, add_river_rule,
    smooth_rule, zoom_rule, biome_rule, hills_rule, shore_rule, biome_river_rule, mix_rule,
};
use super::{Layer, MAX_REACH, island, zoom, smooth, snow, river, biome};

verus! {

/// Wraps a layer to chain new layers on top of it.
pub struct LayerBuilder<L: Layer>(pub L);

impl<L: Layer> LayerBuilder<L> where L::Item: Copy + PartialEq {

    pub fn then_zoom_fuzzy(self, base_seed: i64) -> (r: LayerBuilder<zoom::ZoomLayer<L, true>>)
        requires
            self.0.wf(),
            self.0.reach() < MAX_REACH,
            <L::Item as PartialEqSpec>::obeys_eq_spec(),
        ensures
            r.0.wf(),
            r.0.reach() == self.0.reach() + 1,
            forall|s: i64, x: i32, z: i32| #[trigger] r.0.seeded_cell(s, x, z) == zoom_rule(
                world_seed_spec(crate::layer_new::rand::base_seed_spec(base_seed), s),
                (x >> 1u32) << 1u32, (z >> 1u32) << 1u32, (x & 1) == 1, (z & 1) == 1, true,
                self.0.seeded_cell(s, x >> 1u32, z >> 1u32),
                self.0.seeded_cell(s, x >> 1u32, ((z >> 1u32) + 1) as i32),
                self.0.seeded_cell(s, ((x >> 1u32) + 1) as i32, z >> 1u32),
                self.0.seeded_cell(s, ((x >> 1u32) + 1) as i32, ((z >> 1u32) + 1) as i32),
            ),    {
        LayerBuilder(zoom::ZoomLayer::new_fuzzy(self.0, base_seed))
    }

    pub fn then_zoom_smart(self, base_seed: i64) -> (r: LayerBuilder<zoom::ZoomLayer<L, false>>)
        requires
            self.0.wf(),
            self.0.reach() < MAX_REACH,
            <L::Item as PartialEqSpec>::obeys_eq_spec(),
        ensures
            r.0.wf(),
            r.0.reach() == self.0.reach() + 1,
            forall|s: i64, x: i32, z: i32| #[trigger] r.0.seeded_cell(s, x, z) == zoom_rule(
                world_seed_spec(crate::layer_new::rand::base_seed_spec(base_seed), s),
                (x >> 1u32) << 1u32, (z >> 1u32) << 1u32, (x & 1) == 1, (z & 1) == 1, false,
                self.0.seeded_cell(s, x >> 1u32, z >> 1u32),
                self.0.seeded_cell(s, x >> 1u32, ((z >> 1u32) + 1) as i32),
                self.0.seeded_cell(s, ((x >> 1u32) + 1) as i32, z >> 1u32),
                self.0.seeded_cell(s, ((x >> 1u32) + 1) as i32, ((z >> 1u32) + 1) as i32),
            ),    {
        LayerBuilder(zoom::ZoomLayer::new_smart(self.0, base_seed))
    }

    pub fn then_smooth(self, base_seed: i64) -> (r: LayerBuilder<smooth::SmoothLayer<L>>)
        requires
            self.0.wf(),
            self.0.reach() < MAX_REACH,
            <L::Item as PartialEqSpec>::obeys_eq_spec(),
        ensures
            r.0.wf(),
            r.0.reach() == self.0.reach() + 1,
            forall|s: i64, x: i32, z: i32| #[trigger] r.0.seeded_cell(s, x, z) == smooth_rule(
                world_seed_spec(crate::layer_new::rand::base_seed_spec(base_seed), s), x, z,
                self.0.seeded_cell(s, (x - 1) as i32, z),
                self.0.seeded_cell(s, (x + 1) as i32, z),
                self.0.seeded_cell(s, x, (z - 1) as i32),
                self.0.seeded_cell(s, x, (z + 1) as i32),
                self.0.seeded_cell(s, x, z),
            ),    {
        LayerBuilder(smooth::SmoothLayer::new(self.0, base_seed))
    }

}

impl<L: Layer> LayerBuilder<L> {

    pub fn build(self) -> (r: L)
        ensures
            r == self.0,
    {
        self.0
    }

}

impl<L: Layer<Item = BiomeId>> LayerBuilder<L> {

    pub fn then_add_island(self, base_seed: i64) -> (r: LayerBuilder<island::AddIslandLayer<L>>)
        requires
            self.0.wf(),
            self.0.reach() < MAX_REACH,
        ensures
            r.0.wf(),
            r.0.reach() == self.0.reach() + 1,
            forall|s: i64, x: i32, z: i32| #[trigger] r.0.seeded_cell(s, x, z) == add_island_rule(
                world_seed_spec(base_seed_spec(base_seed), s), x, z,
                self.0.seeded_cell(s, x, z),
                self.0.seeded_cell(s, (x - 1) as i32, (z - 1) as i32),
                self.0.seeded_cell(s, (x + 1) as i32, (z - 1) as i32),
                self.0.seeded_cell(s, (x - 1) as i32, (z + 1) as i32),
                self.0.seeded_cell(s, (x + 1) as i32, (z + 1) as i32),
            ),    {
        LayerBuilder(island::AddIslandLayer::new(self.0, base_seed))
    }

    pub fn then_add_mushroom_island(self, base_seed: i64) -> (r: LayerBuilder<island::AddMushroomIslandLayer<L>>)
        requires
            self.0.wf(),
            self.0.reach() < MAX_REACH,
        ensures
            r.0.wf(),
            r.0.reach() == self.0.reach() + 1,
            forall|s: i64, x: i32, z: i32| #[trigger] r.0.seeded_cell(s, x, z) == mushroom_island_rule(
                world_seed_spec(base_seed_spec(base_seed), s), x, z,
                self.0.seeded_cell(s, x, z),
                self.0.seeded_cell(s, (x - 1) as i32, (z - 1) as i32),
                self.0.seeded_cell(s, (x + 1) as i32, (z - 1) as i32),
                self.0.seeded_cell(s, (x - 1) as i32, (z + 1) as i32),
                self.0.seeded_cell(s, (x + 1) as i32, (z + 1) as i32),
            ),    {
        LayerBuilder(island::AddMushroomIslandLayer::new(self.0, base_seed))
    }

    pub fn then_add_snow(self, base_seed: i64) -> (r: LayerBuilder<snow::AddSnowLayer<L>>)
        requires
            self.0.wf(),
            self.0.reach() < MAX_REACH,
        ensures
            r.0.wf(),
            r.0.reach() == self.0.reach(),
            forall|s: i64, x: i32, z: i32| #[trigger] r.0.seeded_cell(s, x, z)
                == snow_rule(world_seed_spec(base_seed_spec(base_seed), s), x, z, self.0.cell(x, z)),    {
        LayerBuilder(snow::AddSnowLayer::new(self.0, base_seed))
    }

    pub fn then_init_river(self, base_seed: i64) -> (r: LayerBuilder<river::InitRiverLayer<L>>)
        requires
            self.0.wf(),
            self.0.reach() < MAX_REACH,
        ensures
            r.0.wf(),
            r.0.reach() == self.0.reach(),
            forall|s: i64, x: i32, z: i32| #[trigger] r.0.seeded_cell(s, x, z)
                == init_river_rule(world_seed_spec(base_seed_spec(base_seed), s), x, z, self.0.seeded_cell(s, x, z)),    {
        LayerBuilder(river::InitRiverLayer::new(self.0, base_seed))
    }

    pub fn then_hills(self, base_seed: i64) -> (r: LayerBuilder<biome::HillsLayer<L>>)
        requires
            self.0.wf(),
            self.0.reach() < MAX_REACH,
        ensures
            r.0.wf(),
            r.0.reach() == self.0.reach() + 1,
            forall|s: i64, x: i32, z: i32| #[trigger] r.0.seeded_cell(s, x, z) == hills_rule(
                world_seed_spec(base_seed_spec(base_seed), s), x, z,
                self.0.seeded_cell(s, x, z),
                self.0.seeded_cell(s, (x - 1) as i32, z),
                self.0.seeded_cell(s, (x + 1) as i32, z),
                self.0.seeded_cell(s, x, (z - 1) as i32),
                self.0.seeded_cell(s, x, (z + 1) as i32),
            ),    {
        LayerBuilder(biome::HillsLayer::new(self.0, base_seed))
    }

    pub fn then_shore(self) -> (r: LayerBuilder<biome::ShoreLayer<L>>)
        requires
            self.0.wf(),
            self.0.reach() < MAX_REACH,
        ensures
            r.0.wf(),
            r.0.reach() == self.0.reach() + 1,
            forall|s: i64, x: i32, z: i32| #[trigger] r.0.seeded_cell(s, x, z) == shore_rule(
                self.0.seeded_cell(s, x, z),
                self.0.seeded_cell(s, (x - 1) as i32, z),
                self.0.seeded_cell(s, (x + 1) as i32, z),
                self.0.seeded_cell(s, x, (z - 1) as i32),
                self.0.seeded_cell(s, x, (z + 1) as i32),
            ),    {
        LayerBuilder(biome::ShoreLayer::new(self.0))
    }

    pub fn then_biome_river(self, base_seed: i64) -> (r: LayerBuilder<biome::BiomeRiverLayer<L>>)
        requires
            self.0.wf(),
            self.0.reach() < MAX_REACH,
        ensures
            r.0.wf(),
            r.0.reach() == self.0.reach(),
            forall|s: i64, x: i32, z: i32| #[trigger] r.0.seeded_cell(s, x, z)
                == biome_river_rule(world_seed_spec(base_seed_spec(base_seed), s), x, z, self.0.seeded_cell(s, x, z)),    {
        LayerBuilder(biome::BiomeRiverLayer::new(self.0, base_seed))
    }

    pub fn then_biome(self, base_seed: i64, version: (u8, u8)) -> (r: Option<LayerBuilder<biome::BiomeLayer<L>>>)
        requires
            self.0.wf(),
            self.0.reach() < MAX_REACH,
        ensures
            r is Some <==> version == (1u8, 2u8),
            r matches Some(l) ==> l.0.wf() && l.0.reach() == self.0.reach()
                && forall|s: i64, x: i32, z: i32| #[trigger] l.0.seeded_cell(s, x, z)
                    == biome_rule(world_seed_spec(base_seed_spec(base_seed), s), x, z, self.0.seeded_cell(s, x, z),
                        seq![DESERT, FOREST, MOUNTAINS, SWAMP, PLAINS, TAIGA, JUNGLE]),
    {
        match biome::BiomeLayer::with_version(self.0, base_seed, version) {
            Some(l) => Some(LayerBuilder(l)),
            None => None,
        }
    }

}

impl<L: Layer<Item = u8>> LayerBuilder<L> {

    pub fn then_add_river(self) -> (r: LayerBuilder<river::AddRiverLayer<L>>)
        requires
            self.0.wf(),
            self.0.reach() < MAX_REACH,
        ensures
            r.0.wf(),
            r.0.reach() == self.0.reach() + 1,
            forall|s: i64, x: i32, z: i32| #[trigger] r.0.seeded_cell(s, x, z) == add_river_rule(
                self.0.seeded_cell(s, x, z),
                self.0.seeded_cell(s, (x - 1) as i32, z),
                self.0.seeded_cell(s, (x + 1) as i32, z),
                self.0.seeded_cell(s, x, (z - 1) as i32),
                self.0.seeded_cell(s, x, (z + 1) as i32),
            ),    {
        LayerBuilder(river::AddRiverLayer::new(self.0))
    }

}

impl LayerBuilder<island::IslandLayer> {

    pub fn with_island(base_seed: i64) -> (r: Self)
        ensures
            r.0.wf(),
            r.0.reach() == 0,
            forall|s: i64, x: i32, z: i32| #[trigger] r.0.seeded_cell(s, x, z)
                == island_rule(world_seed_spec(base_seed_spec(base_seed), s), x, z),
    {
        LayerBuilder(island::IslandLayer::new(base_seed))
    }

}

impl<B: Layer<Item = BiomeId>, R: Layer<Item = bool>> LayerBuilder<biome::MixBiomeAndRiverLayer<B, R>> {

    pub fn with_biome_and_river_mix(biome_parent: B, river_parent: R) -> (r: Self)
        requires
            biome_parent.wf(),
            river_parent.wf(),
        ensures
            r.0.wf(),
            r.0.reach() == (if biome_parent.reach() >= river_parent.reach() { biome_parent.reach() } else { river_parent.reach() }),
            forall|s: i64, x: i32, z: i32| #[trigger] r.0.seeded_cell(s, x, z)
                == mix_rule(biome_parent.seeded_cell(s, x, z), river_parent.seeded_cell(s, x, z)),
    {
        LayerBuilder(biome::MixBiomeAndRiverLayer::new(biome_parent, river_parent))
    }

}

} // verus!
