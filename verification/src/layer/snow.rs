//! The snow layer.

use vstd::prelude::*;

use crate::biome::BiomeId;
use crate::layer_new::rand::{LayerRand, world_seed_spec, base_seed_spec};
use crate::layer_new::cell::{snow_rule, snow_cell};
use super::{Layer, MAX_REACH};

verus! {

/// A layer that replace 20% of the plains with snowy tundras (ice plains). Seeding it
/// seeds only its own generator, not its parent.
pub struct AddSnowLayer<P: Layer<Item = BiomeId>> {
    pub parent: P,
    rand: LayerRand,
}

impl<P: Layer<Item = BiomeId>> AddSnowLayer<P> {

    pub fn new(parent: P, base_seed: i64) -> (r: Self)
        requires
            parent.wf(),
            parent.reach() < MAX_REACH,
        ensures
            r.wf(),
            r.reach() == parent.reach(),
            forall|s: i64, x: i32, z: i32| #[trigger] r.seeded_cell(s, x, z)
                == snow_rule(world_seed_spec(base_seed_spec(base_seed), s), x, z, parent.cell(x, z)),
    {
        AddSnowLayer { parent, rand: LayerRand::new(base_seed) }
    }

}

impl<P: Layer<Item = BiomeId>> Layer for AddSnowLayer<P> {

    type Item = BiomeId;

    closed spec fn wf(&self) -> bool {
        &&& self.parent.wf()
        &&& self.parent.reach() < MAX_REACH
    }

    closed spec fn reach(&self) -> nat {
        self.parent.reach()
    }

    closed spec fn cell(&self, x: i32, z: i32) -> BiomeId {
        snow_rule(self.rand.spec_world_seed(), x, z, self.parent.cell(x, z))
    }

    /// Seeding this layer leaves its parent as it is: the cells of the parent stay those
    /// of its own seed.
    closed spec fn seeded_cell(&self, seed: i64, x: i32, z: i32) -> BiomeId {
        snow_rule(world_seed_spec(self.rand.spec_base_seed(), seed), x, z, self.parent.cell(x, z))
    }

    fn seed(&mut self, seed: i64) {
        self.rand.init_world_seed(seed);
    }

    fn next(&mut self, x: i32, z: i32) -> (r: BiomeId) {
        let biome = self.parent.next(x, z);
        snow_cell(&mut self.rand, x, z, biome)
    }

}

} // verus!
