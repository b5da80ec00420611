//! Grid biome layers: biome assignment, hills, shores, biome rivers and the mix of the
//! biome and river layers.

use vstd::prelude::*;

use crate::biome::{BiomeId, PLAINS, DESERT, FOREST, MOUNTAINS, SWAMP, TAIGA, JUNGLE};
use super::{LayerData, State, biome_at, all_biomes};
use super::rand::{LayerRand, base_seed_spec, world_seed_spec};
use super::cell::{
    biome_rule, biome_cell, hills_rule, hills_cell, shore_rule, shore_cell, biome_river_rule,
    biome_river_cell, mix_rule, river_biome_of,
};
use super::grid::{span_fits, bordered_biomes, lemma_flat_grid, lemma_cell_biome};
use crate::layer::lemma_grid_index;

verus! {

/// The cell `dx`/`dz` of the biome layer's output starting at `x`/`z`, from the parent's
/// cell at the same place.
pub open spec fn biome_out(world: i64, x: i32, z: i32, biomes: Seq<BiomeId>, parent: &LayerData, dx: int, dz: int) -> State {
    State::Biome(biome_rule(world, (x + dx) as i32, (z + dz) as i32, biome_at(parent, dx, dz), biomes))
}

/// This layer replaces all incoming plains biomes by a random biome chosen
/// from the biomes given when constructing the layer.
pub struct BiomeLayer {
    rand: LayerRand,
    biomes: Vec<BiomeId>,
}

impl BiomeLayer {

    /// The base seed hashed from the seed the layer was built with.
    pub closed spec fn spec_base_seed(&self) -> i64 {
        self.rand.spec_base_seed()
    }

    /// The world seed hashed with the base seed.
    pub closed spec fn spec_world_seed(&self) -> i64 {
        self.rand.spec_world_seed()
    }

    /// A draw bounded by the number of biomes takes that number as a `u32`.
    pub closed spec fn wf(&self) -> bool {
        self.biomes@.len() <= u32::MAX
    }

    /// The biomes that plains are replaced with.
    pub closed spec fn spec_biomes(&self) -> Seq<BiomeId> {
        self.biomes@
    }

    pub fn new(base_seed: i64, biomes: Vec<BiomeId>) -> (r: Self)
        requires
            biomes@.len() <= u32::MAX,
        ensures
            r.spec_base_seed() == base_seed_spec(base_seed),
            r.spec_world_seed() == 0,
            r.spec_biomes() == biomes@,
            r.wf(),
    {
        BiomeLayer { rand: LayerRand::new(base_seed), biomes }
    }

    /// Makes a new biome layer for release 1.2.
    pub fn new_102(base_seed: i64) -> (r: Self)
        ensures
            r.spec_base_seed() == base_seed_spec(base_seed),
            r.spec_world_seed() == 0,
            r.spec_biomes() == seq![DESERT, FOREST, MOUNTAINS, SWAMP, PLAINS, TAIGA, JUNGLE],
            r.wf(),
    {
        Self::new(base_seed, vec![DESERT, FOREST, MOUNTAINS, SWAMP, PLAINS, TAIGA, JUNGLE])
    }

    /// Sets the world's seed used to generate the cells.
    pub fn seed(&mut self, seed: i64)
        ensures
            final(self).spec_base_seed() == old(self).spec_base_seed(),
            final(self).spec_world_seed() == world_seed_spec(old(self).spec_base_seed(), seed),
            final(self).spec_biomes() == old(self).spec_biomes(),
            final(self).wf() == old(self).wf(),
    {
        self.rand.init_world_seed(seed);
    }
    /// Replaces each plains cell of `output`, holding the parent's cells of the rectangle
    /// starting at `x`/`z`, by one of the biomes picked at random. When there are no biomes
    /// to pick from, there must be no plains.
    pub fn generate(&mut self, x: i32, z: i32, output: &mut LayerData)
        requires
            old(self).wf(),
            old(output).wf(),
            all_biomes(old(output)),
            old(self).spec_biomes().len() == 0 ==> forall|i: int| 0 <= i < old(output).data@.len() ==> old(output).data@[i] != State::Biome(PLAINS),
            span_fits(x, old(output).x_size),
            span_fits(z, old(output).z_size),
        ensures
            final(self).spec_base_seed() == old(self).spec_base_seed(),
            final(self).spec_world_seed() == old(self).spec_world_seed(),
            final(self).spec_biomes() == old(self).spec_biomes(),
            final(self).wf(),
            final(output).wf(),
            final(output).x_size == old(output).x_size,
            final(output).z_size == old(output).z_size,
            forall|dx: int, dz: int| 0 <= dx < old(output).x_size && 0 <= dz < old(output).z_size
                ==> #[trigger] final(output).at(dx, dz) == biome_out(old(self).spec_world_seed(), x, z, old(self).spec_biomes(), old(output), dx, dz),
    {
        let ghost world = self.spec_world_seed();
        let ghost old_output = *output;
        let x_size = output.x_size;
        let z_size = output.z_size;
        let _len = output.data.len();
        let mut data: Vec<State> = Vec::new();
        let mut dz: usize = 0;
        while dz < z_size
            invariant
                dz <= z_size,
                x_size * z_size <= usize::MAX,
                span_fits(x, x_size),
                span_fits(z, z_size),
                x_size == old_output.x_size,
                z_size == old_output.z_size,
                *output == old_output,
                old_output.wf(),
                all_biomes(&old_output),
                self.spec_biomes() == old(self).spec_biomes(),
                self.biomes@.len() <= u32::MAX,
                self.spec_biomes().len() == 0 ==> forall|i: int| 0 <= i < old_output.data@.len() ==> old_output.data@[i] != State::Biome(PLAINS),
                data@.len() == dz * x_size,
                self.spec_base_seed() == old(self).spec_base_seed(),
                self.spec_world_seed() == world,
                forall|i: int| 0 <= i < data@.len()
                    ==> #[trigger] data@[i] == biome_out(world, x, z, self.biomes@, &old_output, i % x_size as int, i / x_size as int),
            decreases z_size - dz,
        {
            let mut dx: usize = 0;
            while dx < x_size
                invariant
                    dx <= x_size,
                    dz < z_size,
                    x_size * z_size <= usize::MAX,
                    span_fits(x, x_size),
                    span_fits(z, z_size),
                    x_size == old_output.x_size,
                    z_size == old_output.z_size,
                    *output == old_output,
                    old_output.wf(),
                    all_biomes(&old_output),
                    self.spec_biomes() == old(self).spec_biomes(),
                    self.biomes@.len() <= u32::MAX,
                    self.spec_biomes().len() == 0 ==> forall|i: int| 0 <= i < old_output.data@.len() ==> old_output.data@[i] != State::Biome(PLAINS),
                    data@.len() == dz * x_size + dx,
                    self.spec_base_seed() == old(self).spec_base_seed(),
                    self.spec_world_seed() == world,
                    forall|i: int| 0 <= i < data@.len()
                        ==> #[trigger] data@[i] == biome_out(world, x, z, self.biomes@, &old_output, i % x_size as int, i / x_size as int),
                decreases x_size - dx,
            {
                proof {
                    lemma_grid_index(x_size as int, z_size as int, dz as int, dx as int);
                    lemma_cell_biome(&old_output, dx as int, dz as int);
                    crate::util::lemma_rect_index(dx as int, dz as int, x_size as int, z_size as int);
                }
                let biome = output.get(dx, dz).expect_biome();
                let v = if biome == PLAINS {
                    State::Biome(biome_cell(&mut self.rand, x + dx as i32, z + dz as i32, biome, self.biomes.as_slice()))
                } else {
                    State::Biome(biome)
                };
                data.push(v);
                dx = dx + 1;
            }
            proof {
                assert(dz * x_size + x_size == (dz + 1) * x_size) by (nonlinear_arith);
            }
            dz = dz + 1;
        }
        proof {
            assert(data@.len() == x_size * z_size) by (nonlinear_arith)
                requires data@.len() == dz * x_size, dz == z_size;
            lemma_flat_grid(data@, x_size as int, z_size as int, |dx: int, dz: int| biome_out(world, x, z, self.biomes@, &old_output, dx, dz));
        }
        output.data = data;
    }

}

/// The cell `dx`/`dz` of the hills layer's output starting at `x`/`z`, from the parent
/// rectangle grown by one cell on each side.
pub open spec fn hills_out(world: i64, x: i32, z: i32, input: &LayerData, dx: int, dz: int) -> State {
    State::Biome(hills_rule(world, (x + dx) as i32, (z + dz) as i32, biome_at(input, dx + 1, dz + 1),
        biome_at(input, dx, dz + 1), biome_at(input, dx + 2, dz + 1), biome_at(input, dx + 1, dz),
        biome_at(input, dx + 1, dz + 2)))
}

/// This layer converts 1/3 of the non-hills biomes to their hills variant if the
/// hill is in between normal variants on the 4 sides.
pub struct HillsLayer {
    rand: LayerRand,
}

impl HillsLayer {

    /// The base seed hashed from the seed the layer was built with.
    pub closed spec fn spec_base_seed(&self) -> i64 {
        self.rand.spec_base_seed()
    }

    /// The world seed hashed with the base seed.
    pub closed spec fn spec_world_seed(&self) -> i64 {
        self.rand.spec_world_seed()
    }

    pub fn new(base_seed: i64) -> (r: Self)
        ensures
            r.spec_base_seed() == base_seed_spec(base_seed),
            r.spec_world_seed() == 0,
    {
        HillsLayer { rand: LayerRand::new(base_seed) }
    }

    /// Sets the world's seed used to generate the cells.
    pub fn seed(&mut self, seed: i64)
        ensures
            final(self).spec_base_seed() == old(self).spec_base_seed(),
            final(self).spec_world_seed() == world_seed_spec(old(self).spec_base_seed(), seed),
    {
        self.rand.init_world_seed(seed);
    }

    /// Fills `output` with the cells of the rectangle starting at `x`/`z`, from `input`,
    /// the parent's cells of the rectangle starting at `x - 1`/`z - 1` grown by one cell
    /// on each side.
    pub fn generate(&mut self, x: i32, z: i32, input: &LayerData, output: &mut LayerData)
        requires
            old(output).wf(),
            bordered_biomes(input, old(output)),
            span_fits(x, old(output).x_size),
            span_fits(z, old(output).z_size),
        ensures
            final(self).spec_base_seed() == old(self).spec_base_seed(),
            final(self).spec_world_seed() == old(self).spec_world_seed(),
            final(output).wf(),
            final(output).x_size == old(output).x_size,
            final(output).z_size == old(output).z_size,
            forall|dx: int, dz: int| 0 <= dx < old(output).x_size && 0 <= dz < old(output).z_size
                ==> #[trigger] final(output).at(dx, dz) == hills_out(old(self).spec_world_seed(), x, z, input, dx, dz),
    {
        let ghost world = self.spec_world_seed();
        let ghost old_output = *output;
        let x_size = output.x_size;
        let z_size = output.z_size;
        let _len = output.data.len();
        let mut data: Vec<State> = Vec::new();
        let mut dz: usize = 0;
        while dz < z_size
            invariant
                dz <= z_size,
                x_size * z_size <= usize::MAX,
                span_fits(x, x_size),
                span_fits(z, z_size),
                x_size == old_output.x_size,
                z_size == old_output.z_size,
                *output == old_output,
                input.wf(),
                input.x_size == x_size + 2,
                input.z_size == z_size + 2,
                all_biomes(input),
                data@.len() == dz * x_size,
                self.spec_base_seed() == old(self).spec_base_seed(),
                self.spec_world_seed() == world,
                forall|i: int| 0 <= i < data@.len()
                    ==> #[trigger] data@[i] == hills_out(world, x, z, input, i % x_size as int, i / x_size as int),
            decreases z_size - dz,
        {
            let mut dx: usize = 0;
            while dx < x_size
                invariant
                    dx <= x_size,
                    dz < z_size,
                    x_size * z_size <= usize::MAX,
                    span_fits(x, x_size),
                    span_fits(z, z_size),
                    x_size == old_output.x_size,
                    z_size == old_output.z_size,
                    *output == old_output,
                    input.wf(),
                    input.x_size == x_size + 2,
                    input.z_size == z_size + 2,
                    all_biomes(input),
                    data@.len() == dz * x_size + dx,
                    self.spec_base_seed() == old(self).spec_base_seed(),
                    self.spec_world_seed() == world,
                    forall|i: int| 0 <= i < data@.len()
                        ==> #[trigger] data@[i] == hills_out(world, x, z, input, i % x_size as int, i / x_size as int),
                decreases x_size - dx,
            {
                proof {
                    lemma_grid_index(x_size as int, z_size as int, dz as int, dx as int);
                    lemma_cell_biome(input, dx + 1, dz + 1);
                    lemma_cell_biome(input, dx as int, dz + 1);
                    lemma_cell_biome(input, dx + 2, dz + 1);
                    lemma_cell_biome(input, dx + 1, dz as int);
                    lemma_cell_biome(input, dx + 1, dz + 2);
                }
                let south = input.get(dx, dz + 1).expect_biome();
                let north = input.get(dx + 2, dz + 1).expect_biome();
                let west = input.get(dx + 1, dz).expect_biome();
                let east = input.get(dx + 1, dz + 2).expect_biome();
                let center = input.get(dx + 1, dz + 1).expect_biome();
                let v = State::Biome(hills_cell(&mut self.rand, x + dx as i32, z + dz as i32, center, south, north, west, east));
                data.push(v);
                dx = dx + 1;
            }
            proof {
                assert(dz * x_size + x_size == (dz + 1) * x_size) by (nonlinear_arith);
            }
            dz = dz + 1;
        }
        proof {
            assert(data@.len() == x_size * z_size) by (nonlinear_arith)
                requires data@.len() == dz * x_size, dz == z_size;
            lemma_flat_grid(data@, x_size as int, z_size as int, |dx: int, dz: int| hills_out(world, x, z, input, dx, dz));
        }
        output.data = data;
    }

}

/// The cell `dx`/`dz` of the shore layer's output, from the parent rectangle grown by one
/// cell on each side.
pub open spec fn shore_out(input: &LayerData, dx: int, dz: int) -> State {
    State::Biome(shore_rule(biome_at(input, dx + 1, dz + 1), biome_at(input, dx, dz + 1),
        biome_at(input, dx + 2, dz + 1), biome_at(input, dx + 1, dz), biome_at(input, dx + 1, dz + 2)))
}

/// A layer that adds some shore and edge biomes depending on island and hills placements.
pub struct ShoreLayer {
    rand: LayerRand,
}

impl ShoreLayer {

    /// The base seed hashed from the seed the layer was built with.
    pub closed spec fn spec_base_seed(&self) -> i64 {
        self.rand.spec_base_seed()
    }

    /// The world seed hashed with the base seed.
    pub closed spec fn spec_world_seed(&self) -> i64 {
        self.rand.spec_world_seed()
    }

    pub fn new(base_seed: i64) -> (r: Self)
        ensures
            r.spec_base_seed() == base_seed_spec(base_seed),
            r.spec_world_seed() == 0,
    {
        ShoreLayer { rand: LayerRand::new(base_seed) }
    }

    /// Sets the world's seed used to generate the cells.
    pub fn seed(&mut self, seed: i64)
        ensures
            final(self).spec_base_seed() == old(self).spec_base_seed(),
            final(self).spec_world_seed() == world_seed_spec(old(self).spec_base_seed(), seed),
    {
        self.rand.init_world_seed(seed);
    }

    /// Fills `output` with the cells of the rectangle starting at `x`/`z`, from `input`,
    /// the parent's cells of the rectangle starting at `x - 1`/`z - 1` grown by one cell
    /// on each side.
    pub fn generate(&mut self, x: i32, z: i32, input: &LayerData, output: &mut LayerData)
        requires
            old(output).wf(),
            bordered_biomes(input, old(output)),
            span_fits(x, old(output).x_size),
            span_fits(z, old(output).z_size),
        ensures
            final(self).spec_base_seed() == old(self).spec_base_seed(),
            final(self).spec_world_seed() == old(self).spec_world_seed(),
            final(output).wf(),
            final(output).x_size == old(output).x_size,
            final(output).z_size == old(output).z_size,
            forall|dx: int, dz: int| 0 <= dx < old(output).x_size && 0 <= dz < old(output).z_size
                ==> #[trigger] final(output).at(dx, dz) == shore_out(input, dx, dz),
    {
        let ghost world = self.spec_world_seed();
        let ghost old_output = *output;
        let x_size = output.x_size;
        let z_size = output.z_size;
        let _len = output.data.len();
        let mut data: Vec<State> = Vec::new();
        let mut dz: usize = 0;
        while dz < z_size
            invariant
                dz <= z_size,
                x_size * z_size <= usize::MAX,
                span_fits(x, x_size),
                span_fits(z, z_size),
                x_size == old_output.x_size,
                z_size == old_output.z_size,
                *output == old_output,
                input.wf(),
                input.x_size == x_size + 2,
                input.z_size == z_size + 2,
                all_biomes(input),
                data@.len() == dz * x_size,
                self.spec_base_seed() == old(self).spec_base_seed(),
                self.spec_world_seed() == world,
                forall|i: int| 0 <= i < data@.len()
                    ==> #[trigger] data@[i] == shore_out(input, i % x_size as int, i / x_size as int),
            decreases z_size - dz,
        {
            let mut dx: usize = 0;
            while dx < x_size
                invariant
                    dx <= x_size,
                    dz < z_size,
                    x_size * z_size <= usize::MAX,
                    span_fits(x, x_size),
                    span_fits(z, z_size),
                    x_size == old_output.x_size,
                    z_size == old_output.z_size,
                    *output == old_output,
                    input.wf(),
                    input.x_size == x_size + 2,
                    input.z_size == z_size + 2,
                    all_biomes(input),
                    data@.len() == dz * x_size + dx,
                    self.spec_base_seed() == old(self).spec_base_seed(),
                    self.spec_world_seed() == world,
                    forall|i: int| 0 <= i < data@.len()
                        ==> #[trigger] data@[i] == shore_out(input, i % x_size as int, i / x_size as int),
                decreases x_size - dx,
            {
                proof {
                    lemma_grid_index(x_size as int, z_size as int, dz as int, dx as int);
                    lemma_cell_biome(input, dx + 1, dz + 1);
                    lemma_cell_biome(input, dx as int, dz + 1);
                    lemma_cell_biome(input, dx + 2, dz + 1);
                    lemma_cell_biome(input, dx + 1, dz as int);
                    lemma_cell_biome(input, dx + 1, dz + 2);
                }
                let south = input.get(dx, dz + 1).expect_biome();
                let north = input.get(dx + 2, dz + 1).expect_biome();
                let west = input.get(dx + 1, dz).expect_biome();
                let east = input.get(dx + 1, dz + 2).expect_biome();
                let center = input.get(dx + 1, dz + 1).expect_biome();
                let v = State::Biome(shore_cell(center, south, north, west, east));
                data.push(v);
                dx = dx + 1;
            }
            proof {
                assert(dz * x_size + x_size == (dz + 1) * x_size) by (nonlinear_arith);
            }
            dz = dz + 1;
        }
        proof {
            assert(data@.len() == x_size * z_size) by (nonlinear_arith)
                requires data@.len() == dz * x_size, dz == z_size;
            lemma_flat_grid(data@, x_size as int, z_size as int, |dx: int, dz: int| shore_out(input, dx, dz));
        }
        output.data = data;
    }

}

/// The cell `dx`/`dz` of the biome rivers layer's output starting at `x`/`z`, from the
/// parent rectangle grown by one cell on each side.
pub open spec fn biome_rivers_out(world: i64, x: i32, z: i32, input: &LayerData, dx: int, dz: int) -> State {
    State::Biome(biome_river_rule(world, (x + dx) as i32, (z + dz) as i32, biome_at(input, dx + 1, dz + 1)))
}

/// A layer that adds rivers in swamps and jungles.
pub struct BiomeRiversLayer {
    rand: LayerRand,
}

impl BiomeRiversLayer {

    /// The base seed hashed from the seed the layer was built with.
    pub closed spec fn spec_base_seed(&self) -> i64 {
        self.rand.spec_base_seed()
    }

    /// The world seed hashed with the base seed.
    pub closed spec fn spec_world_seed(&self) -> i64 {
        self.rand.spec_world_seed()
    }

    pub fn new(base_seed: i64) -> (r: Self)
        ensures
            r.spec_base_seed() == base_seed_spec(base_seed),
            r.spec_world_seed() == 0,
    {
        BiomeRiversLayer { rand: LayerRand::new(base_seed) }
    }

    /// Sets the world's seed used to generate the cells.
    pub fn seed(&mut self, seed: i64)
        ensures
            final(self).spec_base_seed() == old(self).spec_base_seed(),
            final(self).spec_world_seed() == world_seed_spec(old(self).spec_base_seed(), seed),
    {
        self.rand.init_world_seed(seed);
    }

    /// Fills `output` with the cells of the rectangle starting at `x`/`z`, from `input`,
    /// the parent's cells of the rectangle starting at `x - 1`/`z - 1` grown by one cell
    /// on each side.
    pub fn generate(&mut self, x: i32, z: i32, input: &LayerData, output: &mut LayerData)
        requires
            old(output).wf(),
            bordered_biomes(input, old(output)),
            span_fits(x, old(output).x_size),
            span_fits(z, old(output).z_size),
        ensures
            final(self).spec_base_seed() == old(self).spec_base_seed(),
            final(self).spec_world_seed() == old(self).spec_world_seed(),
            final(output).wf(),
            final(output).x_size == old(output).x_size,
            final(output).z_size == old(output).z_size,
            forall|dx: int, dz: int| 0 <= dx < old(output).x_size && 0 <= dz < old(output).z_size
                ==> #[trigger] final(output).at(dx, dz) == biome_rivers_out(old(self).spec_world_seed(), x, z, input, dx, dz),
    {
        let ghost world = self.spec_world_seed();
        let ghost old_output = *output;
        let x_size = output.x_size;
        let z_size = output.z_size;
        let _len = output.data.len();
        let mut data: Vec<State> = Vec::new();
        let mut dz: usize = 0;
        while dz < z_size
            invariant
                dz <= z_size,
                x_size * z_size <= usize::MAX,
                span_fits(x, x_size),
                span_fits(z, z_size),
                x_size == old_output.x_size,
                z_size == old_output.z_size,
                *output == old_output,
                input.wf(),
                input.x_size == x_size + 2,
                input.z_size == z_size + 2,
                all_biomes(input),
                data@.len() == dz * x_size,
                self.spec_base_seed() == old(self).spec_base_seed(),
                self.spec_world_seed() == world,
                forall|i: int| 0 <= i < data@.len()
                    ==> #[trigger] data@[i] == biome_rivers_out(world, x, z, input, i % x_size as int, i / x_size as int),
            decreases z_size - dz,
        {
            let mut dx: usize = 0;
            while dx < x_size
                invariant
                    dx <= x_size,
                    dz < z_size,
                    x_size * z_size <= usize::MAX,
                    span_fits(x, x_size),
                    span_fits(z, z_size),
                    x_size == old_output.x_size,
                    z_size == old_output.z_size,
                    *output == old_output,
                    input.wf(),
                    input.x_size == x_size + 2,
                    input.z_size == z_size + 2,
                    all_biomes(input),
                    data@.len() == dz * x_size + dx,
                    self.spec_base_seed() == old(self).spec_base_seed(),
                    self.spec_world_seed() == world,
                    forall|i: int| 0 <= i < data@.len()
                        ==> #[trigger] data@[i] == biome_rivers_out(world, x, z, input, i % x_size as int, i / x_size as int),
                decreases x_size - dx,
            {
                proof {
                    lemma_grid_index(x_size as int, z_size as int, dz as int, dx as int);
                    lemma_cell_biome(input, dx + 1, dz + 1);
                }
                let biome = input.get(dx + 1, dz + 1).expect_biome();
                let v = State::Biome(biome_river_cell(&mut self.rand, x + dx as i32, z + dz as i32, biome));
                data.push(v);
                dx = dx + 1;
            }
            proof {
                assert(dz * x_size + x_size == (dz + 1) * x_size) by (nonlinear_arith);
            }
            dz = dz + 1;
        }
        proof {
            assert(data@.len() == x_size * z_size) by (nonlinear_arith)
                requires data@.len() == dz * x_size, dz == z_size;
            lemma_flat_grid(data@, x_size as int, z_size as int, |dx: int, dz: int| biome_rivers_out(world, x, z, input, dx, dz));
        }
        output.data = data;
    }

}

/// The cell `dx`/`dz` of the mix layer's output, from the biome and river cells at the
/// same place.
pub open spec fn mix_out(biomes: &LayerData, rivers: &LayerData, dx: int, dz: int) -> State {
    State::Biome(mix_rule(biome_at(biomes, dx, dz), rivers.at(dx, dz) is River))
}

/// A layer that mixes two parent layers, the parent #0 must be the biome layer and
/// the #1 the river layer.
pub struct MixBiomeAndRiverLayer;

impl MixBiomeAndRiverLayer {

    /// Seeding has no effect on this layer.
    pub fn seed(&mut self, _seed: i64) {
    }

    /// Replaces each cell of `output`, holding the biome parent's cells of the rectangle
    /// starting at `x`/`z`, by its mix with the river cell at the same place of `rivers`.
    pub fn generate(&mut self, x: i32, z: i32, rivers: &LayerData, output: &mut LayerData)
        requires
            old(output).wf(),
            all_biomes(old(output)),
            rivers.wf(),
            rivers.x_size == old(output).x_size,
            rivers.z_size == old(output).z_size,
            span_fits(x, old(output).x_size),
            span_fits(z, old(output).z_size),
        ensures
            final(output).wf(),
            final(output).x_size == old(output).x_size,
            final(output).z_size == old(output).z_size,
            forall|dx: int, dz: int| 0 <= dx < old(output).x_size && 0 <= dz < old(output).z_size
                ==> #[trigger] final(output).at(dx, dz) == mix_out(old(output), rivers, dx, dz),
    {
        let ghost old_output = *output;
        let x_size = output.x_size;
        let z_size = output.z_size;
        let _len = output.data.len();
        let mut data: Vec<State> = Vec::new();
        let mut dz: usize = 0;
        while dz < z_size
            invariant
                dz <= z_size,
                x_size * z_size <= usize::MAX,
                span_fits(x, x_size),
                span_fits(z, z_size),
                x_size == old_output.x_size,
                z_size == old_output.z_size,
                *output == old_output,
                old_output.wf(),
                all_biomes(&old_output),
                rivers.wf(),
                rivers.x_size == x_size,
                rivers.z_size == z_size,
                data@.len() == dz * x_size,
                forall|i: int| 0 <= i < data@.len()
                    ==> #[trigger] data@[i] == mix_out(&old_output, rivers, i % x_size as int, i / x_size as int),
            decreases z_size - dz,
        {
            let mut dx: usize = 0;
            while dx < x_size
                invariant
                    dx <= x_size,
                    dz < z_size,
                    x_size * z_size <= usize::MAX,
                    span_fits(x, x_size),
                    span_fits(z, z_size),
                    x_size == old_output.x_size,
                    z_size == old_output.z_size,
                    *output == old_output,
                    old_output.wf(),
                    all_biomes(&old_output),
                    rivers.wf(),
                    rivers.x_size == x_size,
                    rivers.z_size == z_size,
                    data@.len() == dz * x_size + dx,
                    forall|i: int| 0 <= i < data@.len()
                        ==> #[trigger] data@[i] == mix_out(&old_output, rivers, i % x_size as int, i / x_size as int),
                decreases x_size - dx,
            {
                proof {
                    lemma_grid_index(x_size as int, z_size as int, dz as int, dx as int);
                    lemma_cell_biome(&old_output, dx as int, dz as int);
                }
                let biome = output.get(dx, dz).expect_biome();
                let river = match rivers.get(dx, dz) {
                    State::River => true,
                    _ => false,
                };
                let v = if biome != crate::biome::OCEAN && river {
                    State::Biome(river_biome_of(biome))
                } else {
                    State::Biome(biome)
                };
                data.push(v);
                dx = dx + 1;
            }
            proof {
                assert(dz * x_size + x_size == (dz + 1) * x_size) by (nonlinear_arith);
            }
            dz = dz + 1;
        }
        proof {
            assert(data@.len() == x_size * z_size) by (nonlinear_arith)
                requires data@.len() == dz * x_size, dz == z_size;
            lemma_flat_grid(data@, x_size as int, z_size as int, |dx: int, dz: int| mix_out(&old_output, rivers, dx, dz));
        }
        output.data = data;
    }

}

/// The biome layer replaces plains by one of its biomes and keeps every other biome.
pub proof fn biome_layer_replaces_only_plains(world: i64, x: i32, z: i32, biomes: Seq<BiomeId>, parent: &LayerData, dx: int, dz: int)
    requires
        0 < biomes.len() <= u32::MAX,
    ensures
        biome_at(parent, dx, dz) != PLAINS ==> biome_out(world, x, z, biomes, parent, dx, dz) == State::Biome(biome_at(parent, dx, dz)),
        biome_at(parent, dx, dz) == PLAINS ==> exists|i: int| 0 <= i < biomes.len()
            && biome_out(world, x, z, biomes, parent, dx, dz) == State::Biome(#[trigger] biomes[i]),
{
    let c = super::rand::chunk_seed_spec(world, (x + dx) as i32, (z + dz) as i32);
    super::rand::lemma_draw_below(super::rand::advance_spec(c, world, 0), biomes.len() as u32);
}

/// The hills layer only turns a biome into its hills variant, and only when the four
/// cells beside it are of the same biome.
pub proof fn hills_need_the_same_biome_around(world: i64, x: i32, z: i32, input: &LayerData, dx: int, dz: int)
    ensures
        hills_out(world, x, z, input, dx, dz) == State::Biome(biome_at(input, dx + 1, dz + 1))
            || ({
                let b = biome_at(input, dx + 1, dz + 1);
                &&& (super::cell::hills_variant(b) matches Some(h) && hills_out(world, x, z, input, dx, dz) == State::Biome(h))
                &&& biome_at(input, dx, dz + 1) == b && biome_at(input, dx + 2, dz + 1) == b
                &&& biome_at(input, dx + 1, dz) == b && biome_at(input, dx + 1, dz + 2) == b
            }),
{
}

/// Mixing rivers never changes an ocean, nor a cell without a river.
pub proof fn mix_keeps_oceans_and_dry_cells(biomes: &LayerData, rivers: &LayerData, dx: int, dz: int)
    ensures
        biome_at(biomes, dx, dz) == crate::biome::OCEAN || !(rivers.at(dx, dz) is River)
            ==> mix_out(biomes, rivers, dx, dz) == State::Biome(biome_at(biomes, dx, dz)),
{
}

} // verus!
