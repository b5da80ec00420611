//! Grid island layers: the initial land and ocean cells and the growth of land.

use vstd::prelude::*;

use crate::biome::PLAINS;
use super::{LayerData, State, biome_at};
use super::rand::{LayerRand, base_seed_spec, world_seed_spec};
use super::cell::{
    island_rule, island_cell, add_island_rule, add_island_cell, mushroom_island_rule, mushroom_island_cell,
};
use super::grid::{span_fits, bordered_biomes, lemma_flat_grid, lemma_cell_biome};
use crate::layer::lemma_grid_index;

verus! {

/// The cell `dx`/`dz` of the island layer's output starting at `x`/`z`: the cell at the
/// world origin is plains, the others follow the island rule.
pub open spec fn island_out(world: i64, x: i32, z: i32, dx: int, dz: int) -> State {
    if x + dx == 0 && z + dz == 0 {
        State::Biome(PLAINS)
    } else {
        State::Biome(island_rule(world, (x + dx) as i32, (z + dz) as i32))
    }
}

/// The initial island layer, it sets the biome to either `PLAINS` or `OCEAN`.
pub struct IslandLayer {
    rand: LayerRand,
}

impl IslandLayer {

    /// The base seed hashed from the seed the layer was built with.
    pub closed spec fn spec_base_seed(&self) -> i64 {
        self.rand.spec_base_seed()
    }

    /// The world seed hashed with the base seed.
    pub closed spec fn spec_world_seed(&self) -> i64 {
        self.rand.spec_world_seed()
    }

    pub fn new(base_seed: i64) -> (r: Self)
        ensures
            r.spec_base_seed() == base_seed_spec(base_seed),
            r.spec_world_seed() == 0,
    {
        IslandLayer { rand: LayerRand::new(base_seed) }
    }

    /// Sets the world's seed used to generate the cells.
    pub fn seed(&mut self, seed: i64)
        ensures
            final(self).spec_base_seed() == old(self).spec_base_seed(),
            final(self).spec_world_seed() == world_seed_spec(old(self).spec_base_seed(), seed),
    {
        self.rand.init_world_seed(seed);
    }

    /// Fills `output` with the cells of the rectangle starting at `x`/`z`: plains or ocean,
    /// plains at the origin.
    pub fn generate(&mut self, x: i32, z: i32, output: &mut LayerData)
        requires
            old(output).wf(),
            span_fits(x, old(output).x_size),
            span_fits(z, old(output).z_size),
        ensures
            final(self).spec_base_seed() == old(self).spec_base_seed(),
            final(self).spec_world_seed() == old(self).spec_world_seed(),
            final(output).wf(),
            final(output).x_size == old(output).x_size,
            final(output).z_size == old(output).z_size,
            forall|dx: int, dz: int| 0 <= dx < old(output).x_size && 0 <= dz < old(output).z_size
                ==> #[trigger] final(output).at(dx, dz) == island_out(old(self).spec_world_seed(), x, z, dx, dz),
    {
        let ghost world = self.rand.spec_world_seed();
        let x_size = output.x_size;
        let z_size = output.z_size;
        let _len = output.data.len();
        let mut data: Vec<State> = Vec::new();
        let mut dz: usize = 0;
        while dz < z_size
            invariant
                dz <= z_size,
                x_size * z_size <= usize::MAX,
                span_fits(x, x_size),
                span_fits(z, z_size),
                data@.len() == dz * x_size,
                self.spec_base_seed() == old(self).spec_base_seed(),
                self.spec_world_seed() == world,
                forall|i: int| 0 <= i < data@.len()
                    ==> #[trigger] data@[i] == island_out(world, x, z, i % x_size as int, i / x_size as int),
            decreases z_size - dz,
        {
            let mut dx: usize = 0;
            while dx < x_size
                invariant
                    dx <= x_size,
                    dz < z_size,
                    x_size * z_size <= usize::MAX,
                    span_fits(x, x_size),
                    span_fits(z, z_size),
                    data@.len() == dz * x_size + dx,
                    self.spec_base_seed() == old(self).spec_base_seed(),
                    self.spec_world_seed() == world,
                    forall|i: int| 0 <= i < data@.len()
                        ==> #[trigger] data@[i] == island_out(world, x, z, i % x_size as int, i / x_size as int),
                decreases x_size - dx,
            {
                proof {
                    lemma_grid_index(x_size as int, z_size as int, dz as int, dx as int);
                }
                let cx = x + dx as i32;
                let cz = z + dz as i32;
                let b = if cx == 0 && cz == 0 {
                    PLAINS
                } else {
                    island_cell(&mut self.rand, cx, cz)
                };
                data.push(State::Biome(b));
                dx = dx + 1;
            }
            proof {
                assert(dz * x_size + x_size == (dz + 1) * x_size) by (nonlinear_arith);
            }
            dz = dz + 1;
        }
        proof {
            assert(data@.len() == x_size * z_size) by (nonlinear_arith)
                requires data@.len() == dz * x_size, dz == z_size;
            lemma_flat_grid(data@, x_size as int, z_size as int, |dx: int, dz: int| island_out(world, x, z, dx, dz));
        }
        output.data = data;
    }

}

/// The cell `dx`/`dz` of the add island layer's output starting at `x`/`z`, from the
/// parent rectangle grown by one cell on each side.
pub open spec fn add_island_out(world: i64, x: i32, z: i32, input: &LayerData, dx: int, dz: int) -> State {
    State::Biome(add_island_rule(world, (x + dx) as i32, (z + dz) as i32,
        biome_at(input, dx + 1, dz + 1),
        biome_at(input, dx, dz),
        biome_at(input, dx + 2, dz),
        biome_at(input, dx, dz + 2),
        biome_at(input, dx + 2, dz + 2)))
}

/// A layer to add islands to the parent biomes map.
pub struct AddIslandLayer {
    rand: LayerRand,
}

impl AddIslandLayer {

    /// The base seed hashed from the seed the layer was built with.
    pub closed spec fn spec_base_seed(&self) -> i64 {
        self.rand.spec_base_seed()
    }

    /// The world seed hashed with the base seed.
    pub closed spec fn spec_world_seed(&self) -> i64 {
        self.rand.spec_world_seed()
    }

    pub fn new(base_seed: i64) -> (r: Self)
        ensures
            r.spec_base_seed() == base_seed_spec(base_seed),
            r.spec_world_seed() == 0,
    {
        AddIslandLayer { rand: LayerRand::new(base_seed) }
    }

    /// Sets the world's seed used to generate the cells.
    pub fn seed(&mut self, seed: i64)
        ensures
            final(self).spec_base_seed() == old(self).spec_base_seed(),
            final(self).spec_world_seed() == world_seed_spec(old(self).spec_base_seed(), seed),
    {
        self.rand.init_world_seed(seed);
    }

    /// Fills `output` with the cells of the rectangle starting at `x`/`z`, from `input`,
    /// the parent's cells of the rectangle starting at `x - 1`/`z - 1` grown by one cell
    /// on each side.
    pub fn generate(&mut self, x: i32, z: i32, input: &LayerData, output: &mut LayerData)
        requires
            old(output).wf(),
            bordered_biomes(input, old(output)),
            span_fits(x, old(output).x_size),
            span_fits(z, old(output).z_size),
        ensures
            final(self).spec_base_seed() == old(self).spec_base_seed(),
            final(self).spec_world_seed() == old(self).spec_world_seed(),
            final(output).wf(),
            final(output).x_size == old(output).x_size,
            final(output).z_size == old(output).z_size,
            forall|dx: int, dz: int| 0 <= dx < old(output).x_size && 0 <= dz < old(output).z_size
                ==> #[trigger] final(output).at(dx, dz) == add_island_out(old(self).spec_world_seed(), x, z, input, dx, dz),
    {
        let ghost world = self.rand.spec_world_seed();
        let x_size = output.x_size;
        let z_size = output.z_size;
        let _len = output.data.len();
        let mut data: Vec<State> = Vec::new();
        let mut dz: usize = 0;
        while dz < z_size
            invariant
                dz <= z_size,
                x_size * z_size <= usize::MAX,
                span_fits(x, x_size),
                span_fits(z, z_size),
                input.wf(),
                input.x_size == x_size + 2,
                input.z_size == z_size + 2,
                super::all_biomes(input),
                data@.len() == dz * x_size,
                self.spec_base_seed() == old(self).spec_base_seed(),
                self.spec_world_seed() == world,
                forall|i: int| 0 <= i < data@.len()
                    ==> #[trigger] data@[i] == add_island_out(world, x, z, input, i % x_size as int, i / x_size as int),
            decreases z_size - dz,
        {
            let mut dx: usize = 0;
            while dx < x_size
                invariant
                    dx <= x_size,
                    dz < z_size,
                    x_size * z_size <= usize::MAX,
                    span_fits(x, x_size),
                    span_fits(z, z_size),
                    input.wf(),
                    input.x_size == x_size + 2,
                    input.z_size == z_size + 2,
                    super::all_biomes(input),
                    data@.len() == dz * x_size + dx,
                    self.spec_base_seed() == old(self).spec_base_seed(),
                    self.spec_world_seed() == world,
                    forall|i: int| 0 <= i < data@.len()
                        ==> #[trigger] data@[i] == add_island_out(world, x, z, input, i % x_size as int, i / x_size as int),
                decreases x_size - dx,
            {
                proof {
                    lemma_grid_index(x_size as int, z_size as int, dz as int, dx as int);
                    lemma_cell_biome(input, dx + 1, dz + 1);
                    lemma_cell_biome(input, dx as int, dz as int);
                    lemma_cell_biome(input, dx + 2, dz as int);
                    lemma_cell_biome(input, dx as int, dz + 2);
                    lemma_cell_biome(input, dx + 2, dz + 2);
                }
                let center = input.get(dx + 1, dz + 1).expect_biome();
                let sw = input.get(dx, dz).expect_biome();
                let nw = input.get(dx + 2, dz).expect_biome();
                let se = input.get(dx, dz + 2).expect_biome();
                let ne = input.get(dx + 2, dz + 2).expect_biome();
                let b = add_island_cell(&mut self.rand, x + dx as i32, z + dz as i32, center, sw, nw, se, ne);
                data.push(State::Biome(b));
                dx = dx + 1;
            }
            proof {
                assert(dz * x_size + x_size == (dz + 1) * x_size) by (nonlinear_arith);
            }
            dz = dz + 1;
        }
        proof {
            assert(data@.len() == x_size * z_size) by (nonlinear_arith)
                requires data@.len() == dz * x_size, dz == z_size;
            lemma_flat_grid(data@, x_size as int, z_size as int, |dx: int, dz: int| add_island_out(world, x, z, input, dx, dz));
        }
        output.data = data;
    }

}

/// The cell `dx`/`dz` of the mushroom island layer's output starting at `x`/`z`, from the
/// parent rectangle grown by one cell on each side.
pub open spec fn add_mushroom_island_out(world: i64, x: i32, z: i32, input: &LayerData, dx: int, dz: int) -> State {
    State::Biome(mushroom_island_rule(world, (x + dx) as i32, (z + dz) as i32,
        biome_at(input, dx + 1, dz + 1),
        biome_at(input, dx, dz),
        biome_at(input, dx + 2, dz),
        biome_at(input, dx, dz + 2),
        biome_at(input, dx + 2, dz + 2)))
}

/// A layer that turns one in a hundred ocean cells surrounded by ocean into mushroom fields.
pub struct AddMushroomIsland {
    rand: LayerRand,
}

impl AddMushroomIsland {

    /// The base seed hashed from the seed the layer was built with.
    pub closed spec fn spec_base_seed(&self) -> i64 {
        self.rand.spec_base_seed()
    }

    /// The world seed hashed with the base seed.
    pub closed spec fn spec_world_seed(&self) -> i64 {
        self.rand.spec_world_seed()
    }

    pub fn new(base_seed: i64) -> (r: Self)
        ensures
            r.spec_base_seed() == base_seed_spec(base_seed),
            r.spec_world_seed() == 0,
    {
        AddMushroomIsland { rand: LayerRand::new(base_seed) }
    }

    /// Sets the world's seed used to generate the cells.
    pub fn seed(&mut self, seed: i64)
        ensures
            final(self).spec_base_seed() == old(self).spec_base_seed(),
            final(self).spec_world_seed() == world_seed_spec(old(self).spec_base_seed(), seed),
    {
        self.rand.init_world_seed(seed);
    }

    /// Fills `output` with the cells of the rectangle starting at `x`/`z`, from `input`,
    /// the parent's cells of the rectangle starting at `x - 1`/`z - 1` grown by one cell
    /// on each side.
    pub fn generate(&mut self, x: i32, z: i32, input: &LayerData, output: &mut LayerData)
        requires
            old(output).wf(),
            bordered_biomes(input, old(output)),
            span_fits(x, old(output).x_size),
            span_fits(z, old(output).z_size),
        ensures
            final(self).spec_base_seed() == old(self).spec_base_seed(),
            final(self).spec_world_seed() == old(self).spec_world_seed(),
            final(output).wf(),
            final(output).x_size == old(output).x_size,
            final(output).z_size == old(output).z_size,
            forall|dx: int, dz: int| 0 <= dx < old(output).x_size && 0 <= dz < old(output).z_size
                ==> #[trigger] final(output).at(dx, dz) == add_mushroom_island_out(old(self).spec_world_seed(), x, z, input, dx, dz),
    {
        let ghost world = self.spec_world_seed();
        let ghost old_output = *output;
        let x_size = output.x_size;
        let z_size = output.z_size;
        let _len = output.data.len();
        let mut data: Vec<State> = Vec::new();
        let mut dz: usize = 0;
        while dz < z_size
            invariant
                dz <= z_size,
                x_size * z_size <= usize::MAX,
                span_fits(x, x_size),
                span_fits(z, z_size),
                x_size == old_output.x_size,
                z_size == old_output.z_size,
                *output == old_output,
                input.wf(),
                input.x_size == x_size + 2,
                input.z_size == z_size + 2,
                super::all_biomes(input),
                data@.len() == dz * x_size,
                self.spec_base_seed() == old(self).spec_base_seed(),
                self.spec_world_seed() == world,
                forall|i: int| 0 <= i < data@.len()
                    ==> #[trigger] data@[i] == add_mushroom_island_out(world, x, z, input, i % x_size as int, i / x_size as int),
            decreases z_size - dz,
        {
            let mut dx: usize = 0;
            while dx < x_size
                invariant
                    dx <= x_size,
                    dz < z_size,
                    x_size * z_size <= usize::MAX,
                    span_fits(x, x_size),
                    span_fits(z, z_size),
                    x_size == old_output.x_size,
                    z_size == old_output.z_size,
                    *output == old_output,
                    input.wf(),
                    input.x_size == x_size + 2,
                    input.z_size == z_size + 2,
                    super::all_biomes(input),
                    data@.len() == dz * x_size + dx,
                    self.spec_base_seed() == old(self).spec_base_seed(),
                    self.spec_world_seed() == world,
                    forall|i: int| 0 <= i < data@.len()
                        ==> #[trigger] data@[i] == add_mushroom_island_out(world, x, z, input, i % x_size as int, i / x_size as int),
                decreases x_size - dx,
            {
                proof {
                    lemma_grid_index(x_size as int, z_size as int, dz as int, dx as int);
                    lemma_cell_biome(input, dx + 1, dz + 1);
                    lemma_cell_biome(input, dx as int, dz as int);
                    lemma_cell_biome(input, dx + 2, dz as int);
                    lemma_cell_biome(input, dx as int, dz + 2);
                    lemma_cell_biome(input, dx + 2, dz + 2);
                }
                let center = input.get(dx + 1, dz + 1).expect_biome();
                let sw = input.get(dx, dz).expect_biome();
                let nw = input.get(dx + 2, dz).expect_biome();
                let se = input.get(dx, dz + 2).expect_biome();
                let ne = input.get(dx + 2, dz + 2).expect_biome();
                let v = State::Biome(mushroom_island_cell(&mut self.rand, x + dx as i32, z + dz as i32, center, sw, nw, se, ne));
                data.push(v);
                dx = dx + 1;
            }
            proof {
                assert(dz * x_size + x_size == (dz + 1) * x_size) by (nonlinear_arith);
            }
            dz = dz + 1;
        }
        proof {
            assert(data@.len() == x_size * z_size) by (nonlinear_arith)
                requires data@.len() == dz * x_size, dz == z_size;
            lemma_flat_grid(data@, x_size as int, z_size as int, |dx: int, dz: int| add_mushroom_island_out(world, x, z, input, dx, dz));
        }
        output.data = data;
    }

}

/// The island layer only makes plains and ocean, and the cell at the world origin is
/// always plains.
pub proof fn island_cells_are_plains_or_ocean(world: i64, x: i32, z: i32, dx: int, dz: int)
    ensures
        island_out(world, x, z, dx, dz) == State::Biome(PLAINS) || island_out(world, x, z, dx, dz) == State::Biome(crate::biome::OCEAN),
        x + dx == 0 && z + dz == 0 ==> island_out(world, x, z, dx, dz) == State::Biome(PLAINS),
{
}

/// A mushroom island only appears in an ocean cell whose four corners are ocean; any
/// other cell keeps its biome.
pub proof fn mushroom_islands_only_in_open_ocean(world: i64, x: i32, z: i32, input: &LayerData, dx: int, dz: int)
    ensures
        add_mushroom_island_out(world, x, z, input, dx, dz) == State::Biome(biome_at(input, dx + 1, dz + 1))
            || (add_mushroom_island_out(world, x, z, input, dx, dz) == State::Biome(crate::biome::MUSHROOM_FIELDS)
                && biome_at(input, dx + 1, dz + 1) == crate::biome::OCEAN
                && biome_at(input, dx, dz) == crate::biome::OCEAN
                && biome_at(input, dx + 2, dz) == crate::biome::OCEAN
                && biome_at(input, dx, dz + 2) == crate::biome::OCEAN
                && biome_at(input, dx + 2, dz + 2) == crate::biome::OCEAN),
{
}

} // verus!
