//! Grid river layers: river potentials from the biomes, then rivers where potentials meet.

use vstd::prelude::*;

use super::{LayerData, State, biome_at, all_biomes, state_eq};
use super::rand::{LayerRand, base_seed_spec, world_seed_spec};
use super::cell::{init_river_rule, init_river_cell};
use super::grid::{span_fits, lemma_flat_grid, lemma_cell_biome};
use crate::layer::lemma_grid_index;

verus! {

/// The cell `dx`/`dz` of the river initialization layer's output starting at `x`/`z`,
/// from the parent's cell at the same place: no river for an ocean, else a potential
/// river of 2 or 3.
pub open spec fn init_river_out(world: i64, x: i32, z: i32, parent: &LayerData, dx: int, dz: int) -> State {
    let p = init_river_rule(world, (x + dx) as i32, (z + dz) as i32, biome_at(parent, dx, dz));
    if p == 0 {
        State::NoRiver
    } else {
        State::PotentialRiver(p)
    }
}

/// A biome layer that will replace all biomes by `State::NoRiver` if the biome is an `OCEAN`
/// or by `State::PotentialRiver` with a random value in range `[2;4[`.
/// This layer is commonly used in parallel with actual biomes generation and is combined
/// with this other layer by a custom layer that take the biome layer and this river layer.
pub struct InitRiverLayer {
    rand: LayerRand,
}

impl InitRiverLayer {

    /// The base seed hashed from the seed the layer was built with.
    pub closed spec fn spec_base_seed(&self) -> i64 {
        self.rand.spec_base_seed()
    }

    /// The world seed hashed with the base seed.
    pub closed spec fn spec_world_seed(&self) -> i64 {
        self.rand.spec_world_seed()
    }

    pub fn new(base_seed: i64) -> (r: Self)
        ensures
            r.spec_base_seed() == base_seed_spec(base_seed),
            r.spec_world_seed() == 0,
    {
        InitRiverLayer { rand: LayerRand::new(base_seed) }
    }

    /// Sets the world's seed used to generate the cells.
    pub fn seed(&mut self, seed: i64)
        ensures
            final(self).spec_base_seed() == old(self).spec_base_seed(),
            final(self).spec_world_seed() == world_seed_spec(old(self).spec_base_seed(), seed),
    {
        self.rand.init_world_seed(seed);
    }

    /// Replaces each cell of `output`, holding the parent's cells of the rectangle starting
    /// at `x`/`z`, by its river state.
    pub fn generate(&mut self, x: i32, z: i32, output: &mut LayerData)
        requires
            old(output).wf(),
            all_biomes(old(output)),
            span_fits(x, old(output).x_size),
            span_fits(z, old(output).z_size),
        ensures
            final(self).spec_base_seed() == old(self).spec_base_seed(),
            final(self).spec_world_seed() == old(self).spec_world_seed(),
            final(output).wf(),
            final(output).x_size == old(output).x_size,
            final(output).z_size == old(output).z_size,
            forall|dx: int, dz: int| 0 <= dx < old(output).x_size && 0 <= dz < old(output).z_size
                ==> #[trigger] final(output).at(dx, dz) == init_river_out(old(self).spec_world_seed(), x, z, old(output), dx, dz),
    {
        let ghost world = self.spec_world_seed();
        let ghost old_output = *output;
        let x_size = output.x_size;
        let z_size = output.z_size;
        let _len = output.data.len();
        let mut data: Vec<State> = Vec::new();
        let mut dz: usize = 0;
        while dz < z_size
            invariant
                dz <= z_size,
                x_size * z_size <= usize::MAX,
                span_fits(x, x_size),
                span_fits(z, z_size),
                x_size == old_output.x_size,
                z_size == old_output.z_size,
                *output == old_output,
                old_output.wf(),
                all_biomes(&old_output),
                data@.len() == dz * x_size,
                self.spec_base_seed() == old(self).spec_base_seed(),
                self.spec_world_seed() == world,
                forall|i: int| 0 <= i < data@.len()
                    ==> #[trigger] data@[i] == init_river_out(world, x, z, &old_output, i % x_size as int, i / x_size as int),
            decreases z_size - dz,
        {
            let mut dx: usize = 0;
            while dx < x_size
                invariant
                    dx <= x_size,
                    dz < z_size,
                    x_size * z_size <= usize::MAX,
                    span_fits(x, x_size),
                    span_fits(z, z_size),
                    x_size == old_output.x_size,
                    z_size == old_output.z_size,
                    *output == old_output,
                    old_output.wf(),
                    all_biomes(&old_output),
                    data@.len() == dz * x_size + dx,
                    self.spec_base_seed() == old(self).spec_base_seed(),
                    self.spec_world_seed() == world,
                    forall|i: int| 0 <= i < data@.len()
                        ==> #[trigger] data@[i] == init_river_out(world, x, z, &old_output, i % x_size as int, i / x_size as int),
                decreases x_size - dx,
            {
                proof {
                    lemma_grid_index(x_size as int, z_size as int, dz as int, dx as int);
                    lemma_cell_biome(&old_output, dx as int, dz as int);
                }
                let biome = output.get(dx, dz).expect_biome();
                let p = init_river_cell(&mut self.rand, x + dx as i32, z + dz as i32, biome);
                let v = if p == 0 { State::NoRiver } else { State::PotentialRiver(p) };
                data.push(v);
                dx = dx + 1;
            }
            proof {
                assert(dz * x_size + x_size == (dz + 1) * x_size) by (nonlinear_arith);
            }
            dz = dz + 1;
        }
        proof {
            assert(data@.len() == x_size * z_size) by (nonlinear_arith)
                requires data@.len() == dz * x_size, dz == z_size;
            lemma_flat_grid(data@, x_size as int, z_size as int, |dx: int, dz: int| init_river_out(world, x, z, &old_output, dx, dz));
        }
        output.data = data;
    }

}

/// A cell has no river.
fn is_no_river(state: State) -> (r: bool)
    ensures
        r == (state is NoRiver),
{
    match state {
        State::NoRiver => true,
        _ => false,
    }
}

/// A river where the cell or one of its four neighbours has no river, or where one of
/// the neighbours differs from the cell (two river potentials differ by their values);
/// else no river.
pub open spec fn add_river_state_rule(center: State, south: State, north: State, west: State, east: State) -> State {
    if center is NoRiver || south is NoRiver || north is NoRiver || west is NoRiver || east is NoRiver {
        State::River
    } else if !state_eq(center, south) || !state_eq(center, west) || !state_eq(center, north) || !state_eq(center, east) {
        State::River
    } else {
        State::NoRiver
    }
}

/// The cell `dx`/`dz` of the add river layer's output, from the parent rectangle grown by
/// one cell on each side.
pub open spec fn add_river_out(input: &LayerData, dx: int, dz: int) -> State {
    add_river_state_rule(input.at(dx + 1, dz + 1), input.at(dx, dz + 1), input.at(dx + 2, dz + 1),
        input.at(dx + 1, dz), input.at(dx + 1, dz + 2))
}

/// A layer that tries to connect rivers.
pub struct AddRiverLayer;

impl AddRiverLayer {

    /// Seeding has no effect on this layer.
    pub fn seed(&mut self, _seed: i64) {
    }

    /// Fills `output` with the cells of the rectangle starting at `x`/`z`, from `input`,
    /// the parent's cells of the rectangle starting at `x - 1`/`z - 1` grown by one cell
    /// on each side.
    pub fn generate(&mut self, x: i32, z: i32, input: &LayerData, output: &mut LayerData)
        requires
            old(output).wf(),
            input.wf(),
            input.x_size == old(output).x_size + 2,
            input.z_size == old(output).z_size + 2,
            span_fits(x, old(output).x_size),
            span_fits(z, old(output).z_size),
        ensures
            final(output).wf(),
            final(output).x_size == old(output).x_size,
            final(output).z_size == old(output).z_size,
            forall|dx: int, dz: int| 0 <= dx < old(output).x_size && 0 <= dz < old(output).z_size
                ==> #[trigger] final(output).at(dx, dz) == add_river_out(input, dx, dz),
    {
        let ghost old_output = *output;
        let x_size = output.x_size;
        let z_size = output.z_size;
        let _len = output.data.len();
        let mut data: Vec<State> = Vec::new();
        let mut dz: usize = 0;
        while dz < z_size
            invariant
                dz <= z_size,
                x_size * z_size <= usize::MAX,
                span_fits(x, x_size),
                span_fits(z, z_size),
                x_size == old_output.x_size,
                z_size == old_output.z_size,
                *output == old_output,
                input.wf(),
                input.x_size == x_size + 2,
                input.z_size == z_size + 2,
                data@.len() == dz * x_size,
                forall|i: int| 0 <= i < data@.len()
                    ==> #[trigger] data@[i] == add_river_out(input, i % x_size as int, i / x_size as int),
            decreases z_size - dz,
        {
            let mut dx: usize = 0;
            while dx < x_size
                invariant
                    dx <= x_size,
                    dz < z_size,
                    x_size * z_size <= usize::MAX,
                    span_fits(x, x_size),
                    span_fits(z, z_size),
                    x_size == old_output.x_size,
                    z_size == old_output.z_size,
                    *output == old_output,
                    input.wf(),
                    input.x_size == x_size + 2,
                    input.z_size == z_size + 2,
                    data@.len() == dz * x_size + dx,
                    forall|i: int| 0 <= i < data@.len()
                        ==> #[trigger] data@[i] == add_river_out(input, i % x_size as int, i / x_size as int),
                decreases x_size - dx,
            {
                proof {
                    lemma_grid_index(x_size as int, z_size as int, dz as int, dx as int);
                }
                let south = *input.get(dx, dz + 1);
                let north = *input.get(dx + 2, dz + 1);
                let west = *input.get(dx + 1, dz);
                let east = *input.get(dx + 1, dz + 2);
                let center = *input.get(dx + 1, dz + 1);
                let v = if is_no_river(center) || is_no_river(south) || is_no_river(north) || is_no_river(west) || is_no_river(east) {
                    State::River
                } else if center != south || center != west || center != north || center != east {
                    State::River
                } else {
                    State::NoRiver
                };
                data.push(v);
                dx = dx + 1;
            }
            proof {
                assert(dz * x_size + x_size == (dz + 1) * x_size) by (nonlinear_arith);
            }
            dz = dz + 1;
        }
        proof {
            assert(data@.len() == x_size * z_size) by (nonlinear_arith)
                requires data@.len() == dz * x_size, dz == z_size;
            lemma_flat_grid(data@, x_size as int, z_size as int, |dx: int, dz: int| add_river_out(input, dx, dz));
        }
        output.data = data;
    }

}

/// The river initialization marks oceans with no river, and every other biome with a
/// river potential of 2 or 3.
pub proof fn init_river_marks_oceans(world: i64, x: i32, z: i32, parent: &LayerData, dx: int, dz: int)
    ensures
        biome_at(parent, dx, dz) == crate::biome::OCEAN <==> init_river_out(world, x, z, parent, dx, dz) == State::NoRiver,
        biome_at(parent, dx, dz) != crate::biome::OCEAN ==> (init_river_out(world, x, z, parent, dx, dz) matches State::PotentialRiver(p) && 2 <= p <= 3),
{
    let w = world;
    super::rand::lemma_draw_below(super::rand::advance_spec(super::rand::chunk_seed_spec(w, (x + dx) as i32, (z + dz) as i32), w, 0), 2);
}

/// A cell next to a cell without river is a river, and the add river layer only makes
/// rivers and cells without river.
pub proof fn add_river_borders_no_river(input: &LayerData, dx: int, dz: int)
    ensures
        input.at(dx + 1, dz + 1) is NoRiver || input.at(dx, dz + 1) is NoRiver || input.at(dx + 2, dz + 1) is NoRiver
            || input.at(dx + 1, dz) is NoRiver || input.at(dx + 1, dz + 2) is NoRiver
            ==> add_river_out(input, dx, dz) == State::River,
        add_river_out(input, dx, dz) == State::River || add_river_out(input, dx, dz) == State::NoRiver,
{
}


/// The add river rule treats the four neighbours alike: exchanging two of them gives the
/// same state.
pub proof fn add_river_state_symmetric(center: State, south: State, north: State, west: State, east: State)
    ensures
        add_river_state_rule(center, south, north, west, east) == add_river_state_rule(center, north, south, west, east),
        add_river_state_rule(center, south, north, west, east) == add_river_state_rule(center, south, west, north, east),
        add_river_state_rule(center, south, north, west, east) == add_river_state_rule(center, south, north, east, west),
{
}

/// A cell is left without river exactly when it has a river potential or a biome and its
/// four neighbours are all in the same state as it (the same potential); any neighbour
/// that differs from it makes a river.
pub proof fn add_river_needs_equal_neighbours(input: &LayerData, dx: int, dz: int)
    ensures
        add_river_out(input, dx, dz) == State::NoRiver <==> ({
            let c = input.at(dx + 1, dz + 1);
            &&& !(c is NoRiver)
            &&& input.at(dx, dz + 1) == c
            &&& input.at(dx + 2, dz + 1) == c
            &&& input.at(dx + 1, dz) == c
            &&& input.at(dx + 1, dz + 2) == c
        }),
{
    let c = input.at(dx + 1, dz + 1);
    let nbs = seq![input.at(dx, dz + 1), input.at(dx + 2, dz + 1), input.at(dx + 1, dz), input.at(dx + 1, dz + 2)];
    assert forall|i: int| 0 <= i < 4 implies (state_eq(c, #[trigger] nbs[i]) <==> nbs[i] == c) by {
        let b = nbs[i];
        match (c, b) {
            (State::PotentialRiver(p), State::PotentialRiver(q)) => { assert(p == q ==> b == c); }
            (State::Biome(p), State::Biome(q)) => { assert(p == q ==> b == c); }
            _ => {}
        }
    }
    assert(nbs[0] == input.at(dx, dz + 1));
    assert(nbs[1] == input.at(dx + 2, dz + 1));
    assert(nbs[2] == input.at(dx + 1, dz));
    assert(nbs[3] == input.at(dx + 1, dz + 2));
}

} // verus!
