//! Grid smooth layer.

use vstd::prelude::*;

use super::{LayerData, State};
use super::rand::{LayerRand, base_seed_spec, world_seed_spec};
use super::cell::{smooth_rule, smooth_cell};
use super::grid::{span_fits, lemma_flat_grid};
use crate::layer::lemma_grid_index;

verus! {

/// The cell `dx`/`dz` of the smooth layer's output starting at `x`/`z`, from the parent
/// rectangle grown by one cell on each side.
pub open spec fn smooth_out(world: i64, x: i32, z: i32, input: &LayerData, dx: int, dz: int) -> State {
    smooth_rule(world, (x + dx) as i32, (z + dz) as i32,
        input.at(dx, dz + 1), input.at(dx + 2, dz + 1), input.at(dx + 1, dz), input.at(dx + 1, dz + 2),
        input.at(dx + 1, dz + 1))
}

/// This layer smooths the input layer by removing micro biomes and filling
/// gaps between cells of the same biome.
pub struct SmoothLayer {
    rand: LayerRand,
}

impl SmoothLayer {

    /// The base seed hashed from the seed the layer was built with.
    pub closed spec fn spec_base_seed(&self) -> i64 {
        self.rand.spec_base_seed()
    }

    /// The world seed hashed with the base seed.
    pub closed spec fn spec_world_seed(&self) -> i64 {
        self.rand.spec_world_seed()
    }

    pub fn new(base_seed: i64) -> (r: Self)
        ensures
            r.spec_base_seed() == base_seed_spec(base_seed),
            r.spec_world_seed() == 0,
    {
        SmoothLayer { rand: LayerRand::new(base_seed) }
    }

    /// Sets the world's seed used to generate the cells.
    pub fn seed(&mut self, seed: i64)
        ensures
            final(self).spec_base_seed() == old(self).spec_base_seed(),
            final(self).spec_world_seed() == world_seed_spec(old(self).spec_base_seed(), seed),
    {
        self.rand.init_world_seed(seed);
    }

    /// Fills `output` with the cells of the rectangle starting at `x`/`z`, from `input`,
    /// the parent's cells of the rectangle starting at `x - 1`/`z - 1` grown by one cell
    /// on each side.
    pub fn generate(&mut self, x: i32, z: i32, input: &LayerData, output: &mut LayerData)
        requires
            old(output).wf(),
            input.wf(),
            input.x_size == old(output).x_size + 2,
            input.z_size == old(output).z_size + 2,
            span_fits(x, old(output).x_size),
            span_fits(z, old(output).z_size),
        ensures
            final(self).spec_base_seed() == old(self).spec_base_seed(),
            final(self).spec_world_seed() == old(self).spec_world_seed(),
            final(output).wf(),
            final(output).x_size == old(output).x_size,
            final(output).z_size == old(output).z_size,
            forall|dx: int, dz: int| 0 <= dx < old(output).x_size && 0 <= dz < old(output).z_size
                ==> #[trigger] final(output).at(dx, dz) == smooth_out(old(self).spec_world_seed(), x, z, input, dx, dz),
    {
        let ghost world = self.spec_world_seed();
        let ghost old_output = *output;
        let x_size = output.x_size;
        let z_size = output.z_size;
        let _len = output.data.len();
        let mut data: Vec<State> = Vec::new();
        let mut dz: usize = 0;
        while dz < z_size
            invariant
                dz <= z_size,
                x_size * z_size <= usize::MAX,
                span_fits(x, x_size),
                span_fits(z, z_size),
                x_size == old_output.x_size,
                z_size == old_output.z_size,
                *output == old_output,
                input.wf(),
                input.x_size == x_size + 2,
                input.z_size == z_size + 2,
                data@.len() == dz * x_size,
                self.spec_base_seed() == old(self).spec_base_seed(),
                self.spec_world_seed() == world,
                forall|i: int| 0 <= i < data@.len()
                    ==> #[trigger] data@[i] == smooth_out(world, x, z, input, i % x_size as int, i / x_size as int),
            decreases z_size - dz,
        {
            let mut dx: usize = 0;
            while dx < x_size
                invariant
                    dx <= x_size,
                    dz < z_size,
                    x_size * z_size <= usize::MAX,
                    span_fits(x, x_size),
                    span_fits(z, z_size),
                    x_size == old_output.x_size,
                    z_size == old_output.z_size,
                    *output == old_output,
                    input.wf(),
                    input.x_size == x_size + 2,
                    input.z_size == z_size + 2,
                    data@.len() == dz * x_size + dx,
                    self.spec_base_seed() == old(self).spec_base_seed(),
                    self.spec_world_seed() == world,
                    forall|i: int| 0 <= i < data@.len()
                        ==> #[trigger] data@[i] == smooth_out(world, x, z, input, i % x_size as int, i / x_size as int),
                decreases x_size - dx,
            {
                proof {
                    lemma_grid_index(x_size as int, z_size as int, dz as int, dx as int);
                }
                let south = *input.get(dx, dz + 1);
                let north = *input.get(dx + 2, dz + 1);
                let west = *input.get(dx + 1, dz);
                let east = *input.get(dx + 1, dz + 2);
                let center = *input.get(dx + 1, dz + 1);
                let v = smooth_cell(&mut self.rand, x + dx as i32, z + dz as i32, south, north, west, east, center);
                data.push(v);
                dx = dx + 1;
            }
            proof {
                assert(dz * x_size + x_size == (dz + 1) * x_size) by (nonlinear_arith);
            }
            dz = dz + 1;
        }
        proof {
            assert(data@.len() == x_size * z_size) by (nonlinear_arith)
                requires data@.len() == dz * x_size, dz == z_size;
            lemma_flat_grid(data@, x_size as int, z_size as int, |dx: int, dz: int| smooth_out(world, x, z, input, dx, dz));
        }
        output.data = data;
    }

}

} // verus!
