//! Grid zoom layer: doubles the resolution of its parent.

use vstd::prelude::*;

use super::{LayerData, State};
use crate::biome::BiomeId;
use super::rand::{LayerRand, base_seed_spec, world_seed_spec};
use super::cell::{zoom_rule, zoom_cell};
use super::grid::{span_fits, lemma_flat_grid};
use crate::layer::lemma_grid_index;

verus! {

/// Half of a coordinate, rounded down, and its parity.
proof fn lemma_half(v: i32)
    ensures
        (v >> 1u32) * 2 + (v & 1) == v,
        0 <= (v & 1) <= 1,
{
    assert((v >> 1u32) * 2 + (v & 1) == v && 0 <= (v & 1) <= 1) by (bit_vector);
}

/// Between `x` and `x + d`, the half coordinate grows by at most `(d + 1) / 2`.
pub(crate) proof fn lemma_half_offset(x: i32, cx: i32, d: int)
    requires
        cx == x + d,
        0 <= d,
    ensures
        0 <= (cx >> 1u32) - (x >> 1u32) <= (d + 1) / 2,
{
    lemma_half(x);
    lemma_half(cx);
}

/// The cell `dx`/`dz` of the zoom layer's output starting at `x`/`z`, from the parent's
/// cells of the rectangle starting at `x >> 1`/`z >> 1`: the zoom rule on the parent cell
/// under it and the ones after it on each axis.
pub open spec fn zoom_out(world: i64, x: i32, z: i32, fuzzy: bool, input: &LayerData, dx: int, dz: int) -> State {
    let cx = (x + dx) as i32;
    let cz = (z + dz) as i32;
    let ix = (cx >> 1u32) - (x >> 1u32);
    let iz = (cz >> 1u32) - (z >> 1u32);
    zoom_rule(world, (cx >> 1u32) << 1u32, (cz >> 1u32) << 1u32, (cx & 1) == 1, (cz & 1) == 1, fuzzy,
        input.at(ix, iz), input.at(ix, iz + 1), input.at(ix + 1, iz), input.at(ix + 1, iz + 1))
}

/// The zoom layer, picking the value of odd cells among their parent neighbours at
/// random (`fuzzy`) or with the smart choice.
pub struct ZoomLayer {
    rand: LayerRand,
    fuzzy: bool,
}

impl ZoomLayer {

    /// The base seed hashed from the seed the layer was built with.
    pub closed spec fn spec_base_seed(&self) -> i64 {
        self.rand.spec_base_seed()
    }

    /// The world seed hashed with the base seed.
    pub closed spec fn spec_world_seed(&self) -> i64 {
        self.rand.spec_world_seed()
    }

    /// The layer picks at random rather than with the smart choice.
    pub closed spec fn spec_fuzzy(&self) -> bool {
        self.fuzzy
    }

    pub fn new(base_seed: i64, fuzzy: bool) -> (r: Self)
        ensures
            r.spec_base_seed() == base_seed_spec(base_seed),
            r.spec_world_seed() == 0,
            r.spec_fuzzy() == fuzzy,
    {
        ZoomLayer { rand: LayerRand::new(base_seed), fuzzy }
    }

    pub fn new_fuzzy(base_seed: i64) -> (r: Self)
        ensures
            r.spec_base_seed() == base_seed_spec(base_seed),
            r.spec_world_seed() == 0,
            r.spec_fuzzy(),
    {
        Self::new(base_seed, true)
    }

    pub fn new_smart(base_seed: i64) -> (r: Self)
        ensures
            r.spec_base_seed() == base_seed_spec(base_seed),
            r.spec_world_seed() == 0,
            !r.spec_fuzzy(),
    {
        Self::new(base_seed, false)
    }

    /// Sets the world's seed used to generate the cells.
    pub fn seed(&mut self, seed: i64)
        ensures
            final(self).spec_base_seed() == old(self).spec_base_seed(),
            final(self).spec_world_seed() == world_seed_spec(old(self).spec_base_seed(), seed),
            final(self).spec_fuzzy() == old(self).spec_fuzzy(),
    {
        self.rand.init_world_seed(seed);
    }
    /// Fills `output` with the cells of the rectangle starting at `x`/`z`, from `input`,
    /// the parent's cells of the rectangle starting at `x >> 1`/`z >> 1` with half the
    /// output's size plus 3 cells on each axis.
    pub fn generate(&mut self, x: i32, z: i32, input: &LayerData, output: &mut LayerData)
        requires
            old(output).wf(),
            input.wf(),
            input.x_size == old(output).x_size / 2 + 3,
            input.z_size == old(output).z_size / 2 + 3,
            span_fits(x, old(output).x_size),
            span_fits(z, old(output).z_size),
        ensures
            final(self).spec_base_seed() == old(self).spec_base_seed(),
            final(self).spec_world_seed() == old(self).spec_world_seed(),
            final(self).spec_fuzzy() == old(self).spec_fuzzy(),
            final(output).wf(),
            final(output).x_size == old(output).x_size,
            final(output).z_size == old(output).z_size,
            forall|dx: int, dz: int| 0 <= dx < old(output).x_size && 0 <= dz < old(output).z_size
                ==> #[trigger] final(output).at(dx, dz) == zoom_out(old(self).spec_world_seed(), x, z, old(self).spec_fuzzy(), input, dx, dz),
    {
        let ghost world = self.spec_world_seed();
        let ghost old_output = *output;
        let x_size = output.x_size;
        let z_size = output.z_size;
        let _len = output.data.len();
        let mut data: Vec<State> = Vec::new();
        let mut dz: usize = 0;
        while dz < z_size
            invariant
                dz <= z_size,
                x_size * z_size <= usize::MAX,
                span_fits(x, x_size),
                span_fits(z, z_size),
                x_size == old_output.x_size,
                z_size == old_output.z_size,
                *output == old_output,
                input.wf(),
                input.x_size == x_size / 2 + 3,
                input.z_size == z_size / 2 + 3,
                self.fuzzy == old(self).spec_fuzzy(),
                data@.len() == dz * x_size,
                self.spec_base_seed() == old(self).spec_base_seed(),
                self.spec_world_seed() == world,
                forall|i: int| 0 <= i < data@.len()
                    ==> #[trigger] data@[i] == zoom_out(world, x, z, self.fuzzy, input, i % x_size as int, i / x_size as int),
            decreases z_size - dz,
        {
            let mut dx: usize = 0;
            while dx < x_size
                invariant
                    dx <= x_size,
                    dz < z_size,
                    x_size * z_size <= usize::MAX,
                    span_fits(x, x_size),
                    span_fits(z, z_size),
                    x_size == old_output.x_size,
                    z_size == old_output.z_size,
                    *output == old_output,
                    input.wf(),
                    input.x_size == x_size / 2 + 3,
                    input.z_size == z_size / 2 + 3,
                    self.fuzzy == old(self).spec_fuzzy(),
                    data@.len() == dz * x_size + dx,
                    self.spec_base_seed() == old(self).spec_base_seed(),
                    self.spec_world_seed() == world,
                    forall|i: int| 0 <= i < data@.len()
                        ==> #[trigger] data@[i] == zoom_out(world, x, z, self.fuzzy, input, i % x_size as int, i / x_size as int),
                decreases x_size - dx,
            {
                proof {
                    lemma_grid_index(x_size as int, z_size as int, dz as int, dx as int);
                    lemma_half_offset(x, (x + dx) as i32, dx as int);
                    lemma_half_offset(z, (z + dz) as i32, dz as int);
                }
                let cx = x + dx as i32;
                let cz = z + dz as i32;
                let ix = ((cx >> 1u32) - (x >> 1u32)) as usize;
                let iz = ((cz >> 1u32) - (z >> 1u32)) as usize;
                let v1 = *input.get(ix, iz);
                let v2 = *input.get(ix, iz + 1);
                let v3 = *input.get(ix + 1, iz);
                let v4 = *input.get(ix + 1, iz + 1);
                let v = zoom_cell(&mut self.rand, cx, cz, self.fuzzy, v1, v2, v3, v4);
                data.push(v);
                dx = dx + 1;
            }
            proof {
                assert(dz * x_size + x_size == (dz + 1) * x_size) by (nonlinear_arith);
            }
            dz = dz + 1;
        }
        proof {
            assert(data@.len() == x_size * z_size) by (nonlinear_arith)
                requires data@.len() == dz * x_size, dz == z_size;
            lemma_flat_grid(data@, x_size as int, z_size as int, |dx: int, dz: int| zoom_out(world, x, z, self.fuzzy, input, dx, dz));
        }
        output.data = data;
    }

}

/// A zoomed cell at even coordinates on both axes is the parent cell under it, and
/// every zoomed cell is one of the four parent cells around it.
pub proof fn zoom_cells_come_from_the_parent(world: i64, x: i32, z: i32, fuzzy: bool, input: &LayerData, dx: int, dz: int)
    ensures
        ({
            let cx = (x + dx) as i32;
            let cz = (z + dz) as i32;
            let ix = (cx >> 1u32) - (x >> 1u32);
            let iz = (cz >> 1u32) - (z >> 1u32);
            let r = zoom_out(world, x, z, fuzzy, input, dx, dz);
            &&& (cx & 1) == 0 && (cz & 1) == 0 ==> r == input.at(ix, iz)
            &&& r == input.at(ix, iz) || r == input.at(ix, iz + 1) || r == input.at(ix + 1, iz) || r == input.at(ix + 1, iz + 1)
        }),
{
    let cx = (x + dx) as i32;
    let cz = (z + dz) as i32;
    assert((cx & 1) == 0 || (cx & 1) == 1) by (bit_vector);
    assert((cz & 1) == 0 || (cz & 1) == 1) by (bit_vector);
    let c0 = super::rand::chunk_seed_spec(world, (cx >> 1u32) << 1u32, (cz >> 1u32) << 1u32);
    super::rand::lemma_draw_below(super::rand::advance_spec(c0, world, 2), 4);
}

/// The zoom rule picks the same biome from biome states as from the biomes themselves.
pub proof fn lemma_zoom_rule_on_biomes(world: i64, sx: i32, sz: i32, x_odd: bool, z_odd: bool, fuzzy: bool, a: BiomeId, b: BiomeId, c: BiomeId, d: BiomeId)
    ensures
        zoom_rule(world, sx, sz, x_odd, z_odd, fuzzy, State::Biome(a), State::Biome(b), State::Biome(c), State::Biome(d))
            == State::Biome(zoom_rule(world, sx, sz, x_odd, z_odd, fuzzy, a, b, c, d)),
{
    let c2 = super::rand::advance_spec(super::rand::chunk_seed_spec(world, sx, sz), world, 2);
    super::rand::lemma_draw_below(c2, 4);
}

} // verus!
