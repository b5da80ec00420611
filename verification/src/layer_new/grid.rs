//! Shared facts about the rectangles the grid layers read and write.

use vstd::prelude::*;

use super::{LayerData, State, all_biomes};

verus! {

/// The `size` coordinates starting at `c` all fit in an `i32`.
pub open spec fn span_fits(c: i32, size: usize) -> bool {
    size <= i32::MAX && c + size <= i32::MAX + 1
}

/// The input of a layer that reads the neighbours of each output cell: the output
/// rectangle grown by one cell on each side, and only biomes.
pub open spec fn bordered_biomes(input: &LayerData, output: &LayerData) -> bool {
    &&& input.wf()
    &&& input.x_size == output.x_size + 2
    &&& input.z_size == output.z_size + 2
    &&& all_biomes(input)
}

/// A sequence filled X then Z, whose `i`-th value is that of the cell at column
/// `i % x_size` and row `i / x_size`, holds at `dx + dz * x_size` the value of the cell
/// `dx`/`dz`.
pub proof fn lemma_flat_grid(d: Seq<State>, x_size: int, z_size: int, f: spec_fn(int, int) -> State)
    requires
        x_size >= 0,
        z_size >= 0,
        d.len() == x_size * z_size,
        forall|i: int| 0 <= i < d.len() ==> #[trigger] d[i] == f(i % x_size, i / x_size),
    ensures
        forall|dx: int, dz: int| 0 <= dx < x_size && 0 <= dz < z_size
            ==> #[trigger] d[dx + dz * x_size] == f(dx, dz),
{
    assert forall|dx: int, dz: int| 0 <= dx < x_size && 0 <= dz < z_size
        implies #[trigger] d[dx + dz * x_size] == f(dx, dz) by {
        crate::layer::lemma_grid_index(x_size, z_size, dz, dx);
        let i = dz * x_size + dx;
        assert(d[i] == f(i % x_size, i / x_size));
    }
}

/// The cell `x`/`z` of a well formed rectangle is at an index in range, and when the
/// rectangle holds only biomes it is a biome.
pub proof fn lemma_cell_biome(data: &LayerData, x: int, z: int)
    requires
        data.wf(),
        all_biomes(data),
        0 <= x < data.x_size,
        0 <= z < data.z_size,
    ensures
        data.at(x, z) is Biome,
{
    crate::util::lemma_rect_index(x, z, data.x_size as int, data.z_size as int);
    assert(data.data@[x + z * data.x_size] is Biome);
}

} // verus!
