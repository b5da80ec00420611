//! Iterative biome layers: each layer computes one cell at a time from the cells
//! of its parent layer, with a cache where neighbouring cells are read.

use vstd::prelude::*;

use crate::util::Rect;

pub mod builder;
pub mod cache;
pub mod island;
pub mod smooth;
pub mod snow;
pub mod river;
pub mod biome;
pub mod zoom;

pub use builder::LayerBuilder;
pub use cache::LayerCache;
pub use crate::layer_new::rand::LayerRand;

verus! {

/// The coordinates a layer with the given reach can be asked for: the cells
/// that the layer and its parents read around them stay in the `i32` range.
pub open spec fn in_reach(c: i32, reach: nat) -> bool {
    i32::MIN + reach <= c && c <= i32::MAX - reach
}

/// The largest reach of a layer.
pub const MAX_REACH: u32 = 0x100_0000;

/// A layer generating cells one at a time. The value of a cell is a function of
/// the layer's configuration, of the world seed and of the cell coordinates only;
/// caches kept by layers never change it.
pub trait Layer: Sized {

    type Item;

    /// The layer is consistent: its caches hold the values of its cells.
    spec fn wf(&self) -> bool;

    /// How far the coordinates of the cells read by this layer and its parents can
    /// be from the coordinates asked for.
    spec fn reach(&self) -> nat;

    /// The value of the cell at `x`/`z` for the current world seed.
    spec fn cell(&self, x: i32, z: i32) -> Self::Item;

    /// The value of the cell at `x`/`z` once the layer is seeded with `seed`.
    spec fn seeded_cell(&self, seed: i64, x: i32, z: i32) -> Self::Item;

    /// Sets the world seed of this layer, and of its parents for the layers that seed them
    /// (the snow layer seeds only its own generator).
    fn seed(&mut self, seed: i64)
        requires
            old(self).wf(),
        ensures
            final(self).wf(),
            final(self).reach() == old(self).reach(),
            forall|x: i32, z: i32| #[trigger] final(self).cell(x, z) == old(self).seeded_cell(seed, x, z),
            forall|s: i64, x: i32, z: i32| #[trigger] final(self).seeded_cell(s, x, z) == old(self).seeded_cell(s, x, z),
    ;

    /// Generates the cell at `x`/`z`.
    fn next(&mut self, x: i32, z: i32) -> (r: Self::Item)
        requires
            old(self).wf(),
            in_reach(x, old(self).reach()),
            in_reach(z, old(self).reach()),
        ensures
            r == old(self).cell(x, z),
            final(self).wf(),
            final(self).reach() == old(self).reach(),
            forall|x: i32, z: i32| #[trigger] final(self).cell(x, z) == old(self).cell(x, z),
            forall|s: i64, x: i32, z: i32| #[trigger] final(self).seeded_cell(s, x, z) == old(self).seeded_cell(s, x, z),
    ;

    /// Generates the rectangle of cells starting at `x`/`z`, X then Z.
    fn next_grid(&mut self, x: i32, z: i32, x_size: usize, z_size: usize) -> (r: Rect<Self::Item>)
        requires
            old(self).wf(),
            x_size * z_size <= usize::MAX,
            x_size <= i32::MAX,
            z_size <= i32::MAX,
            x + x_size <= i32::MAX,
            z + z_size <= i32::MAX,
            x_size > 0 ==> in_reach(x, old(self).reach()) && in_reach((x + x_size - 1) as i32, old(self).reach()),
            z_size > 0 ==> in_reach(z, old(self).reach()) && in_reach((z + z_size - 1) as i32, old(self).reach()),
        ensures
            r.wf(),
            r.x_size == x_size,
            r.z_size == z_size,
            forall|dx: int, dz: int| 0 <= dx < x_size && 0 <= dz < z_size
                ==> #[trigger] r.at(dx, dz) == old(self).cell((x + dx) as i32, (z + dz) as i32),
            final(self).wf(),
            final(self).reach() == old(self).reach(),
            forall|x: i32, z: i32| #[trigger] final(self).cell(x, z) == old(self).cell(x, z),
            forall|s: i64, x: i32, z: i32| #[trigger] final(self).seeded_cell(s, x, z) == old(self).seeded_cell(s, x, z),
    {
        let ghost old_self = *self;
        let mut data: Vec<Self::Item> = Vec::with_capacity(x_size * z_size);
        let z_end = z + z_size as i32;
        let x_end = x + x_size as i32;
        let mut cz = z;
        while cz < z_end
            invariant
                z <= cz <= z_end,
                z_end == z + z_size,
                x_end == x + x_size,
                x_size * z_size <= usize::MAX,
                data@.len() == (cz - z) * x_size,
                self.wf(),
                self.reach() == old_self.reach(),
                x_size > 0 ==> in_reach(x, old_self.reach()) && in_reach((x + x_size - 1) as i32, old_self.reach()),
                z_size > 0 ==> in_reach(z, old_self.reach()) && in_reach((z + z_size - 1) as i32, old_self.reach()),
                forall|a: i32, b: i32| #[trigger] self.cell(a, b) == old_self.cell(a, b),
                forall|s: i64, a: i32, b: i32| #[trigger] self.seeded_cell(s, a, b) == old_self.seeded_cell(s, a, b),
                forall|i: int| 0 <= i < data@.len() ==> #[trigger] data@[i] == old_self.cell((x + i % x_size as int) as i32, (z + i / x_size as int) as i32),
            decreases z_end - cz,
        {
            let mut cx = x;
            while cx < x_end
                invariant
                    x <= cx <= x_end,
                    z <= cz < z_end,
                    z_end == z + z_size,
                    x_end == x + x_size,
                    x_size * z_size <= usize::MAX,
                    data@.len() == (cz - z) * x_size + (cx - x),
                    self.wf(),
                    self.reach() == old_self.reach(),
                    x_size > 0 ==> in_reach(x, old_self.reach()) && in_reach((x + x_size - 1) as i32, old_self.reach()),
                    z_size > 0 ==> in_reach(z, old_self.reach()) && in_reach((z + z_size - 1) as i32, old_self.reach()),
                    forall|a: i32, b: i32| #[trigger] self.cell(a, b) == old_self.cell(a, b),
                    forall|s: i64, a: i32, b: i32| #[trigger] self.seeded_cell(s, a, b) == old_self.seeded_cell(s, a, b),
                    forall|i: int| 0 <= i < data@.len() ==> #[trigger] data@[i] == old_self.cell((x + i % x_size as int) as i32, (z + i / x_size as int) as i32),
                decreases x_end - cx,
            {
                proof {
                    lemma_grid_index(x_size as int, z_size as int, (cz - z) as int, (cx - x) as int);
                }
                let v = self.next(cx, cz);
                data.push(v);
                cx = cx + 1;
            }
            proof {
                assert((cz - z) * x_size + x_size == (cz + 1 - z) * x_size) by (nonlinear_arith);
            }
            cz = cz + 1;
        }
        proof {
            assert(data@.len() == x_size * z_size) by (nonlinear_arith)
                requires data@.len() == (cz - z) * x_size, cz - z == z_size;
        }
        let ghost d = data@;
        let res = Rect::from_raw(data, x_size, z_size);
        proof {
            assert forall|dx: int, dz: int| 0 <= dx < x_size && 0 <= dz < z_size
                implies #[trigger] res.at(dx, dz) == old_self.cell((x + dx) as i32, (z + dz) as i32) by {
                lemma_grid_index(x_size as int, z_size as int, dz, dx);
                let i = dz * x_size + dx;
                assert(d[i] == old_self.cell((x + i % x_size as int) as i32, (z + i / x_size as int) as i32));
            }
        }
        res
    }

}

/// The cell at row `row` and column `col` of a grid with rows of `x_size` cells is at
/// index `row * x_size + col`, which gives back the column and row by remainder and
/// division.
pub proof fn lemma_grid_index(x_size: int, z_size: int, row: int, col: int)
    requires
        0 <= col < x_size,
        0 <= row < z_size,
    ensures
        (row * x_size + col) % x_size == col,
        (row * x_size + col) / x_size == row,
        col + row * x_size == row * x_size + col,
        row * x_size + col < x_size * z_size,
        row * x_size + col + 1 <= x_size * z_size,
{
    vstd::arithmetic::div_mod::lemma_fundamental_div_mod_converse(row * x_size + col, x_size, row, col);
    assert(row * x_size + col < x_size * z_size) by (nonlinear_arith)
        requires
            0 <= col < x_size,
            0 <= row < z_size,
    ;
}

} // verus!
