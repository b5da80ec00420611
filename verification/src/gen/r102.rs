//! The integer logic of the release 1.2 generator: the random seeds of terrain and
//! population chunks, and the surface of a column.

use vstd::prelude::*;
use vstd::wrapping::i64_specs;

use crate::java::JavaRandom;

use crate::java::{java_random, next_long, set_seed, next_int_bounded, scramble, long_draw, int_draw};

verus! {

/// Multiplier of the chunk X coordinate in the terrain seed.
pub const TERRAIN_X_MUL: i64 = 0x4f9939f508;
/// Multiplier of the chunk Z coordinate in the terrain seed.
pub const TERRAIN_Z_MUL: i64 = 0x1ef1565bd5;

/// The seed of the terrain random generator of the chunk `cx`/`cz`:
/// `cx * TERRAIN_X_MUL + cz * TERRAIN_Z_MUL`, wrapping on 64 bits.
pub open spec fn terrain_seed_spec(cx: i32, cz: i32) -> i64 {
    i64_specs::wrapping_add(
        i64_specs::wrapping_mul(cx as i64, TERRAIN_X_MUL),
        i64_specs::wrapping_mul(cz as i64, TERRAIN_Z_MUL),
    )
}

pub fn terrain_seed(cx: i32, cz: i32) -> (r: i64)
    ensures
        r == terrain_seed_spec(cx, cz),
{
    (cx as i64).wrapping_mul(TERRAIN_X_MUL).wrapping_add((cz as i64).wrapping_mul(TERRAIN_Z_MUL))
}

/// The terrain random generator of the chunk `cx`/`cz`, seeded with its terrain seed.
pub fn terrain_rand(cx: i32, cz: i32) -> (r: JavaRandom)
    ensures
        r@ == scramble(terrain_seed_spec(cx, cz)),
{
    java_random(terrain_seed(cx, cz))
}

/// An odd number from a drawn `long`: the long divided by two, rounded toward zero,
/// times two, plus one.
pub open spec fn odd_from_spec(v: i64) -> i64 {
    if v >= 0 {
        (v / 2 * 2 + 1) as i64
    } else {
        (-((-v) / 2 * 2) + 1) as i64
    }
}

pub fn odd_from(v: i64) -> (r: i64)
    ensures
        r == odd_from_spec(v),
{
    v / 2 * 2 + 1
}

/// The seed of the population random generator of the chunk `cx`/`cz` for the world
/// seed `seed`, from the two longs `a` and `b` first drawn from a generator seeded with
/// the world seed: `(cx * odd(a) + cz * odd(b)) ^ seed`, wrapping on 64 bits.
pub open spec fn population_seed_spec(seed: i64, a: i64, b: i64, cx: i32, cz: i32) -> i64 {
    i64_specs::wrapping_add(
        i64_specs::wrapping_mul(cx as i64, odd_from_spec(a)),
        i64_specs::wrapping_mul(cz as i64, odd_from_spec(b)),
    ) ^ seed
}

pub fn population_seed(seed: i64, a: i64, b: i64, cx: i32, cz: i32) -> (r: i64)
    ensures
        r == population_seed_spec(seed, a, b, cx, cz),
{
    let oa = odd_from(a);
    let ob = odd_from(b);
    (cx as i64).wrapping_mul(oa).wrapping_add((cz as i64).wrapping_mul(ob)) ^ seed
}

/// The seed of the structure generator of the chunk `ccx`/`ccz` for the world seed
/// `seed`, from the two longs `x_rand` and `z_rand` first drawn from a generator seeded
/// with the world seed: `(ccx * x_rand) ^ (ccz * z_rand) ^ seed`, wrapping on 64 bits.
pub open spec fn structure_seed_spec(seed: i64, x_rand: i64, z_rand: i64, ccx: i32, ccz: i32) -> i64 {
    i64_specs::wrapping_mul(ccx as i64, x_rand) ^ i64_specs::wrapping_mul(ccz as i64, z_rand) ^ seed
}

pub fn structure_seed(seed: i64, x_rand: i64, z_rand: i64, ccx: i32, ccz: i32) -> (r: i64)
    ensures
        r == structure_seed_spec(seed, x_rand, z_rand, ccx, ccz),
{
    (ccx as i64).wrapping_mul(x_rand) ^ (ccz as i64).wrapping_mul(z_rand) ^ seed
}

/// The two longs first drawn from a generator seeded with the world seed `seed`.
pub open spec fn population_longs(seed: i64) -> (i64, i64) {
    let (a, s1) = long_draw(scramble(seed));
    (a, long_draw(s1).0)
}

/// The population random generator of the chunk `cx`/`cz` for the world seed `seed`:
/// a generator seeded with the world seed draws two longs, then is reseeded with the
/// population seed they give.
pub fn population_rand(seed: i64, cx: i32, cz: i32) -> (r: JavaRandom)
    ensures
        r@ == scramble(population_seed_spec(seed, population_longs(seed).0, population_longs(seed).1, cx, cz)),
{
    let mut rand = java_random(seed);
    let a = next_long(&mut rand);
    let b = next_long(&mut rand);
    let s = population_seed(seed, a, b, cx, cz);
    set_seed(&mut rand, s);
    rand
}

// Surface //

/// The blocks the surface of a column is made of and reads.
#[derive(Clone, Copy, Debug, PartialEq, Eq, Structural)]
pub enum SurfaceBlock {
    Air,
    Stone,
    Bedrock,
    Water,
    Ice,
    Sand,
    Sandstone,
    Grass,
    Dirt,
    Mycelium,
    /// Any other block, which the surface leaves as it is.
    Other,
}

/// The state carried down a column while its surface is generated: the depth left to
/// fill below the surface (-1 when above the ground), and the top and filler blocks.
#[derive(Clone, Copy, Debug, PartialEq, Eq, Structural)]
pub struct SurfaceState {
    pub depth: i32,
    pub top: SurfaceBlock,
    pub filler: SurfaceBlock,
}

/// One block of the surface, above the bedrock: from the state and the block at
/// `y_real`, the next state and the block to set there (`None` to leave it). `noise` is
/// the column's surface depth, `cold` whether the biome freezes its water. When the
/// third result is true, a draw in `[0; 4[` must then replace the depth and the filler
/// becomes sandstone.
pub open spec fn surface_step_spec(st: SurfaceState, y_real: int, block: SurfaceBlock, noise: i32,
    biome_top: SurfaceBlock, biome_filler: SurfaceBlock, cold: bool) -> (SurfaceState, Option<SurfaceBlock>, bool)
{
    if block == SurfaceBlock::Air {
        (SurfaceState { depth: -1i32, ..st }, None, false)
    } else if block == SurfaceBlock::Stone {
        if st.depth == -1 {
            let (top1, filler1) = if noise <= 0 {
                (SurfaceBlock::Air, SurfaceBlock::Stone)
            } else if 59 <= y_real <= 64 {
                (biome_top, biome_filler)
            } else {
                (st.top, st.filler)
            };
            let top2 = if y_real < 63 && top1 == SurfaceBlock::Air {
                if cold { SurfaceBlock::Ice } else { SurfaceBlock::Water }
            } else {
                top1
            };
            (SurfaceState { depth: noise, top: top2, filler: filler1 }, Some(if y_real >= 62 { top2 } else { filler1 }), false)
        } else if st.depth > 0 {
            let depth = st.depth - 1;
            (SurfaceState { depth: depth as i32, ..st }, Some(st.filler), depth == 0 && st.filler == SurfaceBlock::Sand)
        } else {
            (st, None, false)
        }
    } else {
        (st, None, false)
    }
}

/// One block of the surface above the bedrock, see `surface_step_spec`.
pub fn surface_step(st: SurfaceState, y_real: i32, block: SurfaceBlock, noise: i32,
    biome_top: SurfaceBlock, biome_filler: SurfaceBlock, cold: bool) -> (r: (SurfaceState, Option<SurfaceBlock>, bool))
    ensures
        r == surface_step_spec(st, y_real as int, block, noise, biome_top, biome_filler, cold),
{
    if block == SurfaceBlock::Air {
        (SurfaceState { depth: -1, ..st }, None, false)
    } else if block == SurfaceBlock::Stone {
        if st.depth == -1 {
            let mut top = st.top;
            let mut filler = st.filler;
            if noise <= 0 {
                top = SurfaceBlock::Air;
                filler = SurfaceBlock::Stone;
            } else if y_real >= 59 && y_real <= 64 {
                top = biome_top;
                filler = biome_filler;
            }
            if y_real < 63 && top == SurfaceBlock::Air {
                if cold {
                    top = SurfaceBlock::Ice;
                } else {
                    top = SurfaceBlock::Water;
                }
            }
            let set = if y_real >= 62 { top } else { filler };
            (SurfaceState { depth: noise, top, filler }, Some(set), false)
        } else if st.depth > 0 {
            let depth = st.depth - 1;
            (SurfaceState { depth, ..st }, Some(st.filler), depth == 0 && st.filler == SurfaceBlock::Sand)
        } else {
            (st, None, false)
        }
    } else {
        (st, None, false)
    }
}

/// The surface of the `k` lowest blocks of a column, from `k - 1` down to 0, from the
/// column `col`, the generator state `s` and the surface state `st`: the column, the
/// generator state and the surface state after them. A block of a sub chunk that is not
/// present is skipped; another one draws in `[0; 5[` and becomes bedrock when its height
/// is at most the draw, else follows `surface_step_spec`, drawing the sandstone depth in
/// `[0; 4[` when the step asks for it.
pub open spec fn surface_fold(col: Seq<SurfaceBlock>, present: Seq<bool>, s: i64, st: SurfaceState, k: nat,
    noise: i32, biome_top: SurfaceBlock, biome_filler: SurfaceBlock, cold: bool) -> (Seq<SurfaceBlock>, i64, SurfaceState)
    decreases k,
{
    if k == 0 {
        (col, s, st)
    } else {
        let y = k - 1;
        if !present[y / 16] {
            surface_fold(col, present, s, st, (k - 1) as nat, noise, biome_top, biome_filler, cold)
        } else {
            let (d, s1) = int_draw(s, 5);
            if y <= d {
                surface_fold(col.update(y, SurfaceBlock::Bedrock), present, s1, st, (k - 1) as nat, noise, biome_top, biome_filler, cold)
            } else {
                let (next, set, sandstone) = surface_step_spec(st, y, col[y], noise, biome_top, biome_filler, cold);
                let col2 = match set {
                    Some(b) => col.update(y, b),
                    None => col,
                };
                if sandstone {
                    let (d2, s2) = int_draw(s1, 4);
                    surface_fold(col2, present, s2, SurfaceState { depth: d2, top: next.top, filler: SurfaceBlock::Sandstone },
                        (k - 1) as nat, noise, biome_top, biome_filler, cold)
                } else {
                    surface_fold(col2, present, s1, next, (k - 1) as nat, noise, biome_top, biome_filler, cold)
                }
            }
        }
    }
}

/// A stone block reached with one block of filler left gets the filler; when that filler
/// is sand, the sand has run out and the step asks for sandstone below. No other step
/// asks for it. A stone block reached with filler left gets the filler and one less is
/// left.
pub proof fn sand_runs_out_into_sandstone(st: SurfaceState, y_real: int, block: SurfaceBlock, noise: i32,
    biome_top: SurfaceBlock, biome_filler: SurfaceBlock, cold: bool)
    ensures
        surface_step_spec(st, y_real, block, noise, biome_top, biome_filler, cold).2
            <==> (block == SurfaceBlock::Stone && st.depth == 1 && st.filler == SurfaceBlock::Sand),
        block == SurfaceBlock::Stone && st.depth > 0 ==> ({
            let (next, set, _) = surface_step_spec(st, y_real, block, noise, biome_top, biome_filler, cold);
            set == Some(st.filler) && next.depth == st.depth - 1 && next.filler == st.filler && next.top == st.top
        }),
{
}

/// Where the sand of a column runs out at the height `y`, above the bedrock draw, the
/// block gets sand and the blocks below continue with a sandstone filler, as deep as a
/// draw in `[0; 4[` made right after the bedrock draw.
pub proof fn sandstone_under_sand(col: Seq<SurfaceBlock>, present: Seq<bool>, s: i64, st: SurfaceState, y: nat,
    noise: i32, biome_top: SurfaceBlock, biome_filler: SurfaceBlock, cold: bool)
    requires
        y < col.len(),
        present[y as int / 16],
        int_draw(s, 5).0 < y,
        col[y as int] == SurfaceBlock::Stone,
        st.depth == 1,
        st.filler == SurfaceBlock::Sand,
    ensures
        ({
            let s1 = int_draw(s, 5).1;
            let (d2, s2) = int_draw(s1, 4);
            surface_fold(col, present, s, st, y + 1, noise, biome_top, biome_filler, cold)
                == surface_fold(col.update(y as int, SurfaceBlock::Sand), present, s2,
                    SurfaceState { depth: d2, top: st.top, filler: SurfaceBlock::Sandstone }, y, noise, biome_top, biome_filler, cold)
        }),
{
    sand_runs_out_into_sandstone(st, y as int, SurfaceBlock::Stone, noise, biome_top, biome_filler, cold);
}

/// The surface skips the blocks of sub chunks that are not present.
proof fn lemma_surface_skip(col: Seq<SurfaceBlock>, present: Seq<bool>, s: i64, st: SurfaceState, base: nat, j: nat,
    noise: i32, biome_top: SurfaceBlock, biome_filler: SurfaceBlock, cold: bool)
    requires
        forall|y: int| base <= y < base + j ==> !#[trigger] present[y / 16],
    ensures
        surface_fold(col, present, s, st, base + j, noise, biome_top, biome_filler, cold)
            == surface_fold(col, present, s, st, base, noise, biome_top, biome_filler, cold),
    decreases j,
{
    if j > 0 {
        lemma_surface_skip(col, present, s, st, base, (j - 1) as nat, noise, biome_top, biome_filler, cold);
        assert(!present[(base + j - 1) / 16]);
    }
}

/// Generates the surface of a column of 128 blocks (`column[y]` is the block at `y`),
/// whose sub chunk `cy` exists where `present[cy]`. From the top down, each block of an
/// existing sub chunk draws in `[0; 5[` and becomes bedrock when its height is at most
/// the draw; the other blocks follow `surface_step`, the sandstone depth being drawn
/// in `[0; 4[`. `noise` is the column's surface depth.
pub fn generate_surface_column(rand: &mut JavaRandom, column: &mut Vec<SurfaceBlock>, present: &Vec<bool>,
    noise: i32, biome_top: SurfaceBlock, biome_filler: SurfaceBlock, cold: bool)
    requires
        old(column)@.len() == 128,
        present@.len() == 8,
    ensures
        final(column)@.len() == 128,
        forall|y: int| 0 <= y < 128 && !present@[y / 16] ==> #[trigger] final(column)@[y] == old(column)@[y],
        present@[0] ==> final(column)@[0] == SurfaceBlock::Bedrock,
        forall|y: int| 5 <= y < 128 && old(column)@[y] != SurfaceBlock::Stone ==> #[trigger] final(column)@[y] == old(column)@[y],
        biome_top != SurfaceBlock::Bedrock && biome_filler != SurfaceBlock::Bedrock ==> forall|y: int| 5 <= y < 128
            ==> #[trigger] final(column)@[y] != SurfaceBlock::Bedrock || old(column)@[y] == SurfaceBlock::Bedrock,
        ({
            let (col, s, _st) = surface_fold(old(column)@, present@, old(rand)@,
                SurfaceState { depth: -1i32, top: biome_top, filler: biome_filler }, 128, noise, biome_top, biome_filler, cold);
            final(column)@ == col && final(rand)@ == s
        }),
{
    let ghost whole = surface_fold(old(column)@, present@, old(rand)@,
        SurfaceState { depth: -1i32, top: biome_top, filler: biome_filler }, 128, noise, biome_top, biome_filler, cold);
    let ghost no_bedrock = biome_top != SurfaceBlock::Bedrock && biome_filler != SurfaceBlock::Bedrock;
    let mut st = SurfaceState { depth: -1, top: biome_top, filler: biome_filler };
    let mut cy: usize = 8;
    while cy > 0
        invariant
            cy <= 8,
            column@.len() == 128,
            present@.len() == 8,
            no_bedrock == (biome_top != SurfaceBlock::Bedrock && biome_filler != SurfaceBlock::Bedrock),
            no_bedrock ==> st.top != SurfaceBlock::Bedrock && st.filler != SurfaceBlock::Bedrock,
            forall|y: int| cy * 16 <= y < 128 && !present@[y / 16] ==> #[trigger] column@[y] == old(column)@[y],
            forall|y: int| 0 <= y < cy * 16 ==> #[trigger] column@[y] == old(column)@[y],
            forall|y: int| 5 <= y < 128 && old(column)@[y] != SurfaceBlock::Stone ==> #[trigger] column@[y] == old(column)@[y],
            no_bedrock ==> forall|y: int| 5 <= y < 128 ==> #[trigger] column@[y] != SurfaceBlock::Bedrock || old(column)@[y] == SurfaceBlock::Bedrock,
            cy == 0 && present@[0] ==> column@[0] == SurfaceBlock::Bedrock,
            whole == surface_fold(column@, present@, rand@, st, (cy * 16) as nat, noise, biome_top, biome_filler, cold),
        decreases cy,
    {
        cy = cy - 1;
        if !present[cy] {
            proof {
                lemma_surface_skip(column@, present@, rand@, st, (cy * 16) as nat, 16, noise, biome_top, biome_filler, cold);
            }
        }
        if present[cy] {
            let mut y: usize = 16;
            while y > 0
                invariant
                    y <= 16,
                    cy < 8,
                    present@[cy as int],
                    column@.len() == 128,
                    present@.len() == 8,
                    no_bedrock == (biome_top != SurfaceBlock::Bedrock && biome_filler != SurfaceBlock::Bedrock),
                    no_bedrock ==> st.top != SurfaceBlock::Bedrock && st.filler != SurfaceBlock::Bedrock,
                    forall|k: int| (cy + 1) * 16 <= k < 128 && !present@[k / 16] ==> #[trigger] column@[k] == old(column)@[k],
                    forall|k: int| 0 <= k < cy * 16 + y ==> #[trigger] column@[k] == old(column)@[k],
                    forall|k: int| 5 <= k < 128 && old(column)@[k] != SurfaceBlock::Stone ==> #[trigger] column@[k] == old(column)@[k],
                    no_bedrock ==> forall|k: int| 5 <= k < 128 ==> #[trigger] column@[k] != SurfaceBlock::Bedrock || old(column)@[k] == SurfaceBlock::Bedrock,
                    cy == 0 && y == 0 ==> column@[0] == SurfaceBlock::Bedrock,
                    whole == surface_fold(column@, present@, rand@, st, (cy * 16 + y) as nat, noise, biome_top, biome_filler, cold),
                decreases y,
            {
                y = y - 1;
                let idx = cy * 16 + y;
                let y_real = idx as i32;
                let ghost c0 = column@;
                let ghost s0 = rand@;
                let ghost st0 = st;
                assert(present@[idx as int / 16]);
                if y_real <= next_int_bounded(rand, 5) {
                    column.set(idx, SurfaceBlock::Bedrock);
                } else {
                    let block = column[idx];
                    let (next, set, sandstone) = surface_step(st, y_real, block, noise, biome_top, biome_filler, cold);
                    st = next;
                    match set {
                        Some(b) => {
                            column.set(idx, b);
                        },
                        None => {},
                    }
                    if sandstone {
                        st.depth = next_int_bounded(rand, 4);
                        st.filler = SurfaceBlock::Sandstone;
                    }
                }
                assert(surface_fold(c0, present@, s0, st0, (idx + 1) as nat, noise, biome_top, biome_filler, cold)
                    == surface_fold(column@, present@, rand@, st, idx as nat, noise, biome_top, biome_filler, cold));
            }
        }
    }
}

} // verus!
