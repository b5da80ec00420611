//! Plant features: flowers, grass, dead bushes, lily pads and sugar cane.

use vstd::prelude::*;

use crate::feature::{Heights, TopSubChunks};

use crate::java::JavaRandom;

use crate::java::{next_int_bounded, int_draw};
use crate::view::{LevelView, LevelShape, level_shape, FeatureBlock, PlantKind};
use super::{Feature, holds_columns_around};

verus! {

/// The grounds a plant can be planted on.
#[derive(Clone, Copy, Debug, PartialEq, Eq, Structural)]
pub enum PlantGround {
    /// Grass, dirt or farmland.
    Living,
    /// Sand.
    Dead,
    /// Water.
    LilyPad,
}

/// The plant can grow on the ground block.
pub open spec fn can_plant_spec(ground: PlantGround, block: FeatureBlock) -> bool {
    match ground {
        PlantGround::Living => block == FeatureBlock::GrassBlock || block == FeatureBlock::Dirt || block == FeatureBlock::Farmland,
        PlantGround::Dead => block == FeatureBlock::Sand,
        PlantGround::LilyPad => block == FeatureBlock::Water,
    }
}

pub fn can_plant(ground: PlantGround, block: FeatureBlock) -> (r: bool)
    ensures
        r == can_plant_spec(ground, block),
{
    match ground {
        PlantGround::Living => block == FeatureBlock::GrassBlock || block == FeatureBlock::Dirt || block == FeatureBlock::Farmland,
        PlantGround::Dead => block == FeatureBlock::Sand,
        PlantGround::LilyPad => block == FeatureBlock::Water,
    }
}

/// The positions a plant feature at `x`/`y`/`z` may read: 7 blocks around it on X and
/// Z, from 4 blocks below to 3 above.
pub open spec fn plant_reach(x: i32, y: i32, z: i32, p: (i32, i32, i32)) -> bool {
    x - 7 <= p.0 <= x + 7 && y - 4 <= p.1 <= y + 3 && z - 7 <= p.2 <= z + 7
}

/// A coordinate with room for a feature around it.
pub open spec fn feature_coord_ok(c: i32) -> bool {
    i32::MIN + 0x100 <= c <= i32::MAX - 0x100
}

/// A position a plant feature at `x`/`y`/`z` draws: 7 blocks around it on X and Z, 3
/// blocks on Y.
pub open spec fn plant_drawn(x: i32, y: i32, z: i32, p: (i32, i32, i32)) -> bool {
    x - 7 <= p.0 <= x + 7 && y - 3 <= p.1 <= y + 3 && z - 7 <= p.2 <= z + 7
}

/// The position a plant feature at `x`/`y`/`z` tries, drawn from the generator state
/// `s`, and the state after: X plus a draw below 8 less another, then Y plus a draw below
/// 4 less another, then Z as X.
pub open spec fn plant_draw(s: i64, x: i32, y: i32, z: i32) -> ((i32, i32, i32), i64) {
    let (a, s1) = int_draw(s, 8);
    let (b, s2) = int_draw(s1, 8);
    let (c, s3) = int_draw(s2, 4);
    let (d, s4) = int_draw(s3, 4);
    let (e, s5) = int_draw(s4, 8);
    let (f, s6) = int_draw(s5, 8);
    (((x + a - b) as i32, (y + c - d) as i32, (z + e - f) as i32), s6)
}

/// The first `n` positions a plant feature at `x`/`y`/`z` tries from the generator state
/// `s`, in order, and the state after them.
pub open spec fn plant_draws(s: i64, x: i32, y: i32, z: i32, n: nat) -> (Seq<(i32, i32, i32)>, i64)
    decreases n,
{
    if n == 0 {
        (Seq::empty(), s)
    } else {
        let (prev, sp) = plant_draws(s, x, y, z, (n - 1) as nat);
        let (p, s2) = plant_draw(sp, x, y, z);
        (prev.push(p), s2)
    }
}

/// One try of a plant feature at the drawn position `p`: an air block between the
/// heights 1 and 255, above a ground the plant grows on, gets the plant.
pub open spec fn plant_try(blocks: Map<(i32, i32, i32), FeatureBlock>, block: FeatureBlock, ground: PlantGround,
    p: (i32, i32, i32)) -> Map<(i32, i32, i32), FeatureBlock> {
    let below = (p.0, (p.1 - 1) as i32, p.2);
    if 0 < p.1 < 256 && blocks.contains_key(p) && blocks[p] == FeatureBlock::Air && blocks.contains_key(below)
        && can_plant_spec(ground, blocks[below]) {
        blocks.insert(p, block)
    } else {
        blocks
    }
}

/// The tries of a plant feature at the drawn positions `tries`, in order.
pub open spec fn plant_tries(blocks: Map<(i32, i32, i32), FeatureBlock>, block: FeatureBlock, ground: PlantGround,
    tries: Seq<(i32, i32, i32)>) -> Map<(i32, i32, i32), FeatureBlock>
    decreases tries.len(),
{
    if tries.len() == 0 {
        blocks
    } else {
        plant_try(plant_tries(blocks, block, ground, tries.drop_last()), block, ground, tries.last())
    }
}

/// A feature that tries a number of times to plant a block around a position.
pub struct PlantFeature {
    pub block: FeatureBlock,
    pub try_count: u32,
    pub ground: PlantGround,
}

impl PlantFeature {

    pub fn new(block: FeatureBlock, try_count: u32, ground: PlantGround) -> (r: Self)
        ensures
            r.block == block,
            r.try_count == try_count,
            r.ground == ground,
    {
        PlantFeature { block, try_count, ground }
    }

    pub fn new_flower(kind: PlantKind) -> (r: Self)
        ensures
            r.block == FeatureBlock::Plant(kind),
            r.try_count == 64,
            r.ground == PlantGround::Living,
    {
        Self::new(FeatureBlock::Plant(kind), 64, PlantGround::Living)
    }

    pub fn new_grass(kind: PlantKind) -> (r: Self)
        ensures
            r.block == FeatureBlock::Plant(kind),
            r.try_count == 128,
            r.ground == PlantGround::Living,
    {
        Self::new(FeatureBlock::Plant(kind), 128, PlantGround::Living)
    }

    pub fn new_dead_bush() -> (r: Self)
        ensures
            r.block == FeatureBlock::Plant(PlantKind::DeadBush),
            r.try_count == 4,
            r.ground == PlantGround::Dead,
    {
        Self::new(FeatureBlock::Plant(PlantKind::DeadBush), 4, PlantGround::Dead)
    }

    pub fn new_lily_pad() -> (r: Self)
        ensures
            r.block == FeatureBlock::Plant(PlantKind::LilyPad),
            r.try_count == 10,
            r.ground == PlantGround::LilyPad,
    {
        Self::new(FeatureBlock::Plant(PlantKind::LilyPad), 10, PlantGround::LilyPad)
    }

    /// Tries `try_count` times a position drawn around `x`/`y`/`z`: an air block above a
    /// ground the plant grows on, between the heights 1 and 255, gets the plant. Only
    /// air blocks of the reach are changed, into the plant.
    pub fn generate<L: LevelView>(&self, level: &mut L, rand: &mut JavaRandom, x: i32, y: i32, z: i32) -> (r: bool)
        requires
            old(level).wf(),
            feature_coord_ok(x),
            feature_coord_ok(y),
            feature_coord_ok(z),
            forall|p: (i32, i32, i32)| plant_reach(x, y, z, p) && 0 <= p.1 < 256 ==> #[trigger] old(level).blocks().contains_key(p),
        ensures
            r,
            final(level).wf(),
            final(level).blocks().dom() == old(level).blocks().dom(),
            forall|p: (i32, i32, i32)| #[trigger] final(level).blocks().contains_key(p) ==> final(level).blocks()[p] == old(level).blocks()[p]
                || (plant_reach(x, y, z, p) && old(level).blocks()[p] == FeatureBlock::Air && final(level).blocks()[p] == self.block),
            ({
                let (tries, s) = plant_draws(old(rand)@, x, y, z, self.try_count as nat);
                &&& forall|k: int| 0 <= k < tries.len() ==> plant_drawn(x, y, z, #[trigger] tries[k])
                &&& final(level).blocks() == plant_tries(old(level).blocks(), self.block, self.ground, tries)
                &&& final(rand)@ == s
            }),
    {
        let ghost start = level.blocks();
        let ghost s0 = rand@;
        let ghost mut tries: Seq<(i32, i32, i32)> = Seq::empty();
        let mut i: u32 = 0;
        while i < self.try_count
            invariant
                (tries, rand@) == plant_draws(s0, x, y, z, i as nat),
                feature_coord_ok(x),
                feature_coord_ok(y),
                feature_coord_ok(z),
                tries.len() == i,
                i <= self.try_count,
                forall|k: int| 0 <= k < tries.len() ==> plant_drawn(x, y, z, #[trigger] tries[k]),
                level.blocks() == plant_tries(start, self.block, self.ground, tries),
                level.wf(),
                level.blocks().dom() == start.dom(),
                forall|p: (i32, i32, i32)| plant_reach(x, y, z, p) && 0 <= p.1 < 256 ==> #[trigger] start.contains_key(p),
                forall|p: (i32, i32, i32)| #[trigger] level.blocks().contains_key(p) ==> level.blocks()[p] == start[p]
                    || (plant_reach(x, y, z, p) && start[p] == FeatureBlock::Air && level.blocks()[p] == self.block),
            decreases self.try_count - i,
        {
            let ghost sp = rand@;
            let bx = (x + next_int_bounded(rand, 8)) - next_int_bounded(rand, 8);
            let by = (y + next_int_bounded(rand, 4)) - next_int_bounded(rand, 4);
            let bz = (z + next_int_bounded(rand, 8)) - next_int_bounded(rand, 8);
            assert(plant_draw(sp, x, y, z) == ((bx, by, bz), rand@));
            let ghost prev_tries = tries;
            proof {
                tries = tries.push((bx, by, bz));
                assert(tries.drop_last() =~= prev_tries);
                assert(tries.last() == (bx, by, bz));
            }
            if by > 0 && by < 256 {
                assert(start.contains_key((bx, by, bz)));
                assert(start.contains_key((bx, (by - 1) as i32, bz)));
                let current = level.get_block_at(bx, by, bz).unwrap();
                if current == FeatureBlock::Air {
                    let ground = level.get_block_at(bx, by - 1, bz).unwrap();
                    if can_plant(self.ground, ground) {
                        let ghost before = level.blocks();
                        let _ = level.set_block_at(bx, by, bz, self.block);
                        proof {
                            assert(level.blocks().dom() =~= before.dom());
                            if before[(bx, by, bz)] != start[(bx, by, bz)] {
                                assert(start[(bx, by, bz)] == FeatureBlock::Air);
                            }
                        }
                    }
                }
            }
            i = i + 1;
        }
        assert(level.blocks() == plant_tries(start, self.block, self.ground, tries) && tries.len() == self.try_count);
        assert((tries, rand@) == plant_draws(s0, x, y, z, self.try_count as nat));
        true
    }

}

/// The positions a sugar cane feature at `x`/`y`/`z` may read: 4 blocks around it on X
/// and Z, from 1 block below to 3 above.
pub open spec fn cane_reach(x: i32, y: i32, z: i32, p: (i32, i32, i32)) -> bool {
    x - 4 <= p.0 <= x + 4 && y - 1 <= p.1 <= y + 3 && z - 4 <= p.2 <= z + 4
}

/// The view holds `p`, and it is the block `b`.
pub open spec fn block_is(blocks: Map<(i32, i32, i32), FeatureBlock>, p: (i32, i32, i32), b: FeatureBlock) -> bool {
    blocks.contains_key(p) && blocks[p] == b
}

/// The block at `bx`/`y`/`bz` is air, beside water one block lower: there a try draws
/// the cane's height.
pub open spec fn cane_beside_water(blocks: Map<(i32, i32, i32), FeatureBlock>, bx: i32, y: i32, bz: i32) -> bool {
    &&& block_is(blocks, (bx, y, bz), FeatureBlock::Air)
    &&& (block_is(blocks, ((bx - 1) as i32, (y - 1) as i32, bz), FeatureBlock::Water)
        || block_is(blocks, ((bx + 1) as i32, (y - 1) as i32, bz), FeatureBlock::Water)
        || block_is(blocks, (bx, (y - 1) as i32, (bz - 1) as i32), FeatureBlock::Water)
        || block_is(blocks, (bx, (y - 1) as i32, (bz + 1) as i32), FeatureBlock::Water))
}

/// A cane grows at `bx`/`y`/`bz`: the block is air, beside water one block lower, above
/// grass, dirt or sand.
pub open spec fn cane_site(blocks: Map<(i32, i32, i32), FeatureBlock>, bx: i32, y: i32, bz: i32) -> bool {
    let below = (bx, (y - 1) as i32, bz);
    &&& cane_beside_water(blocks, bx, y, bz)
    &&& (block_is(blocks, below, FeatureBlock::GrassBlock) || block_is(blocks, below, FeatureBlock::Dirt)
        || block_is(blocks, below, FeatureBlock::Sand))
}

/// The blocks and the generator state after the first `n` tries of a sugar cane feature
/// at `x`/`y`/`z`, from `blocks` and the state `s`: each try draws a column, X plus a draw
/// below 4 less another then Z the same way; where its block at `y` is air beside water,
/// it draws a bound of 1 plus a draw below 3, then the cane's height, 2 plus a draw below
/// that bound, and the cane grows there when the ground suits it.
pub open spec fn cane_run(blocks: Map<(i32, i32, i32), FeatureBlock>, s: i64, x: i32, y: i32, z: i32, n: nat)
    -> (Map<(i32, i32, i32), FeatureBlock>, i64)
    decreases n,
{
    if n == 0 {
        (blocks, s)
    } else {
        let (b, sp) = cane_run(blocks, s, x, y, z, (n - 1) as nat);
        let (a, s1) = int_draw(sp, 4);
        let (c, s2) = int_draw(s1, 4);
        let (d, s3) = int_draw(s2, 4);
        let (e, s4) = int_draw(s3, 4);
        let bx = (x + a - c) as i32;
        let bz = (z + d - e) as i32;
        if cane_beside_water(b, bx, y, bz) {
            let (h, s5) = int_draw(s4, 3);
            let (g, s6) = int_draw(s5, (h + 1) as i32);
            (cane_try(b, y, (bx, bz, (g + 2) as i32)), s6)
        } else {
            (b, s4)
        }
    }
}

/// The blocks with the `h` blocks of the column `bx`/`bz` from `y` up set to sugar cane,
/// where the view holds them.
pub open spec fn cane_column(blocks: Map<(i32, i32, i32), FeatureBlock>, bx: i32, y: i32, bz: i32, h: int)
    -> Map<(i32, i32, i32), FeatureBlock> {
    Map::new(
        |p: (i32, i32, i32)| blocks.contains_key(p),
        |p: (i32, i32, i32)| if p.0 == bx && p.2 == bz && y <= p.1 < y + h { FeatureBlock::SugarCane } else { blocks[p] },
    )
}

/// One try of a sugar cane feature at the height `y`, on the drawn column and height `t`.
pub open spec fn cane_try(blocks: Map<(i32, i32, i32), FeatureBlock>, y: i32, t: (i32, i32, i32)) -> Map<(i32, i32, i32), FeatureBlock> {
    if cane_site(blocks, t.0, y, t.1) { cane_column(blocks, t.0, y, t.1, t.2 as int) } else { blocks }
}

/// A feature that grows sugar cane beside water.
pub struct SugarCaneFeature;

impl SugarCaneFeature {

    /// Tries 20 times a column drawn around `x`/`z`: where the block at `y` is air, beside
    /// water one block lower and above grass, dirt or sand, a cane of 2 to 4 blocks grows.
    /// Only sugar cane is set, inside the reach; blocks the view does not hold match
    /// nothing and are not set.
    pub fn generate<L: LevelView>(&self, level: &mut L, rand: &mut JavaRandom, x: i32, y: i32, z: i32) -> (r: bool)
        requires
            old(level).wf(),
            feature_coord_ok(x),
            feature_coord_ok(y),
            feature_coord_ok(z),
        ensures
            r,
            final(level).wf(),
            final(level).blocks().dom() == old(level).blocks().dom(),
            forall|p: (i32, i32, i32)| #[trigger] final(level).blocks().contains_key(p) ==> final(level).blocks()[p] == old(level).blocks()[p]
                || (cane_reach(x, y, z, p) && final(level).blocks()[p] == FeatureBlock::SugarCane),
            (final(level).blocks(), final(rand)@) == cane_run(old(level).blocks(), old(rand)@, x, y, z, 20),
    {
        let ghost start = level.blocks();
        let ghost s0 = rand@;
        let mut i: u32 = 0;
        while i < 20
            invariant
                (level.blocks(), rand@) == cane_run(start, s0, x, y, z, i as nat),
                feature_coord_ok(x),
                feature_coord_ok(y),
                feature_coord_ok(z),
                i <= 20,
                level.wf(),
                level.blocks().dom() == start.dom(),
                forall|p: (i32, i32, i32)| #[trigger] level.blocks().contains_key(p) ==> level.blocks()[p] == start[p]
                    || (cane_reach(x, y, z, p) && level.blocks()[p] == FeatureBlock::SugarCane),
            decreases 20 - i,
        {
            let ghost before = level.blocks();
            let ghost sp = rand@;
            let bx = (x + next_int_bounded(rand, 4)) - next_int_bounded(rand, 4);
            let bz = (z + next_int_bounded(rand, 4)) - next_int_bounded(rand, 4);
            let ghost s4 = rand@;
            let ghost mut drawn: (i32, i32, i32) = (bx, bz, 2i32);
            if level.get_block_at(bx, y, bz) == Some(FeatureBlock::Air) && (
                level.get_block_at(bx - 1, y - 1, bz) == Some(FeatureBlock::Water)
                || level.get_block_at(bx + 1, y - 1, bz) == Some(FeatureBlock::Water)
                || level.get_block_at(bx, y - 1, bz - 1) == Some(FeatureBlock::Water)
                || level.get_block_at(bx, y - 1, bz + 1) == Some(FeatureBlock::Water)
            ) {
                let h = next_int_bounded(rand, 3);
                let height = next_int_bounded(rand, h + 1) + 2;
                proof {
                    drawn = (bx, bz, height);
                }
                let ground = level.get_block_at(bx, y - 1, bz);
                if ground == Some(FeatureBlock::GrassBlock) || ground == Some(FeatureBlock::Dirt) || ground == Some(FeatureBlock::Sand) {
                    assert(cane_site(before, bx, y, bz));
                    let mut by = y;
                    while by < y + height
                        invariant
                            y <= by <= y + height,
                            2 <= height <= 4,
                            -4 <= bx - x <= 4,
                            -4 <= bz - z <= 4,
                            feature_coord_ok(x),
                            feature_coord_ok(y),
                            feature_coord_ok(z),
                            level.wf(),
                            level.blocks().dom() == start.dom(),
                            before.dom() == start.dom(),
                            level.blocks() == cane_column(before, bx, y, bz, by - y),
                            forall|p: (i32, i32, i32)| #[trigger] before.contains_key(p) ==> before[p] == start[p]
                                || (cane_reach(x, y, z, p) && before[p] == FeatureBlock::SugarCane),
                            forall|p: (i32, i32, i32)| #[trigger] level.blocks().contains_key(p) ==> level.blocks()[p] == start[p]
                                || (cane_reach(x, y, z, p) && level.blocks()[p] == FeatureBlock::SugarCane),
                        decreases y + height - by,
                    {
                        let ghost cur = level.blocks();
                        let _ = level.set_block_at(bx, by, bz, FeatureBlock::SugarCane);
                        proof {
                            assert(level.blocks().dom() =~= cur.dom());
                            assert(level.blocks() =~= cane_column(before, bx, y, bz, by + 1 - y));
                        }
                        by = by + 1;
                    }
                } else {
                    assert(!cane_site(before, bx, y, bz));
                }
            } else {
                assert(!cane_site(before, bx, y, bz));
            }
            proof {
                if !cane_site(before, bx, y, bz) {
                    assert(level.blocks() == before);
                }
                assert(level.blocks() == cane_try(before, y, drawn));
                assert((level.blocks(), rand@) == cane_run(start, s0, x, y, z, (i + 1) as nat));
            }
            i = i + 1;
        }
        true
    }

}

/// The view holds the columns 7 blocks around `x`/`z`, from 0 to 255.
pub open spec fn holds_plant_window(shape: LevelShape, x: i32, z: i32) -> bool {
    forall|p: (i32, i32, i32)| x - 7 <= p.0 <= x + 7 && z - 7 <= p.2 <= z + 7 && 0 <= p.1 < 256 ==> #[trigger] shape.contains(p)
}

impl Feature for PlantFeature {

    open spec fn fits_in(&self, shape: LevelShape, x: i32, y: i32, z: i32) -> bool {
        feature_coord_ok(x) && feature_coord_ok(z) && holds_plant_window(shape, x, z)
    }

    fn fits_over<L: LevelView>(&self, level: &L, lo: (i32, i32, i32), hi: (i32, i32, i32)) -> (r: bool)
        ensures
            lo == hi ==> r == self.fits_in(level_shape(level), lo.0, lo.1, lo.2),
    {
        i32::MIN + 0x100 <= lo.0 && hi.0 <= i32::MAX - 0x100 && i32::MIN + 0x100 <= lo.2 && hi.2 <= i32::MAX - 0x100
            && holds_columns_around(level, lo, hi, 7)
    }

    /// False, changing nothing, within 0x100 blocks of the ends of `i32`; else true, and the
    /// tries at the positions drawn from `seed`.
    open spec fn outcome(&self, seed: i64, before: Map<(i32, i32, i32), FeatureBlock>, heights: Heights, tops: TopSubChunks,
        after: Map<(i32, i32, i32), FeatureBlock>, x: i32, y: i32, z: i32, r: bool, seed_after: i64) -> bool {
        &&& r == feature_coord_ok(y)
        &&& !r ==> after == before && seed_after == seed
        &&& r ==> after == plant_tries(before, self.block, self.ground, plant_draws(seed, x, y, z, self.try_count as nat).0)
            && seed_after == plant_draws(seed, x, y, z, self.try_count as nat).1
    }

    /// The plants, refused before any draw within 0x100 blocks of the ends of `i32`.
    fn generate<L: LevelView>(&self, level: &mut L, rand: &mut JavaRandom, x: i32, y: i32, z: i32) -> (r: bool) {
        if !(i32::MIN + 0x100 <= y && y <= i32::MAX - 0x100) {
            return false;
        }
        assert forall|p: (i32, i32, i32)| plant_reach(x, y, z, p) && 0 <= p.1 < 256 implies #[trigger] old(level).blocks().contains_key(p) by {
            assert(old(level).blocks().dom().contains(p));
        }
        PlantFeature::generate(self, level, rand, x, y, z)
    }

}

impl Feature for SugarCaneFeature {

    open spec fn fits_in(&self, shape: LevelShape, x: i32, y: i32, z: i32) -> bool {
        feature_coord_ok(x) && feature_coord_ok(z)
    }

    fn fits_over<L: LevelView>(&self, level: &L, lo: (i32, i32, i32), hi: (i32, i32, i32)) -> (r: bool)
        ensures
            lo == hi ==> r == self.fits_in(level_shape(level), lo.0, lo.1, lo.2),
    {
        i32::MIN + 0x100 <= lo.0 && hi.0 <= i32::MAX - 0x100 && i32::MIN + 0x100 <= lo.2 && hi.2 <= i32::MAX - 0x100
    }

    /// False, changing nothing, within 0x100 blocks of the ends of `i32`; else true, and the
    /// tries on the columns drawn from `seed`.
    open spec fn outcome(&self, seed: i64, before: Map<(i32, i32, i32), FeatureBlock>, heights: Heights, tops: TopSubChunks,
        after: Map<(i32, i32, i32), FeatureBlock>, x: i32, y: i32, z: i32, r: bool, seed_after: i64) -> bool {
        &&& r == feature_coord_ok(y)
        &&& !r ==> after == before && seed_after == seed
        &&& r ==> (after, seed_after) == cane_run(before, seed, x, y, z, 20)
    }

    /// The canes, refused before any draw within 0x100 blocks of the ends of `i32`.
    fn generate<L: LevelView>(&self, level: &mut L, rand: &mut JavaRandom, x: i32, y: i32, z: i32) -> (r: bool) {
        if !(i32::MIN + 0x100 <= y && y <= i32::MAX - 0x100) {
            return false;
        }
        SugarCaneFeature::generate(self, level, rand, x, y, z)
    }

}


/// A plant grows only on its ground: after the tries of a plant feature, each block that
/// changed was air between the heights 1 and 255 and holds the plant, and the block below
/// it, which the view holds, is grass, dirt or farmland for a living plant, sand for a
/// dead bush, water for a lily pad.
pub proof fn plants_grow_only_on_their_ground(blocks: Map<(i32, i32, i32), FeatureBlock>, block: FeatureBlock,
    ground: PlantGround, tries: Seq<(i32, i32, i32)>)
    ensures
        plant_tries(blocks, block, ground, tries).dom() == blocks.dom(),
        forall|p: (i32, i32, i32)| #[trigger] blocks.contains_key(p) && plant_tries(blocks, block, ground, tries)[p] != blocks[p]
            ==> blocks[p] == FeatureBlock::Air && plant_tries(blocks, block, ground, tries)[p] == block && 0 < p.1 < 256
                && plant_tries(blocks, block, ground, tries).contains_key((p.0, (p.1 - 1) as i32, p.2))
                && ((ground == PlantGround::Living ==> plant_tries(blocks, block, ground, tries)[(p.0, (p.1 - 1) as i32, p.2)] == FeatureBlock::GrassBlock || plant_tries(blocks, block, ground, tries)[(p.0, (p.1 - 1) as i32, p.2)] == FeatureBlock::Dirt || plant_tries(blocks, block, ground, tries)[(p.0, (p.1 - 1) as i32, p.2)] == FeatureBlock::Farmland)
                && (ground == PlantGround::Dead ==> plant_tries(blocks, block, ground, tries)[(p.0, (p.1 - 1) as i32, p.2)] == FeatureBlock::Sand) && (ground == PlantGround::LilyPad ==> plant_tries(blocks, block, ground, tries)[(p.0, (p.1 - 1) as i32, p.2)] == FeatureBlock::Water)),
    decreases tries.len(),
{
    if tries.len() > 0 {
        let prev = tries.drop_last();
        plants_grow_only_on_their_ground(blocks, block, ground, prev);
        let r = plant_tries(blocks, block, ground, prev);
        let t = tries.last();
        let r2 = plant_try(r, block, ground, t);
        assert(r2 == plant_tries(blocks, block, ground, tries));
        let bt = (t.0, (t.1 - 1) as i32, t.2);
        let planted = 0 < t.1 < 256 && r.contains_key(t) && r[t] == FeatureBlock::Air && r.contains_key(bt)
            && can_plant_spec(ground, r[bt]);
        if planted {
            assert(r2.dom() =~= r.dom());
        }
        assert forall|p: (i32, i32, i32)| #[trigger] blocks.contains_key(p) && r2[p] != blocks[p]
            implies blocks[p] == FeatureBlock::Air && r2[p] == block && 0 < p.1 < 256
                && r2.contains_key((p.0, (p.1 - 1) as i32, p.2)) && ((ground == PlantGround::Living ==> r2[(p.0, (p.1 - 1) as i32, p.2)] == FeatureBlock::GrassBlock || r2[(p.0, (p.1 - 1) as i32, p.2)] == FeatureBlock::Dirt || r2[(p.0, (p.1 - 1) as i32, p.2)] == FeatureBlock::Farmland)
                && (ground == PlantGround::Dead ==> r2[(p.0, (p.1 - 1) as i32, p.2)] == FeatureBlock::Sand) && (ground == PlantGround::LilyPad ==> r2[(p.0, (p.1 - 1) as i32, p.2)] == FeatureBlock::Water)) by {
            let bp = (p.0, (p.1 - 1) as i32, p.2);
            if planted && p == t {
                assert(bp != t);
            } else {
                assert(r2[p] == r[p]);
                if planted {
                    assert(r[bp] != FeatureBlock::Air);
                    assert(bp != t);
                }
            }
        }
    }
}

/// A plant feature changes a block only where it was air, to the plant, above grass,
/// dirt or farmland for a living plant, sand for a dead bush, water for a lily pad: a
/// living plant over sand, for one, is never planted.
pub proof fn plant_feature_grows_only_on_its_ground(f: PlantFeature, seed: i64, before: Map<(i32, i32, i32), FeatureBlock>,
    heights: Heights, tops: TopSubChunks, after: Map<(i32, i32, i32), FeatureBlock>, x: i32, y: i32, z: i32, r: bool,
    seed_after: i64, p: (i32, i32, i32))
    requires
        f.outcome(seed, before, heights, tops, after, x, y, z, r, seed_after),
        before.contains_key(p),
        after[p] != before[p],
    ensures
        before[p] == FeatureBlock::Air,
        after[p] == f.block,
        after.contains_key((p.0, (p.1 - 1) as i32, p.2)),
        ((f.ground == PlantGround::Living ==> after[(p.0, (p.1 - 1) as i32, p.2)] == FeatureBlock::GrassBlock || after[(p.0, (p.1 - 1) as i32, p.2)] == FeatureBlock::Dirt || after[(p.0, (p.1 - 1) as i32, p.2)] == FeatureBlock::Farmland)
                && (f.ground == PlantGround::Dead ==> after[(p.0, (p.1 - 1) as i32, p.2)] == FeatureBlock::Sand) && (f.ground == PlantGround::LilyPad ==> after[(p.0, (p.1 - 1) as i32, p.2)] == FeatureBlock::Water)),
{
    plants_grow_only_on_their_ground(before, f.block, f.ground, plant_draws(seed, x, y, z, f.try_count as nat).0);
}


/// A try plants at an air block between the heights 1 and 255 whose block below is grass,
/// dirt or farmland for a living plant, sand for a dead bush, water for a lily pad, and
/// changes nothing else.
pub proof fn plant_try_plants_on_its_ground(blocks: Map<(i32, i32, i32), FeatureBlock>, block: FeatureBlock,
    ground: PlantGround, t: (i32, i32, i32))
    requires
        0 < t.1 < 256,
        blocks.contains_key(t),
        blocks[t] == FeatureBlock::Air,
        blocks.contains_key((t.0, (t.1 - 1) as i32, t.2)),
        ({
            let g = blocks[(t.0, (t.1 - 1) as i32, t.2)];
            ||| ground == PlantGround::Living && (g == FeatureBlock::GrassBlock || g == FeatureBlock::Dirt || g == FeatureBlock::Farmland)
            ||| ground == PlantGround::Dead && g == FeatureBlock::Sand
            ||| ground == PlantGround::LilyPad && g == FeatureBlock::Water
        }),
    ensures
        plant_try(blocks, block, ground, t) == blocks.insert(t, block),
{
}

} // verus!
