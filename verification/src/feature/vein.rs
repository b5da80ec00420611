//! Disks of sand, gravel or clay under water.

use vstd::prelude::*;

use crate::feature::{Heights, TopSubChunks};

use crate::java::JavaRandom;

use crate::java::{next_int_bounded, int_draw};
use crate::view::{LevelView, LevelShape, level_shape, FeatureBlock};
use super::Feature;

verus! {

/// A feature replacing the dirt (and grass) of a disk around a water block.
pub struct WaterCircleFeature {
    pub block: FeatureBlock,
    pub replace_grass: bool,
    pub depth: u16,
    pub radius: u16,
}

/// The block can be replaced by the disk.
pub open spec fn disk_replaces(replace_grass: bool, b: FeatureBlock) -> bool {
    b == FeatureBlock::Dirt || (replace_grass && b == FeatureBlock::GrassBlock)
}

/// A coordinate with room for a disk around it.
pub open spec fn disk_coord_ok(c: i32) -> bool {
    i32::MIN + 0x2_0000 <= c <= i32::MAX - 0x2_0000
}

/// `p` is in the disk of radius `rad` around `x`/`z`, `depth` blocks up and down from `y`.
pub open spec fn in_disk(x: i32, y: i32, z: i32, rad: int, depth: int, p: (i32, i32, i32)) -> bool {
    &&& x - rad <= p.0 <= x + rad
    &&& z - rad <= p.2 <= z + rad
    &&& (p.0 - x) * (p.0 - x) + (p.2 - z) * (p.2 - z) <= rad * rad
    &&& y - depth <= p.1 <= y + depth
}

/// The blocks with the replaceable blocks of the disk of radius `rad` turned into `block`.
pub open spec fn disk_written(before: Map<(i32, i32, i32), FeatureBlock>, x: i32, y: i32, z: i32, rad: int, depth: int,
    block: FeatureBlock, replace_grass: bool) -> Map<(i32, i32, i32), FeatureBlock> {
    Map::new(
        |p: (i32, i32, i32)| before.contains_key(p),
        |p: (i32, i32, i32)| if in_disk(x, y, z, rad, depth, p) && disk_replaces(replace_grass, before[p]) { block } else { before[p] },
    )
}

impl WaterCircleFeature {

    pub fn new(block: FeatureBlock, replace_grass: bool, depth: u16, radius: u16) -> (r: Self)
        ensures
            r.block == block,
            r.replace_grass == replace_grass,
            r.depth == depth,
            r.radius == radius,
    {
        WaterCircleFeature { block, replace_grass, depth, radius }
    }

    pub fn new_sand(radius: u16) -> (r: Self)
        ensures
            r.block == FeatureBlock::Sand && r.replace_grass && r.depth == 2 && r.radius == radius,
    {
        Self::new(FeatureBlock::Sand, true, 2, radius)
    }

    pub fn new_gravel(radius: u16) -> (r: Self)
        ensures
            r.block == FeatureBlock::Gravel && r.replace_grass && r.depth == 2 && r.radius == radius,
    {
        Self::new(FeatureBlock::Gravel, true, 2, radius)
    }

    pub fn new_clay(radius: u16) -> (r: Self)
        ensures
            r.block == FeatureBlock::Clay && !r.replace_grass && r.depth == 1 && r.radius == radius,
    {
        Self::new(FeatureBlock::Clay, false, 1, radius)
    }

    /// When the block at `x`/`y`/`z` is water, draws a radius in `[2; radius[` and
    /// replaces the replaceable blocks of the disk of that radius around it, `depth`
    /// blocks up and down. Returns whether the block was water.
    pub fn generate<L: LevelView>(&self, level: &mut L, rand: &mut JavaRandom, x: i32, y: i32, z: i32) -> (r: bool)
        requires
            old(level).wf(),
            2 < self.radius <= 32768,
            disk_coord_ok(x),
            disk_coord_ok(y),
            disk_coord_ok(z),
            old(level).blocks().contains_key((x, y, z)),
        ensures
            final(level).wf(),
            r == (old(level).blocks()[(x, y, z)] == FeatureBlock::Water),
            !r ==> final(level).blocks() == old(level).blocks(),
            r ==> final(level).blocks() == disk_written(old(level).blocks(), x, y, z,
                int_draw(old(rand)@, (self.radius - 2) as i32).0 + 2, self.depth as int, self.block, self.replace_grass),
            !r ==> final(rand)@ == old(rand)@,
            r ==> final(rand)@ == int_draw(old(rand)@, (self.radius - 2) as i32).1,
            final(level).blocks().dom() == old(level).blocks().dom(),
            forall|p: (i32, i32, i32)| #[trigger] final(level).blocks().contains_key(p) ==> final(level).blocks()[p] == old(level).blocks()[p]
                || (disk_replaces(self.replace_grass, old(level).blocks()[p]) && final(level).blocks()[p] == self.block
                    && x - self.radius < p.0 < x + self.radius && z - self.radius < p.2 < z + self.radius
                    && y - self.depth <= p.1 <= y + self.depth),
    {
        let ghost start = level.blocks();
        if level.get_block_at(x, y, z).unwrap() != FeatureBlock::Water {
            return false;
        }
        let radius = next_int_bounded(rand, self.radius as i32 - 2) + 2;
        let depth = self.depth as i32;
        assert(radius == int_draw(old(rand)@, (self.radius - 2) as i32).0 + 2);
        let mut bx = x - radius;
        while bx <= x + radius
            invariant
                x - radius <= bx <= x + radius + 1,
                2 <= radius < self.radius <= 32768,
                depth == self.depth,
                disk_coord_ok(x),
                disk_coord_ok(y),
                disk_coord_ok(z),
                level.wf(),
                level.blocks().dom() == start.dom(),
                forall|p: (i32, i32, i32)| #[trigger] level.blocks().contains_key(p) ==> level.blocks()[p] == start[p]
                    || (disk_replaces(self.replace_grass, start[p]) && level.blocks()[p] == self.block
                        && x - self.radius < p.0 < x + self.radius && z - self.radius < p.2 < z + self.radius
                        && y - self.depth <= p.1 <= y + self.depth),
                forall|p: (i32, i32, i32)| #[trigger] start.contains_key(p) ==> level.blocks()[p]
                    == (if p.0 < bx && in_disk(x, y, z, radius as int, depth as int, p) && disk_replaces(self.replace_grass, start[p])
                        { self.block } else { start[p] }),
            decreases x + radius + 1 - bx,
        {
            let mut bz = z - radius;
            while bz <= z + radius
                invariant
                    x - radius <= bx <= x + radius,
                    z - radius <= bz <= z + radius + 1,
                    2 <= radius < self.radius <= 32768,
                    depth == self.depth,
                    disk_coord_ok(x),
                    disk_coord_ok(y),
                    disk_coord_ok(z),
                    level.wf(),
                    level.blocks().dom() == start.dom(),
                    forall|p: (i32, i32, i32)| #[trigger] level.blocks().contains_key(p) ==> level.blocks()[p] == start[p]
                        || (disk_replaces(self.replace_grass, start[p]) && level.blocks()[p] == self.block
                            && x - self.radius < p.0 < x + self.radius && z - self.radius < p.2 < z + self.radius
                            && y - self.depth <= p.1 <= y + self.depth),
                    forall|p: (i32, i32, i32)| #[trigger] start.contains_key(p) ==> level.blocks()[p]
                        == (if (p.0 < bx || (p.0 == bx && p.2 < bz)) && in_disk(x, y, z, radius as int, depth as int, p)
                            && disk_replaces(self.replace_grass, start[p]) { self.block } else { start[p] }),
                decreases z + radius + 1 - bz,
            {
                let dx = bx - x;
                let dz = bz - z;
                assert(0 <= dx * dx <= 32767 * 32767 && 0 <= dz * dz <= 32767 * 32767 && 0 <= radius * radius <= 32767 * 32767) by (nonlinear_arith)
                    requires -32767 <= dx <= 32767, -32767 <= dz <= 32767, 0 <= radius <= 32767;
                if dx * dx + dz * dz <= radius * radius {
                    let mut by = y - depth;
                    while by <= y + depth
                        invariant
                            x - radius <= bx <= x + radius,
                            z - radius <= bz <= z + radius,
                            y - depth <= by <= y + depth + 1,
                            2 <= radius < self.radius <= 32768,
                            depth == self.depth,
                            disk_coord_ok(x),
                            disk_coord_ok(y),
                            disk_coord_ok(z),
                            level.wf(),
                            level.blocks().dom() == start.dom(),
                            forall|p: (i32, i32, i32)| #[trigger] level.blocks().contains_key(p) ==> level.blocks()[p] == start[p]
                                || (disk_replaces(self.replace_grass, start[p]) && level.blocks()[p] == self.block
                                    && x - self.radius < p.0 < x + self.radius && z - self.radius < p.2 < z + self.radius
                                    && y - self.depth <= p.1 <= y + self.depth),
                            dx == bx - x,
                            dz == bz - z,
                            dx * dx + dz * dz <= radius * radius,
                            forall|p: (i32, i32, i32)| #[trigger] start.contains_key(p) ==> level.blocks()[p]
                                == (if (p.0 < bx || (p.0 == bx && (p.2 < bz || (p.2 == bz && p.1 < by))))
                                    && in_disk(x, y, z, radius as int, depth as int, p)
                                    && disk_replaces(self.replace_grass, start[p]) { self.block } else { start[p] }),
                        decreases y + depth + 1 - by,
                    {
                        match level.get_block_at(bx, by, bz) {
                            Some(prev) => {
                                if prev == FeatureBlock::Dirt || (self.replace_grass && prev == FeatureBlock::GrassBlock) {
                                    let ghost before = level.blocks();
                                    proof {
                                        if before[(bx, by, bz)] != start[(bx, by, bz)] {
                                            assert(before[(bx, by, bz)] == self.block);
                                        }
                                    }
                                    let _ = level.set_block_at(bx, by, bz, self.block);
                                    proof {
                                        assert(level.blocks().dom() =~= before.dom());
                                    }
                                }
                            },
                            None => {},
                        }
                        by = by + 1;
                    }
                }
                bz = bz + 1;
            }
            bx = bx + 1;
        }
        true
    }

}

/// The vein feature: blobs of a block replacing stone along a drawn line.
pub struct VeinFeature {
    pub block: FeatureBlock,
    pub count: u16,
}

impl VeinFeature {

    pub fn new(block: FeatureBlock, count: u16) -> (r: Self)
        ensures
            r.block == block,
            r.count == count,
    {
        VeinFeature { block, count }
    }

}

/// Replaces with `block` the stone blocks at the given positions (an ore vein, whose
/// ellipsoids are drawn as floating point); positions outside the view are skipped.
pub fn vein_place<L: LevelView>(level: &mut L, cells: &Vec<(i32, i32, i32)>, block: FeatureBlock)
    requires
        old(level).wf(),
    ensures
        final(level).wf(),
        final(level).blocks() == Map::new(
            |p: (i32, i32, i32)| old(level).blocks().contains_key(p),
            |p: (i32, i32, i32)| if cells@.contains(p) && old(level).blocks()[p] == FeatureBlock::Stone { block } else { old(level).blocks()[p] },
        ),
{
    let ghost start = level.blocks();
    let mut i: usize = 0;
    while i < cells.len()
        invariant
            i <= cells@.len(),
            level.wf(),
            level.blocks() == Map::new(
                |p: (i32, i32, i32)| start.contains_key(p),
                |p: (i32, i32, i32)| if cells@.take(i as int).contains(p) && start[p] == FeatureBlock::Stone { block } else { start[p] },
            ),
        decreases cells@.len() - i,
    {
        let (bx, by, bz) = cells[i];
        let ghost before = level.blocks();
        match level.get_block_at(bx, by, bz) {
            Some(b) => {
                if b == FeatureBlock::Stone {
                    let _ = level.set_block_at(bx, by, bz, block);
                }
            },
            None => {},
        }
        proof {
            let next = Map::new(
                |p: (i32, i32, i32)| start.contains_key(p),
                |p: (i32, i32, i32)| if cells@.take(i + 1).contains(p) && start[p] == FeatureBlock::Stone { block } else { start[p] },
            );
            assert forall|p: (i32, i32, i32)| #[trigger] cells@.take(i + 1).contains(p) <==> (cells@.take(i as int).contains(p) || p == cells@[i as int]) by {
                if cells@.take(i + 1).contains(p) {
                    let k = choose|k: int| 0 <= k < i + 1 && #[trigger] cells@.take(i + 1)[k] == p;
                    if k < i {
                        assert(cells@.take(i as int)[k] == p);
                    }
                }
                if cells@.take(i as int).contains(p) {
                    let k = choose|k: int| 0 <= k < i && #[trigger] cells@.take(i as int)[k] == p;
                    assert(cells@.take(i + 1)[k] == p);
                }
                if p == cells@[i as int] {
                    assert(cells@.take(i + 1)[i as int] == p);
                }
            }
            assert(level.blocks() =~= next);
        }
        i = i + 1;
    }
    proof {
        assert(cells@.take(cells@.len() as int) =~= cells@);
    }
}

impl Feature for WaterCircleFeature {

    open spec fn fits_in(&self, shape: LevelShape, x: i32, y: i32, z: i32) -> bool {
        2 < self.radius <= 32768 && disk_coord_ok(x) && disk_coord_ok(z)
    }

    fn fits_over<L: LevelView>(&self, level: &L, lo: (i32, i32, i32), hi: (i32, i32, i32)) -> (r: bool)
        ensures
            lo == hi ==> r == self.fits_in(level_shape(level), lo.0, lo.1, lo.2),
    {
        2 < self.radius && self.radius <= 32768 && i32::MIN + 0x2_0000 <= lo.0 && hi.0 <= i32::MAX - 0x2_0000
            && i32::MIN + 0x2_0000 <= lo.2 && hi.2 <= i32::MAX - 0x2_0000
    }

    /// True when the block at `x`/`y`/`z` is water, with room for the disk's depth around `y`;
    /// else nothing changes. When true, the replaceable blocks of the disk of the radius
    /// drawn from `seed` become the block.
    open spec fn outcome(&self, seed: i64, before: Map<(i32, i32, i32), FeatureBlock>, heights: Heights, tops: TopSubChunks,
        after: Map<(i32, i32, i32), FeatureBlock>, x: i32, y: i32, z: i32, r: bool, seed_after: i64) -> bool {
        &&& r == (disk_coord_ok(y) && before.contains_key((x, y, z)) && before[(x, y, z)] == FeatureBlock::Water)
        &&& !r ==> after == before && seed_after == seed
        &&& r ==> after == disk_written(before, x, y, z, int_draw(seed, (self.radius - 2) as i32).0 + 2, self.depth as int,
            self.block, self.replace_grass) && seed_after == int_draw(seed, (self.radius - 2) as i32).1
        &&& forall|p: (i32, i32, i32)| #[trigger] after.contains_key(p) ==> after[p] == before[p]
            || (disk_replaces(self.replace_grass, before[p]) && after[p] == self.block
                && x - self.radius < p.0 < x + self.radius && z - self.radius < p.2 < z + self.radius
                && y - self.depth <= p.1 <= y + self.depth)
    }

    /// The disk, refused where `y` leaves no room for its depth and where the view holds no
    /// block at `x`/`y`/`z`.
    fn generate<L: LevelView>(&self, level: &mut L, rand: &mut JavaRandom, x: i32, y: i32, z: i32) -> (r: bool) {
        if !(i32::MIN + 0x2_0000 <= y && y <= i32::MAX - 0x2_0000) || level.get_block_at(x, y, z).is_none() {
            return false;
        }
        WaterCircleFeature::generate(self, level, rand, x, y, z)
    }

}


/// A water disk turns each block of its disk that is dirt, or grass when it replaces
/// grass, into its block, and leaves every other block as it was.
pub proof fn disk_turns_dirt_and_grass(before: Map<(i32, i32, i32), FeatureBlock>, x: i32, y: i32, z: i32, rad: int,
    depth: int, block: FeatureBlock, replace_grass: bool, p: (i32, i32, i32))
    requires
        before.contains_key(p),
    ensures
        disk_written(before, x, y, z, rad, depth, block, replace_grass).dom() == before.dom(),
        in_disk(x, y, z, rad, depth, p) && before[p] == FeatureBlock::Dirt
            ==> disk_written(before, x, y, z, rad, depth, block, replace_grass)[p] == block,
        in_disk(x, y, z, rad, depth, p) && replace_grass && before[p] == FeatureBlock::GrassBlock
            ==> disk_written(before, x, y, z, rad, depth, block, replace_grass)[p] == block,
        !in_disk(x, y, z, rad, depth, p) || (before[p] != FeatureBlock::Dirt && !(replace_grass && before[p] == FeatureBlock::GrassBlock))
            ==> disk_written(before, x, y, z, rad, depth, block, replace_grass)[p] == before[p],
{
    assert(disk_written(before, x, y, z, rad, depth, block, replace_grass).dom() =~= before.dom());
}

/// A water disk that was generated turns the dirt of its disk, of the radius it drew,
/// into its block, and the grass too when it replaces grass.
pub proof fn water_disk_replaces_dirt_and_grass(f: WaterCircleFeature, seed: i64, before: Map<(i32, i32, i32), FeatureBlock>,
    heights: Heights, tops: TopSubChunks, after: Map<(i32, i32, i32), FeatureBlock>, x: i32, y: i32, z: i32,
    seed_after: i64, p: (i32, i32, i32))
    requires
        f.outcome(seed, before, heights, tops, after, x, y, z, true, seed_after),
        before.contains_key(p),
        in_disk(x, y, z, int_draw(seed, (f.radius - 2) as i32).0 + 2, f.depth as int, p),
    ensures
        before[p] == FeatureBlock::Dirt ==> after[p] == f.block,
        f.replace_grass && before[p] == FeatureBlock::GrassBlock ==> after[p] == f.block,
{
    disk_turns_dirt_and_grass(before, x, y, z, int_draw(seed, (f.radius - 2) as i32).0 + 2, f.depth as int, f.block,
        f.replace_grass, p);
}

} // verus!
