//! Features that mark a level, to look at where features are generated.

use vstd::prelude::*;

use crate::feature::{Heights, TopSubChunks};

use crate::java::JavaRandom;

use crate::view::{LevelView, LevelShape, level_shape, FeatureBlock, HeightmapKind, holds_box};
use super::Feature;
use super::distrib::in_chunk_reach;

verus! {

/// `p` is on the border of the 16 by 16 columns starting at `x`/`z`.
pub open spec fn on_chunk_border(x: i32, z: i32, p: (i32, i32, i32)) -> bool {
    &&& x <= p.0 < x + 16
    &&& z <= p.2 < z + 16
    &&& (p.0 == x || p.0 == x + 15 || p.2 == z || p.2 == z + 15)
}

/// `p` is at the world surface of its column, by the heights `heights`.
pub open spec fn at_surface(heights: Map<(HeightmapKind, i32, i32), i32>, p: (i32, i32, i32)) -> bool {
    heights.contains_key((HeightmapKind::WorldSurface, p.0, p.2)) && heights[(HeightmapKind::WorldSurface, p.0, p.2)] == p.1
}

/// The blocks with a gold block at the world surface of the column `x`/`z`, where the
/// heights give one and the blocks hold that position.
pub open spec fn surface_marked(
    blocks: Map<(i32, i32, i32), FeatureBlock>,
    heights: Map<(HeightmapKind, i32, i32), i32>,
    x: i32,
    z: i32,
) -> Map<(i32, i32, i32), FeatureBlock> {
    if heights.contains_key((HeightmapKind::WorldSurface, x, z))
        && blocks.contains_key((x, heights[(HeightmapKind::WorldSurface, x, z)], z)) {
        blocks.insert((x, heights[(HeightmapKind::WorldSurface, x, z)], z), FeatureBlock::GoldBlock)
    } else {
        blocks
    }
}

/// `after` is `before` with gold blocks at the surface of the border columns of the 16 by
/// 16 columns starting at `x`/`z`, by the heights `heights`.
pub open spec fn border_marked(
    before: Map<(i32, i32, i32), FeatureBlock>,
    after: Map<(i32, i32, i32), FeatureBlock>,
    heights: Map<(HeightmapKind, i32, i32), i32>,
    x: i32,
    z: i32,
) -> bool {
    forall|p: (i32, i32, i32)| #[trigger] before.contains_key(p)
        ==> after[p] == (if on_chunk_border(x, z, p) && at_surface(heights, p) { FeatureBlock::GoldBlock } else { before[p] })
}

/// The columns the border marking has done after the `i` first steps along X.
pub open spec fn border_done_x(x: i32, z: i32, i: int, cx: i32, cz: i32) -> bool {
    x <= cx < x + i && (cz == z || cz == z + 15)
}

/// The columns the border marking has done after the steps along X and those along Z
/// before `bz`.
pub open spec fn border_done_z(x: i32, z: i32, bz: int, cx: i32, cz: i32) -> bool {
    border_done_x(x, z, 16, cx, cz) || ((cx == x || cx == x + 15) && z + 1 <= cz < bz)
}

/// Marks the border of a population chunk with gold blocks, on the world surface.
pub struct DebugChunkFeature;

impl DebugChunkFeature {

    /// Sets a gold block at the world surface of the column `x`/`z`; a column the view
    /// holds no height or no surface block for is left as it is.
    fn mark<L: LevelView>(level: &mut L, x: i32, z: i32)
        requires
            old(level).wf(),
        ensures
            final(level).wf(),
            final(level).blocks() == surface_marked(old(level).blocks(), old(level).heights(), x, z),
            final(level).heights().dom() == old(level).heights().dom(),
            forall|k: HeightmapKind, cx: i32, cz: i32| (cx != x || cz != z) && #[trigger] old(level).heights().contains_key((k, cx, cz))
                ==> final(level).heights()[(k, cx, cz)] == old(level).heights()[(k, cx, cz)],
    {
        if let Some(h) = level.get_heightmap_column_at(HeightmapKind::WorldSurface, x, z) {
            let _ = level.set_block_at(x, h, z, FeatureBlock::GoldBlock);
        }
    }

    /// One step of the marking: the columns `(cx1, cz1)` and `(cx2, cz2)`, not yet done,
    /// are marked, by the heights the level started with.
    fn mark_two<L: LevelView>(
        level: &mut L,
        cx1: i32,
        cz1: i32,
        cx2: i32,
        cz2: i32,
        Ghost(start): Ghost<Map<(i32, i32, i32), FeatureBlock>>,
        Ghost(hstart): Ghost<Map<(HeightmapKind, i32, i32), i32>>,
        Ghost(done): Ghost<spec_fn(i32, i32) -> bool>,
    )
        requires
            old(level).wf(),
            cx1 != cx2 || cz1 != cz2,
            !done(cx1, cz1),
            !done(cx2, cz2),
            old(level).blocks().dom() == start.dom(),
            old(level).heights().dom() == hstart.dom(),
            forall|k: HeightmapKind, cx: i32, cz: i32| !done(cx, cz) && #[trigger] hstart.contains_key((k, cx, cz))
                ==> old(level).heights()[(k, cx, cz)] == hstart[(k, cx, cz)],
            forall|p: (i32, i32, i32)| #[trigger] start.contains_key(p) ==> old(level).blocks()[p]
                == (if done(p.0, p.2) && at_surface(hstart, p) { FeatureBlock::GoldBlock } else { start[p] }),
        ensures
            final(level).wf(),
            final(level).blocks().dom() == start.dom(),
            final(level).heights().dom() == hstart.dom(),
            forall|k: HeightmapKind, cx: i32, cz: i32| !done(cx, cz) && (cx != cx1 || cz != cz1) && (cx != cx2 || cz != cz2)
                && #[trigger] hstart.contains_key((k, cx, cz)) ==> final(level).heights()[(k, cx, cz)] == hstart[(k, cx, cz)],
            forall|p: (i32, i32, i32)| #[trigger] start.contains_key(p) ==> final(level).blocks()[p]
                == (if (done(p.0, p.2) || (p.0 == cx1 && p.2 == cz1) || (p.0 == cx2 && p.2 == cz2)) && at_surface(hstart, p) {
                    FeatureBlock::GoldBlock } else { start[p] }),
    {
        Self::mark(level, cx1, cz1);
        Self::mark(level, cx2, cz2);
        assert(level.blocks().dom() =~= start.dom());
    }

}

impl Feature for DebugChunkFeature {

    open spec fn fits_in(&self, shape: LevelShape, x: i32, y: i32, z: i32) -> bool {
        in_chunk_reach(x) && in_chunk_reach(z)
    }

    fn fits_over<L: LevelView>(&self, level: &L, lo: (i32, i32, i32), hi: (i32, i32, i32)) -> (r: bool)
        ensures
            lo == hi ==> r == self.fits_in(level_shape(level), lo.0, lo.1, lo.2),
    {
        hi.0 <= i32::MAX - 15 && hi.2 <= i32::MAX - 15
    }

    /// True is returned, and gold blocks are set at the surface of the border columns, by
    /// the heights of the view; nothing is drawn.
    open spec fn outcome(&self, seed: i64, before: Map<(i32, i32, i32), FeatureBlock>, heights: Heights, tops: TopSubChunks,
        after: Map<(i32, i32, i32), FeatureBlock>, x: i32, y: i32, z: i32, r: bool, seed_after: i64) -> bool {
        &&& r
        &&& after.dom() == before.dom()
        &&& border_marked(before, after, heights, x, z)
        &&& seed_after == seed
    }

    /// Sets gold blocks at the world surface of the border columns, by the heights the
    /// view held before; always true.
    fn generate<L: LevelView>(&self, level: &mut L, rand: &mut JavaRandom, x: i32, y: i32, z: i32) -> (r: bool)
        ensures
            r,
            forall|p: (i32, i32, i32)| #[trigger] old(level).blocks().contains_key(p) ==> final(level).blocks()[p]
                == (if on_chunk_border(x, z, p) && at_surface(old(level).heights(), p) { FeatureBlock::GoldBlock } else { old(level).blocks()[p] }),
    {
        let ghost start = level.blocks();
        let ghost hstart = level.heights();
        let mut i: i32 = 0;
        while i < 16
            invariant
                0 <= i <= 16,
                in_chunk_reach(x),
                in_chunk_reach(z),
                level.wf(),
                level.blocks().dom() == start.dom(),
                level.heights().dom() == hstart.dom(),
                forall|k: HeightmapKind, cx: i32, cz: i32| !border_done_x(x, z, i as int, cx, cz) && #[trigger] hstart.contains_key((k, cx, cz))
                    ==> level.heights()[(k, cx, cz)] == hstart[(k, cx, cz)],
                forall|p: (i32, i32, i32)| #[trigger] start.contains_key(p) ==> level.blocks()[p]
                    == (if border_done_x(x, z, i as int, p.0, p.2) && at_surface(hstart, p) { FeatureBlock::GoldBlock } else { start[p] }),
            decreases 16 - i,
        {
            let bx = x + i;
            let ghost done = |cx: i32, cz: i32| border_done_x(x, z, i as int, cx, cz);
            Self::mark_two(level, bx, z, bx, z + 15, Ghost(start), Ghost(hstart), Ghost(done));
            i = i + 1;
        }
        let mut bz = z + 1;
        while bz < z + 15
            invariant
                z + 1 <= bz <= z + 15,
                in_chunk_reach(x),
                in_chunk_reach(z),
                level.wf(),
                level.blocks().dom() == start.dom(),
                level.heights().dom() == hstart.dom(),
                forall|k: HeightmapKind, cx: i32, cz: i32| !border_done_z(x, z, bz as int, cx, cz) && #[trigger] hstart.contains_key((k, cx, cz))
                    ==> level.heights()[(k, cx, cz)] == hstart[(k, cx, cz)],
                forall|p: (i32, i32, i32)| #[trigger] start.contains_key(p) ==> level.blocks()[p]
                    == (if border_done_z(x, z, bz as int, p.0, p.2) && at_surface(hstart, p) { FeatureBlock::GoldBlock } else { start[p] }),
            decreases z + 15 - bz,
        {
            let ghost done = |cx: i32, cz: i32| border_done_z(x, z, bz as int, cx, cz);
            Self::mark_two(level, x, bz, x + 15, bz, Ghost(start), Ghost(hstart), Ghost(done));
            bz = bz + 1;
        }
        assert(border_marked(start, level.blocks(), hstart, x, z));
        true
    }

}

/// Sets one block at the position it is generated at.
pub struct SetBlockFeature {
    pub block: FeatureBlock,
}

impl SetBlockFeature {

    pub fn new(block: FeatureBlock) -> (r: Self)
        ensures
            r.block == block,
    {
        SetBlockFeature { block }
    }

}

impl Feature for SetBlockFeature {

    open spec fn fits_in(&self, shape: LevelShape, x: i32, y: i32, z: i32) -> bool {
        shape.contains((x, y, z))
    }

    fn fits_over<L: LevelView>(&self, level: &L, lo: (i32, i32, i32), hi: (i32, i32, i32)) -> (r: bool)
        ensures
            lo == hi ==> r == self.fits_in(level_shape(level), lo.0, lo.1, lo.2),
    {
        if lo.0 == hi.0 && lo.1 == hi.1 && lo.2 == hi.2 {
            return level.get_block_at(lo.0, lo.1, lo.2).is_some();
        }
        if lo.0 > hi.0 || lo.1 > hi.1 || lo.2 > hi.2 || hi.0 as i64 - lo.0 as i64 >= 0x100
            || hi.1 as i64 - lo.1 as i64 >= 0x100 || hi.2 as i64 - lo.2 as i64 >= 0x100
            || hi.0 == i32::MAX || hi.1 == i32::MAX || hi.2 == i32::MAX {
            return false;
        }
        holds_box(level, lo.0, lo.1, lo.2, hi.0 - lo.0 + 1, hi.1 - lo.1 + 1, hi.2 - lo.2 + 1)
    }

    /// True is returned, the block is set at `x`/`y`/`z`, and nothing is drawn.
    open spec fn outcome(&self, seed: i64, before: Map<(i32, i32, i32), FeatureBlock>, heights: Heights, tops: TopSubChunks,
        after: Map<(i32, i32, i32), FeatureBlock>, x: i32, y: i32, z: i32, r: bool, seed_after: i64) -> bool {
        r && after == before.insert((x, y, z), self.block) && seed_after == seed
    }

    /// Sets the block at `x`/`y`/`z`; always true.
    fn generate<L: LevelView>(&self, level: &mut L, rand: &mut JavaRandom, x: i32, y: i32, z: i32) -> (r: bool) {
        let _ = level.set_block_at(x, y, z, self.block);
        assert(level.blocks().dom() =~= old(level).blocks().dom());
        true
    }

}

} // verus!
