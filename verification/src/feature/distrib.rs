//! Feature distributions: where in a population chunk a feature is tried.

use vstd::prelude::*;

use crate::feature::{Heights, TopSubChunks};

use crate::java::JavaRandom;

use crate::java::{next_int_bounded, int_draw};
use crate::view::{LevelView, LevelShape, level_shape, FeatureBlock, HeightmapKind, leaves_spec};
use super::{Feature, in_box};

verus! {

/// The X (or Z) coordinate `c` can be moved by up to 15 blocks.
pub open spec fn in_chunk_reach(c: i32) -> bool {
    c <= i32::MAX - 15
}

/// The position `p` is in the 16 by 16 columns starting at `x`/`z`.
pub open spec fn in_columns(x: i32, z: i32, p: (i32, i32, i32)) -> bool {
    x <= p.0 < x + 16 && z <= p.2 < z + 16
}

/// A distribution: where around a position a feature is tried.
pub trait Distrib {

    /// The distribution can pick around `x`/`y`/`z` in a view holding `shape`.
    spec fn can_pick(&self, shape: LevelShape, x: i32, y: i32, z: i32) -> bool;

    /// `p` is one of the positions the distribution may pick around `x`/`y`/`z`.
    spec fn may_pick(&self, x: i32, y: i32, z: i32, p: (i32, i32, i32)) -> bool;

    /// The position picked around `x`/`y`/`z` (or none) from the generator state `seed`,
    /// in a view with the blocks `blocks`, the column heights `heights` and the highest
    /// sub chunks `tops`; and the generator state after the pick.
    spec fn pick(&self, blocks: Map<(i32, i32, i32), FeatureBlock>, heights: Heights, tops: TopSubChunks,
        seed: i64, x: i32, y: i32, z: i32) -> (Option<(i32, i32, i32)>, i64);

    /// Whether the distribution can pick around `x`/`y`/`z` in `level`.
    fn can_pick_at<L: LevelView>(&self, level: &L, x: i32, y: i32, z: i32) -> (r: bool)
        requires
            level.wf(),
        ensures
            r == self.can_pick(level_shape(level), x, y, z),
    ;

    /// A box holding every position the distribution may pick around each position from
    /// `lo` to `hi`, when it can pick around each of them in `level`; none when that could
    /// not be told.
    fn picks_within<L: LevelView>(&self, level: &L, lo: (i32, i32, i32), hi: (i32, i32, i32))
        -> (r: Option<((i32, i32, i32), (i32, i32, i32))>)
        requires
            level.wf(),
        ensures
            r matches Some(b) ==> forall|q: (i32, i32, i32)| #[trigger] in_box(lo, hi, q)
                ==> self.can_pick(level_shape(level), q.0, q.1, q.2)
                && forall|p: (i32, i32, i32)| #[trigger] self.may_pick(q.0, q.1, q.2, p) ==> in_box(b.0, b.1, p),
    ;

    /// Picks a position around `x`/`y`/`z`, or none.
    fn pick_pos<L: LevelView>(&self, level: &L, rand: &mut JavaRandom, x: i32, y: i32, z: i32) -> (r: Option<(i32, i32, i32)>)
        requires
            level.wf(),
            self.can_pick(level_shape(level), x, y, z),
        ensures
            r matches Some(p) ==> self.may_pick(x, y, z, p),
            (r, final(rand)@) == self.pick(level.blocks(), level.heights(), level.top_sub_chunks(), old(rand)@, x, y, z),
    ;

}

/// A feature generated where a distribution picks.
pub struct DistribFeature<F: Feature, D: Distrib> {
    pub feature: F,
    pub distrib: D,
}

impl<F: Feature, D: Distrib> DistribFeature<F, D> {

    pub fn new(feature: F, distrib: D) -> (r: Self)
        ensures
            r.feature == feature,
            r.distrib == distrib,
    {
        DistribFeature { feature, distrib }
    }

}

impl<F: Feature, D: Distrib> Feature for DistribFeature<F, D> {

    /// The distribution can pick, and the feature fits at each position it may pick.
    open spec fn fits_in(&self, shape: LevelShape, x: i32, y: i32, z: i32) -> bool {
        &&& self.distrib.can_pick(shape, x, y, z)
        &&& forall|p: (i32, i32, i32)| #[trigger] self.distrib.may_pick(x, y, z, p) ==> self.feature.fits_in(shape, p.0, p.1, p.2)
    }

    fn fits_over<L: LevelView>(&self, level: &L, lo: (i32, i32, i32), hi: (i32, i32, i32)) -> (r: bool) {
        match self.distrib.picks_within(level, lo, hi) {
            Some((a, b)) => self.feature.fits_over(level, a, b),
            None => false,
        }
    }

    /// Nothing changes and false is returned when the distribution picks nothing from
    /// `seed`; else the outcome of the feature at the position picked, from the state after
    /// the pick.
    open spec fn outcome(&self, seed: i64, before: Map<(i32, i32, i32), FeatureBlock>, heights: Heights, tops: TopSubChunks,
        after: Map<(i32, i32, i32), FeatureBlock>, x: i32, y: i32, z: i32, r: bool, seed_after: i64) -> bool {
        let (picked, s) = self.distrib.pick(before, heights, tops, seed, x, y, z);
        match picked {
            None => !r && after == before && seed_after == s,
            Some(p) => self.feature.outcome(s, before, heights, tops, after, p.0, p.1, p.2, r, seed_after),
        }
    }

    /// Generates the feature where the distribution picks; false when it picks nothing.
    fn generate<L: LevelView>(&self, level: &mut L, rand: &mut JavaRandom, x: i32, y: i32, z: i32) -> (r: bool) {
        match self.distrib.pick_pos(&*level, rand, x, y, z) {
            Some((rx, ry, rz)) => self.feature.generate(level, rand, rx, ry, rz),
            None => false,
        }
    }

}

/// A uniform distribution between two vertical points, X and Z and picked randomly.
/// With `LATE_Y`, the Y coordinate is drawn after Z rather than between X and Z.
pub struct UniformVerticalDistrib<const LATE_Y: bool> {
    pub min_y: i32,
    pub max_y: i32,
}

impl UniformVerticalDistrib<false> {
    pub fn new(min_y: i32, max_y: i32) -> (r: Self)
        ensures
            r.min_y == min_y,
            r.max_y == max_y,
    {
        UniformVerticalDistrib { min_y, max_y }
    }
}

impl UniformVerticalDistrib<true> {
    pub fn new_with_late_y(min_y: i32, max_y: i32) -> (r: Self)
        ensures
            r.min_y == min_y,
            r.max_y == max_y,
    {
        UniformVerticalDistrib { min_y, max_y }
    }
}

impl<const LATE_Y: bool> Distrib for UniformVerticalDistrib<LATE_Y> {

    open spec fn can_pick(&self, shape: LevelShape, x: i32, y: i32, z: i32) -> bool {
        &&& self.min_y < self.max_y
        &&& self.max_y - self.min_y <= i32::MAX
        &&& in_chunk_reach(x)
        &&& in_chunk_reach(z)
    }

    open spec fn may_pick(&self, x: i32, y: i32, z: i32, p: (i32, i32, i32)) -> bool {
        in_columns(x, z, p) && self.min_y <= p.1 < self.max_y
    }

    /// X plus a draw below 16, the height `min_y` plus a draw below `max_y - min_y`, Z plus
    /// a draw below 16; the height drawn last with `LATE_Y`.
    open spec fn pick(&self, blocks: Map<(i32, i32, i32), FeatureBlock>, heights: Heights, tops: TopSubChunks,
        seed: i64, x: i32, y: i32, z: i32) -> (Option<(i32, i32, i32)>, i64) {
        let (a, s1) = int_draw(seed, 16);
        if LATE_Y {
            let (c, s2) = int_draw(s1, 16);
            let (b, s3) = int_draw(s2, (self.max_y - self.min_y) as i32);
            (Some(((x + a) as i32, (b + self.min_y) as i32, (z + c) as i32)), s3)
        } else {
            let (b, s2) = int_draw(s1, (self.max_y - self.min_y) as i32);
            let (c, s3) = int_draw(s2, 16);
            (Some(((x + a) as i32, (b + self.min_y) as i32, (z + c) as i32)), s3)
        }
    }

    /// Picks a position in the 16 by 16 columns starting at `x`/`z`, at a height in
    /// `[min_y; max_y[`: X, Y then Z are drawn, or X, Z then Y with `LATE_Y`.
    fn can_pick_at<L: LevelView>(&self, level: &L, x: i32, y: i32, z: i32) -> (r: bool) {
        (self.min_y < self.max_y) && (self.max_y as i64 - self.min_y as i64 <= i32::MAX as i64)
            && x <= i32::MAX - 15 && z <= i32::MAX - 15
    }

    fn picks_within<L: LevelView>(&self, level: &L, lo: (i32, i32, i32), hi: (i32, i32, i32))
        -> (r: Option<((i32, i32, i32), (i32, i32, i32))>) {
        if !(self.min_y < self.max_y) || self.max_y as i64 - self.min_y as i64 > i32::MAX as i64 {
            return None;
        }
        if hi.0 > i32::MAX - 15 || hi.2 > i32::MAX - 15 {
            return None;
        }
        Some(((lo.0, self.min_y, lo.2), (hi.0 + 15, self.max_y - 1, hi.2 + 15)))
    }

    fn pick_pos<L: LevelView>(&self, level: &L, rand: &mut JavaRandom, x: i32, y: i32, z: i32) -> (r: Option<(i32, i32, i32)>)
        ensures
            r is Some,
    {
        let rx = x + next_int_bounded(rand, 16);
        let mut ry: i32 = 0;
        if !LATE_Y {
            ry = next_int_bounded(rand, self.max_y - self.min_y) + self.min_y;
        }
        let rz = z + next_int_bounded(rand, 16);
        if LATE_Y {
            ry = next_int_bounded(rand, self.max_y - self.min_y) + self.min_y;
        }
        Some((rx, ry, rz))
    }

}

/// A triangular distribution with a center and a spread, X and Z are picked randomly.
pub struct TriangularVerticalDistrib {
    pub y_center: i32,
    pub y_spread: i32,
}

impl TriangularVerticalDistrib {

    pub fn new(y_center: i32, y_spread: i32) -> (r: Self)
        ensures
            r.y_center == y_center,
            r.y_spread == y_spread,
    {
        TriangularVerticalDistrib { y_center, y_spread }
    }

}

impl Distrib for TriangularVerticalDistrib {

    open spec fn can_pick(&self, shape: LevelShape, x: i32, y: i32, z: i32) -> bool {
        &&& self.y_spread > 0
        &&& 2 * self.y_spread - 2 <= i32::MAX
        &&& 2 * self.y_spread - 2 + self.y_center <= i32::MAX
        &&& self.y_center - self.y_spread >= i32::MIN
        &&& in_chunk_reach(x)
        &&& in_chunk_reach(z)
    }

    open spec fn may_pick(&self, x: i32, y: i32, z: i32, p: (i32, i32, i32)) -> bool {
        in_columns(x, z, p) && self.y_center - self.y_spread <= p.1 <= self.y_center + self.y_spread - 2
    }

    /// X plus a draw below 16, the height `y_center - y_spread` plus two draws below
    /// `y_spread`, Z plus a draw below 16.
    open spec fn pick(&self, blocks: Map<(i32, i32, i32), FeatureBlock>, heights: Heights, tops: TopSubChunks,
        seed: i64, x: i32, y: i32, z: i32) -> (Option<(i32, i32, i32)>, i64) {
        let (a, s1) = int_draw(seed, 16);
        let (b, s2) = int_draw(s1, self.y_spread);
        let (c, s3) = int_draw(s2, self.y_spread);
        let (d, s4) = int_draw(s3, 16);
        (Some(((x + a) as i32, (b + c + self.y_center - self.y_spread) as i32, (z + d) as i32)), s4)
    }

    /// Picks a position in the 16 by 16 columns starting at `x`/`z`, at the height
    /// `y_center - y_spread` plus the sum of two draws in `[0; y_spread[`.
    fn can_pick_at<L: LevelView>(&self, level: &L, x: i32, y: i32, z: i32) -> (r: bool) {
        self.y_spread > 0 && 2 * (self.y_spread as i64) - 2 <= i32::MAX as i64
            && 2 * (self.y_spread as i64) - 2 + self.y_center as i64 <= i32::MAX as i64
            && self.y_center as i64 - self.y_spread as i64 >= i32::MIN as i64
            && x <= i32::MAX - 15 && z <= i32::MAX - 15
    }

    fn picks_within<L: LevelView>(&self, level: &L, lo: (i32, i32, i32), hi: (i32, i32, i32))
        -> (r: Option<((i32, i32, i32), (i32, i32, i32))>) {
        if !(self.y_spread > 0 && 2 * (self.y_spread as i64) - 2 <= i32::MAX as i64
            && 2 * (self.y_spread as i64) - 2 + self.y_center as i64 <= i32::MAX as i64
            && self.y_center as i64 - self.y_spread as i64 >= i32::MIN as i64) {
            return None;
        }
        if hi.0 > i32::MAX - 15 || hi.2 > i32::MAX - 15 {
            return None;
        }
        Some(((lo.0, self.y_center - self.y_spread, lo.2), (hi.0 + 15, self.y_center + (self.y_spread - 2), hi.2 + 15)))
    }

    fn pick_pos<L: LevelView>(&self, level: &L, rand: &mut JavaRandom, x: i32, y: i32, z: i32) -> (r: Option<(i32, i32, i32)>)
        ensures
            r is Some,
    {
        let rx = x + next_int_bounded(rand, 16);
        let a = next_int_bounded(rand, self.y_spread);
        let b = next_int_bounded(rand, self.y_spread);
        let ry = a + b + self.y_center - self.y_spread;
        let rz = z + next_int_bounded(rand, 16);
        Some((rx, ry, rz))
    }

}

/// A distribution that picks random X and Z, and then assigns the height of the level
/// at that column, in the heightmap given when building it, to the Y coordinate.
pub struct HeightmapDistrib {
    pub heightmap_type: HeightmapKind,
}

impl HeightmapDistrib {

    pub fn new(heightmap_type: HeightmapKind) -> (r: Self)
        ensures
            r.heightmap_type == heightmap_type,
    {
        HeightmapDistrib { heightmap_type }
    }

}

impl Distrib for HeightmapDistrib {

    open spec fn can_pick(&self, shape: LevelShape, x: i32, y: i32, z: i32) -> bool {
        in_chunk_reach(x) && in_chunk_reach(z)
    }

    open spec fn may_pick(&self, x: i32, y: i32, z: i32, p: (i32, i32, i32)) -> bool {
        in_columns(x, z, p)
    }

    /// X plus a draw below 16, Z plus a draw below 16, at the column's height; none
    /// where the view holds no height for that column.
    open spec fn pick(&self, blocks: Map<(i32, i32, i32), FeatureBlock>, heights: Heights, tops: TopSubChunks,
        seed: i64, x: i32, y: i32, z: i32) -> (Option<(i32, i32, i32)>, i64) {
        let (a, s1) = int_draw(seed, 16);
        let (c, s2) = int_draw(s1, 16);
        let (rx, rz) = ((x + a) as i32, (z + c) as i32);
        if heights.contains_key((self.heightmap_type, rx, rz)) {
            (Some((rx, heights[(self.heightmap_type, rx, rz)], rz)), s2)
        } else {
            (None, s2)
        }
    }

    /// Picks a column in the 16 by 16 columns starting at `x`/`z`, at its height; none
    /// where the view holds no height for the column.
    fn can_pick_at<L: LevelView>(&self, level: &L, x: i32, y: i32, z: i32) -> (r: bool) {
        x <= i32::MAX - 15 && z <= i32::MAX - 15
    }

    fn picks_within<L: LevelView>(&self, level: &L, lo: (i32, i32, i32), hi: (i32, i32, i32))
        -> (r: Option<((i32, i32, i32), (i32, i32, i32))>) {
        if hi.0 > i32::MAX - 15 || hi.2 > i32::MAX - 15 {
            return None;
        }
        Some(((lo.0, i32::MIN, lo.2), (hi.0 + 15, i32::MAX, hi.2 + 15)))
    }

    fn pick_pos<L: LevelView>(&self, level: &L, rand: &mut JavaRandom, x: i32, y: i32, z: i32) -> (r: Option<(i32, i32, i32)>)
    {
        let rx = x + next_int_bounded(rand, 16);
        let rz = z + next_int_bounded(rand, 16);
        match level.get_heightmap_column_at(self.heightmap_type, rx, rz) {
            Some(ry) => Some((rx, ry, rz)),
            None => {
                assert(in_columns(x, z, (rx, 0, rz)));
                None
            },
        }
    }

}

/// A distribution specific to lava lakes: the height is drawn below a drawn height, and
/// a lake at or above the sea level (63) is only kept one time in ten.
pub struct LavaLakeDistrib;

impl Distrib for LavaLakeDistrib {

    open spec fn can_pick(&self, shape: LevelShape, x: i32, y: i32, z: i32) -> bool {
        in_chunk_reach(x) && in_chunk_reach(z)
    }

    open spec fn may_pick(&self, x: i32, y: i32, z: i32, p: (i32, i32, i32)) -> bool {
        in_columns(x, z, p) && 0 <= p.1 < 127
    }

    /// X plus a draw below 16, a bound of 8 plus a draw below 120, the height a draw below
    /// that bound, Z plus a draw below 16; kept when the height is below 63, else when a
    /// last draw below 10 is 0.
    open spec fn pick(&self, blocks: Map<(i32, i32, i32), FeatureBlock>, heights: Heights, tops: TopSubChunks,
        seed: i64, x: i32, y: i32, z: i32) -> (Option<(i32, i32, i32)>, i64) {
        let (a, s1) = int_draw(seed, 16);
        let (b, s2) = int_draw(s1, 120);
        let (ry, s3) = int_draw(s2, (b + 8) as i32);
        let (c, s4) = int_draw(s3, 16);
        let p = ((x + a) as i32, ry, (z + c) as i32);
        if ry < 63 {
            (Some(p), s4)
        } else {
            let (d, s5) = int_draw(s4, 10);
            (if d == 0 { Some(p) } else { None }, s5)
        }
    }

    /// Picks a column in the 16 by 16 columns starting at `x`/`z`, and a height below a
    /// drawn one in `[8; 128[`; kept when below 63, else one time in ten.
    fn can_pick_at<L: LevelView>(&self, level: &L, x: i32, y: i32, z: i32) -> (r: bool) {
        x <= i32::MAX - 15 && z <= i32::MAX - 15
    }

    fn picks_within<L: LevelView>(&self, level: &L, lo: (i32, i32, i32), hi: (i32, i32, i32))
        -> (r: Option<((i32, i32, i32), (i32, i32, i32))>) {
        if hi.0 > i32::MAX - 15 || hi.2 > i32::MAX - 15 {
            return None;
        }
        Some(((lo.0, 0, lo.2), (hi.0 + 15, 126, hi.2 + 15)))
    }

    fn pick_pos<L: LevelView>(&self, level: &L, rand: &mut JavaRandom, x: i32, y: i32, z: i32) -> (r: Option<(i32, i32, i32)>) {
        let rx = x + next_int_bounded(rand, 16);
        let ry_bound = next_int_bounded(rand, 120) + 8;
        let ry = next_int_bounded(rand, ry_bound);
        let rz = z + next_int_bounded(rand, 16);
        if ry < 63 || next_int_bounded(rand, 10) == 0 {
            Some((rx, ry, rz))
        } else {
            None
        }
    }

}

/// The block tests of the offset distributions built in.
#[derive(Clone, Copy, Debug, PartialEq, Eq, Structural)]
pub enum BlockTest {
    /// The block is air or holds the leaves tag.
    AirOrLeaves,
    /// The block is air.
    Air,
}

/// A distribution that lowers the Y coordinate while the predicate holds for the
/// block at `Y + offset`, down to `min` at most.
pub struct OffsetWhileDistrib<P> {
    pub min: i32,
    pub offset: i32,
    pub predicate: P,
}

impl<P> OffsetWhileDistrib<P> {

    pub fn new(min: i32, offset: i32, predicate: P) -> (r: Self)
        ensures
            r.min == min,
            r.offset == offset,
            r.predicate == predicate,
    {
        OffsetWhileDistrib { min, offset, predicate }
    }

}

/// The test holds for the block `b`.
pub open spec fn block_test_holds(test: BlockTest, b: FeatureBlock) -> bool {
    match test {
        BlockTest::AirOrLeaves => b == FeatureBlock::Air || leaves_spec(b),
        BlockTest::Air => b == FeatureBlock::Air,
    }
}

/// The block at `p` in `blocks`, air where it holds none.
pub open spec fn block_or_air_spec(blocks: Map<(i32, i32, i32), FeatureBlock>, p: (i32, i32, i32)) -> FeatureBlock {
    if blocks.contains_key(p) { blocks[p] } else { FeatureBlock::Air }
}

impl BlockTest {

    pub fn holds(&self, b: FeatureBlock) -> (r: bool)
        ensures
            r == block_test_holds(*self, b),
    {
        match self {
            BlockTest::AirOrLeaves => b == FeatureBlock::Air || b.is_leaves(),
            BlockTest::Air => b == FeatureBlock::Air,
        }
    }

}

/// The height `y` lowered while the test holds for the block at the height plus
/// `offset` (air where `blocks` holds none), down to `min` at most.
pub open spec fn lowered_y(blocks: Map<(i32, i32, i32), FeatureBlock>, test: BlockTest, min: i32, offset: i32,
    x: i32, y: int, z: i32) -> int
    decreases y - min,
{
    if y > min && block_test_holds(test, block_or_air_spec(blocks, (x, (y + offset) as i32, z))) {
        lowered_y(blocks, test, min, offset, x, y - 1, z)
    } else {
        y
    }
}

impl Distrib for OffsetWhileDistrib<BlockTest> {

    open spec fn can_pick(&self, shape: LevelShape, x: i32, y: i32, z: i32) -> bool {
        &&& self.min >= i32::MIN + 1
        &&& i32::MIN <= self.min + self.offset
        &&& y + self.offset <= i32::MAX
    }

    open spec fn may_pick(&self, x: i32, y: i32, z: i32, p: (i32, i32, i32)) -> bool {
        p.0 == x && p.2 == z && p.1 <= y && (y > self.min ==> p.1 >= self.min)
    }

    /// The column `x`/`z` at the height `lowered_y` gives, with no draw.
    open spec fn pick(&self, blocks: Map<(i32, i32, i32), FeatureBlock>, heights: Heights, tops: TopSubChunks,
        seed: i64, x: i32, y: i32, z: i32) -> (Option<(i32, i32, i32)>, i64) {
        (Some((x, lowered_y(blocks, self.predicate, self.min, self.offset, x, y as int, z) as i32, z)), seed)
    }

    /// Lowers `y` while the test holds for the block at `y + offset` (air where the view
    /// holds none), stopping at `min`.
    fn can_pick_at<L: LevelView>(&self, level: &L, x: i32, y: i32, z: i32) -> (r: bool) {
        self.min >= i32::MIN + 1 && i32::MIN as i64 <= self.min as i64 + self.offset as i64
            && y as i64 + self.offset as i64 <= i32::MAX as i64
    }

    fn picks_within<L: LevelView>(&self, level: &L, lo: (i32, i32, i32), hi: (i32, i32, i32))
        -> (r: Option<((i32, i32, i32), (i32, i32, i32))>) {
        if !(self.min >= i32::MIN + 1 && i32::MIN as i64 <= self.min as i64 + self.offset as i64
            && hi.1 as i64 + self.offset as i64 <= i32::MAX as i64) {
            return None;
        }
        Some(((lo.0, i32::MIN, lo.2), (hi.0, hi.1, hi.2)))
    }

    fn pick_pos<L: LevelView>(&self, level: &L, rand: &mut JavaRandom, x: i32, y: i32, z: i32) -> (r: Option<(i32, i32, i32)>)
        ensures
            r matches Some(p) && (forall|k: i32| p.1 < k <= y ==> #[trigger] block_test_holds(self.predicate,
                    block_or_air_spec(level.blocks(), (x, (k + self.offset) as i32, z))))
                && (p.1 > self.min ==> !block_test_holds(self.predicate,
                    block_or_air_spec(level.blocks(), (x, (p.1 + self.offset) as i32, z)))),
            r matches Some(p) && (y <= self.min ==> p.1 == y),
            final(rand)@ == old(rand)@,
    {
        let mut cy = y;
        while cy > self.min
            invariant_except_break
                cy <= y,
                y > self.min ==> cy >= self.min,
                y <= self.min ==> cy == y,
                self.min >= i32::MIN + 1,
                i32::MIN <= self.min + self.offset,
                y + self.offset <= i32::MAX,
                level.wf(),
                forall|k: i32| cy < k <= y ==> #[trigger] block_test_holds(self.predicate,
                    block_or_air_spec(level.blocks(), (x, (k + self.offset) as i32, z))),
                lowered_y(level.blocks(), self.predicate, self.min, self.offset, x, cy as int, z)
                    == lowered_y(level.blocks(), self.predicate, self.min, self.offset, x, y as int, z),
            ensures
                cy == lowered_y(level.blocks(), self.predicate, self.min, self.offset, x, y as int, z),
                cy <= y,
                y > self.min ==> cy >= self.min,
                y <= self.min ==> cy == y,
                forall|k: i32| cy < k <= y ==> #[trigger] block_test_holds(self.predicate,
                    block_or_air_spec(level.blocks(), (x, (k + self.offset) as i32, z))),
                cy > self.min ==> !block_test_holds(self.predicate,
                    block_or_air_spec(level.blocks(), (x, (cy + self.offset) as i32, z))),
            decreases cy - self.min,
        {
            let block = match level.get_block_at(x, cy + self.offset, z) {
                Some(b) => b,
                None => FeatureBlock::Air,
            };
            if self.predicate.holds(block) {
                cy = cy - 1;
            } else {
                break;
            }
        }
        Some((x, cy, z))
    }

}

impl OffsetWhileDistrib<BlockTest> {

    /// Lowers the position while it is in air or leaves.
    pub fn new_air_or_leaves() -> (r: Self)
        ensures
            r.min == 0,
            r.offset == 0,
            r.predicate == BlockTest::AirOrLeaves,
    {
        Self::new(0, 0, BlockTest::AirOrLeaves)
    }

    /// Lowers the position while the block below it is air.
    pub fn new_air_below() -> (r: Self)
        ensures
            r.min == 0,
            r.offset == -1,
            r.predicate == BlockTest::Air,
    {
        Self::new(0, -1, BlockTest::Air)
    }

}

/// The wrong height the release 1.2 generator reads for trees: one block lower when
/// the height is just above the highest non empty sub chunk.
pub open spec fn wrong_height_spec(ry: i32, highest_sub_chunk: i32) -> i32 {
    if ry % 16 == 0 && highest_sub_chunk * 16 + 16 == ry {
        (ry - 1) as i32
    } else {
        ry
    }
}

/// A special heightmap distribution that reproduces a height miscalculation of
/// release 1.2: the height is one unit lower when it is at the highest Y of the
/// highest non empty sub chunk.
pub struct WrongHeightmapDistrib {
    pub heightmap_type: HeightmapKind,
}

impl WrongHeightmapDistrib {

    pub fn new(heightmap_type: HeightmapKind) -> (r: Self)
        ensures
            r.heightmap_type == heightmap_type,
    {
        WrongHeightmapDistrib { heightmap_type }
    }

    /// The height read for a column of height `ry` whose highest non empty sub chunk is
    /// `highest_sub_chunk`.
    pub fn wrong_height(ry: i32, highest_sub_chunk: i32) -> (r: i32)
        requires
            -128 <= highest_sub_chunk <= 127,
        ensures
            r == wrong_height_spec(ry, highest_sub_chunk),
    {
        assert(ry & 15 == 0 <==> ry % 16 == 0) by (bit_vector);
        if ry & 15 == 0 {
            assert(highest_sub_chunk << 4u32 == highest_sub_chunk * 16) by (bit_vector)
                requires -128 <= highest_sub_chunk <= 127;
            let highest_ry = (highest_sub_chunk << 4u32) + 16;
            if highest_ry == ry {
                return ry - 1;
            }
        }
        ry
    }

}

impl Distrib for WrongHeightmapDistrib {

    open spec fn can_pick(&self, shape: LevelShape, x: i32, y: i32, z: i32) -> bool {
        in_chunk_reach(x) && in_chunk_reach(z)
    }

    open spec fn may_pick(&self, x: i32, y: i32, z: i32, p: (i32, i32, i32)) -> bool {
        in_columns(x, z, p)
    }

    /// X plus a draw below 16, Z plus a draw below 16, at the column's wrong height; none
    /// where the view holds no height or no highest sub chunk for that column.
    open spec fn pick(&self, blocks: Map<(i32, i32, i32), FeatureBlock>, heights: Heights, tops: TopSubChunks,
        seed: i64, x: i32, y: i32, z: i32) -> (Option<(i32, i32, i32)>, i64) {
        let (a, s1) = int_draw(seed, 16);
        let (c, s2) = int_draw(s1, 16);
        let (rx, rz) = ((x + a) as i32, (z + c) as i32);
        if heights.contains_key((self.heightmap_type, rx, rz)) && tops.contains_key((rx, rz)) {
            (Some((rx, wrong_height_spec(heights[(self.heightmap_type, rx, rz)], tops[(rx, rz)] as i32), rz)), s2)
        } else {
            (None, s2)
        }
    }

    /// Picks a column in the 16 by 16 columns starting at `x`/`z`, at its wrong height;
    /// none where the view holds no height or no highest sub chunk for the column.
    fn can_pick_at<L: LevelView>(&self, level: &L, x: i32, y: i32, z: i32) -> (r: bool) {
        x <= i32::MAX - 15 && z <= i32::MAX - 15
    }

    fn picks_within<L: LevelView>(&self, level: &L, lo: (i32, i32, i32), hi: (i32, i32, i32))
        -> (r: Option<((i32, i32, i32), (i32, i32, i32))>) {
        if hi.0 > i32::MAX - 15 || hi.2 > i32::MAX - 15 {
            return None;
        }
        Some(((lo.0, i32::MIN, lo.2), (hi.0 + 15, i32::MAX, hi.2 + 15)))
    }

    fn pick_pos<L: LevelView>(&self, level: &L, rand: &mut JavaRandom, x: i32, y: i32, z: i32) -> (r: Option<(i32, i32, i32)>)
    {
        let rx = x + next_int_bounded(rand, 16);
        let rz = z + next_int_bounded(rand, 16);
        assert(in_columns(x, z, (rx, 0, rz)));
        match level.get_heightmap_column_at(self.heightmap_type, rx, rz) {
            Some(h) => match level.get_highest_sub_chunk_at(rx, rz) {
                Some(s) => {
                    let ry = Self::wrong_height(h, s as i32);
                    Some((rx, ry, rz))
                },
                None => None,
            },
            None => None,
        }
    }

}

} // verus!
