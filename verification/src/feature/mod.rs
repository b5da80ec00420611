//! Level features: their distributions, their repetition counts and the random
//! choices of the dungeon feature.

use vstd::prelude::*;

use crate::java::JavaRandom;

use crate::java::{next_int_bounded, int_draw};
use crate::view::{LevelView, LevelShape, level_shape, FeatureBlock, HeightmapKind, holds_box};

use distrib::{Distrib, DistribFeature, UniformVerticalDistrib, TriangularVerticalDistrib};

pub mod distrib;
pub mod dungeon;
pub mod tree;
pub mod flower;
pub mod vein;
pub mod lake;
pub mod debug;
pub mod jungle;

verus! {

/// The heights of the columns of a view, by heightmap and column.
pub type Heights = Map<(HeightmapKind, i32, i32), i32>;

/// The highest non empty sub chunk of the chunk holding each column of a view.
pub type TopSubChunks = Map<(i32, i32), i8>;

/// `p` is in the box from `lo` to `hi`, both included.
pub open spec fn in_box(lo: (i32, i32, i32), hi: (i32, i32, i32), p: (i32, i32, i32)) -> bool {
    lo.0 <= p.0 <= hi.0 && lo.1 <= p.1 <= hi.1 && lo.2 <= p.2 <= hi.2
}

/// Whether the view holds, from 0 to 255, the columns up to `margin` blocks around the
/// columns from `lo` to `hi` (false also for an empty or too large box).
pub fn holds_columns_around<L: LevelView>(level: &L, lo: (i32, i32, i32), hi: (i32, i32, i32), margin: i32) -> (r: bool)
    requires
        level.wf(),
        0 <= margin <= 16,
    ensures
        r ==> forall|p: (i32, i32, i32)| lo.0 - margin <= p.0 <= hi.0 + margin && lo.2 - margin <= p.2 <= hi.2 + margin
            && 0 <= p.1 < 256 ==> #[trigger] level.blocks().contains_key(p),
        lo.0 <= hi.0 <= lo.0 + 0x1000 && lo.2 <= hi.2 <= lo.2 + 0x1000 && i32::MIN + margin <= lo.0 && i32::MIN + margin <= lo.2
            && hi.0 < i32::MAX - margin && hi.2 < i32::MAX - margin
            && (forall|p: (i32, i32, i32)| lo.0 - margin <= p.0 <= hi.0 + margin && lo.2 - margin <= p.2 <= hi.2 + margin
                && 0 <= p.1 < 256 ==> #[trigger] level.blocks().contains_key(p)) ==> r,
{
    if lo.0 > hi.0 || lo.2 > hi.2 || lo.0 < i32::MIN + margin || lo.2 < i32::MIN + margin
        || hi.0 > i32::MAX - margin - 1 || hi.2 > i32::MAX - margin - 1 {
        return false;
    }
    if hi.0 as i64 - lo.0 as i64 > 0x1000 || hi.2 as i64 - lo.2 as i64 > 0x1000 {
        return false;
    }
    let xs = hi.0 - lo.0 + 2 * margin + 1;
    let zs = hi.2 - lo.2 + 2 * margin + 1;
    holds_box(level, lo.0 - margin, 0, lo.2 - margin, xs, 256, zs)
}

/// A level feature, generated around a position of a level view.
pub trait Feature: Sized {

    /// The feature can be asked for at `x`/`y`/`z` of a view holding `shape`.
    spec fn fits_in(&self, shape: LevelShape, x: i32, y: i32, z: i32) -> bool;

    /// A test that the feature can be asked for at every position from `lo` to `hi` of
    /// `level`: when it passes, it can.
    fn fits_over<L: LevelView>(&self, level: &L, lo: (i32, i32, i32), hi: (i32, i32, i32)) -> (r: bool)
        requires
            level.wf(),
        ensures
            r ==> forall|p: (i32, i32, i32)| #[trigger] in_box(lo, hi, p) ==> self.fits_in(level_shape(level), p.0, p.1, p.2),
    ;

    /// Generating the feature at `x`/`y`/`z` from the generator state `seed`, in a view
    /// with the blocks `before`, the column heights `heights` and the highest sub chunks
    /// `tops`, may turn the blocks into `after`, return `r` and leave the generator in the
    /// state `seed_after`.
    spec fn outcome(&self, seed: i64, before: Map<(i32, i32, i32), FeatureBlock>, heights: Heights, tops: TopSubChunks,
        after: Map<(i32, i32, i32), FeatureBlock>, x: i32, y: i32, z: i32, r: bool, seed_after: i64) -> bool;

    /// Generates the feature at `x`/`y`/`z`, returning whether it was generated. When
    /// called from a biome decorator, `y` is 0 and `x`/`z` are the corner of the
    /// population chunk. The view keeps the positions and columns it holds.
    fn generate<L: LevelView>(&self, level: &mut L, rand: &mut JavaRandom, x: i32, y: i32, z: i32) -> (r: bool)
        requires
            old(level).wf(),
            self.fits_in(level_shape(old(level)), x, y, z),
        ensures
            final(level).wf(),
            level_shape(final(level)) == level_shape(old(level)),
            self.outcome(old(rand)@, old(level).blocks(), old(level).heights(), old(level).top_sub_chunks(),
                final(level).blocks(), x, y, z, r, final(rand)@),
    ;

}

/// The empty feature: generates nothing.
impl Feature for () {

    open spec fn fits_in(&self, shape: LevelShape, x: i32, y: i32, z: i32) -> bool {
        true
    }

    /// Nothing changes, nothing is drawn, and false is returned.
    open spec fn outcome(&self, seed: i64, before: Map<(i32, i32, i32), FeatureBlock>, heights: Heights, tops: TopSubChunks,
        after: Map<(i32, i32, i32), FeatureBlock>, x: i32, y: i32, z: i32, r: bool, seed_after: i64) -> bool {
        !r && after == before && seed_after == seed
    }

    fn fits_over<L: LevelView>(&self, level: &L, lo: (i32, i32, i32), hi: (i32, i32, i32)) -> (r: bool) {
        true
    }

    fn generate<L: LevelView>(&self, level: &mut L, rand: &mut JavaRandom, x: i32, y: i32, z: i32) -> (r: bool) {
        false
    }

}

/// The ways of building a feature from another one.
pub trait FeatureCompose: Feature {

    /// This feature, generated where `distrib` picks.
    fn distributed<D: Distrib>(self, distrib: D) -> (r: DistribFeature<Self, D>)
        ensures
            r.feature == self,
            r.distrib == distrib,
    {
        DistribFeature::new(self, distrib)
    }

    /// This feature, generated at a height drawn in `[min_y; max_y[`.
    fn distributed_uniform(self, min_y: i32, max_y: i32) -> (r: DistribFeature<Self, UniformVerticalDistrib<false>>)
        ensures
            r.feature == self,
            r.distrib.min_y == min_y,
            r.distrib.max_y == max_y,
    {
        self.distributed(UniformVerticalDistrib::new(min_y, max_y))
    }

    /// This feature, generated at a height drawn in `[min_y; max_y[` after the columns.
    fn distributed_uniform_with_late_y(self, min_y: i32, max_y: i32) -> (r: DistribFeature<Self, UniformVerticalDistrib<true>>)
        ensures
            r.feature == self,
            r.distrib.min_y == min_y,
            r.distrib.max_y == max_y,
    {
        self.distributed(UniformVerticalDistrib::new_with_late_y(min_y, max_y))
    }

    /// This feature, generated at a height of triangular distribution.
    fn distributed_triangular(self, y_center: i32, y_spread: i32) -> (r: DistribFeature<Self, TriangularVerticalDistrib>)
        ensures
            r.feature == self,
            r.distrib.y_center == y_center,
            r.distrib.y_spread == y_spread,
    {
        self.distributed(TriangularVerticalDistrib::new(y_center, y_spread))
    }

    /// This feature, generated the number of times `count` gives.
    fn repeated<C: RepeatCount>(self, count: C) -> (r: RepeatedFeature<Self, C>)
        ensures
            r.feature == self,
            r.count == count,
    {
        RepeatedFeature::new(self, count)
    }

    /// This feature, generated one time in `bound`.
    fn optional(self, bound: u16) -> (r: OptionalFeature<Self, ()>)
        ensures
            r.if_feature == self,
            r.bound == bound,
    {
        OptionalFeature::new(self, (), bound)
    }

    /// This feature one time in `bound`, and `else_feature` the other times.
    fn optional_or<E: Feature>(self, bound: u16, else_feature: E) -> (r: OptionalFeature<Self, E>)
        ensures
            r.if_feature == self,
            r.else_feature == else_feature,
            r.bound == bound,
    {
        OptionalFeature::new(self, else_feature, bound)
    }

}

impl<F: Feature> FeatureCompose for F {}

/// A count of repetitions, drawn or fixed.
pub trait RepeatCount {

    /// The count can be drawn.
    spec fn count_ok(&self) -> bool;

    /// `n` is one of the counts this can give.
    spec fn may_count(&self, n: u16) -> bool;

    /// The count drawn from the generator state `s`, and the state after the draws.
    spec fn count_draw(&self, s: i64) -> (u16, i64);

    /// Whether the count can be drawn.
    fn can_count(&self) -> (r: bool)
        ensures
            r == self.count_ok(),
    ;

    fn get_count(&self, rand: &mut JavaRandom) -> (r: u16)
        requires
            self.count_ok(),
        ensures
            self.may_count(r),
            (r, final(rand)@) == self.count_draw(old(rand)@),
    ;

}

/// A fixed count.
impl RepeatCount for u16 {

    open spec fn count_ok(&self) -> bool {
        true
    }

    open spec fn may_count(&self, n: u16) -> bool {
        n == *self
    }

    /// The count itself, with no draw.
    open spec fn count_draw(&self, s: i64) -> (u16, i64) {
        (*self, s)
    }

    fn can_count(&self) -> (r: bool) {
        true
    }

    fn get_count(&self, rand: &mut JavaRandom) -> (r: u16) {
        *self
    }

}

/// A state of a view and of the generator between generations: the blocks, the column
/// heights, the highest sub chunks and the generator state.
pub type GenState = (Map<(i32, i32, i32), FeatureBlock>, Heights, TopSubChunks, i64);

/// Generating `feature` at `x`/`y`/`z` may lead from the state `a` to the blocks and the
/// generator state of `b`, whatever it returns.
pub open spec fn feature_step<F: Feature>(feature: F, a: GenState, b: GenState, x: i32, y: i32, z: i32) -> bool {
    exists|r: bool| feature.outcome(a.3, a.0, a.1, a.2, b.0, x, y, z, r, b.3)
}

/// Each state of `states` comes from the one before by a generation of `feature` at
/// `x`/`y`/`z`.
pub open spec fn generation_chain<F: Feature>(feature: F, states: Seq<GenState>, x: i32, y: i32, z: i32) -> bool {
    forall|k: int| 0 <= k < states.len() - 1 ==> #[trigger] feature_step(feature, states[k], states[k + 1], x, y, z)
}

/// A feature generated a number of times at the same position.
pub struct RepeatedFeature<F: Feature, C: RepeatCount> {
    pub feature: F,
    pub count: C,
}

impl<F: Feature, C: RepeatCount> RepeatedFeature<F, C> {

    pub fn new(feature: F, count: C) -> (r: Self)
        ensures
            r.feature == feature,
            r.count == count,
    {
        RepeatedFeature { feature, count }
    }

}

impl<F: Feature, C: RepeatCount> Feature for RepeatedFeature<F, C> {

    open spec fn fits_in(&self, shape: LevelShape, x: i32, y: i32, z: i32) -> bool {
        self.count.count_ok() && self.feature.fits_in(shape, x, y, z)
    }

    fn fits_over<L: LevelView>(&self, level: &L, lo: (i32, i32, i32), hi: (i32, i32, i32)) -> (r: bool) {
        self.count.can_count() && self.feature.fits_over(level, lo, hi)
    }

    /// True is returned, and the view and the generator go through a chain of states, from
    /// the state after the count drawn from `seed`, as many generations of the feature as
    /// that count.
    open spec fn outcome(&self, seed: i64, before: Map<(i32, i32, i32), FeatureBlock>, heights: Heights, tops: TopSubChunks,
        after: Map<(i32, i32, i32), FeatureBlock>, x: i32, y: i32, z: i32, r: bool, seed_after: i64) -> bool {
        let (n, s1) = self.count.count_draw(seed);
        &&& r
        &&& exists|states: Seq<GenState>|
            states.len() == n + 1 && states[0] == (before, heights, tops, s1) && states[n as int].0 == after
            && states[n as int].3 == seed_after && generation_chain(self.feature, states, x, y, z)
    }

    /// Draws the count, then generates the feature that many times; always true.
    fn generate<L: LevelView>(&self, level: &mut L, rand: &mut JavaRandom, x: i32, y: i32, z: i32) -> (r: bool) {
        let count = self.count.get_count(rand);
        let ghost shape = level_shape(level);
        let ghost mut states: Seq<GenState> = seq![(level.blocks(), level.heights(), level.top_sub_chunks(), rand@)];
        let mut i: u16 = 0;
        while i < count
            invariant
                i <= count,
                (count, states[0].3) == self.count.count_draw(old(rand)@),
                level.wf(),
                level_shape(level) == shape,
                self.feature.fits_in(shape, x, y, z),
                states.len() == i + 1,
                states[0].0 == old(level).blocks(),
                states[0].1 == old(level).heights(),
                states[0].2 == old(level).top_sub_chunks(),
                states[i as int] == (level.blocks(), level.heights(), level.top_sub_chunks(), rand@),
                generation_chain(self.feature, states, x, y, z),
            decreases count - i,
        {
            let ghost a: GenState = (level.blocks(), level.heights(), level.top_sub_chunks(), rand@);
            let done = self.feature.generate(level, rand, x, y, z);
            proof {
                let b: GenState = (level.blocks(), level.heights(), level.top_sub_chunks(), rand@);
                assert(self.feature.outcome(a.3, a.0, a.1, a.2, b.0, x, y, z, done, b.3));
                let prev = states;
                states = states.push(b);
                assert(feature_step(self.feature, a, b, x, y, z));
                assert forall|k: int| 0 <= k < states.len() - 1 implies
                    #[trigger] feature_step(self.feature, states[k], states[k + 1], x, y, z) by {
                    if k < prev.len() - 1 {
                        assert(feature_step(self.feature, prev[k], prev[k + 1], x, y, z));
                    }
                }
            }
            i = i + 1;
        }
        true
    }

}

/// A feature generated one time in `bound`, another one the other times.
pub struct OptionalFeature<F: Feature, E: Feature> {
    pub if_feature: F,
    pub else_feature: E,
    pub bound: u16,
}

impl<F: Feature, E: Feature> OptionalFeature<F, E> {

    pub fn new(if_feature: F, else_feature: E, bound: u16) -> (r: Self)
        ensures
            r.if_feature == if_feature,
            r.else_feature == else_feature,
            r.bound == bound,
    {
        OptionalFeature { if_feature, else_feature, bound }
    }

}

impl<F: Feature, E: Feature> Feature for OptionalFeature<F, E> {

    open spec fn fits_in(&self, shape: LevelShape, x: i32, y: i32, z: i32) -> bool {
        self.bound > 0 && self.if_feature.fits_in(shape, x, y, z) && self.else_feature.fits_in(shape, x, y, z)
    }

    fn fits_over<L: LevelView>(&self, level: &L, lo: (i32, i32, i32), hi: (i32, i32, i32)) -> (r: bool) {
        self.bound > 0 && self.if_feature.fits_over(level, lo, hi) && self.else_feature.fits_over(level, lo, hi)
    }

    /// A draw in `[0; bound[`: on 0 an outcome of the first feature, else of the other one,
    /// from the state after the draw.
    open spec fn outcome(&self, seed: i64, before: Map<(i32, i32, i32), FeatureBlock>, heights: Heights, tops: TopSubChunks,
        after: Map<(i32, i32, i32), FeatureBlock>, x: i32, y: i32, z: i32, r: bool, seed_after: i64) -> bool {
        let (d, s1) = int_draw(seed, self.bound as i32);
        if d == 0 {
            self.if_feature.outcome(s1, before, heights, tops, after, x, y, z, r, seed_after)
        } else {
            self.else_feature.outcome(s1, before, heights, tops, after, x, y, z, r, seed_after)
        }
    }

    /// Draws in `[0; bound[`: on 0 the first feature, else the other one.
    fn generate<L: LevelView>(&self, level: &mut L, rand: &mut JavaRandom, x: i32, y: i32, z: i32) -> (r: bool) {
        if next_int_bounded(rand, self.bound as i32) == 0 {
            self.if_feature.generate(level, rand, x, y, z)
        } else {
            self.else_feature.generate(level, rand, x, y, z)
        }
    }

}

/// The number of trees of a population chunk: the biome's count, plus one one time in ten.
pub struct TreeRepeatCount(pub u16);

impl TreeRepeatCount {

    /// The count for a draw in `[0; 10[`: one more tree when the draw is 0.
    pub fn count_for_draw(&self, draw: i32) -> (r: u16)
        requires
            self.0 < u16::MAX,
        ensures
            r == (if draw == 0 { self.0 + 1 } else { self.0 as int }),
    {
        if draw == 0 {
            self.0 + 1
        } else {
            self.0
        }
    }

}

impl RepeatCount for TreeRepeatCount {

    open spec fn count_ok(&self) -> bool {
        self.0 < u16::MAX
    }

    open spec fn may_count(&self, n: u16) -> bool {
        n == self.0 || n == self.0 + 1
    }

    /// One more tree when a draw in `[0; 10[` gives 0.
    open spec fn count_draw(&self, s: i64) -> (u16, i64) {
        let (d, s1) = int_draw(s, 10);
        ((if d == 0 { self.0 + 1 } else { self.0 as int }) as u16, s1)
    }

    fn can_count(&self) -> (r: bool) {
        self.0 < u16::MAX
    }

    /// Draws in `[0; 10[`: one more tree on 0.
    fn get_count(&self, rand: &mut JavaRandom) -> (r: u16) {
        let draw = next_int_bounded(rand, 10);
        self.count_for_draw(draw)
    }

}

} // verus!
