//! The common tree feature (oak, birch, swamp and jungle trees), as release 1.2 grows it.

use vstd::prelude::*;

use crate::feature::{Heights, TopSubChunks};

use crate::java::JavaRandom;

use crate::java::{next_int_bounded, int_draw};
use crate::view::{LevelView, LevelShape, level_shape, FeatureBlock, Wood, VineSide, leaves_spec, log_spec, non_solid_spec};
use super::{Feature, holds_columns_around};
use super::distrib::block_or_air_spec;

verus! {

/// Height generator for trees: constant (`i32`), one random draw, or two.
pub trait TreeHeight {

    /// The generator can draw.
    spec fn valid(&self) -> bool;

    /// The smallest height it gives.
    spec fn min_height(&self) -> int;

    /// The largest height it gives.
    spec fn max_height(&self) -> int;

    /// The height drawn from the generator state `s`, and the state after the draws.
    spec fn draw_height(&self, s: i64) -> (i32, i64);

    /// Whether the generator can draw, heights from 4 up to 0x1000.
    fn can_grow(&self) -> (r: bool)
        ensures
            r == (self.valid() && 4 <= self.min_height() && self.max_height() <= 0x1000),
    ;

    fn gen(&self, rand: &mut JavaRandom) -> (r: i32)
        requires
            self.valid(),
        ensures
            self.min_height() <= r <= self.max_height(),
            (r, final(rand)@) == self.draw_height(old(rand)@),
    ;

}

impl TreeHeight for i32 {

    open spec fn valid(&self) -> bool {
        true
    }

    open spec fn min_height(&self) -> int {
        *self as int
    }

    open spec fn max_height(&self) -> int {
        *self as int
    }

    /// The height itself, with no draw.
    open spec fn draw_height(&self, s: i64) -> (i32, i64) {
        (*self, s)
    }

    fn can_grow(&self) -> (r: bool) {
        4 <= *self && *self <= 0x1000
    }

    fn gen(&self, rand: &mut JavaRandom) -> (r: i32) {
        *self
    }

}

/// A random tree height: an offset plus a draw below a bound.
pub struct RandomTreeHeight {
    pub offset: i32,
    pub bound: i32,
}

impl RandomTreeHeight {
    pub fn new(offset: i32, bound: i32) -> (r: Self)
        ensures
            r.offset == offset,
            r.bound == bound,
    {
        RandomTreeHeight { offset, bound }
    }
}

impl TreeHeight for RandomTreeHeight {

    open spec fn valid(&self) -> bool {
        self.bound > 0 && self.offset + self.bound - 1 <= i32::MAX
    }

    open spec fn min_height(&self) -> int {
        self.offset as int
    }

    open spec fn max_height(&self) -> int {
        self.offset + self.bound - 1
    }

    /// The offset plus a draw below the bound.
    open spec fn draw_height(&self, s: i64) -> (i32, i64) {
        let (d, s1) = int_draw(s, self.bound);
        ((self.offset + d) as i32, s1)
    }

    fn can_grow(&self) -> (r: bool) {
        self.bound > 0 && self.offset as i64 + self.bound as i64 - 1 <= i32::MAX as i64 && 4 <= self.offset
            && self.offset as i64 + self.bound as i64 - 1 <= 0x1000
    }

    fn gen(&self, rand: &mut JavaRandom) -> (r: i32) {
        self.offset + next_int_bounded(rand, self.bound)
    }

}

/// A double random tree height: an offset plus two draws below their bounds.
pub struct DoubleRandomTreeHeight {
    pub offset: i32,
    pub bound0: i32,
    pub bound1: i32,
}

impl DoubleRandomTreeHeight {
    pub fn new(offset: i32, bound0: i32, bound1: i32) -> (r: Self)
        ensures
            r.offset == offset,
            r.bound0 == bound0,
            r.bound1 == bound1,
    {
        DoubleRandomTreeHeight { offset, bound0, bound1 }
    }
}

impl TreeHeight for DoubleRandomTreeHeight {

    open spec fn valid(&self) -> bool {
        self.bound0 > 0 && self.bound1 > 0 && self.offset + self.bound0 + self.bound1 - 2 <= i32::MAX
    }

    open spec fn min_height(&self) -> int {
        self.offset as int
    }

    open spec fn max_height(&self) -> int {
        self.offset + self.bound0 + self.bound1 - 2
    }

    /// The offset plus a draw below each bound, in order.
    open spec fn draw_height(&self, s: i64) -> (i32, i64) {
        let (a, s1) = int_draw(s, self.bound0);
        let (b, s2) = int_draw(s1, self.bound1);
        ((self.offset + a + b) as i32, s2)
    }

    fn can_grow(&self) -> (r: bool) {
        self.bound0 > 0 && self.bound1 > 0 && self.offset as i64 + self.bound0 as i64 + self.bound1 as i64 - 2 <= i32::MAX as i64
            && 4 <= self.offset && self.offset as i64 + self.bound0 as i64 + self.bound1 as i64 - 2 <= 0x1000
    }

    fn gen(&self, rand: &mut JavaRandom) -> (r: i32) {
        let a = next_int_bounded(rand, self.bound0);
        let b = next_int_bounded(rand, self.bound1);
        self.offset + a + b
    }

}

/// The log and leaves of a tree.
pub struct TreePalette {
    pub log: FeatureBlock,
    pub leaves: FeatureBlock,
}

impl TreePalette {

    pub fn new(wood: Wood) -> (r: Self)
        ensures
            r.log == FeatureBlock::Log(wood),
            r.leaves == FeatureBlock::Leaves(wood),
    {
        TreePalette { log: FeatureBlock::Log(wood), leaves: FeatureBlock::Leaves(wood) }
    }

    /// The leaves of the palette at the distance `distance` of a log. The blocks of the
    /// features hold leaves at distance 1 only, which every tree asks for.
    pub fn get_leaves(&self, distance: u8) -> (r: FeatureBlock)
        requires
            distance == 1,
        ensures
            r == self.leaves,
    {
        self.leaves
    }

    pub fn new_oak() -> (r: Self)
        ensures
            r.log == FeatureBlock::Log(Wood::Oak),
            r.leaves == FeatureBlock::Leaves(Wood::Oak),
    {
        Self::new(Wood::Oak)
    }

    pub fn new_birch() -> (r: Self)
        ensures
            r.log == FeatureBlock::Log(Wood::Birch),
            r.leaves == FeatureBlock::Leaves(Wood::Birch),
    {
        Self::new(Wood::Birch)
    }

    pub fn new_spruce() -> (r: Self)
        ensures
            r.log == FeatureBlock::Log(Wood::Spruce),
            r.leaves == FeatureBlock::Leaves(Wood::Spruce),
    {
        Self::new(Wood::Spruce)
    }

    pub fn new_jungle() -> (r: Self)
        ensures
            r.log == FeatureBlock::Log(Wood::Jungle),
            r.leaves == FeatureBlock::Leaves(Wood::Jungle),
    {
        Self::new(Wood::Jungle)
    }

}

/// A kind of tree, for the position validation and the leaves shape.
#[derive(Clone, Copy, Debug, PartialEq, Eq, Structural)]
pub enum TreeKind {
    Default,
    /// Position validation is less strict.
    Forest,
    /// Tree crown is wider and position validation includes water, also adds vines
    /// falling from the leaves.
    Swamp,
    /// Adds vines falling from the leaves and on the trunk.
    Jungle,
}

/// The columns a tree at `x`/`z` may read and change: 5 blocks around it on X and Z.
pub open spec fn tree_window(x: i32, z: i32, p: (i32, i32, i32)) -> bool {
    x - 5 <= p.0 <= x + 5 && z - 5 <= p.2 <= z + 5
}

/// A coordinate with room for a tree around it.
pub open spec fn tree_coord_ok(c: i32) -> bool {
    i32::MIN + 16 <= c <= i32::MAX - 16
}

/// The view holds the positions of the tree's columns from 0 to 255.
pub open spec fn holds_tree_columns(blocks: Map<(i32, i32, i32), FeatureBlock>, x: i32, z: i32) -> bool {
    forall|p: (i32, i32, i32)| tree_window(x, z, p) && 0 <= p.1 < 256 ==> #[trigger] blocks.contains_key(p)
}

/// The view holds the tree's columns from 0 to 255.
pub open spec fn holds_tree_window(shape: LevelShape, x: i32, z: i32) -> bool {
    forall|p: (i32, i32, i32)| tree_window(x, z, p) && 0 <= p.1 < 256 ==> #[trigger] shape.contains(p)
}

/// The blocks changed only in the tree's columns, and the view holds the same positions.
pub open spec fn changed_in_window(a: Map<(i32, i32, i32), FeatureBlock>, b: Map<(i32, i32, i32), FeatureBlock>, x: i32, z: i32) -> bool {
    &&& b.dom() == a.dom()
    &&& forall|p: (i32, i32, i32)| #[trigger] b.contains_key(p) && !tree_window(x, z, p) ==> b[p] == a[p]
}

/// The radius a tree of the given kind and height at `y` needs at the height `dy`.
pub open spec fn tree_fits_radius(kind: TreeKind, y: int, height: int, dy: int) -> int {
    if dy >= y + height - 1 {
        if kind == TreeKind::Swamp { 3 } else { 2 }
    } else if dy == y {
        0
    } else {
        1
    }
}

/// `p` is among the blocks a tree of the given kind and height at `x`/`y`/`z` needs.
pub open spec fn tree_fits_cell(kind: TreeKind, x: i32, y: i32, z: i32, height: i32, p: (i32, i32, i32)) -> bool {
    let r = tree_fits_radius(kind, y as int, height as int, p.1 as int);
    y <= p.1 <= y + height + 1 && x - r <= p.0 <= x + r && z - r <= p.2 <= z + r
}

/// A tree of the given kind can grow through the block, `base` telling whether it is at
/// the height of the tree's base.
pub open spec fn tree_block_ok(kind: TreeKind, b: FeatureBlock, base: bool) -> bool {
    b == FeatureBlock::Air || leaves_spec(b) || match kind {
        TreeKind::Default | TreeKind::Jungle => b == FeatureBlock::GrassBlock || b == FeatureBlock::Dirt || log_spec(b),
        TreeKind::Forest => false,
        TreeKind::Swamp => b == FeatureBlock::Water && base,
    }
}

/// A tree of the given kind and height fits at `x`/`y`/`z`: its blocks are below
/// `max_y`, and those the view holds can be grown through.
pub open spec fn tree_fits_spec(kind: TreeKind, blocks: Map<(i32, i32, i32), FeatureBlock>, x: i32, y: i32, z: i32, height: i32,
    max_y: i32) -> bool {
    &&& y + height + 1 < max_y
    &&& forall|p: (i32, i32, i32)| tree_fits_cell(kind, x, y, z, height, p) && #[trigger] blocks.contains_key(p)
        ==> tree_block_ok(kind, blocks[p], p.1 == y)
}

/// `base` is where a tree of the given kind asked for at `x`/`y`/`z` stands: `y`, or
/// for swamp trees the bottom of the water column under `y`.
pub open spec fn tree_base(kind: TreeKind, blocks: Map<(i32, i32, i32), FeatureBlock>, x: i32, y: i32, z: i32, base: i32) -> bool {
    if kind == TreeKind::Swamp {
        &&& base <= y
        &&& forall|k: i32| base <= k < y ==> #[trigger] block_or_air_spec(blocks, (x, k, z)) == FeatureBlock::Water
        &&& !(base > i32::MIN + 1 && block_or_air_spec(blocks, (x, (base - 1) as i32, z)) == FeatureBlock::Water)
    } else {
        base == y
    }
}

/// A tree of the given kind and height, asked for at `x`/`y`/`z`, grows from `base`: it
/// fits there below 256 (128 for swamp trees), on grass or dirt or in water.
pub open spec fn tree_grows_at(kind: TreeKind, blocks: Map<(i32, i32, i32), FeatureBlock>, x: i32, y: i32, z: i32, base: i32,
    h: i32) -> bool {
    let max_y: i32 = if kind == TreeKind::Swamp { 128 } else { 256 };
    let ground = block_or_air_spec(blocks, (x, (base - 1) as i32, z));
    &&& 1 <= base
    &&& base + h + 1 <= max_y
    &&& tree_fits_spec(kind, blocks, x, base, z, h, max_y)
    &&& (ground == FeatureBlock::GrassBlock || ground == FeatureBlock::Dirt || base < y)
    &&& base < max_y - h - 1
}

/// The trunk rows `lo` to `hi` (excluded) of the column `x`/`z` that were air or leaves
/// in `before` hold the log in `after`.
pub open spec fn trunk_grown(before: Map<(i32, i32, i32), FeatureBlock>, after: Map<(i32, i32, i32), FeatureBlock>,
    log: FeatureBlock, x: i32, z: i32, lo: int, hi: int) -> bool {
    forall|k: i32| lo <= k < hi && (before[(x, k, z)] == FeatureBlock::Air || leaves_spec(before[(x, k, z)]))
        ==> #[trigger] after[(x, k, z)] == log
}

/// The radius of the crown layer `top_diff` blocks (0 to -3) from the top, around a
/// crown of base radius `base_radius`: one more in the two lower layers.
pub open spec fn crown_radius(base_radius: int, top_diff: int) -> int {
    if top_diff <= -2 { base_radius + 1 } else { base_radius }
}

/// The block `p` of the crown layers `top - 3` to `top` around `x`/`z` gets leaves where
/// it is non solid: off the corners of its layer's square, or on a corner whose draw keeps
/// it; the layers draw their corners in turn from the state `s`, four draws each.
pub open spec fn crown_kept(s: i64, x: i32, z: i32, base_radius: int, top: int, p: (i32, i32, i32)) -> bool {
    let radius = crown_radius(base_radius, p.1 - top) as i32;
    !square_corner(x, z, radius, p)
        || corner_kept(bit_draws(s, (4 * (p.1 - (top - 3))) as nat), x, z, radius, Corners::Random((p.1 - top) as i32), p)
}

/// The crown of the layers `top - 3` to `top` around `x`/`z`, its corners drawn from the
/// state `s`, grew in `after`: in each layer's square, off the trunk below the top, a non
/// solid block of `before` that `crown_kept` keeps holds `leaves`; every other block stays,
/// or, with `vines`, turns from air into a vine.
pub open spec fn crown_grown(before: Map<(i32, i32, i32), FeatureBlock>, after: Map<(i32, i32, i32), FeatureBlock>,
    leaves: FeatureBlock, x: i32, z: i32, base_radius: int, top: int, s: i64, vines: bool) -> bool {
    forall|p: (i32, i32, i32)| #[trigger] before.contains_key(p) && top - 3 <= p.1 <= top
        && in_layer(x, p.1, z, crown_radius(base_radius, p.1 - top) as i32, p)
        && !(p.0 == x && p.2 == z && p.1 < top)
        ==> if crown_kept(s, x, z, base_radius, top, p) && non_solid_spec(before[p]) {
            after[p] == leaves
        } else {
            after[p] == before[p] || (vines && before[p] == FeatureBlock::Air && after[p] is Vine)
        }
}

/// Draws in `[0; 2[` compose: `a` then `b` of them are `a + b`.
pub proof fn lemma_bit_draws_add(s: i64, a: nat, b: nat)
    ensures
        bit_draws(bit_draws(s, a), b) == bit_draws(s, a + b),
    decreases b,
{
    if b > 0 {
        lemma_bit_draws_add(s, a, (b - 1) as nat);
    }
}

/// The common tree feature, used for well-known tree shapes (oak, birch, jungle, swamp).
pub struct TreeFeature<H> {
    pub palette: TreePalette,
    pub height: H,
    pub kind: TreeKind,
}

impl<H: TreeHeight> TreeFeature<H> {
    pub fn new(palette: TreePalette, height: H, kind: TreeKind) -> (r: Self)
        ensures
            r.palette == palette,
            r.height == height,
            r.kind == kind,
    {
        TreeFeature { palette, height, kind }
    }
}

impl TreeFeature<RandomTreeHeight> {

    pub fn new_oak() -> (r: Self)
        ensures
            r.palette.log == FeatureBlock::Log(Wood::Oak),
            r.palette.leaves == FeatureBlock::Leaves(Wood::Oak),
            r.height.offset == 4,
            r.height.bound == 3,
            r.kind == TreeKind::Default,
    {
        Self::new(TreePalette::new_oak(), RandomTreeHeight::new(4, 3), TreeKind::Default)
    }

    pub fn new_forest_birch() -> (r: Self)
        ensures
            r.palette.log == FeatureBlock::Log(Wood::Birch),
            r.palette.leaves == FeatureBlock::Leaves(Wood::Birch),
            r.height.offset == 5,
            r.height.bound == 3,
            r.kind == TreeKind::Forest,
    {
        Self::new(TreePalette::new_birch(), RandomTreeHeight::new(5, 3), TreeKind::Forest)
    }

    pub fn new_swamp() -> (r: Self)
        ensures
            r.palette.log == FeatureBlock::Log(Wood::Oak),
            r.palette.leaves == FeatureBlock::Leaves(Wood::Oak),
            r.height.offset == 5,
            r.height.bound == 4,
            r.kind == TreeKind::Swamp,
    {
        Self::new(TreePalette::new_oak(), RandomTreeHeight::new(5, 4), TreeKind::Swamp)
    }

}

impl TreeFeature<DoubleRandomTreeHeight> {

    pub fn new_jungle() -> (r: Self)
        ensures
            r.palette.log == FeatureBlock::Log(Wood::Jungle),
            r.palette.leaves == FeatureBlock::Leaves(Wood::Jungle),
            r.height.offset == 4,
            r.height.bound0 == 7,
            r.height.bound1 == 3,
            r.kind == TreeKind::Jungle,
    {
        Self::new(TreePalette::new_jungle(), DoubleRandomTreeHeight::new(4, 7, 3), TreeKind::Jungle)
    }

}

/// The view holds the same positions and still holds the tree's columns.
proof fn lemma_window_kept(start: Map<(i32, i32, i32), FeatureBlock>, now: Map<(i32, i32, i32), FeatureBlock>, x: i32, z: i32)
    requires
        holds_tree_columns(start, x, z),
        changed_in_window(start, now, x, z),
    ensures
        holds_tree_columns(now, x, z),
{
    assert forall|p: (i32, i32, i32)| tree_window(x, z, p) && 0 <= p.1 < 256 implies #[trigger] now.contains_key(p) by {
        assert(start.contains_key(p));
    }
}

/// Sets a block in the tree's columns.
fn set_in_window<L: LevelView>(level: &mut L, x: i32, z: i32, p: (i32, i32, i32), block: FeatureBlock)
    requires
        old(level).wf(),
        tree_window(x, z, p),
        old(level).blocks().contains_key(p),
    ensures
        final(level).wf(),
        final(level).blocks() == old(level).blocks().insert(p, block),
        final(level).blocks().dom() == old(level).blocks().dom(),
        forall|q: (i32, i32, i32)| q != p ==> #[trigger] final(level).blocks().contains_key(q) == old(level).blocks().contains_key(q)
            && (final(level).blocks().contains_key(q) ==> final(level).blocks()[q] == old(level).blocks()[q]),
{
    let _ = level.set_block_at(p.0, p.1, p.2, block);
    assert(level.blocks().dom() =~= old(level).blocks().dom());
}

/// The block at a position the view holds.
fn block_at<L: LevelView>(level: &L, p: (i32, i32, i32)) -> (r: FeatureBlock)
    requires
        level.wf(),
        level.blocks().contains_key(p),
    ensures
        r == level.blocks()[p],
{
    level.get_block_at(p.0, p.1, p.2).unwrap()
}

/// The block at a position, air where the view holds none.
fn block_or_air<L: LevelView>(level: &L, p: (i32, i32, i32)) -> (r: FeatureBlock)
    requires
        level.wf(),
    ensures
        r == (if level.blocks().contains_key(p) { level.blocks()[p] } else { FeatureBlock::Air }),
{
    match level.get_block_at(p.0, p.1, p.2) {
        Some(b) => b,
        None => FeatureBlock::Air,
    }
}

/// How the corners of a layer of leaves are decided.
#[derive(Clone, Copy, Debug, PartialEq, Eq, Structural)]
pub enum Corners {
    /// Kept when a draw in `[0; 2[` gives 1 and the layer is not the top one (the
    /// given difference of its height with the top is not 0); the draw is made anyway.
    Random(i32),
    /// Always kept, or never.
    Fixed(bool),
}

/// `p` is a corner of the square of the given radius around `x`/`z`.
pub open spec fn square_corner(x: i32, z: i32, radius: i32, p: (i32, i32, i32)) -> bool {
    (p.0 == x - radius || p.0 == x + radius) && (p.2 == z - radius || p.2 == z + radius)
}

/// `p` is in the square of the given radius around `x`/`z`, at the height `y`.
pub open spec fn in_layer(x: i32, y: i32, z: i32, radius: i32, p: (i32, i32, i32)) -> bool {
    p.1 == y && x - radius <= p.0 <= x + radius && z - radius <= p.2 <= z + radius
}

/// The generator state after `n` draws in `[0; 2[` from `s`.
pub open spec fn bit_draws(s: i64, n: nat) -> i64
    decreases n,
{
    if n == 0 { s } else { int_draw(bit_draws(s, (n - 1) as nat), 2).1 }
}

/// `a`/`b` comes before `bx`/`bz` when walking X then Z.
pub open spec fn walked_before(a: int, b: int, bx: int, bz: int) -> int {
    if a < bx || (a == bx && b < bz) { 1 } else { 0 }
}

/// The number of corners of the square of radius `radius` around `x`/`z` walked before
/// `bx`/`bz`, X then Z (a square of radius 0 has one corner).
pub open spec fn corners_before(x: i32, z: i32, radius: i32, bx: int, bz: int) -> int {
    if radius == 0 {
        walked_before(x as int, z as int, bx, bz)
    } else {
        walked_before(x - radius, z - radius, bx, bz) + walked_before(x - radius, z + radius, bx, bz)
            + walked_before(x + radius, z - radius, bx, bz) + walked_before(x + radius, z + radius, bx, bz)
    }
}

/// The corner `p` of a layer whose first draw is made from the state `s` is kept: by
/// `Fixed`, or, with `Random`, when its draw in `[0; 2[` gives 1 and the layer is not the
/// top one.
pub open spec fn corner_kept(s: i64, x: i32, z: i32, radius: i32, corners: Corners, p: (i32, i32, i32)) -> bool {
    match corners {
        Corners::Fixed(b) => b,
        Corners::Random(top_diff) => int_draw(bit_draws(s, corners_before(x, z, radius, p.0 as int, p.2 as int) as nat), 2).0 != 0
            && top_diff != 0,
    }
}

/// The generator state after a layer whose first draw is made from `s`: one draw per
/// corner with `Random`, none with `Fixed`.
pub open spec fn layer_draws(s: i64, radius: i32, corners: Corners) -> i64 {
    match corners {
        Corners::Fixed(_) => s,
        Corners::Random(_) => bit_draws(s, if radius == 0 { 1 } else { 4 }),
    }
}

/// What a layer of leaves drawn from the state `s` does to the block `before` at `p`,
/// giving `after`: in the square, a non solid block that is not a corner, or a kept
/// corner, becomes `state`; every other block stays.
pub open spec fn leaves_layer_step(s: i64, before: FeatureBlock, after: FeatureBlock, x: i32, y: i32, z: i32, radius: i32,
    state: FeatureBlock, corners: Corners, p: (i32, i32, i32)) -> bool {
    let kept = !square_corner(x, z, radius, p) || corner_kept(s, x, z, radius, corners, p);
    after == (if in_layer(x, y, z, radius, p) && kept && non_solid_spec(before) { state } else { before })
}

/// A horizontal layer of leaves: a square of the given radius around `x`/`z` whose
/// corners are kept as `corners` decides; only non solid blocks are replaced.
pub fn generate_leaves_layer<L: LevelView>(level: &mut L, rand: &mut JavaRandom, x: i32, y: i32, z: i32, radius: i32, state: FeatureBlock, corners: Corners)
    requires
        old(level).wf(),
        0 <= radius <= 5,
        tree_coord_ok(x),
        tree_coord_ok(z),
        0 <= y < 256,
        holds_tree_columns(old(level).blocks(), x, z),
    ensures
        final(level).wf(),
        changed_in_window(old(level).blocks(), final(level).blocks(), x, z),
        forall|p: (i32, i32, i32)| #[trigger] old(level).blocks().contains_key(p)
            ==> leaves_layer_step(old(rand)@, old(level).blocks()[p], final(level).blocks()[p], x, y, z, radius, state, corners, p),
        final(rand)@ == layer_draws(old(rand)@, radius, corners),
{
    let ghost start = level.blocks();
    let ghost s0 = rand@;
    let mut bx = x - radius;
    while bx <= x + radius
        invariant
            x - radius <= bx <= x + radius + 1,
            0 <= radius <= 5,
            tree_coord_ok(x),
            tree_coord_ok(z),
            0 <= y < 256,
            level.wf(),
            holds_tree_columns(start, x, z),
            changed_in_window(start, level.blocks(), x, z),
            forall|p: (i32, i32, i32)| #[trigger] start.contains_key(p) ==> if in_layer(x, y, z, radius, p) && p.0 < bx {
                leaves_layer_step(s0, start[p], level.blocks()[p], x, y, z, radius, state, corners, p)
            } else {
                level.blocks()[p] == start[p]
            },
            rand@ == (if corners is Random { bit_draws(s0, corners_before(x, z, radius, bx as int, z - radius) as nat) } else { s0 }),
        decreases x + radius + 1 - bx,
    {
        let dx = if bx >= x { bx - x } else { x - bx };
        let mut bz = z - radius;
        while bz <= z + radius
            invariant
                x - radius <= bx <= x + radius,
                z - radius <= bz <= z + radius + 1,
                0 <= radius <= 5,
                dx == (if bx >= x { bx - x } else { x - bx }),
                tree_coord_ok(x),
                tree_coord_ok(z),
                0 <= y < 256,
                level.wf(),
                holds_tree_columns(start, x, z),
                changed_in_window(start, level.blocks(), x, z),
                forall|p: (i32, i32, i32)| #[trigger] start.contains_key(p) ==> if in_layer(x, y, z, radius, p)
                    && (p.0 < bx || (p.0 == bx && p.2 < bz)) {
                    leaves_layer_step(s0, start[p], level.blocks()[p], x, y, z, radius, state, corners, p)
                } else {
                    level.blocks()[p] == start[p]
                },
                rand@ == (if corners is Random { bit_draws(s0, corners_before(x, z, radius, bx as int, bz as int) as nat) } else { s0 }),
            decreases z + radius + 1 - bz,
        {
            let dz = if bz >= z { bz - z } else { z - bz };
            let ghost sb = rand@;
            assert(square_corner(x, z, radius, (bx, y, bz)) <==> (dx == radius && dz == radius));
            let keep = dx != radius || dz != radius || match corners {
                Corners::Random(top_diff) => next_int_bounded(rand, 2) != 0 && top_diff != 0,
                Corners::Fixed(b) => b,
            };
            proof {
                lemma_window_kept(start, level.blocks(), x, z);
                assert(start.contains_key((bx, y, bz)));
            }
            proof {
                if corners is Random {
                    if dx == radius && dz == radius {
                        assert(corners_before(x, z, radius, bx as int, bz + 1) == corners_before(x, z, radius, bx as int, bz as int) + 1);
                        assert(rand@ == bit_draws(s0, (corners_before(x, z, radius, bx as int, bz as int) + 1) as nat));
                    } else {
                        assert(corners_before(x, z, radius, bx as int, bz + 1) == corners_before(x, z, radius, bx as int, bz as int));
                    }
                }
                assert(keep == (!square_corner(x, z, radius, (bx, y, bz)) || corner_kept(s0, x, z, radius, corners, (bx, y, bz))));
            }
            if keep {
                let current = block_at(level, (bx, y, bz));
                if current.non_solid() {
                    set_in_window(level, x, z, (bx, y, bz), state);
                }
            }
            bz = bz + 1;
        }
        assert(corners_before(x, z, radius, bx as int, z + radius + 1) == corners_before(x, z, radius, bx + 1, z - radius));
        bx = bx + 1;
    }
    assert(corners_before(x, z, radius, x + radius + 1, z - radius) == if radius == 0 { 1int } else { 4int });
}

/// The air below `vx`/`vy`/`vz` goes down at least `k` blocks: the `k` blocks under it
/// are held and are air.
pub open spec fn air_below(blocks: Map<(i32, i32, i32), FeatureBlock>, vx: i32, vy: i32, vz: i32, k: int) -> bool {
    forall|j: int| 1 <= j <= k ==> #[trigger] blocks.contains_key((vx, (vy - j) as i32, vz))
        && blocks[(vx, (vy - j) as i32, vz)] == FeatureBlock::Air
}

/// The falling vines from `vx`/`vy`/`vz` reach `p`: it is one of the 5 blocks of the
/// column from there down, and the air goes down to it.
pub open spec fn vine_reaches(blocks: Map<(i32, i32, i32), FeatureBlock>, vx: i32, vy: i32, vz: i32, p: (i32, i32, i32)) -> bool {
    p.0 == vx && p.2 == vz && vy - 5 < p.1 <= vy && air_below(blocks, vx, vy, vz, vy - p.1)
}

/// A column of falling vines from `vx`/`vy`/`vz` down: up to 5 blocks, while the block
/// below is air (the column stops where the view holds no block below).
pub fn generate_falling_vines<L: LevelView>(level: &mut L, x: i32, z: i32, vx: i32, vy: i32, vz: i32, state: FeatureBlock)
    requires
        old(level).wf(),
        tree_window(x, z, (vx, vy, vz)),
        0 <= vy < 256,
        holds_tree_columns(old(level).blocks(), x, z),
    ensures
        final(level).wf(),
        changed_in_window(old(level).blocks(), final(level).blocks(), x, z),
        forall|p: (i32, i32, i32)| #[trigger] old(level).blocks().contains_key(p) ==> final(level).blocks()[p]
            == (if vine_reaches(old(level).blocks(), vx, vy, vz, p) { state } else { old(level).blocks()[p] }),
{
    let ghost start = level.blocks();
    let mut cy = vy;
    let mut i: usize = 0;
    let mut done = false;
    while i < 5 && !done
        invariant
            i <= 5,
            cy == vy - i,
            tree_window(x, z, (vx, vy, vz)),
            0 <= vy < 256,
            level.wf(),
            holds_tree_columns(start, x, z),
            changed_in_window(start, level.blocks(), x, z),
            !done ==> level.blocks().contains_key((vx, cy, vz)),
            !done ==> air_below(start, vx, vy, vz, i as int),
            done ==> !air_below(start, vx, vy, vz, i as int),
            forall|p: (i32, i32, i32)| #[trigger] start.contains_key(p) ==> level.blocks()[p]
                == (if vy - i < p.1 && vine_reaches(start, vx, vy, vz, p) { state } else { start[p] }),
        decreases 5 - i,
    {
        proof {
            lemma_window_kept(start, level.blocks(), x, z);
        }
        set_in_window(level, x, z, (vx, cy, vz), state);
        cy = cy - 1;
        let below = level.get_block_at(vx, cy, vz);
        proof {
            if start.contains_key((vx, cy, vz)) {
                assert(level.blocks()[(vx, cy, vz)] == start[(vx, cy, vz)]);
            }
        }
        match below {
            Some(b) => {
                if b == FeatureBlock::Air {
                    proof {
                        assert forall|j: int| 1 <= j <= i + 1 implies #[trigger] start.contains_key((vx, (vy - j) as i32, vz))
                            && start[(vx, (vy - j) as i32, vz)] == FeatureBlock::Air by {
                            if j <= i {
                                assert(air_below(start, vx, vy, vz, i as int));
                                assert(start.contains_key((vx, (vy - j) as i32, vz)));
                            } else {
                                assert((vy - j) as i32 == cy);
                                assert(level.blocks().contains_key((vx, cy, vz)));
                                assert(start.dom().contains((vx, cy, vz)));
                                assert(level.blocks()[(vx, cy, vz)] == start[(vx, cy, vz)]);
                                assert(start[(vx, cy, vz)] == FeatureBlock::Air);
                            }
                        }
                        assert(air_below(start, vx, vy, vz, i + 1));
                    }
                }
                if b != FeatureBlock::Air {
                    done = true;
                    proof {
                        assert(!(start.contains_key((vx, (vy - (i + 1)) as i32, vz)) && start[(vx, (vy - (i + 1)) as i32, vz)] == FeatureBlock::Air));
                    }
                }
            },
            None => {
                done = true;
            },
        }
        i = i + 1;
    }
    proof {
        assert forall|p: (i32, i32, i32)| #[trigger] start.contains_key(p) && vine_reaches(start, vx, vy, vz, p) implies vy - i < p.1 by {
            if p.1 <= vy - i {
                if done {
                    let k = vy - p.1;
                    assert(air_below(start, vx, vy, vz, k));
                    assert(!air_below(start, vx, vy, vz, i as int));
                }
            }
        }
    }
}

/// Falling vines from an air block change only air blocks, into vines.
proof fn lemma_vines_on_air(
    start: Map<(i32, i32, i32), FeatureBlock>,
    cur: Map<(i32, i32, i32), FeatureBlock>,
    new: Map<(i32, i32, i32), FeatureBlock>,
    vx: i32,
    vy: i32,
    vz: i32,
    state: FeatureBlock,
)
    requires
        state is Vine,
        cur.contains_key((vx, vy, vz)),
        cur[(vx, vy, vz)] == FeatureBlock::Air,
        cur.dom() == start.dom(),
        forall|p: (i32, i32, i32)| #[trigger] cur.contains_key(p) ==> new[p]
            == (if vine_reaches(cur, vx, vy, vz, p) { state } else { cur[p] }),
        forall|p: (i32, i32, i32)| #[trigger] start.contains_key(p) ==> cur[p] == start[p]
            || (start[p] == FeatureBlock::Air && cur[p] is Vine),
    ensures
        forall|p: (i32, i32, i32)| #[trigger] start.contains_key(p) ==> new[p] == start[p]
            || (start[p] == FeatureBlock::Air && new[p] is Vine),
{
    assert forall|p: (i32, i32, i32)| #[trigger] start.contains_key(p) implies new[p] == start[p]
        || (start[p] == FeatureBlock::Air && new[p] is Vine) by {
        assert(cur.contains_key(p));
        if vine_reaches(cur, vx, vy, vz, p) && p.1 < vy {
            let k = vy - p.1;
            assert(cur.contains_key((vx, (vy - k) as i32, vz)));
            assert((vx, (vy - k) as i32, vz) == p);
        }
    }
}

impl<H: TreeHeight> TreeFeature<H> {

    /// The tree of the given height fits at `x`/`y`/`z`: the blocks of its trunk and crown
    /// (the crown starting two blocks below the top, wider for swamp trees) are air,
    /// leaves, or what the kind of tree accepts: grass, dirt or logs for default and
    /// jungle trees, nothing for forest trees, water at the base for swamp trees.
    fn fits<L: LevelView>(&self, level: &L, x: i32, y: i32, z: i32, height: i32, max_y: i32) -> (r: bool)
        requires
            level.wf(),
            tree_coord_ok(x),
            tree_coord_ok(z),
            1 <= y,
            4 <= height,
            y + height + 1 <= max_y <= 256,
        ensures
            r == tree_fits_spec(self.kind, level.blocks(), x, y, z, height, max_y),
    {
        let ghost blocks = level.blocks();
        let is_swamp = self.kind == TreeKind::Swamp;
        let mut dy = y;
        while dy <= y + height + 1
            invariant
                y <= dy <= y + height + 2,
                dy <= max_y,
                tree_coord_ok(x),
                tree_coord_ok(z),
                1 <= y,
                4 <= height,
                y + height + 1 <= max_y <= 256,
                level.wf(),
                level.blocks() == blocks,
                is_swamp == (self.kind == TreeKind::Swamp),
                forall|p: (i32, i32, i32)| tree_fits_cell(self.kind, x, y, z, height, p) && p.1 < dy && #[trigger] blocks.contains_key(p)
                    ==> tree_block_ok(self.kind, blocks[p], p.1 == y),
            decreases y + height + 2 - dy,
        {
            let mut radius: i32 = 1;
            if dy == y {
                radius = 0;
            }
            if dy >= y + height - 1 {
                radius = if is_swamp { 3 } else { 2 };
            }
            let mut dx = x - radius;
            while dx <= x + radius
                invariant
                    x - radius <= dx <= x + radius + 1,
                    dx > x - radius ==> dy < max_y,
                    0 <= radius <= 3,
                    radius == tree_fits_radius(self.kind, y as int, height as int, dy as int),
                    y <= dy <= y + height + 1,
                    tree_coord_ok(x),
                    tree_coord_ok(z),
                    1 <= y,
                    y + height + 1 <= max_y <= 256,
                    level.wf(),
                    level.blocks() == blocks,
                    forall|p: (i32, i32, i32)| tree_fits_cell(self.kind, x, y, z, height, p) && p.1 < dy && #[trigger] blocks.contains_key(p)
                        ==> tree_block_ok(self.kind, blocks[p], p.1 == y),
                    forall|p: (i32, i32, i32)| p.1 == dy && x - radius <= p.0 < dx && z - radius <= p.2 <= z + radius
                        && #[trigger] blocks.contains_key(p) ==> tree_block_ok(self.kind, blocks[p], p.1 == y),
                decreases x + radius + 1 - dx,
            {
                let mut dz = z - radius;
                while dz <= z + radius
                    invariant
                        x - radius <= dx <= x + radius,
                        z - radius <= dz <= z + radius + 1,
                        dx > x - radius || dz > z - radius ==> dy < max_y,
                        0 <= radius <= 3,
                        radius == tree_fits_radius(self.kind, y as int, height as int, dy as int),
                        y <= dy <= y + height + 1,
                        tree_coord_ok(x),
                        tree_coord_ok(z),
                        1 <= y,
                        y + height + 1 <= max_y <= 256,
                        level.wf(),
                        level.blocks() == blocks,
                        forall|p: (i32, i32, i32)| tree_fits_cell(self.kind, x, y, z, height, p) && p.1 < dy && #[trigger] blocks.contains_key(p)
                            ==> tree_block_ok(self.kind, blocks[p], p.1 == y),
                        forall|p: (i32, i32, i32)| p.1 == dy && x - radius <= p.0 < dx && z - radius <= p.2 <= z + radius
                            && #[trigger] blocks.contains_key(p) ==> tree_block_ok(self.kind, blocks[p], p.1 == y),
                        forall|p: (i32, i32, i32)| p.1 == dy && p.0 == dx && z - radius <= p.2 < dz
                            && #[trigger] blocks.contains_key(p) ==> tree_block_ok(self.kind, blocks[p], p.1 == y),
                    decreases z + radius + 1 - dz,
                {
                    if dy >= 0 && dy < max_y {
                        match level.get_block_at(dx, dy, dz) {
                            Some(block) => {
                                if block != FeatureBlock::Air && !block.is_leaves() {
                                    match self.kind {
                                        TreeKind::Default | TreeKind::Jungle => {
                                            if block != FeatureBlock::GrassBlock && block != FeatureBlock::Dirt && !block.is_log() {
                                                assert(tree_fits_cell(self.kind, x, y, z, height, (dx, dy, dz)));
                                                return false;
                                            }
                                        },
                                        TreeKind::Forest => {
                                            assert(tree_fits_cell(self.kind, x, y, z, height, (dx, dy, dz)));
                                            return false;
                                        },
                                        TreeKind::Swamp => {
                                            if block == FeatureBlock::Water {
                                                if dy > y {
                                                    assert(tree_fits_cell(self.kind, x, y, z, height, (dx, dy, dz)));
                                                    return false;
                                                }
                                            } else {
                                                assert(tree_fits_cell(self.kind, x, y, z, height, (dx, dy, dz)));
                                                return false;
                                            }
                                        },
                                    }
                                }
                            },
                            None => {},
                        }
                    } else {
                        return false;
                    }
                    dz = dz + 1;
                }
                dx = dx + 1;
            }
            dy = dy + 1;
        }
        true
    }

    /// Generates the tree at `x`/`y`/`z` (swamp trees first sink through the water under
    /// them). Returns whether it was generated; when not, the level is left as it was.
    /// When it was: dirt under its base, logs in its trunk below the crown, leaves in the
    /// crown's layers off their corners.
    pub fn generate<L: LevelView>(&self, level: &mut L, rand: &mut JavaRandom, x: i32, y: i32, z: i32) -> (r: bool)
        requires
            old(level).wf(),
            self.height.valid(),
            4 <= self.height.min_height(),
            self.height.max_height() <= 0x1000,
            tree_coord_ok(x),
            tree_coord_ok(z),
            holds_tree_columns(old(level).blocks(), x, z),
        ensures
            final(level).wf(),
            changed_in_window(old(level).blocks(), final(level).blocks(), x, z),
            !r ==> final(level).blocks() == old(level).blocks(),
            r && self.kind != TreeKind::Swamp ==> y + self.height.min_height() + 1 <= 256
                && (old(level).blocks()[(x, (y - 1) as i32, z)] == FeatureBlock::GrassBlock
                    || old(level).blocks()[(x, (y - 1) as i32, z)] == FeatureBlock::Dirt),
            exists|base: i32| tree_base(self.kind, old(level).blocks(), x, y, z, base)
                && r == tree_grows_at(self.kind, old(level).blocks(), x, y, z, base, self.height.draw_height(old(rand)@).0)
                && (r ==> final(level).blocks()[(x, (base - 1) as i32, z)] == FeatureBlock::Dirt
                    && (self.palette.log != FeatureBlock::Air ==> trunk_grown(old(level).blocks(), final(level).blocks(),
                        self.palette.log, x, z, base as int, base + self.height.draw_height(old(rand)@).0 - 3))
                    && (self.palette.leaves != FeatureBlock::Air ==> crown_grown(old(level).blocks(), final(level).blocks(),
                        self.palette.leaves, x, z, if self.kind == TreeKind::Swamp { 2 } else { 1 },
                        base + self.height.draw_height(old(rand)@).0, self.height.draw_height(old(rand)@).1,
                        self.kind == TreeKind::Swamp || self.kind == TreeKind::Jungle))),
            !r ==> final(rand)@ == self.height.draw_height(old(rand)@).1,
            r && self.kind != TreeKind::Swamp && self.kind != TreeKind::Jungle
                ==> final(rand)@ == bit_draws(self.height.draw_height(old(rand)@).1, 16),
    {
        let ghost start = level.blocks();
        let height = self.height.gen(rand);
        let ghost s_h = rand@;
        let ghost vines = self.kind == TreeKind::Swamp || self.kind == TreeKind::Jungle;
        let is_swamp = self.kind == TreeKind::Swamp;
        let mut base = y;
        let mut in_water = false;
        if is_swamp {
            while base > i32::MIN + 1 && block_or_air(level, (x, base - 1, z)) == FeatureBlock::Water
                invariant
                    base <= y,
                    level.blocks() == start,
                    level.wf(),
                    in_water == (base < y),
                    forall|k: i32| base <= k < y ==> #[trigger] block_or_air_spec(start, (x, k, z)) == FeatureBlock::Water,
                decreases base - i32::MIN,
            {
                base = base - 1;
                in_water = true;
            }
        }
        assert(tree_base(self.kind, start, x, y, z, base));
        let max_y: i32 = if is_swamp { 128 } else { 256 };
        if base < 1 || base > max_y - height - 1 {
            assert(!tree_grows_at(self.kind, start, x, y, z, base, height));
            return false;
        }
        if !self.fits(level, x, base, z, height, max_y) {
            assert(!tree_grows_at(self.kind, start, x, y, z, base, height));
            return false;
        }
        let ground = block_or_air(level, (x, base - 1, z));
        if (ground != FeatureBlock::GrassBlock && ground != FeatureBlock::Dirt && !in_water) || base >= max_y - height - 1 {
            assert(!tree_grows_at(self.kind, start, x, y, z, base, height));
            return false;
        }
        assert(tree_grows_at(self.kind, start, x, y, z, base, height));
        set_in_window(level, x, z, (x, base - 1, z), FeatureBlock::Dirt);
        let leaves = self.palette.leaves;
        let log = self.palette.log;
        let base_radius: i32 = if is_swamp { 2 } else { 1 };
        let mut dy = base + height - 3;
        while dy <= base + height
            invariant
                base + height - 3 <= dy <= base + height + 1,
                1 <= base,
                4 <= height,
                base + height + 1 <= 256,
                1 <= base_radius <= 2,
                tree_coord_ok(x),
                tree_coord_ok(z),
                level.wf(),
                holds_tree_columns(start, x, z),
                changed_in_window(start, level.blocks(), x, z),
                level.blocks()[(x, (base - 1) as i32, z)] == FeatureBlock::Dirt,
                forall|k: i32| base <= k < base + height - 3 ==> #[trigger] level.blocks()[(x, k, z)] == start[(x, k, z)],
                leaves == self.palette.leaves,
                base_radius == (if self.kind == TreeKind::Swamp { 2i32 } else { 1i32 }),
                forall|p: (i32, i32, i32)| #[trigger] start.contains_key(p) && dy <= p.1 <= base + height
                    ==> level.blocks()[p] == start[p],
                forall|p: (i32, i32, i32)| #[trigger] start.contains_key(p) && base + height - 3 <= p.1 < dy
                    && in_layer(x, p.1, z, crown_radius(base_radius as int, p.1 - (base + height)) as i32, p)
                    ==> level.blocks()[p] == (if crown_kept(s_h, x, z, base_radius as int, base + height, p)
                        && non_solid_spec(start[p]) { leaves } else { start[p] }),
                rand@ == bit_draws(s_h, (4 * (dy - (base + height - 3))) as nat),
            decreases base + height + 1 - dy,
        {
            let top_diff = dy - (base + height);
            let radius = base_radius - top_diff / 2;
            assert(radius == crown_radius(base_radius as int, top_diff as int));
            proof {
                lemma_window_kept(start, level.blocks(), x, z);
            }
            let ghost before = level.blocks();
            let ghost sl = rand@;
            generate_leaves_layer(level, rand, x, dy, z, radius, leaves, Corners::Random(top_diff));
            proof {
                lemma_bit_draws_add(s_h, (4 * (dy - (base + height - 3))) as nat, 4);
            }
            proof {
                assert(before.contains_key((x, (base - 1) as i32, z)));
                assert forall|k: i32| base <= k < base + height - 3 implies #[trigger] level.blocks()[(x, k, z)] == start[(x, k, z)] by {
                    assert(before.contains_key((x, k, z)));
                }
                assert forall|p: (i32, i32, i32)| #[trigger] start.contains_key(p) && dy + 1 <= p.1 <= base + height
                    implies level.blocks()[p] == start[p] by {
                    assert(before.contains_key(p));
                }
                assert forall|p: (i32, i32, i32)| #[trigger] start.contains_key(p) && base + height - 3 <= p.1 < dy + 1
                    && in_layer(x, p.1, z, crown_radius(base_radius as int, p.1 - (base + height)) as i32, p)
                    implies level.blocks()[p] == (if crown_kept(s_h, x, z, base_radius as int, base + height, p)
                        && non_solid_spec(start[p]) { leaves } else { start[p] }) by {
                    assert(before.contains_key(p));
                    if p.1 == dy {
                        assert(sl == bit_draws(s_h, (4 * (p.1 - (base + height - 3))) as nat));
                    }
                }
            }
            dy = dy + 1;
        }
        assert(crown_grown(start, level.blocks(), leaves, x, z, base_radius as int, base + height, s_h, vines));
        assert(rand@ == bit_draws(s_h, 16));
        let mut dy = base;
        while dy < base + height
            invariant
                base <= dy <= base + height,
                1 <= base,
                4 <= height,
                base + height + 1 <= 256,
                tree_coord_ok(x),
                tree_coord_ok(z),
                level.wf(),
                holds_tree_columns(start, x, z),
                changed_in_window(start, level.blocks(), x, z),
                log == self.palette.log,
                level.blocks()[(x, (base - 1) as i32, z)] == FeatureBlock::Dirt,
                forall|k: i32| dy <= k < base + height - 3 ==> #[trigger] level.blocks()[(x, k, z)] == start[(x, k, z)],
                forall|k: i32| base <= k < dy && k < base + height - 3
                    && (start[(x, k, z)] == FeatureBlock::Air || leaves_spec(start[(x, k, z)]))
                    ==> #[trigger] level.blocks()[(x, k, z)] == log,
                leaves == self.palette.leaves,
                base_radius == (if self.kind == TreeKind::Swamp { 2i32 } else { 1i32 }),
                leaves != FeatureBlock::Air ==> crown_grown(start, level.blocks(), leaves, x, z, base_radius as int, base + height, s_h, vines),
                vines == (self.kind == TreeKind::Swamp || self.kind == TreeKind::Jungle),
                !vines ==> rand@ == bit_draws(s_h, 16),
            decreases base + height - dy,
        {
            proof {
                lemma_window_kept(start, level.blocks(), x, z);
            }
            let ghost before = level.blocks();
            let block = block_at(level, (x, dy, z));
            if block == FeatureBlock::Air || block.is_leaves() || (is_swamp && block == FeatureBlock::Water) {
                set_in_window(level, x, z, (x, dy, z), log);
                if self.kind == TreeKind::Jungle && dy != base {
                    let ghost mid = level.blocks();
                    self.trunk_vines(level, rand, x, dy, z);
                    proof {
                        assert(mid.contains_key((x, (base - 1) as i32, z)));
                        assert forall|k: i32| base <= k < base + height - 3 implies #[trigger] level.blocks()[(x, k, z)] == mid[(x, k, z)] by {
                            assert(mid.contains_key((x, k, z)));
                        }
                    }
                }
            }
            proof {
                assert forall|k: i32| base <= k < dy + 1 && k < base + height - 3
                    && (start[(x, k, z)] == FeatureBlock::Air || leaves_spec(start[(x, k, z)]))
                    implies #[trigger] level.blocks()[(x, k, z)] == log by {
                    if k < dy {
                        assert(before[(x, k, z)] == log);
                    }
                }
            }
            dy = dy + 1;
        }
        if self.kind == TreeKind::Swamp || self.kind == TreeKind::Jungle {
            let mut dy = base + height - 3;
            while dy <= base + height
                invariant
                    base + height - 3 <= dy <= base + height + 1,
                    1 <= base,
                    4 <= height,
                    base + height + 1 <= 256,
                    1 <= base_radius <= 2,
                    tree_coord_ok(x),
                    tree_coord_ok(z),
                    level.wf(),
                    holds_tree_columns(start, x, z),
                    changed_in_window(start, level.blocks(), x, z),
                    log == self.palette.log,
                    level.blocks()[(x, (base - 1) as i32, z)] == FeatureBlock::Dirt,
                    log != FeatureBlock::Air ==> trunk_grown(start, level.blocks(), log, x, z, base as int, base + height - 3),
                    leaves == self.palette.leaves,
                    base_radius == (if self.kind == TreeKind::Swamp { 2i32 } else { 1i32 }),
                    leaves != FeatureBlock::Air ==> crown_grown(start, level.blocks(), leaves, x, z, base_radius as int, base + height, s_h, vines),
                    vines == (self.kind == TreeKind::Swamp || self.kind == TreeKind::Jungle),
                    vines,
                decreases base + height + 1 - dy,
            {
                let top_diff = dy - (base + height);
                let radius = base_radius - top_diff / 2;
                proof {
                    lemma_window_kept(start, level.blocks(), x, z);
                }
                let ghost before = level.blocks();
                self.leaves_vines(level, rand, x, dy, z, radius);
                proof {
                    if leaves != FeatureBlock::Air {
                        assert forall|p: (i32, i32, i32)| #[trigger] start.contains_key(p) && base + height - 3 <= p.1 <= base + height
                            && in_layer(x, p.1, z, crown_radius(base_radius as int, p.1 - (base + height)) as i32, p)
                            && !(p.0 == x && p.2 == z && p.1 < base + height)
                            implies (if crown_kept(s_h, x, z, base_radius as int, base + height, p) && non_solid_spec(start[p]) {
                                level.blocks()[p] == leaves
                            } else {
                                level.blocks()[p] == start[p] || (vines && start[p] == FeatureBlock::Air && level.blocks()[p] is Vine)
                            }) by {
                            assert(before.contains_key(p));
                        }
                    }
                    assert(before.contains_key((x, (base - 1) as i32, z)));
                    if log != FeatureBlock::Air {
                        assert forall|k: i32| base <= k < base + height - 3
                            && (start[(x, k, z)] == FeatureBlock::Air || leaves_spec(start[(x, k, z)]))
                            implies #[trigger] level.blocks()[(x, k, z)] == log by {
                            assert(before.contains_key((x, k, z)));
                            assert(before[(x, k, z)] == log);
                        }
                    }
                }
                dy = dy + 1;
            }
        }
        assert(level.blocks()[(x, (base - 1) as i32, z)] == FeatureBlock::Dirt);
        true
    }

    /// Vines on the four sides of a jungle trunk block, each one time in three where
    /// the block beside is air.
    fn trunk_vines<L: LevelView>(&self, level: &mut L, rand: &mut JavaRandom, x: i32, y: i32, z: i32)
        requires
            old(level).wf(),
            tree_coord_ok(x),
            tree_coord_ok(z),
            0 <= y < 256,
            holds_tree_columns(old(level).blocks(), x, z),
        ensures
            final(level).wf(),
            changed_in_window(old(level).blocks(), final(level).blocks(), x, z),
            forall|p: (i32, i32, i32)| #[trigger] old(level).blocks().contains_key(p) ==> final(level).blocks()[p] == old(level).blocks()[p]
                || (old(level).blocks()[p] == FeatureBlock::Air && final(level).blocks()[p] is Vine
                    && p.1 == y && ((p.0 == x - 1 || p.0 == x + 1) && p.2 == z || p.0 == x && (p.2 == z - 1 || p.2 == z + 1))),
    {
        let ghost start = level.blocks();
        if next_int_bounded(rand, 3) != 0 && block_at(level, (x - 1, y, z)) == FeatureBlock::Air {
            set_in_window(level, x, z, (x - 1, y, z), FeatureBlock::Vine(VineSide::East));
        }
        proof { lemma_window_kept(start, level.blocks(), x, z); }
        if next_int_bounded(rand, 3) != 0 && block_at(level, (x + 1, y, z)) == FeatureBlock::Air {
            set_in_window(level, x, z, (x + 1, y, z), FeatureBlock::Vine(VineSide::West));
        }
        proof { lemma_window_kept(start, level.blocks(), x, z); }
        if next_int_bounded(rand, 3) != 0 && block_at(level, (x, y, z - 1)) == FeatureBlock::Air {
            set_in_window(level, x, z, (x, y, z - 1), FeatureBlock::Vine(VineSide::South));
        }
        proof { lemma_window_kept(start, level.blocks(), x, z); }
        if next_int_bounded(rand, 3) != 0 && block_at(level, (x, y, z + 1)) == FeatureBlock::Air {
            set_in_window(level, x, z, (x, y, z + 1), FeatureBlock::Vine(VineSide::North));
        }
    }

    /// Falling vines from the leaves of a crown layer: beside each leaves block, one time
    /// in four on each side where the block is air.
    fn leaves_vines<L: LevelView>(&self, level: &mut L, rand: &mut JavaRandom, x: i32, y: i32, z: i32, radius: i32)
        requires
            old(level).wf(),
            0 <= radius <= 3,
            tree_coord_ok(x),
            tree_coord_ok(z),
            0 <= y < 256,
            holds_tree_columns(old(level).blocks(), x, z),
        ensures
            final(level).wf(),
            changed_in_window(old(level).blocks(), final(level).blocks(), x, z),
            forall|p: (i32, i32, i32)| #[trigger] old(level).blocks().contains_key(p) ==> final(level).blocks()[p] == old(level).blocks()[p]
                || (old(level).blocks()[p] == FeatureBlock::Air && final(level).blocks()[p] is Vine),
    {
        let ghost start = level.blocks();
        let mut dx = x - radius;
        while dx <= x + radius
            invariant
                x - radius <= dx <= x + radius + 1,
                0 <= radius <= 3,
                tree_coord_ok(x),
                tree_coord_ok(z),
                0 <= y < 256,
                level.wf(),
                holds_tree_columns(start, x, z),
                changed_in_window(start, level.blocks(), x, z),
                forall|p: (i32, i32, i32)| #[trigger] start.contains_key(p) ==> level.blocks()[p] == start[p]
                    || (start[p] == FeatureBlock::Air && level.blocks()[p] is Vine),
            decreases x + radius + 1 - dx,
        {
            let mut dz = z - radius;
            while dz <= z + radius
                invariant
                    x - radius <= dx <= x + radius,
                    z - radius <= dz <= z + radius + 1,
                    0 <= radius <= 3,
                    tree_coord_ok(x),
                    tree_coord_ok(z),
                    0 <= y < 256,
                    level.wf(),
                    holds_tree_columns(start, x, z),
                    changed_in_window(start, level.blocks(), x, z),
                    forall|p: (i32, i32, i32)| #[trigger] start.contains_key(p) ==> level.blocks()[p] == start[p]
                        || (start[p] == FeatureBlock::Air && level.blocks()[p] is Vine),
                decreases z + radius + 1 - dz,
            {
                proof { lemma_window_kept(start, level.blocks(), x, z); }
                if block_at(level, (dx, y, dz)).is_leaves() {
                    if next_int_bounded(rand, 4) == 0 && block_at(level, (dx - 1, y, dz)) == FeatureBlock::Air {
                        let ghost cur = level.blocks();
                        generate_falling_vines(level, x, z, dx - 1, y, dz, FeatureBlock::Vine(VineSide::East));
                        proof { lemma_vines_on_air(start, cur, level.blocks(), (dx - 1) as i32, y, dz, FeatureBlock::Vine(VineSide::East)); }
                    }
                    proof { lemma_window_kept(start, level.blocks(), x, z); }
                    if next_int_bounded(rand, 4) == 0 && block_at(level, (dx + 1, y, dz)) == FeatureBlock::Air {
                        let ghost cur = level.blocks();
                        generate_falling_vines(level, x, z, dx + 1, y, dz, FeatureBlock::Vine(VineSide::West));
                        proof { lemma_vines_on_air(start, cur, level.blocks(), (dx + 1) as i32, y, dz, FeatureBlock::Vine(VineSide::West)); }
                    }
                    proof { lemma_window_kept(start, level.blocks(), x, z); }
                    if next_int_bounded(rand, 4) == 0 && block_at(level, (dx, y, dz - 1)) == FeatureBlock::Air {
                        let ghost cur = level.blocks();
                        generate_falling_vines(level, x, z, dx, y, dz - 1, FeatureBlock::Vine(VineSide::South));
                        proof { lemma_vines_on_air(start, cur, level.blocks(), dx, y, (dz - 1) as i32, FeatureBlock::Vine(VineSide::South)); }
                    }
                    proof { lemma_window_kept(start, level.blocks(), x, z); }
                    if next_int_bounded(rand, 4) == 0 && block_at(level, (dx, y, dz + 1)) == FeatureBlock::Air {
                        let ghost cur = level.blocks();
                        generate_falling_vines(level, x, z, dx, y, dz + 1, FeatureBlock::Vine(VineSide::North));
                        proof { lemma_vines_on_air(start, cur, level.blocks(), dx, y, (dz + 1) as i32, FeatureBlock::Vine(VineSide::North)); }
                    }
                }
                dz = dz + 1;
            }
            dx = dx + 1;
        }
    }

}

/// `p` is among the blocks a taiga tree of the given height at `x`/`y`/`z` needs: its
/// trunk below `crown_offset` above the base, its crown of radius `max_radius` above.
pub open spec fn taiga_fits_cell(x: i32, y: i32, z: i32, height: i32, crown_offset: i32, max_radius: i32, p: (i32, i32, i32)) -> bool {
    let r = if p.1 < y + crown_offset { 0 } else { max_radius as int };
    y <= p.1 <= y + height + 1 && x - r <= p.0 <= x + r && z - r <= p.2 <= z + r
}

/// A taiga tree can grow through the block: air or leaves.
pub open spec fn taiga_block_ok(b: FeatureBlock) -> bool {
    b == FeatureBlock::Air || leaves_spec(b)
}

/// A taiga tree of the given height and crown fits at `x`/`y`/`z`: its blocks are below
/// `max_y` and are air or leaves.
pub open spec fn taiga_fits_spec(blocks: Map<(i32, i32, i32), FeatureBlock>, x: i32, y: i32, z: i32, height: i32,
    crown_offset: i32, max_radius: i32, max_y: i32) -> bool {
    &&& y + height + 1 < max_y
    &&& forall|p: (i32, i32, i32)| taiga_fits_cell(x, y, z, height, crown_offset, max_radius, p) ==> taiga_block_ok(#[trigger] blocks[p])
}

/// The drawn crown of a taiga tree of height `h`: for spruces, an offset of 1 or 2 and
/// a radius of 2 or 3; for pines, a crown of 3 or 4 blocks at the top, of a radius from 1
/// to one more than its height.
pub open spec fn taiga_draws_ok(layered: bool, h: i32, crown_offset: i32, max_radius: i32) -> bool {
    if layered {
        1 <= crown_offset <= 2 && 2 <= max_radius <= 3
    } else {
        h - 4 <= crown_offset <= h - 3 && 1 <= max_radius <= h - crown_offset + 1
    }
}

/// A taiga tree of height `h` and the given crown grows at `x`/`y`/`z`: it fits there
/// below 256 (128 for pines), on grass or dirt.
pub open spec fn taiga_grows_at(layered: bool, blocks: Map<(i32, i32, i32), FeatureBlock>, x: i32, y: i32, z: i32, h: i32,
    crown_offset: i32, max_radius: i32) -> bool {
    let max_y: i32 = if layered { 256 } else { 128 };
    let ground = block_or_air_spec(blocks, (x, (y - 1) as i32, z));
    &&& 1 <= y
    &&& y + h + 1 <= max_y
    &&& taiga_fits_spec(blocks, x, y, z, h, crown_offset, max_radius, max_y)
    &&& (ground == FeatureBlock::GrassBlock || ground == FeatureBlock::Dirt)
    &&& y < max_y - h - 1
}

/// The radius, the largest radius so far and whether the second crown started, at the
/// crown layer `n` blocks under the top of a taiga tree whose top layer has the radius
/// `r0` and whose crown spans `span` blocks above its lowest layer: spruce layers widen
/// up to the largest radius, then start again at 0 (1 after the first time) with a
/// larger largest radius, up to `max_radius`; pine layers widen up to `max_radius`,
/// the lowest one narrowing by one.
pub open spec fn taiga_layer(layered: bool, max_radius: int, span: int, r0: int, n: nat) -> (int, int, bool)
    decreases n,
{
    if n == 0 {
        (r0, 1, false)
    } else {
        let (radius, cur, sec) = taiga_layer(layered, max_radius, span, r0, (n - 1) as nat);
        if layered {
            if radius >= cur {
                (if sec { 1 } else { 0 }, if cur + 1 > max_radius { max_radius } else { cur + 1 }, true)
            } else {
                (radius + 1, cur, sec)
            }
        } else if radius >= 1 && span - (n - 1) == 1 {
            (radius - 1, cur, sec)
        } else if radius < max_radius {
            (radius + 1, cur, sec)
        } else {
            (radius, cur, sec)
        }
    }
}

/// The crown of a taiga tree whose top layer is at `top` grew in `after`: each non solid
/// block of `before` in the square of a crown layer, of the radius `taiga_layer` gives,
/// off its corners unless the radius is 0, and off the trunk below the top, holds `leaves`.
pub open spec fn taiga_crown_grown(before: Map<(i32, i32, i32), FeatureBlock>, after: Map<(i32, i32, i32), FeatureBlock>,
    leaves: FeatureBlock, x: i32, z: i32, layered: bool, max_radius: int, top: int, span: int, r0: int) -> bool {
    forall|p: (i32, i32, i32)| #[trigger] before.contains_key(p) && top - span <= p.1 <= top
        && in_layer(x, p.1, z, taiga_layer(layered, max_radius, span, r0, (top - p.1) as nat).0 as i32, p)
        && (!square_corner(x, z, taiga_layer(layered, max_radius, span, r0, (top - p.1) as nat).0 as i32, p)
            || taiga_layer(layered, max_radius, span, r0, (top - p.1) as nat).0 <= 0)
        && !(p.0 == x && p.2 == z && p.1 < top) && non_solid_spec(before[p])
        ==> after[p] == leaves
}

/// A taiga tree feature providing generation of pine and spruce trees.
pub struct TaigaTreeFeature<H> {
    pub palette: TreePalette,
    pub height: H,
    /// Spruces have layered crowns, pines a single one.
    pub layered: bool,
}

impl<H: TreeHeight> TaigaTreeFeature<H> {
    pub fn new(palette: TreePalette, height: H, layered: bool) -> (r: Self)
        ensures
            r.palette == palette,
            r.height == height,
            r.layered == layered,
    {
        TaigaTreeFeature { palette, height, layered }
    }
}

impl TaigaTreeFeature<RandomTreeHeight> {

    pub fn new_spruce() -> (r: Self)
        ensures
            r.palette.log == FeatureBlock::Log(Wood::Spruce),
            r.palette.leaves == FeatureBlock::Leaves(Wood::Spruce),
            r.height.offset == 6,
            r.height.bound == 4,
            r.layered,
    {
        Self::new(TreePalette::new_spruce(), RandomTreeHeight::new(6, 4), true)
    }

    pub fn new_pine() -> (r: Self)
        ensures
            r.palette.log == FeatureBlock::Log(Wood::Spruce),
            r.palette.leaves == FeatureBlock::Leaves(Wood::Spruce),
            r.height.offset == 7,
            r.height.bound == 5,
            !r.layered,
    {
        Self::new(TreePalette::new_spruce(), RandomTreeHeight::new(7, 5), false)
    }

}

impl<H: TreeHeight> TaigaTreeFeature<H> {

    /// The height and crown drawn from the generator state `s`: the height, then for
    /// spruces an offset of 1 plus a draw in `[0; 2[` and a radius of 2 plus a draw in
    /// `[0; 2[`; for pines a crown height of 3 plus a draw in `[0; 2[`, below the top, and a
    /// radius of 1 plus a draw below one more than the crown height.
    pub open spec fn taiga_draws(&self, s: i64) -> (i32, i32, i32) {
        let (h, s1) = self.height.draw_height(s);
        let (a, s2) = int_draw(s1, 2);
        if self.layered {
            (h, (a + 1) as i32, (2 + int_draw(s2, 2).0) as i32)
        } else {
            let ch = a + 3;
            (h, (h - ch) as i32, (1 + int_draw(s2, (ch + 1) as i32).0) as i32)
        }
    }

    /// The generator state after the height and the crown drawn from `s`.
    pub open spec fn taiga_draws_state(&self, s: i64) -> i64 {
        let (h, s1) = self.height.draw_height(s);
        let (a, s2) = int_draw(s1, 2);
        if self.layered { int_draw(s2, 2).1 } else { int_draw(s2, (a + 3 + 1) as i32).1 }
    }

    /// The generator state after a grown tree: for spruces, the top radius and the trunk's
    /// height offset (a draw in `[0; 3[`) are drawn after the crown; pines draw nothing more.
    pub open spec fn taiga_grown_state(&self, s: i64) -> i64 {
        let s3 = self.taiga_draws_state(s);
        if self.layered { int_draw(int_draw(s3, 2).1, 3).1 } else { s3 }
    }

    /// The radius of the top crown layer: for spruces a draw in `[0; 2[` after the crown
    /// drawn from the generator state `s`; 0 for pines.
    pub open spec fn taiga_first_radius(&self, s: i64) -> int {
        let (h, s1) = self.height.draw_height(s);
        let (a, s2) = int_draw(s1, 2);
        if self.layered { int_draw(int_draw(s2, 2).1, 2).0 as int } else { 0 }
    }

    /// The trunk and crown fit at `x`/`y`/`z`: each of their blocks is air or leaves,
    /// the crown (from `crown_offset` above the base) having the radius `max_radius`.
    fn fits<L: LevelView>(level: &L, x: i32, y: i32, z: i32, height: i32, crown_offset: i32, max_radius: i32, max_y: i32) -> (r: bool)
        requires
            level.wf(),
            tree_coord_ok(x),
            tree_coord_ok(z),
            1 <= y,
            4 <= height,
            0 <= crown_offset <= height,
            0 <= max_radius <= 5,
            y + height + 1 <= max_y <= 256,
            holds_tree_columns(level.blocks(), x, z),
        ensures
            r == taiga_fits_spec(level.blocks(), x, y, z, height, crown_offset, max_radius, max_y),
    {
        let ghost blocks = level.blocks();
        let mut dy = y;
        while dy <= y + height + 1
            invariant
                y <= dy <= y + height + 2,
                dy <= max_y,
                tree_coord_ok(x),
                tree_coord_ok(z),
                1 <= y,
                4 <= height,
                0 <= crown_offset <= height,
                0 <= max_radius <= 5,
                y + height + 1 <= max_y <= 256,
                level.wf(),
                level.blocks() == blocks,
                holds_tree_columns(blocks, x, z),
                forall|p: (i32, i32, i32)| taiga_fits_cell(x, y, z, height, crown_offset, max_radius, p) && p.1 < dy
                    ==> taiga_block_ok(#[trigger] blocks[p]),
            decreases y + height + 2 - dy,
        {
            let radius = if dy < y + crown_offset { 0 } else { max_radius };
            let mut dx = x - radius;
            while dx <= x + radius
                invariant
                    x - radius <= dx <= x + radius + 1,
                    dx > x - radius ==> dy < max_y,
                    0 <= radius <= 5,
                    radius == (if dy < y + crown_offset { 0 } else { max_radius }),
                    y <= dy <= y + height + 1,
                    tree_coord_ok(x),
                    tree_coord_ok(z),
                    1 <= y,
                    y + height + 1 <= max_y <= 256,
                    level.wf(),
                    level.blocks() == blocks,
                    holds_tree_columns(blocks, x, z),
                    forall|p: (i32, i32, i32)| taiga_fits_cell(x, y, z, height, crown_offset, max_radius, p) && p.1 < dy
                        ==> taiga_block_ok(#[trigger] blocks[p]),
                    forall|p: (i32, i32, i32)| p.1 == dy && x - radius <= p.0 < dx && z - radius <= p.2 <= z + radius
                        ==> taiga_block_ok(#[trigger] blocks[p]),
                decreases x + radius + 1 - dx,
            {
                let mut dz = z - radius;
                while dz <= z + radius
                    invariant
                        x - radius <= dx <= x + radius,
                        z - radius <= dz <= z + radius + 1,
                        dx > x - radius || dz > z - radius ==> dy < max_y,
                        0 <= radius <= 5,
                        radius == (if dy < y + crown_offset { 0 } else { max_radius }),
                        y <= dy <= y + height + 1,
                        tree_coord_ok(x),
                        tree_coord_ok(z),
                        1 <= y,
                        y + height + 1 <= max_y <= 256,
                        level.wf(),
                        level.blocks() == blocks,
                        holds_tree_columns(blocks, x, z),
                        forall|p: (i32, i32, i32)| taiga_fits_cell(x, y, z, height, crown_offset, max_radius, p) && p.1 < dy
                            ==> taiga_block_ok(#[trigger] blocks[p]),
                        forall|p: (i32, i32, i32)| p.1 == dy && x - radius <= p.0 < dx && z - radius <= p.2 <= z + radius
                            ==> taiga_block_ok(#[trigger] blocks[p]),
                        forall|p: (i32, i32, i32)| p.1 == dy && p.0 == dx && z - radius <= p.2 < dz
                            ==> taiga_block_ok(#[trigger] blocks[p]),
                    decreases z + radius + 1 - dz,
                {
                    if dy >= 0 && dy < max_y {
                        let block = block_at(level, (dx, dy, dz));
                        if block != FeatureBlock::Air && !block.is_leaves() {
                            assert(taiga_fits_cell(x, y, z, height, crown_offset, max_radius, (dx, dy, dz)));
                            return false;
                        }
                    } else {
                        return false;
                    }
                    dz = dz + 1;
                }
                dx = dx + 1;
            }
            dy = dy + 1;
        }
        true
    }

    /// Generates the tree at `x`/`y`/`z`. Returns whether it was generated; when not, the
    /// level is left as it was. When it was: dirt under it, logs in its trunk below the
    /// crown, leaves in its crown's layers.
    pub fn generate<L: LevelView>(&self, level: &mut L, rand: &mut JavaRandom, x: i32, y: i32, z: i32) -> (r: bool)
        requires
            old(level).wf(),
            self.height.valid(),
            4 <= self.height.min_height(),
            self.height.max_height() <= 0x1000,
            tree_coord_ok(x),
            tree_coord_ok(z),
            holds_tree_columns(old(level).blocks(), x, z),
        ensures
            final(level).wf(),
            changed_in_window(old(level).blocks(), final(level).blocks(), x, z),
            !r ==> final(level).blocks() == old(level).blocks(),
            r ==> y + self.height.min_height() + 1 <= 256
                && (old(level).blocks()[(x, (y - 1) as i32, z)] == FeatureBlock::GrassBlock
                    || old(level).blocks()[(x, (y - 1) as i32, z)] == FeatureBlock::Dirt),
            ({
                let (h, crown_offset, max_radius) = self.taiga_draws(old(rand)@);
                &&& taiga_draws_ok(self.layered, h, crown_offset, max_radius)
                &&& r == taiga_grows_at(self.layered, old(level).blocks(), x, y, z, h, crown_offset, max_radius)
                &&& r ==> final(level).blocks()[(x, (y - 1) as i32, z)] == FeatureBlock::Dirt
                    && (self.palette.log != FeatureBlock::Air ==> trunk_grown(old(level).blocks(), final(level).blocks(),
                        self.palette.log, x, z, y as int, y + crown_offset))
                    && taiga_crown_grown(old(level).blocks(), final(level).blocks(), self.palette.leaves, x, z, self.layered,
                        max_radius as int, y + h, h - crown_offset, self.taiga_first_radius(old(rand)@))
            }),
            !r ==> final(rand)@ == self.taiga_draws_state(old(rand)@),
            r ==> final(rand)@ == self.taiga_grown_state(old(rand)@),
    {
        let ghost start = level.blocks();
        let height = self.height.gen(rand);
        let crown_offset: i32;
        let max_radius: i32;
        let max_y: i32;
        let ghost s1 = rand@;
        if self.layered {
            crown_offset = next_int_bounded(rand, 2) + 1;
            max_radius = 2 + next_int_bounded(rand, 2);
            max_y = 256;
        } else {
            let crown_height = next_int_bounded(rand, 2) + 3;
            crown_offset = height - crown_height;
            max_radius = 1 + next_int_bounded(rand, crown_height + 1);
            max_y = 128;
        }
        assert(taiga_draws_ok(self.layered, height, crown_offset, max_radius));
        assert(self.taiga_draws(old(rand)@) == (height, crown_offset, max_radius));
        if y < 1 || y > max_y - height - 1 {
            assert(!taiga_grows_at(self.layered, start, x, y, z, height, crown_offset, max_radius));
            return false;
        }
        if !Self::fits(level, x, y, z, height, crown_offset, max_radius, max_y) {
            assert(!taiga_grows_at(self.layered, start, x, y, z, height, crown_offset, max_radius));
            return false;
        }
        let ground = block_or_air(level, (x, y - 1, z));
        if (ground != FeatureBlock::GrassBlock && ground != FeatureBlock::Dirt) || y >= max_y - height - 1 {
            assert(!taiga_grows_at(self.layered, start, x, y, z, height, crown_offset, max_radius));
            return false;
        }
        assert(taiga_grows_at(self.layered, start, x, y, z, height, crown_offset, max_radius));
        set_in_window(level, x, z, (x, y - 1, z), FeatureBlock::Dirt);
        let leaves = self.palette.leaves;
        let log = self.palette.log;
        let mut radius: i32 = if self.layered { next_int_bounded(rand, 2) } else { 0 };
        let ghost r0 = radius as int;
        let ghost s4 = rand@;
        assert(r0 == self.taiga_first_radius(old(rand)@));
        let mut current_max_radius: i32 = 1;
        let mut secondary_crown = false;
        let mut dy = y + height;
        while dy >= y + crown_offset
            invariant
                rand@ == s4,
                (radius as int, current_max_radius as int, secondary_crown)
                    == taiga_layer(self.layered, max_radius as int, height - crown_offset, r0, (y + height - dy) as nat),
                leaves == self.palette.leaves,
                forall|p: (i32, i32, i32)| #[trigger] start.contains_key(p) && y + crown_offset <= p.1 <= dy
                    ==> level.blocks()[p] == start[p],
                forall|p: (i32, i32, i32)| #[trigger] start.contains_key(p) && dy < p.1 <= y + height
                    && in_layer(x, p.1, z, taiga_layer(self.layered, max_radius as int, height - crown_offset, r0, (y + height - p.1) as nat).0 as i32, p)
                    && (!square_corner(x, z, taiga_layer(self.layered, max_radius as int, height - crown_offset, r0, (y + height - p.1) as nat).0 as i32, p)
                        || taiga_layer(self.layered, max_radius as int, height - crown_offset, r0, (y + height - p.1) as nat).0 <= 0)
                    && non_solid_spec(start[p]) ==> level.blocks()[p] == leaves,
                y + crown_offset - 1 <= dy <= y + height,
                0 <= crown_offset <= height,
                1 <= y,
                4 <= height,
                y + height + 1 <= 256,
                1 <= max_radius <= 5,
                0 <= radius <= max_radius,
                1 <= current_max_radius <= max_radius,
                tree_coord_ok(x),
                tree_coord_ok(z),
                level.wf(),
                holds_tree_columns(start, x, z),
                changed_in_window(start, level.blocks(), x, z),
                level.blocks()[(x, (y - 1) as i32, z)] == FeatureBlock::Dirt,
                forall|k: i32| y <= k < y + crown_offset ==> #[trigger] level.blocks()[(x, k, z)] == start[(x, k, z)],
            decreases dy - (y + crown_offset) + 1,
        {
            proof {
                lemma_window_kept(start, level.blocks(), x, z);
            }
            let ghost before = level.blocks();
            generate_leaves_layer(level, rand, x, dy, z, radius, leaves, Corners::Fixed(radius <= 0));
            if self.layered {
                if radius >= current_max_radius {
                    radius = if secondary_crown { 1 } else { 0 };
                    secondary_crown = true;
                    current_max_radius = current_max_radius + 1;
                    if current_max_radius > max_radius {
                        current_max_radius = max_radius;
                    }
                } else {
                    radius = radius + 1;
                }
            } else {
                if radius >= 1 && dy == y + crown_offset + 1 {
                    radius = radius - 1;
                } else if radius < max_radius {
                    radius = radius + 1;
                }
            }
            proof {
                assert(before.contains_key((x, (y - 1) as i32, z)));
                assert forall|k: i32| y <= k < y + crown_offset implies #[trigger] level.blocks()[(x, k, z)] == start[(x, k, z)] by {
                    assert(before.contains_key((x, k, z)));
                }
                assert forall|p: (i32, i32, i32)| #[trigger] start.contains_key(p) && y + crown_offset <= p.1 <= dy - 1
                    implies level.blocks()[p] == start[p] by {
                    assert(before.contains_key(p));
                }
                assert forall|p: (i32, i32, i32)| #[trigger] start.contains_key(p) && dy - 1 < p.1 <= y + height
                    && in_layer(x, p.1, z, taiga_layer(self.layered, max_radius as int, height - crown_offset, r0, (y + height - p.1) as nat).0 as i32, p)
                    && (!square_corner(x, z, taiga_layer(self.layered, max_radius as int, height - crown_offset, r0, (y + height - p.1) as nat).0 as i32, p)
                        || taiga_layer(self.layered, max_radius as int, height - crown_offset, r0, (y + height - p.1) as nat).0 <= 0)
                    && non_solid_spec(start[p]) implies level.blocks()[p] == leaves by {
                    assert(before.contains_key(p));
                }
            }
            dy = dy - 1;
        }
        assert(taiga_crown_grown(start, level.blocks(), leaves, x, z, self.layered, max_radius as int, y + height, height - crown_offset, r0));
        let log_height_offset = if self.layered { next_int_bounded(rand, 3) } else { 1 };
        assert(crown_offset <= height - log_height_offset);
        let mut dy = y;
        while dy < y + height - log_height_offset
            invariant
                rand@ == (if self.layered { int_draw(s4, 3).1 } else { s4 }),
                y <= dy <= y + height,
                0 <= log_height_offset <= 2,
                0 <= crown_offset <= height - log_height_offset,
                1 <= y,
                4 <= height,
                y + height + 1 <= 256,
                tree_coord_ok(x),
                tree_coord_ok(z),
                level.wf(),
                holds_tree_columns(start, x, z),
                changed_in_window(start, level.blocks(), x, z),
                log == self.palette.log,
                level.blocks()[(x, (y - 1) as i32, z)] == FeatureBlock::Dirt,
                forall|k: i32| dy <= k < y + crown_offset ==> #[trigger] level.blocks()[(x, k, z)] == start[(x, k, z)],
                forall|k: i32| y <= k < dy && k < y + crown_offset
                    && (start[(x, k, z)] == FeatureBlock::Air || leaves_spec(start[(x, k, z)]))
                    ==> #[trigger] level.blocks()[(x, k, z)] == log,
                dy <= y + height - log_height_offset,
                taiga_crown_grown(start, level.blocks(), leaves, x, z, self.layered, max_radius as int, y + height, height - crown_offset, r0),
            decreases y + height - dy,
        {
            proof {
                lemma_window_kept(start, level.blocks(), x, z);
            }
            let ghost before = level.blocks();
            let block = block_at(level, (x, dy, z));
            if block == FeatureBlock::Air || block.is_leaves() {
                set_in_window(level, x, z, (x, dy, z), log);
            }
            proof {
                assert forall|k: i32| y <= k < dy + 1 && k < y + crown_offset
                    && (start[(x, k, z)] == FeatureBlock::Air || leaves_spec(start[(x, k, z)]))
                    implies #[trigger] level.blocks()[(x, k, z)] == log by {
                    if k < dy {
                        assert(before[(x, k, z)] == log);
                    }
                }
            }
            dy = dy + 1;
        }
        true
    }

}

/// A shrub asked for at `x`/`y`/`z` stands above `c`: the first block from `y` down that
/// is not air or leaves, or the block at 0.
pub open spec fn shrub_ground(blocks: Map<(i32, i32, i32), FeatureBlock>, x: i32, y: i32, z: i32, c: i32) -> bool {
    &&& 0 <= c <= y
    &&& forall|k: i32| c < k <= y ==> taiga_block_ok(#[trigger] blocks[(x, k, z)])
    &&& (c == 0 || !taiga_block_ok(blocks[(x, c, z)]))
}

/// Shrub feature for jungles: a log with a small bush of leaves around it, on the
/// ground under the position.
pub struct ShrubFeature {
    pub palette: TreePalette,
}

impl ShrubFeature {

    pub fn new(palette: TreePalette) -> (r: Self)
        ensures
            r.palette == palette,
    {
        ShrubFeature { palette }
    }

    /// A jungle log with oak leaves.
    pub fn new_jungle() -> (r: Self)
        ensures
            r.palette.log == FeatureBlock::Log(Wood::Jungle),
            r.palette.leaves == FeatureBlock::Leaves(Wood::Oak),
    {
        Self::new(TreePalette { log: FeatureBlock::Log(Wood::Jungle), leaves: FeatureBlock::Leaves(Wood::Oak) })
    }

    /// Goes down from `x`/`y`/`z` through air and leaves, then, on dirt or grass, sets the
    /// log and three layers of leaves of radius 2, 1 and 0 whose corners are kept one time
    /// in two. Returns whether the ground was dirt or grass; when not, the level is left
    /// as it was.
    pub fn generate<L: LevelView>(&self, level: &mut L, rand: &mut JavaRandom, x: i32, y: i32, z: i32) -> (r: bool)
        requires
            old(level).wf(),
            tree_coord_ok(x),
            tree_coord_ok(z),
            0 <= y <= 252,
            holds_tree_columns(old(level).blocks(), x, z),
        ensures
            final(level).wf(),
            changed_in_window(old(level).blocks(), final(level).blocks(), x, z),
            !r ==> final(level).blocks() == old(level).blocks(),
            exists|c: i32| shrub_ground(old(level).blocks(), x, y, z, c)
                && r == (old(level).blocks()[(x, c, z)] == FeatureBlock::Dirt || old(level).blocks()[(x, c, z)] == FeatureBlock::GrassBlock),
            !r ==> final(rand)@ == old(rand)@,
            r ==> final(rand)@ == bit_draws(old(rand)@, 9),
    {
        let ghost start = level.blocks();
        let ghost s0 = rand@;
        let mut cy = y;
        loop
            invariant_except_break
                0 <= cy <= y,
                0 <= y <= 252,
                level.wf(),
                level.blocks() == start,
                holds_tree_columns(level.blocks(), x, z),
                forall|k: i32| cy < k <= y ==> taiga_block_ok(#[trigger] start[(x, k, z)]),
            ensures
                1 <= cy <= y + 1,
                level.wf(),
                level.blocks() == start,
                holds_tree_columns(level.blocks(), x, z),
                shrub_ground(start, x, y, z, (cy - 1) as i32),
            decreases cy,
        {
            let block = block_at(level, (x, cy, z));
            if (block == FeatureBlock::Air || block.is_leaves()) && cy > 0 {
                cy = cy - 1;
            } else {
                cy = cy + 1;
                break;
            }
        }
        let ground = block_at(level, (x, cy - 1, z));
        if ground != FeatureBlock::Dirt && ground != FeatureBlock::GrassBlock {
            return false;
        }
        set_in_window(level, x, z, (x, cy, z), self.palette.log);
        let leaves = self.palette.leaves;
        let mut dy = cy;
        while dy <= cy + 2
            invariant
                cy <= dy <= cy + 3,
                1 <= cy <= 253,
                tree_coord_ok(x),
                tree_coord_ok(z),
                level.wf(),
                holds_tree_columns(start, x, z),
                changed_in_window(start, level.blocks(), x, z),
                rand@ == bit_draws(s0, if dy == cy { 0nat } else if dy == cy + 1 { 4nat } else if dy == cy + 2 { 8nat } else { 9nat }),
            decreases cy + 3 - dy,
        {
            proof {
                lemma_window_kept(start, level.blocks(), x, z);
                lemma_bit_draws_add(s0, if dy == cy { 0nat } else if dy == cy + 1 { 4nat } else { 8nat }, if dy == cy + 2 { 1nat } else { 4nat });
            }
            generate_leaves_layer(level, rand, x, dy, z, 2 - (dy - cy), leaves, Corners::Random(1));
            dy = dy + 1;
        }
        true
    }

}

impl<H: TreeHeight> Feature for TreeFeature<H> {

    open spec fn fits_in(&self, shape: LevelShape, x: i32, y: i32, z: i32) -> bool {
        &&& self.height.valid()
        &&& 4 <= self.height.min_height()
        &&& self.height.max_height() <= 0x1000
        &&& tree_coord_ok(x)
        &&& tree_coord_ok(z)
        &&& holds_tree_window(shape, x, z)
    }

    fn fits_over<L: LevelView>(&self, level: &L, lo: (i32, i32, i32), hi: (i32, i32, i32)) -> (r: bool)
        ensures
            lo == hi ==> r == self.fits_in(level_shape(level), lo.0, lo.1, lo.2),
    {
        self.height.can_grow() && i32::MIN + 16 <= lo.0 && hi.0 <= i32::MAX - 16 && i32::MIN + 16 <= lo.2
            && hi.2 <= i32::MAX - 16 && holds_columns_around(level, lo, hi, 5)
    }

    /// Only the tree's columns change, and only when true is returned: whether the tree
    /// of the height drawn from `seed` grows; when it does, dirt under its base, logs in its trunk below the crown
    /// and leaves in its crown.
    open spec fn outcome(&self, seed: i64, before: Map<(i32, i32, i32), FeatureBlock>, heights: Heights, tops: TopSubChunks,
        after: Map<(i32, i32, i32), FeatureBlock>, x: i32, y: i32, z: i32, r: bool, seed_after: i64) -> bool {
        let h = self.height.draw_height(seed).0;
        &&& changed_in_window(before, after, x, z)
        &&& !r ==> after == before
        &&& exists|base: i32| tree_base(self.kind, before, x, y, z, base)
            && r == tree_grows_at(self.kind, before, x, y, z, base, h)
            && (r ==> after[(x, (base - 1) as i32, z)] == FeatureBlock::Dirt
                && (self.palette.log != FeatureBlock::Air ==> trunk_grown(before, after, self.palette.log, x, z, base as int, base + h - 3))
                && (self.palette.leaves != FeatureBlock::Air ==> crown_grown(before, after, self.palette.leaves, x, z,
                    if self.kind == TreeKind::Swamp { 2 } else { 1 }, base + h, self.height.draw_height(seed).1,
                    self.kind == TreeKind::Swamp || self.kind == TreeKind::Jungle)))
        &&& !r ==> seed_after == self.height.draw_height(seed).1
        &&& r && self.kind != TreeKind::Swamp && self.kind != TreeKind::Jungle
            ==> seed_after == bit_draws(self.height.draw_height(seed).1, 16)
    }

    fn generate<L: LevelView>(&self, level: &mut L, rand: &mut JavaRandom, x: i32, y: i32, z: i32) -> (r: bool) {
        TreeFeature::generate(self, level, rand, x, y, z)
    }

}

impl<H: TreeHeight> Feature for TaigaTreeFeature<H> {

    open spec fn fits_in(&self, shape: LevelShape, x: i32, y: i32, z: i32) -> bool {
        &&& self.height.valid()
        &&& 4 <= self.height.min_height()
        &&& self.height.max_height() <= 0x1000
        &&& tree_coord_ok(x)
        &&& tree_coord_ok(z)
        &&& holds_tree_window(shape, x, z)
    }

    fn fits_over<L: LevelView>(&self, level: &L, lo: (i32, i32, i32), hi: (i32, i32, i32)) -> (r: bool)
        ensures
            lo == hi ==> r == self.fits_in(level_shape(level), lo.0, lo.1, lo.2),
    {
        self.height.can_grow() && i32::MIN + 16 <= lo.0 && hi.0 <= i32::MAX - 16 && i32::MIN + 16 <= lo.2
            && hi.2 <= i32::MAX - 16 && holds_columns_around(level, lo, hi, 5)
    }

    /// Only the tree's columns change, and only when true is returned: whether the tree
    /// of the height and crown drawn from `seed` grows; when it does, dirt under it, logs in its trunk below the
    /// crown and leaves in its crown's layers.
    open spec fn outcome(&self, seed: i64, before: Map<(i32, i32, i32), FeatureBlock>, heights: Heights, tops: TopSubChunks,
        after: Map<(i32, i32, i32), FeatureBlock>, x: i32, y: i32, z: i32, r: bool, seed_after: i64) -> bool {
        &&& changed_in_window(before, after, x, z)
        &&& !r ==> after == before
        &&& ({
            let (h, crown_offset, max_radius) = self.taiga_draws(seed);
            &&& r == taiga_grows_at(self.layered, before, x, y, z, h, crown_offset, max_radius)
            &&& r ==> after[(x, (y - 1) as i32, z)] == FeatureBlock::Dirt
                && (self.palette.log != FeatureBlock::Air ==> trunk_grown(before, after, self.palette.log, x, z, y as int, y + crown_offset))
                && taiga_crown_grown(before, after, self.palette.leaves, x, z, self.layered, max_radius as int, y + h,
                    h - crown_offset, self.taiga_first_radius(seed))
        })
        &&& !r ==> seed_after == self.taiga_draws_state(seed)
        &&& r ==> seed_after == self.taiga_grown_state(seed)
    }

    fn generate<L: LevelView>(&self, level: &mut L, rand: &mut JavaRandom, x: i32, y: i32, z: i32) -> (r: bool) {
        TaigaTreeFeature::generate(self, level, rand, x, y, z)
    }

}

impl Feature for ShrubFeature {

    open spec fn fits_in(&self, shape: LevelShape, x: i32, y: i32, z: i32) -> bool {
        tree_coord_ok(x) && tree_coord_ok(z) && holds_tree_window(shape, x, z)
    }

    fn fits_over<L: LevelView>(&self, level: &L, lo: (i32, i32, i32), hi: (i32, i32, i32)) -> (r: bool)
        ensures
            lo == hi ==> r == self.fits_in(level_shape(level), lo.0, lo.1, lo.2),
    {
        i32::MIN + 16 <= lo.0 && hi.0 <= i32::MAX - 16 && i32::MIN + 16 <= lo.2 && hi.2 <= i32::MAX - 16
            && holds_columns_around(level, lo, hi, 5)
    }

    /// Only the shrub's columns change, and only when true is returned; false below 0
    /// and above 252, else whether the ground under the shrub is dirt or grass.
    open spec fn outcome(&self, seed: i64, before: Map<(i32, i32, i32), FeatureBlock>, heights: Heights, tops: TopSubChunks,
        after: Map<(i32, i32, i32), FeatureBlock>, x: i32, y: i32, z: i32, r: bool, seed_after: i64) -> bool {
        &&& changed_in_window(before, after, x, z)
        &&& !r ==> after == before
        &&& !(0 <= y <= 252) ==> !r
        &&& 0 <= y <= 252 ==> exists|c: i32| shrub_ground(before, x, y, z, c)
            && r == (before[(x, c, z)] == FeatureBlock::Dirt || before[(x, c, z)] == FeatureBlock::GrassBlock)
        &&& !r ==> seed_after == seed
        &&& r ==> seed_after == bit_draws(seed, 9)
    }

    /// The shrub, refused below 0 and above 252, where its blocks leave the heights 0 to 255.
    fn generate<L: LevelView>(&self, level: &mut L, rand: &mut JavaRandom, x: i32, y: i32, z: i32) -> (r: bool) {
        if y < 0 || y > 252 {
            return false;
        }
        ShrubFeature::generate(self, level, rand, x, y, z)
    }

}

/// The absolute value of `v`.
pub open spec fn abs_int(v: int) -> int {
    if v < 0 { -v } else { v }
}

/// The main axis (0 for X, 1 for Y, 2 for Z) of a line whose differences along the axes
/// are `d0`, `d1`, `d2`: the first axis of the largest difference in absolute value.
pub open spec fn main_axis(d0: int, d1: int, d2: int) -> int {
    let m = if abs_int(d1) > abs_int(d0) { 1int } else { 0int };
    let dm = if m == 1 { d1 } else { d0 };
    if abs_int(d2) > abs_int(dm) { 2 } else { m }
}

/// The two other axes a line along the main axis `i` steps on, in order.
pub open spec fn axes_after(i: int) -> (int, int) {
    if i == 0 { (2, 1) } else if i == 1 { (0, 2) } else { (0, 1) }
}

/// The axes of a line of blocks from `from` to `to`: its main axis, the two others in
/// the order they are stepped on, and the difference along the main axis.
pub fn line_axes(from: [i32; 3], to: [i32; 3]) -> (r: (usize, usize, usize, i32))
    requires
        forall|i: int| 0 <= i < 3 ==> -i32::MAX <= #[trigger] to@[i] - from@[i] <= i32::MAX,
    ensures
        r.0 == main_axis(to@[0] - from@[0], to@[1] - from@[1], to@[2] - from@[2]),
        r.3 == to@[r.0 as int] - from@[r.0 as int],
        (r.1 as int, r.2 as int) == axes_after(r.0 as int),
{
    assert(-i32::MAX <= to@[0] - from@[0] <= i32::MAX);
    assert(-i32::MAX <= to@[1] - from@[1] <= i32::MAX);
    assert(-i32::MAX <= to@[2] - from@[2] <= i32::MAX);
    let d0 = to[0] - from[0];
    let d1 = to[1] - from[1];
    let d2 = to[2] - from[2];
    let a0 = if d0 < 0 { -d0 } else { d0 };
    let a1 = if d1 < 0 { -d1 } else { d1 };
    let a2 = if d2 < 0 { -d2 } else { d2 };
    let (m, dm, am) = if a1 > a0 { (1usize, d1, a1) } else { (0usize, d0, a0) };
    let (i, d) = if a2 > am { (2usize, d2) } else { (m, dm) };
    let (j, k) = if i == 0 { (2usize, 1usize) } else if i == 1 { (0usize, 2usize) } else { (0usize, 1usize) };
    (i, j, k, d)
}

} // verus!
