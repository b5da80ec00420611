//! The huge jungle tree: a two by two trunk with vines, a crown at its top and branches
//! with smaller crowns. The directions of the branches are drawn as floating point
//! angles, whose block offsets are given to the generation.

use vstd::prelude::*;

use crate::java::JavaRandom;

use crate::java::{next_int_bounded, int_draw, lemma_draw_below_four};
use crate::view::{LevelView, FeatureBlock, Wood, VineSide, leaves_spec, log_spec, non_solid_spec};
use super::tree::{TreeHeight, TreePalette, DoubleRandomTreeHeight, tree_coord_ok, trunk_grown};

verus! {

/// The columns a huge jungle tree at `x`/`z` reads and changes: from 6 blocks before it
/// to 8 blocks after it on X and Z.
pub open spec fn jungle_window(x: i32, z: i32, p: (i32, i32, i32)) -> bool {
    x - 6 <= p.0 <= x + 8 && z - 6 <= p.2 <= z + 8
}

/// The view holds the tree's columns from 0 to 255.
pub open spec fn holds_jungle_columns(blocks: Map<(i32, i32, i32), FeatureBlock>, x: i32, z: i32) -> bool {
    forall|p: (i32, i32, i32)| jungle_window(x, z, p) && 0 <= p.1 < 256 ==> #[trigger] blocks.contains_key(p)
}

/// The blocks changed only in the tree's columns, and the view holds the same positions.
pub open spec fn changed_in_jungle_window(a: Map<(i32, i32, i32), FeatureBlock>, b: Map<(i32, i32, i32), FeatureBlock>, x: i32, z: i32) -> bool {
    &&& b.dom() == a.dom()
    &&& forall|p: (i32, i32, i32)| #[trigger] b.contains_key(p) && !jungle_window(x, z, p) ==> b[p] == a[p]
}

proof fn lemma_jungle_kept(start: Map<(i32, i32, i32), FeatureBlock>, now: Map<(i32, i32, i32), FeatureBlock>, x: i32, z: i32)
    requires
        holds_jungle_columns(start, x, z),
        changed_in_jungle_window(start, now, x, z),
    ensures
        holds_jungle_columns(now, x, z),
{
    assert forall|p: (i32, i32, i32)| jungle_window(x, z, p) && 0 <= p.1 < 256 implies #[trigger] now.contains_key(p) by {
        assert(start.contains_key(p));
    }
}

/// Sets a block in the tree's columns.
fn set_in_jungle<L: LevelView>(level: &mut L, x: i32, z: i32, p: (i32, i32, i32), block: FeatureBlock)
    requires
        old(level).wf(),
        jungle_window(x, z, p),
        old(level).blocks().contains_key(p),
    ensures
        final(level).wf(),
        final(level).blocks() == old(level).blocks().insert(p, block),
        final(level).blocks().dom() == old(level).blocks().dom(),
{
    let _ = level.set_block_at(p.0, p.1, p.2, block);
    assert(level.blocks().dom() =~= old(level).blocks().dom());
}

/// The block at a position the view holds.
fn block_in<L: LevelView>(level: &L, p: (i32, i32, i32)) -> (r: FeatureBlock)
    requires
        level.wf(),
        level.blocks().contains_key(p),
    ensures
        r == level.blocks()[p],
{
    level.get_block_at(p.0, p.1, p.2).unwrap()
}

/// The huge jungle tree's trunk and crown can grow through the block.
pub open spec fn jungle_passable(b: FeatureBlock) -> bool {
    b == FeatureBlock::Air || b == FeatureBlock::GrassBlock || b == FeatureBlock::Dirt || leaves_spec(b) || log_spec(b)
        || b is Sapling
}

/// The radius the huge jungle tree of the given height at `y` needs at the height `by`.
pub open spec fn jungle_fits_radius(y: int, height: int, by: int) -> int {
    if by >= y + height - 1 { 2 } else if by == y { 1 } else { 2 }
}

/// `p` is among the blocks the huge jungle tree of the given height at `x`/`y`/`z` needs.
pub open spec fn jungle_fits_cell(x: i32, y: i32, z: i32, height: i32, p: (i32, i32, i32)) -> bool {
    let r = jungle_fits_radius(y as int, height as int, p.1 as int);
    y <= p.1 <= y + height + 1 && x - r <= p.0 <= x + r && z - r <= p.2 <= z + r
}

/// The huge jungle tree of the given height fits at `x`/`y`/`z`: every block it needs
/// is below 256 and can be grown through.
pub open spec fn jungle_fits_spec(blocks: Map<(i32, i32, i32), FeatureBlock>, x: i32, y: i32, z: i32, height: i32) -> bool {
    &&& y + height + 1 < 256
    &&& forall|p: (i32, i32, i32)| jungle_fits_cell(x, y, z, height, p) ==> jungle_passable(#[trigger] blocks[p])
}

/// A huge jungle tree of height `h` grows at `x`/`y`/`z`: it fits there below 256, on
/// grass or dirt.
pub open spec fn jungle_grows_at(blocks: Map<(i32, i32, i32), FeatureBlock>, x: i32, y: i32, z: i32, h: i32) -> bool {
    let ground = blocks[(x, (y - 1) as i32, z)];
    &&& 1 <= y
    &&& y + h + 1 <= 256
    &&& jungle_fits_spec(blocks, x, y, z, h)
    &&& (ground == FeatureBlock::GrassBlock || ground == FeatureBlock::Dirt)
    &&& y < 256 - h - 1
}

/// The four blocks under the trunk of a huge jungle tree at `x`/`y`/`z` are dirt.
pub open spec fn jungle_dirt(blocks: Map<(i32, i32, i32), FeatureBlock>, x: i32, y: i32, z: i32) -> bool {
    &&& blocks[(x, (y - 1) as i32, z)] == FeatureBlock::Dirt
    &&& blocks[((x + 1) as i32, (y - 1) as i32, z)] == FeatureBlock::Dirt
    &&& blocks[(x, (y - 1) as i32, (z + 1) as i32)] == FeatureBlock::Dirt
    &&& blocks[((x + 1) as i32, (y - 1) as i32, (z + 1) as i32)] == FeatureBlock::Dirt
}

/// The view holds the four blocks under the trunk.
proof fn lemma_dirt_cells_held(blocks: Map<(i32, i32, i32), FeatureBlock>, x: i32, y: i32, z: i32)
    requires
        holds_jungle_columns(blocks, x, z),
        tree_coord_ok(x),
        tree_coord_ok(z),
        1 <= y <= 256,
    ensures
        blocks.contains_key((x, (y - 1) as i32, z)),
        blocks.contains_key(((x + 1) as i32, (y - 1) as i32, z)),
        blocks.contains_key((x, (y - 1) as i32, (z + 1) as i32)),
        blocks.contains_key(((x + 1) as i32, (y - 1) as i32, (z + 1) as i32)),
{
    assert(jungle_window(x, z, ((x + 1) as i32, (y - 1) as i32, z)));
    assert(jungle_window(x, z, (x, (y - 1) as i32, (z + 1) as i32)));
    assert(jungle_window(x, z, ((x + 1) as i32, (y - 1) as i32, (z + 1) as i32)));
    assert(jungle_window(x, z, (x, (y - 1) as i32, z)));
}

/// The huge jungle tree feature.
pub struct HugeJungleTreeFeature<H> {
    pub palette: TreePalette,
    pub height: H,
}

impl<H: TreeHeight> HugeJungleTreeFeature<H> {

    pub fn new(palette: TreePalette, height: H) -> (r: Self)
        ensures
            r.palette == palette,
            r.height == height,
    {
        HugeJungleTreeFeature { palette, height }
    }

}

impl HugeJungleTreeFeature<DoubleRandomTreeHeight> {

    /// Jungle logs and leaves, 10 blocks high plus two draws in `[0; 20[` and `[0; 3[`.
    pub fn new_jungle() -> (r: Self)
        ensures
            r.palette.log == FeatureBlock::Log(Wood::Jungle),
            r.palette.leaves == FeatureBlock::Leaves(Wood::Jungle),
            r.height.offset == 10 && r.height.bound0 == 20 && r.height.bound1 == 3,
    {
        Self::new(
            TreePalette { log: FeatureBlock::Log(Wood::Jungle), leaves: FeatureBlock::Leaves(Wood::Jungle) },
            DoubleRandomTreeHeight::new(10, 20, 3),
        )
    }

}

/// `p` is in the crown of three layers from `cy - 2` to `cy` around `cx`/`cz`, of radius
/// `base_radius + 3` down to `base_radius + 1`, leaning toward the positive X and Z.
pub open spec fn crown_cell(cx: i32, cy: i32, cz: i32, base_radius: i32, p: (i32, i32, i32)) -> bool {
    crown_rel_cell(base_radius as int, p.0 - cx, p.1 - cy, p.2 - cz)
}

/// The cell `lx`/`ly`/`lz`, from the center of the top layer, is in a crown of base radius
/// `br`: in one of the layers `-2` to `0`, of radius `br + 1` less the layer.
pub open spec fn crown_rel_cell(br: int, lx: int, ly: int, lz: int) -> bool {
    let r = br + 1 - ly;
    &&& -2 <= ly <= 0
    &&& -r <= lx <= r + 1
    &&& -r <= lz <= r + 1
    &&& (lx >= 0 || lz >= 0 || lx * lx + lz * lz <= r * r)
    &&& ((lx <= 0 && lz <= 0) || lx * lx + lz * lz <= (r + 1) * (r + 1))
}

/// The generator state `st` after the walk of a crown passed the cell `lx`/`ly`/`lz`:
/// one draw in `[0; 4[` for a cell of the crown.
pub open spec fn crown_walk_step(st: i64, br: int, ly: int, lx: int, lz: int) -> i64 {
    if crown_rel_cell(br, lx, ly, lz) { int_draw(st, 4).1 } else { st }
}

/// The generator state before the walk of a crown of base radius `br`, from the state
/// `s`, reaches the cell `lx`/`ly`/`lz`: layer by layer from the lowest, X then Z over the
/// square from `-r` to `r + 1` of the layer's radius `r`.
pub open spec fn crown_before(s: i64, br: int, ly: int, lx: int, lz: int) -> i64
    decreases ly + 2, lx + (br + 1 - ly), lz + (br + 1 - ly),
{
    let r = br + 1 - ly;
    if lz > -r {
        crown_walk_step(crown_before(s, br, ly, lx, lz - 1), br, ly, lx, lz - 1)
    } else if lx > -r {
        crown_walk_step(crown_before(s, br, ly, lx - 1, r + 1), br, ly, lx - 1, r + 1)
    } else if ly > -2 {
        let r2 = br + 2 - ly;
        crown_walk_step(crown_before(s, br, ly - 1, r2 + 1, r2 + 1), br, ly - 1, r2 + 1, r2 + 1)
    } else {
        s
    }
}

/// The generator state after a crown of base radius `br` drawn from `s`.
pub open spec fn crown_state(s: i64, br: int) -> i64 {
    crown_before(s, br, 1, -br, -br)
}

/// `p` is in the crown away from its edge: within one block less of the radius.
pub open spec fn crown_inner(cx: i32, cy: i32, cz: i32, base_radius: i32, p: (i32, i32, i32)) -> bool {
    let r = base_radius + 1 - (p.1 - cy);
    let dx = p.0 - cx;
    let dz = p.2 - cz;
    crown_cell(cx, cy, cz, base_radius, p) && dx * dx + dz * dz <= (r - 1) * (r - 1)
}

/// `p` is in one of the four columns of the trunk at `x`/`z`.
pub open spec fn jungle_core(x: i32, z: i32, p: (i32, i32, i32)) -> bool {
    (p.0 == x || p.0 == x + 1) && (p.2 == z || p.2 == z + 1)
}

/// The trunk's rows `lo` to `hi` (excluded) grew in `after`: in each of its four columns,
/// the blocks that were air or leaves in `before` hold `log`; the column `x`/`z` goes up
/// to `top`, the three others one less.
pub open spec fn jungle_trunk_grown(before: Map<(i32, i32, i32), FeatureBlock>, after: Map<(i32, i32, i32), FeatureBlock>,
    log: FeatureBlock, x: i32, z: i32, lo: int, hi: int, top: int) -> bool {
    let hi2 = if hi < top - 1 { hi } else { top - 1 };
    &&& trunk_grown(before, after, log, x, z, lo, hi)
    &&& trunk_grown(before, after, log, (x + 1) as i32, z, lo, hi2)
    &&& trunk_grown(before, after, log, (x + 1) as i32, (z + 1) as i32, lo, hi2)
    &&& trunk_grown(before, after, log, x, (z + 1) as i32, lo, hi2)
}

/// The top crown around the trunk at `x`/`z`, drawn from the state `s`, grew in `after`:
/// each non solid block of `before` that `crown_kept` keeps in the crown whose top layer
/// is at `top`, off the trunk below that layer, holds `leaves`.
pub open spec fn jungle_top_crown_grown(before: Map<(i32, i32, i32), FeatureBlock>, after: Map<(i32, i32, i32), FeatureBlock>,
    leaves: FeatureBlock, x: i32, z: i32, top: int, s: i64) -> bool {
    forall|p: (i32, i32, i32)| #[trigger] before.contains_key(p) && crown_kept(s, x, top as i32, z, 2, p)
        && non_solid_spec(before[p]) && !(jungle_core(x, z, p) && p.1 < top)
        ==> after[p] == leaves
}

/// The branches of a huge jungle tree from the generator state `s`, from the height `by`
/// while it is above `lo`: each draws a direction (a draw in `[0; 2^24[`), then its crown
/// of base radius 0, then the next branch's height, 2 plus a draw in `[0; 4[` lower; the
/// direction, height and state its crown is drawn from of each branch, in order, and the
/// state after them.
pub open spec fn jungle_branches(s: i64, lo: int, by: int) -> (Seq<(i32, int, i64)>, i64)
    decreases if by > lo { by - lo } else { 0 },
{
    if by <= lo {
        (Seq::empty(), s)
    } else {
        let (d, s1) = int_draw(s, 0x100_0000);
        let s2 = crown_state(s1, 0);
        let (st, s3) = int_draw(s2, 4);
        proof {
            lemma_draw_below_four(s2);
        }
        let (rest, sf) = jungle_branches(s3, lo, by - 2 - st);
        (seq![(d, by, s1)] + rest, sf)
    }
}

/// The `i`-th log (0 to 4) of the branch of direction `d` at the height `by` is set in
/// `after`, at the offset from `x`/`z` that `log_at` gives, `i / 2` blocks above `by - 3`.
pub open spec fn branch_logged<G: Fn(i32, i32) -> (i32, i32)>(log_at: G, after: Map<(i32, i32, i32), FeatureBlock>,
    log: FeatureBlock, x: i32, z: i32, d: i32, by: int, i: int) -> bool {
    exists|o: (i32, i32)| #[trigger] log_at.ensures((d, i as i32), o)
        && after.contains_key(((x + o.0) as i32, (by - 3 + i / 2) as i32, (z + o.1) as i32))
        && after[((x + o.0) as i32, (by - 3 + i / 2) as i32, (z + o.1) as i32)] == log
}

/// Every block of `a` holding `log` still holds it in `b`.
pub open spec fn logs_kept(a: Map<(i32, i32, i32), FeatureBlock>, b: Map<(i32, i32, i32), FeatureBlock>, log: FeatureBlock) -> bool {
    &&& b.dom() == a.dom()
    &&& forall|q: (i32, i32, i32)| #[trigger] a.contains_key(q) && a[q] == log ==> b[q] == log
}

/// A log of a branch stays where the logs stay.
proof fn lemma_logged_kept<G: Fn(i32, i32) -> (i32, i32)>(log_at: G, a: Map<(i32, i32, i32), FeatureBlock>,
    b: Map<(i32, i32, i32), FeatureBlock>, log: FeatureBlock, x: i32, z: i32, d: i32, by: int, i: int)
    requires
        branch_logged(log_at, a, log, x, z, d, by, i),
        logs_kept(a, b, log),
    ensures
        branch_logged(log_at, b, log, x, z, d, by, i),
{
    let o = choose|o: (i32, i32)| #[trigger] log_at.ensures((d, i as i32), o)
        && a.contains_key(((x + o.0) as i32, (by - 3 + i / 2) as i32, (z + o.1) as i32))
        && a[((x + o.0) as i32, (by - 3 + i / 2) as i32, (z + o.1) as i32)] == log;
    assert(b.contains_key(((x + o.0) as i32, (by - 3 + i / 2) as i32, (z + o.1) as i32)));
}

/// The logs of all the branches `branches` are set in `after`.
pub open spec fn branches_logged<G: Fn(i32, i32) -> (i32, i32)>(log_at: G, after: Map<(i32, i32, i32), FeatureBlock>,
    log: FeatureBlock, x: i32, z: i32, branches: Seq<(i32, int, i64)>) -> bool {
    forall|k: int, i: int| 0 <= k < branches.len() && 0 <= i < 5
        ==> #[trigger] branch_logged(log_at, after, log, x, z, branches[k].0, branches[k].1, i)
}

/// Branch logs stay where the logs stay.
proof fn lemma_branches_kept<G: Fn(i32, i32) -> (i32, i32)>(log_at: G, a: Map<(i32, i32, i32), FeatureBlock>,
    b: Map<(i32, i32, i32), FeatureBlock>, log: FeatureBlock, x: i32, z: i32, branches: Seq<(i32, int, i64)>)
    requires
        branches_logged(log_at, a, log, x, z, branches),
        logs_kept(a, b, log),
    ensures
        branches_logged(log_at, b, log, x, z, branches),
{
    assert forall|k: int, i: int| 0 <= k < branches.len() && 0 <= i < 5
        implies #[trigger] branch_logged(log_at, b, log, x, z, branches[k].0, branches[k].1, i) by {
        lemma_logged_kept(log_at, a, b, log, x, z, branches[k].0, branches[k].1, i);
    }
}

/// The crown of the branch of direction `d` at the height `by`, drawn from the state
/// `s`, grew in `after`, at the offset from `x`/`z` that `crown_at` gives: each of its
/// kept cells from `y` up that was non solid in `start` holds `leaves` or a log.
pub open spec fn branch_crowned<C: Fn(i32) -> (i32, i32)>(crown_at: C, start: Map<(i32, i32, i32), FeatureBlock>,
    after: Map<(i32, i32, i32), FeatureBlock>, leaves: FeatureBlock, log: FeatureBlock, x: i32, y: i32, z: i32,
    d: i32, by: int, s: i64) -> bool {
    exists|o: (i32, i32)| #[trigger] crown_at.ensures((d,), o)
        && forall|p: (i32, i32, i32)| #[trigger] start.contains_key(p) && y <= p.1
            && crown_kept(s, (x + o.0) as i32, by as i32, (z + o.1) as i32, 0, p) && non_solid_spec(start[p])
            ==> after[p] == leaves || after[p] == log
}

/// The crowns of all the branches `branches` grew in `after`.
pub open spec fn branches_crowned<C: Fn(i32) -> (i32, i32)>(crown_at: C, start: Map<(i32, i32, i32), FeatureBlock>,
    after: Map<(i32, i32, i32), FeatureBlock>, leaves: FeatureBlock, log: FeatureBlock, x: i32, y: i32, z: i32,
    branches: Seq<(i32, int, i64)>) -> bool {
    forall|k: int| 0 <= k < branches.len()
        ==> #[trigger] branch_crowned(crown_at, start, after, leaves, log, x, y, z, branches[k].0, branches[k].1, branches[k].2)
}

/// Every block of `a` holding `leaves` or `log` holds one of them in `b`.
pub open spec fn leaves_or_log_kept(a: Map<(i32, i32, i32), FeatureBlock>, b: Map<(i32, i32, i32), FeatureBlock>,
    leaves: FeatureBlock, log: FeatureBlock) -> bool {
    forall|q: (i32, i32, i32)| #[trigger] a.contains_key(q) && (a[q] == leaves || a[q] == log) ==> b[q] == leaves || b[q] == log
}

/// From `y` up, each block of `cur` is the one of `start`, `leaves` or `log`.
pub open spec fn grown_from(start: Map<(i32, i32, i32), FeatureBlock>, cur: Map<(i32, i32, i32), FeatureBlock>,
    leaves: FeatureBlock, log: FeatureBlock, y: i32) -> bool {
    &&& cur.dom() == start.dom()
    &&& forall|q: (i32, i32, i32)| #[trigger] start.contains_key(q) && y <= q.1
        ==> cur[q] == start[q] || cur[q] == leaves || cur[q] == log
}

/// A branch crown stays grown where the leaves and logs stay.
proof fn lemma_crown_kept<C: Fn(i32) -> (i32, i32)>(crown_at: C, start: Map<(i32, i32, i32), FeatureBlock>,
    a: Map<(i32, i32, i32), FeatureBlock>, b: Map<(i32, i32, i32), FeatureBlock>, leaves: FeatureBlock, log: FeatureBlock,
    x: i32, y: i32, z: i32, d: i32, by: int, s: i64)
    requires
        branch_crowned(crown_at, start, a, leaves, log, x, y, z, d, by, s),
        leaves_or_log_kept(a, b, leaves, log),
        a.dom() == start.dom(),
    ensures
        branch_crowned(crown_at, start, b, leaves, log, x, y, z, d, by, s),
{
    let o = choose|o: (i32, i32)| #[trigger] crown_at.ensures((d,), o)
        && forall|p: (i32, i32, i32)| #[trigger] start.contains_key(p) && y <= p.1
            && crown_kept(s, (x + o.0) as i32, by as i32, (z + o.1) as i32, 0, p) && non_solid_spec(start[p])
            ==> a[p] == leaves || a[p] == log;
    assert forall|p: (i32, i32, i32)| #[trigger] start.contains_key(p) && y <= p.1
        && crown_kept(s, (x + o.0) as i32, by as i32, (z + o.1) as i32, 0, p) && non_solid_spec(start[p])
        implies b[p] == leaves || b[p] == log by {
        assert(a.contains_key(p));
    }
}

/// The branch crowns stay grown where the leaves and logs stay.
proof fn lemma_crowns_kept<C: Fn(i32) -> (i32, i32)>(crown_at: C, start: Map<(i32, i32, i32), FeatureBlock>,
    a: Map<(i32, i32, i32), FeatureBlock>, b: Map<(i32, i32, i32), FeatureBlock>, leaves: FeatureBlock, log: FeatureBlock,
    x: i32, y: i32, z: i32, branches: Seq<(i32, int, i64)>)
    requires
        branches_crowned(crown_at, start, a, leaves, log, x, y, z, branches),
        leaves_or_log_kept(a, b, leaves, log),
        a.dom() == start.dom(),
    ensures
        branches_crowned(crown_at, start, b, leaves, log, x, y, z, branches),
{
    assert forall|k: int| 0 <= k < branches.len()
        implies #[trigger] branch_crowned(crown_at, start, b, leaves, log, x, y, z, branches[k].0, branches[k].1, branches[k].2) by {
        lemma_crown_kept(crown_at, start, a, b, leaves, log, x, y, z, branches[k].0, branches[k].1, branches[k].2);
    }
}

/// A step of the trunk keeps the branch crowns grown, when neither the leaves nor the
/// logs are air.
proof fn lemma_core_crowns<C: Fn(i32) -> (i32, i32)>(crown_at: C, start: Map<(i32, i32, i32), FeatureBlock>,
    a: Map<(i32, i32, i32), FeatureBlock>, b: Map<(i32, i32, i32), FeatureBlock>, leaves: FeatureBlock, log: FeatureBlock,
    x: i32, y: i32, z: i32, branches: Seq<(i32, int, i64)>)
    requires
        leaves != FeatureBlock::Air && log != FeatureBlock::Air ==> leaves_or_log_kept(a, b, leaves, log),
        a.dom() == start.dom(),
    ensures
        leaves != FeatureBlock::Air && log != FeatureBlock::Air && branches_crowned(crown_at, start, a, leaves, log, x, y, z, branches)
            ==> branches_crowned(crown_at, start, b, leaves, log, x, y, z, branches),
{
    if leaves != FeatureBlock::Air && log != FeatureBlock::Air && branches_crowned(crown_at, start, a, leaves, log, x, y, z, branches) {
        lemma_crowns_kept(crown_at, start, a, b, leaves, log, x, y, z, branches);
    }
}

/// The crown of a branch, drawn from `s` at the offset `o` that `crown_at` gave for `d`,
/// grows the branch's crown, keeps the leaves and logs and what the blocks grew from.
proof fn lemma_branch_crown<C: Fn(i32) -> (i32, i32)>(crown_at: C, start: Map<(i32, i32, i32), FeatureBlock>,
    a: Map<(i32, i32, i32), FeatureBlock>, b: Map<(i32, i32, i32), FeatureBlock>, leaves: FeatureBlock, log: FeatureBlock,
    x: i32, y: i32, z: i32, d: i32, by: i32, s: i64, o: (i32, i32))
    requires
        crown_at.ensures((d,), o),
        grown_from(start, a, leaves, log, y),
        b.dom() == a.dom(),
        forall|p: (i32, i32, i32)| #[trigger] a.contains_key(p)
            ==> crown_step(s, a[p], b[p], (x + o.0) as i32, by, (z + o.1) as i32, 0, leaves, p),
    ensures
        branch_crowned(crown_at, start, b, leaves, log, x, y, z, d, by as int, s),
        leaves_or_log_kept(a, b, leaves, log),
        grown_from(start, b, leaves, log, y),
{
    assert forall|p: (i32, i32, i32)| #[trigger] start.contains_key(p) && y <= p.1
        && crown_kept(s, (x + o.0) as i32, by as i32, (z + o.1) as i32, 0, p) && non_solid_spec(start[p])
        implies b[p] == leaves || b[p] == log by {
        assert(a.contains_key(p));
        assert(crown_step(s, a[p], b[p], (x + o.0) as i32, by, (z + o.1) as i32, 0, leaves, p));
    }
    assert forall|q: (i32, i32, i32)| #[trigger] a.contains_key(q) && (a[q] == leaves || a[q] == log)
        implies b[q] == leaves || b[q] == log by {
        assert(crown_step(s, a[q], b[q], (x + o.0) as i32, by, (z + o.1) as i32, 0, leaves, q));
    }
    assert forall|q: (i32, i32, i32)| #[trigger] start.contains_key(q) && y <= q.1
        implies b[q] == start[q] || b[q] == leaves || b[q] == log by {
        assert(a.contains_key(q));
        assert(crown_step(s, a[q], b[q], (x + o.0) as i32, by, (z + o.1) as i32, 0, leaves, q));
    }
}

/// Setting a log keeps the leaves and logs and what the blocks grew from.
proof fn lemma_log_set(start: Map<(i32, i32, i32), FeatureBlock>, a: Map<(i32, i32, i32), FeatureBlock>,
    leaves: FeatureBlock, log: FeatureBlock, y: i32, p: (i32, i32, i32))
    requires
        grown_from(start, a, leaves, log, y),
        a.contains_key(p),
    ensures
        leaves_or_log_kept(a, a.insert(p, log), leaves, log),
        grown_from(start, a.insert(p, log), leaves, log, y),
{
    assert(a.insert(p, log).dom() =~= a.dom());
}

/// A step of the trunk that sets a log where there was air or leaves, and vines where
/// there was air, keeps the branch logs.
proof fn lemma_core_logs_kept<G: Fn(i32, i32) -> (i32, i32)>(log_at: G, a: Map<(i32, i32, i32), FeatureBlock>,
    b: Map<(i32, i32, i32), FeatureBlock>, leaves: FeatureBlock, log: FeatureBlock, x: i32, z: i32,
    branches: Seq<(i32, int, i64)>, p: (i32, i32, i32))
    requires
        b.dom() == a.dom(),
        a.contains_key(p),
        b[p] == (if a[p] == FeatureBlock::Air || leaves_spec(a[p]) { log } else { a[p] }),
        forall|q: (i32, i32, i32)| a.contains_key(q) && q != p ==> #[trigger] b[q] == a[q]
            || (a[q] == FeatureBlock::Air && !jungle_core(x, z, q) && b[q] is Vine),
    ensures
        !non_solid_spec(log) && log != FeatureBlock::Air && branches_logged(log_at, a, log, x, z, branches)
            ==> branches_logged(log_at, b, log, x, z, branches),
        leaves != FeatureBlock::Air && log != FeatureBlock::Air ==> leaves_or_log_kept(a, b, leaves, log),
{
    if leaves != FeatureBlock::Air && log != FeatureBlock::Air {
        assert forall|q: (i32, i32, i32)| #[trigger] a.contains_key(q) && (a[q] == leaves || a[q] == log)
            implies b[q] == leaves || b[q] == log by {
            if q != p {
                assert(b[q] == a[q] || (a[q] == FeatureBlock::Air && b[q] is Vine));
            }
        }
    }
    if !non_solid_spec(log) && log != FeatureBlock::Air && branches_logged(log_at, a, log, x, z, branches) {
        assert forall|q: (i32, i32, i32)| #[trigger] a.contains_key(q) && a[q] == log implies b[q] == log by {
            if q != p {
                assert(b[q] == a[q] || (a[q] == FeatureBlock::Air && b[q] is Vine));
            }
        }
        lemma_branches_kept(log_at, a, b, log, x, z, branches);
    }
}

/// The trunk's columns from `y` up hold, where they held air or leaves in `before`, air,
/// leaves or `log` in `after`.
pub open spec fn jungle_core_open(before: Map<(i32, i32, i32), FeatureBlock>, after: Map<(i32, i32, i32), FeatureBlock>,
    log: FeatureBlock, x: i32, y: i32, z: i32) -> bool {
    forall|p: (i32, i32, i32)| #[trigger] before.contains_key(p) && jungle_core(x, z, p) && y <= p.1
        && (before[p] == FeatureBlock::Air || leaves_spec(before[p]))
        ==> after[p] == FeatureBlock::Air || leaves_spec(after[p]) || after[p] == log
}

/// The cell `p` of the crown drawn from the state `s` gets leaves where it is non solid:
/// away from the crown's edge, or on the edge when its draw in `[0; 4[` is not 0.
pub open spec fn crown_kept(s: i64, cx: i32, cy: i32, cz: i32, base_radius: i32, p: (i32, i32, i32)) -> bool {
    crown_cell(cx, cy, cz, base_radius, p) && (crown_inner(cx, cy, cz, base_radius, p)
        || int_draw(crown_before(s, base_radius as int, p.1 - cy, p.0 - cx, p.2 - cz), 4).0 != 0)
}

/// What a crown drawn from the state `s` does to the block `before` at `p`, giving
/// `after`: a non solid block that `crown_kept` keeps becomes `leaves`; every other block
/// stays.
pub open spec fn crown_step(s: i64, before: FeatureBlock, after: FeatureBlock, cx: i32, cy: i32, cz: i32, base_radius: i32,
    leaves: FeatureBlock, p: (i32, i32, i32)) -> bool {
    after == (if crown_kept(s, cx, cy, cz, base_radius, p) && non_solid_spec(before) { leaves } else { before })
}

/// A crown of three layers of leaves from `cy - 2` to `cy` around `cx`/`cz`, of radius
/// `base_radius + 3` down to `base_radius + 1`, leaning toward the positive X and Z:
/// the blocks on the edge are kept three times in four. Only non solid blocks are
/// replaced.
fn generate_crown<L: LevelView>(level: &mut L, rand: &mut JavaRandom, x: i32, z: i32, cx: i32, cy: i32, cz: i32,
    base_radius: i32, leaves: FeatureBlock)
    requires
        old(level).wf(),
        0 <= base_radius <= 2,
        tree_coord_ok(x),
        tree_coord_ok(z),
        x - 6 <= cx - base_radius - 3,
        cx + base_radius + 4 <= x + 8,
        z - 6 <= cz - base_radius - 3,
        cz + base_radius + 4 <= z + 8,
        2 <= cy < 256,
        holds_jungle_columns(old(level).blocks(), x, z),
    ensures
        final(level).wf(),
        changed_in_jungle_window(old(level).blocks(), final(level).blocks(), x, z),
        forall|p: (i32, i32, i32)| #[trigger] old(level).blocks().contains_key(p)
            ==> crown_step(old(rand)@, old(level).blocks()[p], final(level).blocks()[p], cx, cy, cz, base_radius, leaves, p),
        final(rand)@ == crown_state(old(rand)@, base_radius as int),
{
    let ghost start = level.blocks();
    let ghost s0 = rand@;
    let mut by = cy - 2;
    while by <= cy
        invariant
            cy - 2 <= by <= cy + 1,
            0 <= base_radius <= 2,
            tree_coord_ok(x),
            tree_coord_ok(z),
            x - 6 <= cx - base_radius - 3,
            cx + base_radius + 4 <= x + 8,
            z - 6 <= cz - base_radius - 3,
            cz + base_radius + 4 <= z + 8,
            2 <= cy < 256,
            level.wf(),
            holds_jungle_columns(start, x, z),
            changed_in_jungle_window(start, level.blocks(), x, z),
            rand@ == crown_before(s0, base_radius as int, by - cy, -(base_radius + 1 - (by - cy)), -(base_radius + 1 - (by - cy))),
            forall|p: (i32, i32, i32)| #[trigger] start.contains_key(p) ==> if p.1 < by {
                crown_step(s0, start[p], level.blocks()[p], cx, cy, cz, base_radius, leaves, p)
            } else {
                level.blocks()[p] == start[p]
            },
        decreases cy + 1 - by,
    {
        let dy = by - cy;
        let radius = base_radius + 1 - dy;
        assert(radius * radius <= 25 && (radius + 1) * (radius + 1) <= 36 && (radius - 1) * (radius - 1) <= 16) by (nonlinear_arith)
            requires 1 <= radius <= 5;
        let radius_squared = radius * radius;
        let radius_inc_squared = (radius + 1) * (radius + 1);
        let radius_dec_squared = (radius - 1) * (radius - 1);
        let mut bx = cx - radius;
        while bx <= cx + radius + 1
            invariant
                cy - 2 <= by <= cy,
                dy == by - cy,
                radius == base_radius + 1 - dy,
                1 <= radius <= 5,
                radius_squared == radius * radius,
                radius_inc_squared == (radius + 1) * (radius + 1),
                radius_dec_squared == (radius - 1) * (radius - 1),
                cx - radius <= bx <= cx + radius + 2,
                0 <= base_radius <= 2,
                tree_coord_ok(x),
                tree_coord_ok(z),
                x - 6 <= cx - base_radius - 3,
                cx + base_radius + 4 <= x + 8,
                z - 6 <= cz - base_radius - 3,
                cz + base_radius + 4 <= z + 8,
                2 <= cy < 256,
                level.wf(),
                holds_jungle_columns(start, x, z),
                changed_in_jungle_window(start, level.blocks(), x, z),
                rand@ == crown_before(s0, base_radius as int, by - cy, bx - cx, -radius as int),
                forall|p: (i32, i32, i32)| #[trigger] start.contains_key(p) ==> if p.1 < by || (p.1 == by && p.0 < bx) {
                    crown_step(s0, start[p], level.blocks()[p], cx, cy, cz, base_radius, leaves, p)
                } else {
                    level.blocks()[p] == start[p]
                },
            decreases cx + radius + 2 - bx,
        {
            let dx = bx - cx;
            let mut bz = cz - radius;
            while bz <= cz + radius + 1
                invariant
                    cy - 2 <= by <= cy,
                    radius == base_radius + 1 - (by - cy),
                    1 <= radius <= 5,
                    radius_squared == radius * radius,
                    radius_inc_squared == (radius + 1) * (radius + 1),
                    radius_dec_squared == (radius - 1) * (radius - 1),
                    cx - radius <= bx <= cx + radius + 1,
                    dx == bx - cx,
                    cz - radius <= bz <= cz + radius + 2,
                    0 <= base_radius <= 2,
                    tree_coord_ok(x),
                    tree_coord_ok(z),
                    x - 6 <= cx - base_radius - 3,
                    cx + base_radius + 4 <= x + 8,
                    z - 6 <= cz - base_radius - 3,
                    cz + base_radius + 4 <= z + 8,
                    2 <= cy < 256,
                    level.wf(),
                    holds_jungle_columns(start, x, z),
                    changed_in_jungle_window(start, level.blocks(), x, z),
                    rand@ == crown_before(s0, base_radius as int, by - cy, bx - cx, bz - cz),
                    forall|p: (i32, i32, i32)| #[trigger] start.contains_key(p) ==> if p.1 < by || (p.1 == by && (p.0 < bx
                        || (p.0 == bx && p.2 < bz))) {
                        crown_step(s0, start[p], level.blocks()[p], cx, cy, cz, base_radius, leaves, p)
                    } else {
                        level.blocks()[p] == start[p]
                    },
                decreases cz + radius + 2 - bz,
            {
                let dz = bz - cz;
                assert(-6 <= dx <= 6 && -6 <= dz <= 6);
                assert(0 <= dx * dx <= 36 && 0 <= dz * dz <= 36) by (nonlinear_arith)
                    requires -6 <= dx <= 6, -6 <= dz <= 6;
                let dist = dx * dx + dz * dz;
                proof {
                    lemma_jungle_kept(start, level.blocks(), x, z);
                    assert(start.contains_key((bx, by, bz)));
                }
                assert(crown_rel_cell(base_radius as int, dx as int, by - cy, dz as int)
                    == ((dx >= 0 || dz >= 0 || dist <= radius_squared) && ((dx <= 0 && dz <= 0) || dist <= radius_inc_squared)));
                if (dx >= 0 || dz >= 0 || dist <= radius_squared) && ((dx <= 0 && dz <= 0) || dist <= radius_inc_squared) {
                    let draw = next_int_bounded(rand, 4);
                    if draw != 0 || dist <= radius_dec_squared {
                        proof {
                            lemma_jungle_kept(start, level.blocks(), x, z);
                        }
                        let current = block_in(level, (bx, by, bz));
                        if current.non_solid() {
                            set_in_jungle(level, x, z, (bx, by, bz), leaves);
                        }
                    }
                }
                bz = bz + 1;
            }
            assert(crown_before(s0, base_radius as int, by - cy, dx as int, radius + 2)
                == crown_before(s0, base_radius as int, by - cy, dx + 1, -radius as int));
            bx = bx + 1;
        }
        assert(crown_before(s0, base_radius as int, by - cy, radius + 2, -radius as int)
            == crown_before(s0, base_radius as int, by + 1 - cy, -(radius - 1) as int, -(radius - 1) as int));
        by = by + 1;
    }
}

/// Sets the log at `p` when its block is air or leaves; returns whether it did.
fn generate_core_log<L: LevelView>(level: &mut L, x: i32, z: i32, p: (i32, i32, i32), log: FeatureBlock) -> (r: bool)
    requires
        old(level).wf(),
        jungle_window(x, z, p),
        old(level).blocks().contains_key(p),
    ensures
        final(level).wf(),
        changed_in_jungle_window(old(level).blocks(), final(level).blocks(), x, z),
        r == (old(level).blocks()[p] == FeatureBlock::Air || leaves_spec(old(level).blocks()[p])),
        final(level).blocks() == (if r { old(level).blocks().insert(p, log) } else { old(level).blocks() }),
{
    let current = block_in(level, p);
    if current == FeatureBlock::Air || current.is_leaves() {
        set_in_jungle(level, x, z, p, log);
        true
    } else {
        false
    }
}

/// A log of the trunk at `p` where the block is air or leaves, then, when `vines`, vines
/// beside it on its outer sides.
fn grow_core_cell<L: LevelView>(level: &mut L, rand: &mut JavaRandom, x: i32, z: i32, p: (i32, i32, i32), log: FeatureBlock,
    vines: bool, dx_vine: i32, dz_vine: i32, dx_side: VineSide, dz_side: VineSide)
    requires
        old(level).wf(),
        jungle_core(x, z, p),
        0 <= p.1 < 256,
        dx_vine == (if p.0 == x { -1i32 } else { 1i32 }),
        dz_vine == (if p.2 == z { -1i32 } else { 1i32 }),
        tree_coord_ok(x),
        tree_coord_ok(z),
        holds_jungle_columns(old(level).blocks(), x, z),
    ensures
        final(level).wf(),
        changed_in_jungle_window(old(level).blocks(), final(level).blocks(), x, z),
        final(level).blocks()[p] == (if old(level).blocks()[p] == FeatureBlock::Air || leaves_spec(old(level).blocks()[p]) {
            log } else { old(level).blocks()[p] }),
        forall|q: (i32, i32, i32)| old(level).blocks().contains_key(q) && q != p ==> #[trigger] final(level).blocks()[q] == old(level).blocks()[q]
            || (old(level).blocks()[q] == FeatureBlock::Air && !jungle_core(x, z, q) && final(level).blocks()[q] is Vine),
{
    proof { lemma_jungle_kept(old(level).blocks(), old(level).blocks(), x, z); }
    let ghost start = level.blocks();
    if generate_core_log(level, x, z, p, log) && vines {
        proof { lemma_jungle_kept(start, level.blocks(), x, z); }
        let ghost mid = level.blocks();
        generate_core_vines(level, rand, x, z, p, dx_vine, dz_vine, dx_side, dz_side);
        proof {
            assert(mid.contains_key(p));
            assert(level.blocks()[p] == mid[p]);
            assert forall|q: (i32, i32, i32)| start.contains_key(q) && q != p implies #[trigger] level.blocks()[q] == start[q]
                || (start[q] == FeatureBlock::Air && !jungle_core(x, z, q) && level.blocks()[q] is Vine) by {
                assert(mid.contains_key(q));
                assert(mid[q] == start[q]);
            }
        }
    }
}

/// Vines beside a trunk block, on its side `dx_vine` along X and `dz_vine` along Z, each
/// one time in three where the block beside is air.
fn generate_core_vines<L: LevelView>(level: &mut L, rand: &mut JavaRandom, x: i32, z: i32, p: (i32, i32, i32),
    dx_vine: i32, dz_vine: i32, dx_side: VineSide, dz_side: VineSide)
    requires
        old(level).wf(),
        -1 <= dx_vine <= 1,
        -1 <= dz_vine <= 1,
        x - 5 <= p.0 <= x + 7,
        z - 5 <= p.2 <= z + 7,
        0 <= p.1 < 256,
        tree_coord_ok(x),
        tree_coord_ok(z),
        holds_jungle_columns(old(level).blocks(), x, z),
    ensures
        final(level).wf(),
        changed_in_jungle_window(old(level).blocks(), final(level).blocks(), x, z),
        forall|q: (i32, i32, i32)| #[trigger] old(level).blocks().contains_key(q) ==> final(level).blocks()[q] == old(level).blocks()[q]
            || (old(level).blocks()[q] == FeatureBlock::Air
                && (q == ((p.0 + dx_vine) as i32, p.1, p.2) && final(level).blocks()[q] == FeatureBlock::Vine(dx_side)
                    || q == (p.0, p.1, (p.2 + dz_vine) as i32) && final(level).blocks()[q] == FeatureBlock::Vine(dz_side))),
{
    let ghost start = level.blocks();
    let a = (p.0 + dx_vine, p.1, p.2);
    let b = (p.0, p.1, p.2 + dz_vine);
    assert(start.contains_key(a));
    assert(start.contains_key(b));
    if next_int_bounded(rand, 3) != 0 && block_in(level, a) == FeatureBlock::Air {
        set_in_jungle(level, x, z, a, FeatureBlock::Vine(dx_side));
    }
    assert(level.blocks().contains_key(b));
    if next_int_bounded(rand, 3) != 0 && block_in(level, b) == FeatureBlock::Air {
        set_in_jungle(level, x, z, b, FeatureBlock::Vine(dz_side));
    }
}

impl<H: TreeHeight> HugeJungleTreeFeature<H> {

    /// The tree of the given height fits at `x`/`y`/`z`: the blocks of its trunk and
    /// crown, from `y` to `y + height + 1` in a radius of 2 (1 at the bottom), can be
    /// grown through, and are below 256.
    fn fits<L: LevelView>(&self, level: &L, x: i32, y: i32, z: i32, height: i32) -> (r: bool)
        requires
            level.wf(),
            tree_coord_ok(x),
            tree_coord_ok(z),
            1 <= y,
            4 <= height,
            y + height + 1 <= 256,
            holds_jungle_columns(level.blocks(), x, z),
        ensures
            r == jungle_fits_spec(level.blocks(), x, y, z, height),
    {
        let ghost blocks = level.blocks();
        let mut by = y;
        while by <= y + height + 1
            invariant
                y <= by <= y + height + 2,
                by <= 256,
                1 <= y,
                4 <= height,
                y + height + 1 <= 256,
                tree_coord_ok(x),
                tree_coord_ok(z),
                level.wf(),
                level.blocks() == blocks,
                holds_jungle_columns(blocks, x, z),
                forall|p: (i32, i32, i32)| jungle_fits_cell(x, y, z, height, p) && p.1 < by ==> jungle_passable(#[trigger] blocks[p]),
            decreases y + height + 2 - by,
        {
            let radius: i32 = if by >= y + height - 1 { 2 } else if by == y { 1 } else { 2 };
            let mut dx = x - radius;
            while dx <= x + radius
                invariant
                    x - radius <= dx <= x + radius + 1,
                    dx > x - radius ==> by < 256,
                    1 <= radius <= 2,
                    radius == jungle_fits_radius(y as int, height as int, by as int),
                    y <= by <= y + height + 1,
                    y + height + 1 <= 256,
                    1 <= y,
                    tree_coord_ok(x),
                    tree_coord_ok(z),
                    level.wf(),
                    level.blocks() == blocks,
                    holds_jungle_columns(blocks, x, z),
                    forall|p: (i32, i32, i32)| jungle_fits_cell(x, y, z, height, p) && p.1 < by ==> jungle_passable(#[trigger] blocks[p]),
                    forall|p: (i32, i32, i32)| p.1 == by && x - radius <= p.0 < dx && z - radius <= p.2 <= z + radius
                        ==> jungle_passable(#[trigger] blocks[p]),
                decreases x + radius + 1 - dx,
            {
                let mut dz = z - radius;
                while dz <= z + radius
                    invariant
                        x - radius <= dx <= x + radius,
                        z - radius <= dz <= z + radius + 1,
                        dx > x - radius || dz > z - radius ==> by < 256,
                        1 <= radius <= 2,
                        radius == jungle_fits_radius(y as int, height as int, by as int),
                        y <= by <= y + height + 1,
                        y + height + 1 <= 256,
                        1 <= y,
                        tree_coord_ok(x),
                        tree_coord_ok(z),
                        level.wf(),
                        level.blocks() == blocks,
                        holds_jungle_columns(blocks, x, z),
                        forall|p: (i32, i32, i32)| jungle_fits_cell(x, y, z, height, p) && p.1 < by ==> jungle_passable(#[trigger] blocks[p]),
                        forall|p: (i32, i32, i32)| p.1 == by && x - radius <= p.0 < dx && z - radius <= p.2 <= z + radius
                            ==> jungle_passable(#[trigger] blocks[p]),
                        forall|p: (i32, i32, i32)| p.1 == by && p.0 == dx && z - radius <= p.2 < dz
                            ==> jungle_passable(#[trigger] blocks[p]),
                    decreases z + radius + 1 - dz,
                {
                    if by >= 0 && by < 256 {
                        let b = block_in(level, (dx, by, dz));
                        let passable = b == FeatureBlock::Air || b == FeatureBlock::GrassBlock || b == FeatureBlock::Dirt
                            || b.is_leaves() || b.is_log() || matches!(b, FeatureBlock::Sapling(_));
                        if !passable {
                            assert(jungle_fits_cell(x, y, z, height, (dx, by, dz)));
                            return false;
                        }
                    } else {
                        return false;
                    }
                    dz = dz + 1;
                }
                dx = dx + 1;
            }
            by = by + 1;
        }
        true
    }

    /// Generates the tree at `x`/`y`/`z`. The branches go in directions drawn as a float
    /// in `[0; 1[` (given here by its 24 bits, the draw of `[0; 2^24[` taking the same bits
    /// of the generator): `crown_at` gives, for a direction, the offset of the branch's
    /// crown from `x`/`z`, and `log_at` the offset of each of its 5 logs. Returns whether
    /// the tree was generated; when not, the level is left as it was. When it was: dirt
    /// under the trunk, logs in the trunk's four columns, leaves in its top crown, and for
    /// each branch of `jungle_branches` its logs, and leaves or logs in its crown.
    pub fn generate<L: LevelView, C: Fn(i32) -> (i32, i32), G: Fn(i32, i32) -> (i32, i32)>(
        &self, level: &mut L, rand: &mut JavaRandom, x: i32, y: i32, z: i32, crown_at: C, log_at: G) -> (r: bool)
        requires
            old(level).wf(),
            self.height.valid(),
            4 <= self.height.min_height(),
            self.height.max_height() <= 0x1000,
            tree_coord_ok(x),
            tree_coord_ok(z),
            y < i32::MAX - 0x1000,
            holds_jungle_columns(old(level).blocks(), x, z),
            forall|d: i32| crown_at.requires((d,)),
            forall|d: i32, o: (i32, i32)| #[trigger] crown_at.ensures((d,), o) ==> -3 <= o.0 <= 4 && -3 <= o.1 <= 4,
            forall|d: i32, i: i32| log_at.requires((d, i)),
            forall|d: i32, i: i32, o: (i32, i32)| #[trigger] log_at.ensures((d, i), o) ==> -2 <= o.0 <= 5 && -2 <= o.1 <= 5,
        ensures
            final(level).wf(),
            changed_in_jungle_window(old(level).blocks(), final(level).blocks(), x, z),
            !r ==> final(level).blocks() == old(level).blocks(),
            r ==> y + self.height.min_height() + 1 <= 256
                && (old(level).blocks()[(x, (y - 1) as i32, z)] == FeatureBlock::GrassBlock
                    || old(level).blocks()[(x, (y - 1) as i32, z)] == FeatureBlock::Dirt),
            r == jungle_grows_at(old(level).blocks(), x, y, z, self.height.draw_height(old(rand)@).0),
            r ==> jungle_dirt(final(level).blocks(), x, y, z),
            r && (self.palette.leaves == FeatureBlock::Air || leaves_spec(self.palette.leaves))
                ==> jungle_trunk_grown(old(level).blocks(), final(level).blocks(), self.palette.log, x, z, y as int,
                    y + self.height.draw_height(old(rand)@).0, y + self.height.draw_height(old(rand)@).0),
            r && self.palette.leaves != FeatureBlock::Air ==> jungle_top_crown_grown(old(level).blocks(), final(level).blocks(),
                self.palette.leaves, x, z, y + self.height.draw_height(old(rand)@).0, self.height.draw_height(old(rand)@).1),
            r && !non_solid_spec(self.palette.log) && self.palette.log != FeatureBlock::Air ==> ({
                let (h, s_h) = self.height.draw_height(old(rand)@);
                let (first, s_b) = int_draw(crown_state(s_h, 2), 4);
                branches_logged(log_at, final(level).blocks(), self.palette.log, x, z,
                    jungle_branches(s_b, y + h / 2, y + h - 2 - first).0)
            }),
            r && self.palette.leaves != FeatureBlock::Air && self.palette.log != FeatureBlock::Air ==> ({
                let (h, s_h) = self.height.draw_height(old(rand)@);
                let (first, s_b) = int_draw(crown_state(s_h, 2), 4);
                branches_crowned(crown_at, old(level).blocks(), final(level).blocks(), self.palette.leaves, self.palette.log,
                    x, y, z, jungle_branches(s_b, y + h / 2, y + h - 2 - first).0)
            }),
    {
        let ghost start = level.blocks();
        let height = self.height.gen(rand);
        let ghost s_h = rand@;
        if y < 1 || y + height + 1 > 256 {
            assert(!jungle_grows_at(start, x, y, z, height));
            return false;
        }
        if !self.fits(level, x, y, z, height) {
            assert(!jungle_grows_at(start, x, y, z, height));
            return false;
        }
        let ground = block_in(level, (x, y - 1, z));
        if (ground != FeatureBlock::GrassBlock && ground != FeatureBlock::Dirt) || y >= 256 - height - 1 {
            assert(!jungle_grows_at(start, x, y, z, height));
            return false;
        }
        assert(jungle_grows_at(start, x, y, z, height));
        let leaves = self.palette.leaves;
        let log = self.palette.log;
        set_in_jungle(level, x, z, (x, y - 1, z), FeatureBlock::Dirt);
        proof { lemma_jungle_kept(start, level.blocks(), x, z); }
        set_in_jungle(level, x, z, (x + 1, y - 1, z), FeatureBlock::Dirt);
        proof { lemma_jungle_kept(start, level.blocks(), x, z); }
        set_in_jungle(level, x, z, (x, y - 1, z + 1), FeatureBlock::Dirt);
        proof { lemma_jungle_kept(start, level.blocks(), x, z); }
        set_in_jungle(level, x, z, (x + 1, y - 1, z + 1), FeatureBlock::Dirt);
        proof { lemma_jungle_kept(start, level.blocks(), x, z); }
        let ghost before = level.blocks();
        assert(jungle_dirt(before, x, y, z));
        generate_crown(level, rand, x, z, x, y + height, z, 2, leaves);
        proof {
            lemma_dirt_cells_held(before, x, y, z);
            assert forall|p: (i32, i32, i32)| #[trigger] start.contains_key(p) && crown_kept(s_h, x, (y + height) as i32, z, 2, p)
                && non_solid_spec(start[p]) && !(jungle_core(x, z, p) && p.1 < y + height)
                implies level.blocks()[p] == leaves by {
                assert(before.contains_key(p));
                assert(before[p] == start[p]);
            }
            assert forall|p: (i32, i32, i32)| #[trigger] start.contains_key(p) && jungle_core(x, z, p) && y <= p.1
                && (start[p] == FeatureBlock::Air || leaves_spec(start[p])) && (leaves == FeatureBlock::Air || leaves_spec(leaves))
                implies level.blocks()[p] == FeatureBlock::Air || leaves_spec(level.blocks()[p]) || level.blocks()[p] == log by {
                assert(before.contains_key(p));
                assert(before[p] == start[p]);
            }
        }
        proof {
            assert forall|q: (i32, i32, i32)| #[trigger] start.contains_key(q) && y <= q.1
                implies level.blocks()[q] == start[q] || level.blocks()[q] == leaves || level.blocks()[q] == log by {
                assert(before.contains_key(q));
                assert(before[q] == start[q]);
            }
            assert(grown_from(start, level.blocks(), leaves, log, y));
        }
        let first = next_int_bounded(rand, 4);
        let mut by = y + height - 2 - first;
        let ghost s_b = rand@;
        let ghost all = jungle_branches(s_b, y + height / 2, by as int).0;
        let ghost mut done: Seq<(i32, int, i64)> = Seq::empty();
        while by > y + height / 2
            invariant
                all == done + jungle_branches(rand@, y + height / 2, by as int).0,
                !non_solid_spec(log) && log != FeatureBlock::Air ==> branches_logged(log_at, level.blocks(), log, x, z, done),
                grown_from(start, level.blocks(), leaves, log, y),
                branches_crowned(crown_at, start, level.blocks(), leaves, log, x, y, z, done),
                1 <= y,
                4 <= height,
                y + height + 2 <= 256,
                y - 6 <= by <= y + height - 2,
                tree_coord_ok(x),
                tree_coord_ok(z),
                level.wf(),
                holds_jungle_columns(start, x, z),
                changed_in_jungle_window(start, level.blocks(), x, z),
                forall|d: i32| crown_at.requires((d,)),
                forall|d: i32, o: (i32, i32)| #[trigger] crown_at.ensures((d,), o) ==> -3 <= o.0 <= 4 && -3 <= o.1 <= 4,
                forall|d: i32, i: i32| log_at.requires((d, i)),
                forall|d: i32, i: i32, o: (i32, i32)| #[trigger] log_at.ensures((d, i), o) ==> -2 <= o.0 <= 5 && -2 <= o.1 <= 5,
                jungle_dirt(level.blocks(), x, y, z),
                leaves == self.palette.leaves,
                log == self.palette.log,
                leaves != FeatureBlock::Air ==> jungle_top_crown_grown(start, level.blocks(), leaves, x, z, y + height, s_h),
                (leaves == FeatureBlock::Air || leaves_spec(leaves)) ==> jungle_core_open(start, level.blocks(), log, x, y, z),
            decreases by - y + 8,
        {
            let ghost sd = rand@;
            let draw = next_int_bounded(rand, 0x100_0000);
            let ghost sd1 = rand@;
            let (cdx, cdz) = crown_at(draw);
            proof { lemma_jungle_kept(start, level.blocks(), x, z); }
            let ghost before = level.blocks();
            generate_crown(level, rand, x, z, x + cdx, by, z + cdz, 0, leaves);
            proof {
                lemma_dirt_cells_held(before, x, y, z);
                if !non_solid_spec(log) && log != FeatureBlock::Air {
                    assert(logs_kept(before, level.blocks(), log));
                    lemma_branches_kept(log_at, before, level.blocks(), log, x, z, done);
                }
                lemma_branch_crown(crown_at, start, before, level.blocks(), leaves, log, x, y, z, draw, by, sd1, (cdx, cdz));
                lemma_crowns_kept(crown_at, start, before, level.blocks(), leaves, log, x, y, z, done);
            }
            let mut dist: i32 = 0;
            while dist < 5
                invariant
                    0 <= dist <= 5,
                    1 <= y,
                    4 <= height,
                    y + height / 2 < by <= y + height - 2,
                    y + height + 2 <= 256,
                    tree_coord_ok(x),
                    tree_coord_ok(z),
                    level.wf(),
                    holds_jungle_columns(start, x, z),
                    changed_in_jungle_window(start, level.blocks(), x, z),
                    forall|d: i32, i: i32| log_at.requires((d, i)),
                    forall|d: i32, i: i32, o: (i32, i32)| #[trigger] log_at.ensures((d, i), o) ==> -2 <= o.0 <= 5 && -2 <= o.1 <= 5,
                    jungle_dirt(level.blocks(), x, y, z),
                    leaves == self.palette.leaves,
                    log == self.palette.log,
                    leaves != FeatureBlock::Air ==> jungle_top_crown_grown(start, level.blocks(), leaves, x, z, y + height, s_h),
                    (leaves == FeatureBlock::Air || leaves_spec(leaves)) ==> jungle_core_open(start, level.blocks(), log, x, y, z),
                    !non_solid_spec(log) && log != FeatureBlock::Air ==> branches_logged(log_at, level.blocks(), log, x, z, done),
                    !non_solid_spec(log) && log != FeatureBlock::Air ==> forall|i: int| 0 <= i < dist
                        ==> #[trigger] branch_logged(log_at, level.blocks(), log, x, z, draw, by as int, i),
                    grown_from(start, level.blocks(), leaves, log, y),
                    branches_crowned(crown_at, start, level.blocks(), leaves, log, x, y, z, done),
                    branch_crowned(crown_at, start, level.blocks(), leaves, log, x, y, z, draw, by as int, sd1),
                decreases 5 - dist,
            {
                let (ldx, ldz) = log_at(draw, dist);
                let p = (x + ldx, (by - 3) + dist / 2, z + ldz);
                proof { lemma_jungle_kept(start, level.blocks(), x, z); }
                let ghost b0 = level.blocks();
                set_in_jungle(level, x, z, p, log);
                proof {
                    lemma_log_set(start, b0, leaves, log, y, p);
                    lemma_crowns_kept(crown_at, start, b0, level.blocks(), leaves, log, x, y, z, done);
                    lemma_crown_kept(crown_at, start, b0, level.blocks(), leaves, log, x, y, z, draw, by as int, sd1);
                    if !non_solid_spec(log) && log != FeatureBlock::Air {
                        assert(logs_kept(b0, level.blocks(), log));
                        lemma_branches_kept(log_at, b0, level.blocks(), log, x, z, done);
                        assert forall|i: int| 0 <= i < dist + 1
                            implies #[trigger] branch_logged(log_at, level.blocks(), log, x, z, draw, by as int, i) by {
                            if i < dist {
                                lemma_logged_kept(log_at, b0, level.blocks(), log, x, z, draw, by as int, i);
                            } else {
                                assert(log_at.ensures((draw, i as i32), (ldx, ldz)));
                                assert(level.blocks().contains_key(p));
                            }
                        }
                    }
                }
                dist = dist + 1;
            }
            let ghost sc = rand@;
            let step = next_int_bounded(rand, 4);
            proof {
                let prev = done;
                done = done.push((draw, by as int, sd1));
                assert(all == done + jungle_branches(rand@, y + height / 2, (by - (2 + step)) as int).0) by {
                    assert(jungle_branches(sd, y + height / 2, by as int).0
                        == seq![(draw, by as int, sd1)] + jungle_branches(rand@, y + height / 2, (by - (2 + step)) as int).0);
                    assert(prev + (seq![(draw, by as int, sd1)] + jungle_branches(rand@, y + height / 2, (by - (2 + step)) as int).0)
                        =~= done + jungle_branches(rand@, y + height / 2, (by - (2 + step)) as int).0);
                }
                assert forall|k: int| 0 <= k < done.len()
                    implies #[trigger] branch_crowned(crown_at, start, level.blocks(), leaves, log, x, y, z, done[k].0, done[k].1, done[k].2) by {
                    if k < prev.len() {
                        assert(done[k] == prev[k]);
                    }
                }
                if !non_solid_spec(log) && log != FeatureBlock::Air {
                    assert forall|k: int, i: int| 0 <= k < done.len() && 0 <= i < 5
                        implies #[trigger] branch_logged(log_at, level.blocks(), log, x, z, done[k].0, done[k].1, i) by {
                        if k < prev.len() {
                            assert(done[k] == prev[k]);
                        }
                    }
                }
            }
            by = by - (2 + step);
        }
        proof {
            assert(done =~= all);
        }
        let mut by = y;
        while by < y + height
            invariant
                y <= by <= y + height,
                1 <= y,
                4 <= height,
                y + height + 2 <= 256,
                tree_coord_ok(x),
                tree_coord_ok(z),
                level.wf(),
                holds_jungle_columns(start, x, z),
                changed_in_jungle_window(start, level.blocks(), x, z),
                jungle_dirt(level.blocks(), x, y, z),
                leaves == self.palette.leaves,
                log == self.palette.log,
                leaves != FeatureBlock::Air ==> jungle_top_crown_grown(start, level.blocks(), leaves, x, z, y + height, s_h),
                (leaves == FeatureBlock::Air || leaves_spec(leaves)) ==> jungle_core_open(start, level.blocks(), log, x, y, z),
                (leaves == FeatureBlock::Air || leaves_spec(leaves))
                    ==> jungle_trunk_grown(start, level.blocks(), log, x, z, y as int, by as int, y + height),
                !non_solid_spec(log) && log != FeatureBlock::Air ==> branches_logged(log_at, level.blocks(), log, x, z, all),
                leaves != FeatureBlock::Air && log != FeatureBlock::Air
                    ==> branches_crowned(crown_at, start, level.blocks(), leaves, log, x, y, z, all),
            decreases y + height - by,
        {
            let dy = by - y;
            let ghost l0 = level.blocks();
            proof { lemma_jungle_kept(start, level.blocks(), x, z); lemma_dirt_cells_held(l0, x, y, z); }
            grow_core_cell(level, rand, x, z, (x, by, z), log, dy > 0, -1, -1, VineSide::East, VineSide::South);
            proof { lemma_core_logs_kept(log_at, l0, level.blocks(), leaves, log, x, z, all, (x, by, z)); lemma_core_crowns(crown_at, start, l0, level.blocks(), leaves, log, x, y, z, all); }
            if dy < height - 1 {
                proof { lemma_jungle_kept(start, level.blocks(), x, z); }
                let ghost la = level.blocks();
                grow_core_cell(level, rand, x, z, (x + 1, by, z), log, dy > 0, 1, -1, VineSide::West, VineSide::South);
                proof { lemma_jungle_kept(start, level.blocks(), x, z); lemma_core_logs_kept(log_at, la, level.blocks(), leaves, log, x, z, all, ((x + 1) as i32, by, z)); lemma_core_crowns(crown_at, start, la, level.blocks(), leaves, log, x, y, z, all); }
                let ghost lb = level.blocks();
                grow_core_cell(level, rand, x, z, (x + 1, by, z + 1), log, dy > 0, 1, 1, VineSide::West, VineSide::North);
                proof { lemma_jungle_kept(start, level.blocks(), x, z); lemma_core_logs_kept(log_at, lb, level.blocks(), leaves, log, x, z, all, ((x + 1) as i32, by, (z + 1) as i32)); lemma_core_crowns(crown_at, start, lb, level.blocks(), leaves, log, x, y, z, all); }
                let ghost lc = level.blocks();
                grow_core_cell(level, rand, x, z, (x, by, z + 1), log, dy > 0, -1, 1, VineSide::East, VineSide::North);
                proof { lemma_core_logs_kept(log_at, lc, level.blocks(), leaves, log, x, z, all, (x, by, (z + 1) as i32)); lemma_core_crowns(crown_at, start, lc, level.blocks(), leaves, log, x, y, z, all); }
            }
            proof {
                lemma_jungle_kept(start, level.blocks(), x, z);
                if leaves == FeatureBlock::Air || leaves_spec(leaves) {
                    let fin = level.blocks();
                    let top = y + height;
                    let c0 = (x, by, z);
                    let c1 = ((x + 1) as i32, by, z);
                    let c2 = ((x + 1) as i32, by, (z + 1) as i32);
                    let c3 = (x, by, (z + 1) as i32);
                    assert(l0.contains_key(c0) && l0.contains_key(c1) && l0.contains_key(c2) && l0.contains_key(c3));
                    assert(start.contains_key(c0) && start.contains_key(c1) && start.contains_key(c2) && start.contains_key(c3));
                    assert((start[c0] == FeatureBlock::Air || leaves_spec(start[c0])) ==> fin[c0] == log);
                    if dy < height - 1 {
                        assert((start[c1] == FeatureBlock::Air || leaves_spec(start[c1])) ==> fin[c1] == log);
                        assert((start[c2] == FeatureBlock::Air || leaves_spec(start[c2])) ==> fin[c2] == log);
                        assert((start[c3] == FeatureBlock::Air || leaves_spec(start[c3])) ==> fin[c3] == log);
                    }
                    assert forall|k: i32| y <= k < by + 1 && (start[(x, k, z)] == FeatureBlock::Air || leaves_spec(start[(x, k, z)]))
                        implies #[trigger] fin[(x, k, z)] == log by {
                        assert(l0.contains_key((x, k, z)));
                        if k < by {
                            assert(l0[(x, k, z)] == log);
                        }
                    }
                    assert forall|k: i32| y <= k < by + 1 && k < top - 1 && (start[((x + 1) as i32, k, z)] == FeatureBlock::Air || leaves_spec(start[((x + 1) as i32, k, z)]))
                        implies #[trigger] fin[((x + 1) as i32, k, z)] == log by {
                        assert(l0.contains_key(((x + 1) as i32, k, z)));
                        if k < by {
                            assert(l0[((x + 1) as i32, k, z)] == log);
                        }
                    }
                    assert forall|k: i32| y <= k < by + 1 && k < top - 1 && (start[((x + 1) as i32, k, (z + 1) as i32)] == FeatureBlock::Air || leaves_spec(start[((x + 1) as i32, k, (z + 1) as i32)]))
                        implies #[trigger] fin[((x + 1) as i32, k, (z + 1) as i32)] == log by {
                        assert(l0.contains_key(((x + 1) as i32, k, (z + 1) as i32)));
                        if k < by {
                            assert(l0[((x + 1) as i32, k, (z + 1) as i32)] == log);
                        }
                    }
                    assert forall|k: i32| y <= k < by + 1 && k < top - 1 && (start[(x, k, (z + 1) as i32)] == FeatureBlock::Air || leaves_spec(start[(x, k, (z + 1) as i32)]))
                        implies #[trigger] fin[(x, k, (z + 1) as i32)] == log by {
                        assert(l0.contains_key((x, k, (z + 1) as i32)));
                        if k < by {
                            assert(l0[(x, k, (z + 1) as i32)] == log);
                        }
                    }
                }
            }
            by = by + 1;
        }
        true
    }

}

} // verus!
