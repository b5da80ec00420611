//! The random choices of the dungeon feature: the chest loot and the spawner's mob.

use vstd::prelude::*;

use crate::feature::{Heights, TopSubChunks};

use crate::java::JavaRandom;

use crate::java::{next_int_bounded, next_blank, int_draw, lcg_next};
use crate::view::{LevelView, LevelShape, level_shape, FeatureBlock, non_solid_spec};
use super::distrib::block_or_air_spec;
use super::Feature;

verus! {

/// The mob of a dungeon's spawner.
#[derive(Clone, Copy, Debug, PartialEq, Eq, Structural)]
pub enum DungeonMob {
    Skeleton,
    Zombie,
    Spider,
}

/// The mob for a draw in `[0; 4[`: a skeleton for 0, a spider for 3, else a zombie.
pub open spec fn mob_for_draw_spec(draw: i32) -> DungeonMob {
    if draw == 0 { DungeonMob::Skeleton } else if draw == 3 { DungeonMob::Spider } else { DungeonMob::Zombie }
}

/// The mob for a draw in `[0; 4[`: a skeleton for 0, a spider for 3, else a zombie.
pub fn mob_for_draw(draw: i32) -> (r: DungeonMob)
    requires
        0 <= draw < 4,
    ensures
        r == mob_for_draw_spec(draw),
{
    match draw {
        0 => DungeonMob::Skeleton,
        1 | 2 => DungeonMob::Zombie,
        _ => DungeonMob::Spider,
    }
}

/// Picks the mob of a dungeon's spawner with a draw bounded by 4.
pub fn pick_mob(rand: &mut JavaRandom) -> (r: DungeonMob)
    ensures
        r == mob_for_draw_spec(int_draw(old(rand)@, 4).0),
        final(rand)@ == int_draw(old(rand)@, 4).1,
{
    let draw = next_int_bounded(rand, 4);
    mob_for_draw(draw)
}

/// What follows the first draw (in `[0; 11[`) of a chest loot pick.
#[derive(Clone, Copy, Debug, PartialEq, Eq, Structural)]
pub enum LootFollowUp {
    /// The item is found, nothing more is drawn.
    Found,
    /// The item is found, after a blank draw.
    FoundAfterBlank,
    /// A second draw bounded by the given value decides.
    Draw(i32),
}

/// The follow up of the first draw of a chest loot pick: 0, 2, 6 and 10 find an item,
/// 1, 3, 4 and 5 find one after a blank draw, 7, 8 and 9 draw again with the bounds 100,
/// 2 and 10.
pub open spec fn loot_follow_up_spec(first: i32) -> LootFollowUp {
    if first == 0 || first == 2 || first == 6 || first == 10 {
        LootFollowUp::Found
    } else if first == 7 {
        LootFollowUp::Draw(100)
    } else if first == 8 {
        LootFollowUp::Draw(2)
    } else if first == 9 {
        LootFollowUp::Draw(10)
    } else {
        LootFollowUp::FoundAfterBlank
    }
}

/// The follow up of the first draw of a chest loot pick, as `loot_follow_up_spec` says.
pub fn loot_follow_up(first: i32) -> (r: LootFollowUp)
    requires
        0 <= first < 11,
    ensures
        r == loot_follow_up_spec(first),
{
    match first {
        0 | 2 | 6 | 10 => LootFollowUp::Found,
        7 => LootFollowUp::Draw(100),
        8 => LootFollowUp::Draw(2),
        9 => LootFollowUp::Draw(10),
        _ => LootFollowUp::FoundAfterBlank,
    }
}

/// After a second draw with the bound `bound`: whether the item is found, and whether a
/// blank draw follows. With the bound 100 the item is found only when the draw is not 0;
/// with the bounds 2 and 10 it is found, after a blank draw, only when the draw is 0.
pub open spec fn loot_second_draw_spec(bound: i32, draw: i32) -> (bool, bool) {
    if bound == 100 { (draw != 0, false) } else { (draw == 0, draw == 0) }
}

/// After a second draw with the bound `bound`, as `loot_second_draw_spec` says.
pub fn loot_second_draw(bound: i32, draw: i32) -> (r: (bool, bool))
    ensures
        r == loot_second_draw_spec(bound, draw),
{
    if bound == 100 {
        (draw != 0, false)
    } else if draw == 0 {
        (true, true)
    } else {
        (false, false)
    }
}

/// A chest loot pick from the state `s`: whether an item is found, and the state after
/// its chain of draws (a first draw in `[0; 11[`, then a blank draw or a second draw and
/// maybe a blank one, as the follow up says).
pub open spec fn loot_pick(s: i64) -> (bool, i64) {
    let (first, s1) = int_draw(s, 11);
    match loot_follow_up_spec(first) {
        LootFollowUp::Found => (true, s1),
        LootFollowUp::FoundAfterBlank => (true, lcg_next(s1)),
        LootFollowUp::Draw(bound) => {
            let (d, s2) = int_draw(s1, bound);
            let (found, blank) = loot_second_draw_spec(bound, d);
            (found, if blank { lcg_next(s2) } else { s2 })
        },
    }
}

/// Picks a chest loot item, reproducing the chain of draws of release 1.2; returns
/// whether an item was found.
pub fn pick_chest_loot_item(rand: &mut JavaRandom) -> (r: bool)
    ensures
        (r, final(rand)@) == loot_pick(old(rand)@),
{
    let first = next_int_bounded(rand, 11);
    match loot_follow_up(first) {
        LootFollowUp::Found => true,
        LootFollowUp::FoundAfterBlank => {
            next_blank(rand);
            true
        },
        LootFollowUp::Draw(bound) => {
            let draw = next_int_bounded(rand, bound);
            let (found, blank) = loot_second_draw(bound, draw);
            if blank {
                next_blank(rand);
            }
            found
        },
    }
}

/// The positions a dungeon at `x`/`y`/`z` reads: 4 blocks around it on X and Z, from 2
/// blocks below it to 4 above.
pub open spec fn dungeon_reach(x: i32, y: i32, z: i32, p: (i32, i32, i32)) -> bool {
    x - 4 <= p.0 <= x + 4 && y - 2 <= p.1 <= y + 4 && z - 4 <= p.2 <= z + 4
}

/// The positions a dungeon at `x`/`y`/`z` may change: 4 blocks around it on X and Z,
/// from 1 block below it to 3 above.
pub open spec fn dungeon_box(x: i32, y: i32, z: i32, p: (i32, i32, i32)) -> bool {
    x - 4 <= p.0 <= x + 4 && y - 1 <= p.1 <= y + 3 && z - 4 <= p.2 <= z + 4
}

/// A coordinate with room for a dungeon around it.
pub open spec fn dungeon_coord_ok(c: i32) -> bool {
    -0x7fff_fff0 <= c <= 0x7fff_fff0
}

/// The blocks changed only inside the box, and the view holds the same positions.
pub open spec fn changed_in_box(a: Map<(i32, i32, i32), FeatureBlock>, b: Map<(i32, i32, i32), FeatureBlock>, x: i32, y: i32, z: i32) -> bool {
    &&& b.dom() == a.dom()
    &&& forall|p: (i32, i32, i32)| #[trigger] b.contains_key(p) && !dungeon_box(x, y, z, p) ==> b[p] == a[p]
}

/// The wall block at `dx`/`y`/`dz` of the room of `xs`/`zs` around `x`/`y`/`z` is an
/// opening: it and the block above it are air (or not held).
pub open spec fn dungeon_opening(blocks: Map<(i32, i32, i32), FeatureBlock>, x: i32, y: i32, z: i32, xs: i32, zs: i32,
    dx: int, dz: int) -> bool {
    &&& (dx == x - xs - 1 || dx == x + xs + 1 || dz == z - zs - 1 || dz == z + zs + 1)
    &&& block_or_air_spec(blocks, (dx as i32, y, dz as i32)) == FeatureBlock::Air
    &&& block_or_air_spec(blocks, (dx as i32, (y + 1) as i32, dz as i32)) == FeatureBlock::Air
}

/// The openings among the `n` first blocks of the room's row `dx`, along Z.
pub open spec fn openings_in_row(blocks: Map<(i32, i32, i32), FeatureBlock>, x: i32, y: i32, z: i32, xs: i32, zs: i32,
    dx: int, n: int) -> nat
    decreases n,
{
    if n <= 0 {
        0
    } else {
        openings_in_row(blocks, x, y, z, xs, zs, dx, n - 1)
            + (if dungeon_opening(blocks, x, y, z, xs, zs, dx, z - zs - 1 + n - 1) { 1nat } else { 0nat })
    }
}

/// The openings of the `m` first rows of the room, along X.
pub open spec fn openings_in_rows(blocks: Map<(i32, i32, i32), FeatureBlock>, x: i32, y: i32, z: i32, xs: i32, zs: i32,
    m: int) -> nat
    decreases m,
{
    if m <= 0 {
        0
    } else {
        openings_in_rows(blocks, x, y, z, xs, zs, m - 1) + openings_in_row(blocks, x, y, z, xs, zs, x - xs - 1 + m - 1, 2 * zs + 3)
    }
}

/// The floor (one block below `y`) and the ceiling (four blocks above) of the room of
/// `xs`/`zs` around `x`/`y`/`z` are solid; a block the view does not hold counts as air.
pub open spec fn dungeon_shell_solid(blocks: Map<(i32, i32, i32), FeatureBlock>, x: i32, y: i32, z: i32, xs: i32, zs: i32) -> bool {
    forall|p: (i32, i32, i32)| x - xs - 1 <= p.0 <= x + xs + 1 && z - zs - 1 <= p.2 <= z + zs + 1 && (p.1 == y - 1 || p.1 == y + 4)
        ==> !non_solid_spec(#[trigger] block_or_air_spec(blocks, p))
}

/// The room of `xs`/`zs` fits around `x`/`y`/`z`: solid floor and ceiling, and between 1
/// and 5 openings in its walls.
pub open spec fn dungeon_room_fits(blocks: Map<(i32, i32, i32), FeatureBlock>, x: i32, y: i32, z: i32, xs: i32, zs: i32) -> bool {
    &&& dungeon_shell_solid(blocks, x, y, z, xs, zs)
    &&& 1 <= openings_in_rows(blocks, x, y, z, xs, zs, 2 * xs + 3) <= 5
}

/// More blocks of a row hold at least as many openings.
proof fn lemma_row_monotone(blocks: Map<(i32, i32, i32), FeatureBlock>, x: i32, y: i32, z: i32, xs: i32, zs: i32, dx: int, n: int, n2: int)
    requires
        n <= n2,
    ensures
        openings_in_row(blocks, x, y, z, xs, zs, dx, n) <= openings_in_row(blocks, x, y, z, xs, zs, dx, n2),
    decreases n2 - n,
{
    if n < n2 {
        lemma_row_monotone(blocks, x, y, z, xs, zs, dx, n, n2 - 1);
    }
}

/// More rows hold at least as many openings.
proof fn lemma_rows_monotone(blocks: Map<(i32, i32, i32), FeatureBlock>, x: i32, y: i32, z: i32, xs: i32, zs: i32, m: int, m2: int)
    requires
        m <= m2,
    ensures
        openings_in_rows(blocks, x, y, z, xs, zs, m) <= openings_in_rows(blocks, x, y, z, xs, zs, m2),
    decreases m2 - m,
{
    if m < m2 {
        lemma_rows_monotone(blocks, x, y, z, xs, zs, m, m2 - 1);
    }
}

/// `p` is in the room of `xs`/`zs` around `x`/`y`/`z` that the dungeon builds: from one
/// block below `y` to three above.
pub open spec fn room_cell(x: i32, y: i32, z: i32, xs: i32, zs: i32, p: (i32, i32, i32)) -> bool {
    x - xs - 1 <= p.0 <= x + xs + 1 && z - zs - 1 <= p.2 <= z + zs + 1 && y - 1 <= p.1 <= y + 3
}

/// `p` is in a wall or the floor of the room.
pub open spec fn room_wall(x: i32, y: i32, z: i32, xs: i32, zs: i32, p: (i32, i32, i32)) -> bool {
    p.0 == x - xs - 1 || p.0 == x + xs + 1 || p.2 == z - zs - 1 || p.2 == z + zs + 1 || p.1 == y - 1
}

/// The floor block of the column `cx`/`cz` draws whether it is mossy: it is solid and
/// the block below it is not a non solid block at a height from 0.
pub open spec fn floor_draws_at(blocks: Map<(i32, i32, i32), FeatureBlock>, y: i32, cx: int, cz: int) -> bool {
    &&& !(y - 1 >= 0 && non_solid_spec(blocks[(cx as i32, (y - 2) as i32, cz as i32)]))
    &&& !non_solid_spec(blocks[(cx as i32, (y - 1) as i32, cz as i32)])
}

/// The generator state `st` after the column `cx`/`cz` of the room is built: one draw in
/// `[0; 4[` where its floor block draws.
pub open spec fn floor_step(blocks: Map<(i32, i32, i32), FeatureBlock>, y: i32, st: i64, cx: int, cz: int) -> i64 {
    if floor_draws_at(blocks, y, cx, cz) { int_draw(st, 4).1 } else { st }
}

/// The generator state before the column `cx`/`cz` of the room of `xs`/`zs` around
/// `x`/`y`/`z` is built, the room being walked X then Z from its corner, from the state
/// `s` before the first column.
pub open spec fn floor_before(blocks: Map<(i32, i32, i32), FeatureBlock>, s: i64, x: i32, y: i32, z: i32, xs: i32, zs: i32,
    cx: int, cz: int) -> i64
    decreases cx - (x - xs - 1), cz - (z - zs - 1),
{
    if cz > z - zs - 1 {
        floor_step(blocks, y, floor_before(blocks, s, x, y, z, xs, zs, cx, cz - 1), cx, cz - 1)
    } else if cx > x - xs - 1 {
        floor_step(blocks, y, floor_before(blocks, s, x, y, z, xs, zs, cx - 1, z + zs + 1), cx - 1, z + zs + 1)
    } else {
        s
    }
}

/// The block at `p` once the room of `xs`/`zs` around `x`/`y`/`z` is built from
/// `blocks`, its draws made from the state `s`: inside, air; in a wall or the floor, air
/// above a non solid block, cobblestone in place of a solid block (on the floor, mossy
/// cobblestone when its draw in `[0; 4[` is not 0), else unchanged.
pub open spec fn room_block(blocks: Map<(i32, i32, i32), FeatureBlock>, s: i64, x: i32, y: i32, z: i32, xs: i32, zs: i32,
    p: (i32, i32, i32)) -> FeatureBlock {
    if !room_cell(x, y, z, xs, zs, p) {
        blocks[p]
    } else if !room_wall(x, y, z, xs, zs, p) {
        FeatureBlock::Air
    } else if p.1 >= 0 && non_solid_spec(blocks[(p.0, (p.1 - 1) as i32, p.2)]) {
        FeatureBlock::Air
    } else if !non_solid_spec(blocks[p]) {
        if p.1 == y - 1 && int_draw(floor_before(blocks, s, x, y, z, xs, zs, p.0 as int, p.2 as int), 4).0 != 0 {
            FeatureBlock::MossyCobblestone
        } else {
            FeatureBlock::Cobblestone
        }
    } else {
        blocks[p]
    }
}

/// A dungeon with a room of `xs`/`zs` grows at `x`/`y`/`z`: the room fits and the view
/// holds every position the dungeon reads.
pub open spec fn dungeon_grows_at(blocks: Map<(i32, i32, i32), FeatureBlock>, x: i32, y: i32, z: i32, xs: i32, zs: i32) -> bool {
    &&& dungeon_room_fits(blocks, x, y, z, xs, zs)
    &&& forall|p: (i32, i32, i32)| dungeon_reach(x, y, z, p) ==> #[trigger] blocks.contains_key(p)
}

/// The number of solid blocks beside `p` on X and Z.
pub open spec fn chest_solid_sides(blocks: Map<(i32, i32, i32), FeatureBlock>, p: (i32, i32, i32)) -> int {
    (if !non_solid_spec(blocks[((p.0 - 1) as i32, p.1, p.2)]) { 1int } else { 0int })
        + (if !non_solid_spec(blocks[((p.0 + 1) as i32, p.1, p.2)]) { 1int } else { 0int })
        + (if !non_solid_spec(blocks[(p.0, p.1, (p.2 - 1) as i32)]) { 1int } else { 0int })
        + (if !non_solid_spec(blocks[(p.0, p.1, (p.2 + 1) as i32)]) { 1int } else { 0int })
}

/// A chest goes on the column `c` at the height `y`: an air block with exactly one solid
/// block beside it.
pub open spec fn chest_ok(blocks: Map<(i32, i32, i32), FeatureBlock>, c: (i32, i32), y: i32) -> bool {
    blocks[(c.0, y, c.1)] == FeatureBlock::Air && chest_solid_sides(blocks, (c.0, y, c.1)) == 1
}

/// The generator state after `n` chest loot picks from `s`, each followed by a blank
/// draw when it found nothing.
pub open spec fn loot_run(s: i64, n: nat) -> i64
    decreases n,
{
    if n == 0 {
        s
    } else {
        let (found, s1) = loot_pick(loot_run(s, (n - 1) as nat));
        if found { s1 } else { lcg_next(s1) }
    }
}

/// The tries of a round of chest placing from the `j`-th one, in the room of `xs`/`zs`
/// around `x`/`y`/`z`, from the blocks `blocks` and the state `s`: each try draws a
/// column, X by a draw in `[0; 2 xs + 1[` and Z by one in `[0; 2 zs + 1[`; the chest goes
/// on the first column where it can, then its 8 loot items are drawn; at most 3 tries.
pub open spec fn chest_round_run(blocks: Map<(i32, i32, i32), FeatureBlock>, s: i64, x: i32, y: i32, z: i32, xs: i32, zs: i32,
    j: nat) -> (Map<(i32, i32, i32), FeatureBlock>, i64)
    decreases 3 - j,
{
    if j >= 3 {
        (blocks, s)
    } else {
        let (a, s1) = int_draw(s, (xs * 2 + 1) as i32);
        let (b, s2) = int_draw(s1, (zs * 2 + 1) as i32);
        let c = ((x + a - xs) as i32, (z + b - zs) as i32);
        if chest_ok(blocks, c, y) {
            (blocks.insert((c.0, y, c.1), FeatureBlock::Chest), loot_run(s2, 8))
        } else {
            chest_round_run(blocks, s2, x, y, z, xs, zs, (j + 1) as nat)
        }
    }
}

/// The two rounds of chest placing, from the blocks `blocks` and the state `s`.
pub open spec fn chests_run(blocks: Map<(i32, i32, i32), FeatureBlock>, s: i64, x: i32, y: i32, z: i32, xs: i32, zs: i32)
    -> (Map<(i32, i32, i32), FeatureBlock>, i64) {
    let (b1, s1) = chest_round_run(blocks, s, x, y, z, xs, zs, 0);
    chest_round_run(b1, s1, x, y, z, xs, zs, 0)
}

/// The room sizes a dungeon draws from the generator state `s`: 2 plus a draw in `[0; 2[`,
/// along X then along Z.
pub open spec fn dungeon_sizes(s: i64) -> (i32, i32) {
    let (a, s1) = int_draw(s, 2);
    ((a + 2) as i32, (int_draw(s1, 2).0 + 2) as i32)
}

/// The generator state after the room sizes drawn from `s`.
pub open spec fn dungeon_sizes_state(s: i64) -> i64 {
    int_draw(int_draw(s, 2).1, 2).1
}

/// The blocks and the generator state after a dungeon grows at `x`/`y`/`z` from the
/// blocks `before` and the state `seed`: the room of the drawn sizes is built, the chests
/// placed, the spawner set at `x`/`y`/`z`, and its mob drawn (a draw in `[0; 4[`).
pub open spec fn dungeon_result(before: Map<(i32, i32, i32), FeatureBlock>, seed: i64, x: i32, y: i32, z: i32)
    -> (Map<(i32, i32, i32), FeatureBlock>, i64) {
    let (xs, zs) = dungeon_sizes(seed);
    let s2 = dungeon_sizes_state(seed);
    let mid = Map::new(|p: (i32, i32, i32)| before.contains_key(p), |p: (i32, i32, i32)| room_block(before, s2, x, y, z, xs, zs, p));
    let (chested, s4) = chests_run(mid, floor_before(before, s2, x, y, z, xs, zs, x + xs + 2, z - zs - 1), x, y, z, xs, zs);
    (chested.insert((x, y, z), FeatureBlock::Spawner), int_draw(s4, 4).1)
}

/// The dungeon feature: a cobblestone room with chests and a spawner.
pub struct DungeonFeature;

impl DungeonFeature {

    /// Checks the room of `x_size`/`z_size` around `x`/`y`/`z`: its floor and ceiling
    /// must be solid, and its walls must have between 1 and 5 openings (an air block
    /// with air above it) at the height `y`.
    fn room_fits<L: LevelView>(level: &L, x: i32, y: i32, z: i32, x_size: i32, z_size: i32) -> (r: bool)
        requires
            level.wf(),
            2 <= x_size <= 3,
            2 <= z_size <= 3,
            dungeon_coord_ok(x),
            dungeon_coord_ok(y),
            dungeon_coord_ok(z),
        ensures
            r == dungeon_room_fits(level.blocks(), x, y, z, x_size, z_size),
    {
        let ghost blocks = level.blocks();
        let x_start = x - x_size - 1;
        let z_start = z - z_size - 1;
        let y_start = y - 1;
        let x_end = x + x_size + 1;
        let z_end = z + z_size + 1;
        let y_end = y + 4;
        let mut air_count: u16 = 0;
        let mut dx = x_start;
        while dx <= x_end
            invariant
                x_start <= dx <= x_end + 1,
                x_start == x - x_size - 1,
                x_end == x + x_size + 1,
                z_start == z - z_size - 1,
                z_end == z + z_size + 1,
                y_start == y - 1,
                y_end == y + 4,
                2 <= x_size <= 3,
                2 <= z_size <= 3,
                dungeon_coord_ok(x),
                dungeon_coord_ok(y),
                dungeon_coord_ok(z),
                level.wf(),
                level.blocks() == blocks,
                air_count <= 5,
                air_count == openings_in_rows(blocks, x, y, z, x_size, z_size, dx - x_start),
                forall|p: (i32, i32, i32)| x_start <= p.0 < dx && z_start <= p.2 <= z_end && (p.1 == y_start || p.1 == y_end)
                    ==> !non_solid_spec(#[trigger] block_or_air_spec(blocks, p)),
            decreases x_end + 1 - dx,
        {
            let mut dy = y_start;
            while dy <= y_end
                invariant
                    x_start <= dx <= x_end,
                    y_start <= dy <= y_end + 1,
                    x_start == x - x_size - 1,
                    x_end == x + x_size + 1,
                    z_start == z - z_size - 1,
                    z_end == z + z_size + 1,
                    y_start == y - 1,
                    y_end == y + 4,
                    2 <= x_size <= 3,
                    2 <= z_size <= 3,
                    dungeon_coord_ok(x),
                    dungeon_coord_ok(y),
                    dungeon_coord_ok(z),
                    level.wf(),
                    level.blocks() == blocks,
                    air_count <= 5,
                    air_count == openings_in_rows(blocks, x, y, z, x_size, z_size, dx - x_start)
                        + (if dy > y { openings_in_row(blocks, x, y, z, x_size, z_size, dx as int, 2 * z_size + 3) } else { 0nat }),
                    forall|p: (i32, i32, i32)| (x_start <= p.0 < dx || (p.0 == dx && p.1 < dy)) && z_start <= p.2 <= z_end
                        && (p.1 == y_start || p.1 == y_end) ==> !non_solid_spec(#[trigger] block_or_air_spec(blocks, p)),
                decreases y_end + 1 - dy,
            {
                let mut dz = z_start;
                while dz <= z_end
                    invariant
                        x_start <= dx <= x_end,
                        y_start <= dy <= y_end,
                        z_start <= dz <= z_end + 1,
                        x_start == x - x_size - 1,
                        x_end == x + x_size + 1,
                        z_start == z - z_size - 1,
                        z_end == z + z_size + 1,
                        y_start == y - 1,
                        y_end == y + 4,
                        2 <= x_size <= 3,
                        2 <= z_size <= 3,
                        dungeon_coord_ok(x),
                        dungeon_coord_ok(y),
                        dungeon_coord_ok(z),
                        level.wf(),
                        level.blocks() == blocks,
                        air_count <= 5,
                        air_count == openings_in_rows(blocks, x, y, z, x_size, z_size, dx - x_start)
                            + (if dy > y { openings_in_row(blocks, x, y, z, x_size, z_size, dx as int, 2 * z_size + 3) }
                                else if dy == y { openings_in_row(blocks, x, y, z, x_size, z_size, dx as int, dz - z_start) }
                                else { 0nat }),
                        forall|p: (i32, i32, i32)| (x_start <= p.0 < dx || (p.0 == dx && (p.1 < dy || (p.1 == dy && p.2 < dz))))
                            && z_start <= p.2 <= z_end && (p.1 == y_start || p.1 == y_end)
                            ==> !non_solid_spec(#[trigger] block_or_air_spec(blocks, p)),
                    decreases z_end + 1 - dz,
                {
                    let block = match level.get_block_at(dx, dy, dz) {
                        Some(b) => b,
                        None => FeatureBlock::Air,
                    };
                    proof {
                        assert(block == block_or_air_spec(blocks, (dx, dy, dz)));
                        if dy == y {
                            assert(openings_in_row(blocks, x, y, z, x_size, z_size, dx as int, dz - z_start + 1)
                                == openings_in_row(blocks, x, y, z, x_size, z_size, dx as int, dz - z_start)
                                + (if dungeon_opening(blocks, x, y, z, x_size, z_size, dx as int, dz as int) { 1nat } else { 0nat }));
                        }
                    }
                    if (dy == y_start || dy == y_end) && block.non_solid() {
                        return false;
                    } else if (dx == x_start || dx == x_end || dz == z_start || dz == z_end) && dy == y
                        && block == FeatureBlock::Air {
                        let above = match level.get_block_at(dx, dy + 1, dz) {
                            Some(b) => b,
                            None => FeatureBlock::Air,
                        };
                        if above == FeatureBlock::Air {
                            air_count = air_count + 1;
                            if air_count > 5 {
                                proof {
                                    lemma_row_monotone(blocks, x, y, z, x_size, z_size, dx as int, dz - z_start + 1, 2 * z_size + 3);
                                    lemma_rows_monotone(blocks, x, y, z, x_size, z_size, dx - x_start + 1, 2 * x_size + 3);
                                    assert(openings_in_rows(blocks, x, y, z, x_size, z_size, dx - x_start + 1)
                                        == openings_in_rows(blocks, x, y, z, x_size, z_size, dx - x_start)
                                        + openings_in_row(blocks, x, y, z, x_size, z_size, dx as int, 2 * z_size + 3));
                                }
                                return false;
                            }
                        }
                    }
                    dz = dz + 1;
                }
                dy = dy + 1;
            }
            proof {
                assert(openings_in_rows(blocks, x, y, z, x_size, z_size, dx - x_start + 1)
                    == openings_in_rows(blocks, x, y, z, x_size, z_size, dx - x_start)
                    + openings_in_row(blocks, x, y, z, x_size, z_size, dx as int, 2 * z_size + 3));
            }
            dx = dx + 1;
        }
        air_count != 0
    }

    /// The view holds every position the dungeon reads and builds.
    fn holds_reach<L: LevelView>(level: &L, x: i32, y: i32, z: i32) -> (r: bool)
        requires
            level.wf(),
            dungeon_coord_ok(x),
            dungeon_coord_ok(y),
            dungeon_coord_ok(z),
        ensures
            r == forall|p: (i32, i32, i32)| dungeon_reach(x, y, z, p) ==> #[trigger] level.blocks().contains_key(p),
    {
        let mut dx = x - 4;
        while dx <= x + 4
            invariant
                x - 4 <= dx <= x + 5,
                dungeon_coord_ok(x),
                dungeon_coord_ok(y),
                dungeon_coord_ok(z),
                level.wf(),
                forall|p: (i32, i32, i32)| dungeon_reach(x, y, z, p) && p.0 < dx ==> #[trigger] level.blocks().contains_key(p),
            decreases x + 5 - dx,
        {
            let mut dy = y - 2;
            while dy <= y + 4
                invariant
                    x - 4 <= dx <= x + 4,
                    y - 2 <= dy <= y + 5,
                    dungeon_coord_ok(x),
                    dungeon_coord_ok(y),
                    dungeon_coord_ok(z),
                    level.wf(),
                    forall|p: (i32, i32, i32)| dungeon_reach(x, y, z, p) && (p.0 < dx || (p.0 == dx && p.1 < dy))
                        ==> #[trigger] level.blocks().contains_key(p),
                decreases y + 5 - dy,
            {
                let mut dz = z - 4;
                while dz <= z + 4
                    invariant
                        x - 4 <= dx <= x + 4,
                        y - 2 <= dy <= y + 4,
                        z - 4 <= dz <= z + 5,
                        dungeon_coord_ok(x),
                        dungeon_coord_ok(y),
                        dungeon_coord_ok(z),
                        level.wf(),
                        forall|p: (i32, i32, i32)| dungeon_reach(x, y, z, p) && (p.0 < dx || (p.0 == dx && (p.1 < dy || (p.1 == dy && p.2 < dz))))
                            ==> #[trigger] level.blocks().contains_key(p),
                    decreases z + 5 - dz,
                {
                    if level.get_block_at(dx, dy, dz).is_none() {
                        return false;
                    }
                    dz = dz + 1;
                }
                dy = dy + 1;
            }
            dx = dx + 1;
        }
        true
    }

    /// Sets the block at `p`, inside the box of the dungeon.
    fn set_in_box<L: LevelView>(level: &mut L, x: i32, y: i32, z: i32, p: (i32, i32, i32), block: FeatureBlock)
        requires
            old(level).wf(),
            dungeon_box(x, y, z, p),
            old(level).blocks().contains_key(p),
        ensures
            final(level).wf(),
            final(level).blocks() == old(level).blocks().insert(p, block),
            final(level).blocks().dom() == old(level).blocks().dom(),
            forall|q: (i32, i32, i32)| q != p ==> #[trigger] final(level).blocks().contains_key(q) == old(level).blocks().contains_key(q)
                && (final(level).blocks().contains_key(q) ==> final(level).blocks()[q] == old(level).blocks()[q]),
    {
        let _ = level.set_block_at(p.0, p.1, p.2, block);
        assert(level.blocks().dom() =~= old(level).blocks().dom());
    }

    /// Builds the walls, floor and inside of the room of `x_size`/`z_size` around
    /// `x`/`y`/`z`: a wall or floor block above a non solid block becomes air, a solid
    /// one becomes cobblestone (mossy three times in four on the floor), the inside is
    /// air.
    fn build_room<L: LevelView>(level: &mut L, rand: &mut JavaRandom, x: i32, y: i32, z: i32, x_size: i32, z_size: i32)
        requires
            old(level).wf(),
            2 <= x_size <= 3,
            2 <= z_size <= 3,
            dungeon_coord_ok(x),
            dungeon_coord_ok(y),
            dungeon_coord_ok(z),
            forall|p: (i32, i32, i32)| dungeon_reach(x, y, z, p) ==> #[trigger] old(level).blocks().contains_key(p),
        ensures
            final(level).wf(),
            changed_in_box(old(level).blocks(), final(level).blocks(), x, y, z),
            forall|p: (i32, i32, i32)| #[trigger] old(level).blocks().contains_key(p)
                ==> final(level).blocks()[p] == room_block(old(level).blocks(), old(rand)@, x, y, z, x_size, z_size, p),
            final(rand)@ == floor_before(old(level).blocks(), old(rand)@, x, y, z, x_size, z_size, x + x_size + 2, z - z_size - 1),
    {
        let ghost start = level.blocks();
        let ghost s0 = rand@;
        let x_start = x - x_size - 1;
        let z_start = z - z_size - 1;
        let y_start = y - 1;
        let x_end = x + x_size + 1;
        let z_end = z + z_size + 1;
        let y_end = y + 4;
        let mut dx = x_start;
        while dx <= x_end
            invariant
                x_start <= dx <= x_end + 1,
                x_start == x - x_size - 1,
                x_end == x + x_size + 1,
                z_start == z - z_size - 1,
                z_end == z + z_size + 1,
                y_start == y - 1,
                y_end == y + 4,
                2 <= x_size <= 3,
                2 <= z_size <= 3,
                dungeon_coord_ok(x),
                dungeon_coord_ok(y),
                dungeon_coord_ok(z),
                level.wf(),
                start == old(level).blocks(),
                rand@ == floor_before(start, s0, x, y, z, x_size, z_size, dx as int, z_start as int),
                forall|p: (i32, i32, i32)| dungeon_reach(x, y, z, p) ==> #[trigger] start.contains_key(p),
                changed_in_box(start, level.blocks(), x, y, z),
                forall|p: (i32, i32, i32)| #[trigger] start.contains_key(p) ==> if room_cell(x, y, z, x_size, z_size, p) && p.0 < dx {
                    level.blocks()[p] == room_block(start, s0, x, y, z, x_size, z_size, p)
                } else {
                    level.blocks()[p] == start[p]
                },
            decreases x_end + 1 - dx,
        {
            let mut dz = z_start;
            while dz <= z_end
                invariant
                    x_start <= dx <= x_end,
                    z_start <= dz <= z_end + 1,
                    x_start == x - x_size - 1,
                    x_end == x + x_size + 1,
                    z_start == z - z_size - 1,
                    z_end == z + z_size + 1,
                    y_start == y - 1,
                    y_end == y + 4,
                    2 <= x_size <= 3,
                    2 <= z_size <= 3,
                    dungeon_coord_ok(x),
                    dungeon_coord_ok(y),
                    dungeon_coord_ok(z),
                    level.wf(),
                    forall|p: (i32, i32, i32)| dungeon_reach(x, y, z, p) ==> #[trigger] start.contains_key(p),
                    changed_in_box(start, level.blocks(), x, y, z),
                    forall|p: (i32, i32, i32)| #[trigger] start.contains_key(p) ==> if room_cell(x, y, z, x_size, z_size, p)
                        && (p.0 < dx || (p.0 == dx && p.2 < dz)) {
                        level.blocks()[p] == room_block(start, s0, x, y, z, x_size, z_size, p)
                    } else {
                        level.blocks()[p] == start[p]
                    },
                    rand@ == floor_before(start, s0, x, y, z, x_size, z_size, dx as int, dz as int),
                decreases z_end + 1 - dz,
            {
                let mut dy = y_end;
                while dy > y_start
                    invariant
                        x_start <= dx <= x_end,
                        z_start <= dz <= z_end,
                        y_start <= dy <= y_end,
                        x_start == x - x_size - 1,
                        x_end == x + x_size + 1,
                        z_start == z - z_size - 1,
                        z_end == z + z_size + 1,
                        y_start == y - 1,
                        y_end == y + 4,
                        2 <= x_size <= 3,
                        2 <= z_size <= 3,
                        dungeon_coord_ok(x),
                        dungeon_coord_ok(y),
                        dungeon_coord_ok(z),
                        level.wf(),
                        forall|p: (i32, i32, i32)| dungeon_reach(x, y, z, p) ==> #[trigger] start.contains_key(p),
                        changed_in_box(start, level.blocks(), x, y, z),
                        forall|p: (i32, i32, i32)| #[trigger] start.contains_key(p) ==> if room_cell(x, y, z, x_size, z_size, p)
                            && (p.0 < dx || (p.0 == dx && (p.2 < dz || (p.2 == dz && p.1 >= dy)))) {
                            level.blocks()[p] == room_block(start, s0, x, y, z, x_size, z_size, p)
                        } else {
                            level.blocks()[p] == start[p]
                        },
                        rand@ == (if dy == y_start {
                            floor_step(start, y, floor_before(start, s0, x, y, z, x_size, z_size, dx as int, dz as int), dx as int, dz as int)
                        } else {
                            floor_before(start, s0, x, y, z, x_size, z_size, dx as int, dz as int)
                        }),
                    decreases dy - y_start,
                {
                    dy = dy - 1;
                    let p = (dx, dy, dz);
                    assert(dungeon_box(x, y, z, p));
                    assert(start.contains_key(p));
                    assert(start.contains_key((dx, (dy - 1) as i32, dz)));
                    if dx == x_start || dx == x_end || dz == z_start || dz == z_end || dy == y_start || dy == y_end {
                        if dy >= 0 && level.get_block_at(dx, dy - 1, dz).unwrap().non_solid() {
                            Self::set_in_box(level, x, y, z, p, FeatureBlock::Air);
                        } else if !level.get_block_at(dx, dy, dz).unwrap().non_solid() {
                            let mossy = dy == y_start && next_int_bounded(rand, 4) != 0;
                            let block = if mossy { FeatureBlock::MossyCobblestone } else { FeatureBlock::Cobblestone };
                            Self::set_in_box(level, x, y, z, p, block);
                        }
                    } else {
                        Self::set_in_box(level, x, y, z, p, FeatureBlock::Air);
                    }
                    proof {
                        if dy == y_start {
                            assert(start.contains_key((dx, (y - 2) as i32, dz)));
                        }
                    }
                }
                dz = dz + 1;
            }
            assert(floor_before(start, s0, x, y, z, x_size, z_size, dx as int, z_end + 1)
                == floor_before(start, s0, x, y, z, x_size, z_size, dx + 1, z_start as int));
            dx = dx + 1;
        }
    }

    /// Tries to place up to two chests, each with up to three random positions in the
    /// room: a chest goes on an air block with exactly one solid block beside it, then
    /// its loot is drawn.
    fn place_chests<L: LevelView>(level: &mut L, rand: &mut JavaRandom, x: i32, y: i32, z: i32, x_size: i32, z_size: i32)
        requires
            old(level).wf(),
            2 <= x_size <= 3,
            2 <= z_size <= 3,
            dungeon_coord_ok(x),
            dungeon_coord_ok(y),
            dungeon_coord_ok(z),
            forall|p: (i32, i32, i32)| dungeon_reach(x, y, z, p) ==> #[trigger] old(level).blocks().contains_key(p),
        ensures
            final(level).wf(),
            changed_in_box(old(level).blocks(), final(level).blocks(), x, y, z),
            (final(level).blocks(), final(rand)@) == chests_run(old(level).blocks(), old(rand)@, x, y, z, x_size, z_size),
    {
        let ghost start = level.blocks();
        let ghost s0 = rand@;
        let mut i: usize = 0;
        while i < 2
            invariant
                i <= 2,
                2 <= x_size <= 3,
                2 <= z_size <= 3,
                dungeon_coord_ok(x),
                dungeon_coord_ok(y),
                dungeon_coord_ok(z),
                level.wf(),
                forall|p: (i32, i32, i32)| dungeon_reach(x, y, z, p) ==> #[trigger] start.contains_key(p),
                changed_in_box(start, level.blocks(), x, y, z),
                i == 0 ==> (level.blocks(), rand@) == (start, s0),
                i == 1 ==> (level.blocks(), rand@) == chest_round_run(start, s0, x, y, z, x_size, z_size, 0),
                i == 2 ==> (level.blocks(), rand@) == chests_run(start, s0, x, y, z, x_size, z_size),
            decreases 2 - i,
        {
            let ghost before = level.blocks();
            let ghost sr = rand@;
            let mut j: usize = 0;
            let mut placed = false;
            while j < 3 && !placed
                invariant
                    j <= 3,
                    2 <= x_size <= 3,
                    2 <= z_size <= 3,
                    dungeon_coord_ok(x),
                    dungeon_coord_ok(y),
                    dungeon_coord_ok(z),
                    level.wf(),
                    forall|p: (i32, i32, i32)| dungeon_reach(x, y, z, p) ==> #[trigger] start.contains_key(p),
                    changed_in_box(start, level.blocks(), x, y, z),
                    changed_in_box(start, before, x, y, z),
                    !placed ==> level.blocks() == before,
                    !placed ==> chest_round_run(before, sr, x, y, z, x_size, z_size, 0)
                        == chest_round_run(before, rand@, x, y, z, x_size, z_size, j as nat),
                    placed ==> (level.blocks(), rand@) == chest_round_run(before, sr, x, y, z, x_size, z_size, 0),
                decreases 3 - j,
            {
                let ghost st = rand@;
                let x_chest = x + next_int_bounded(rand, x_size * 2 + 1) - x_size;
                let z_chest = z + next_int_bounded(rand, z_size * 2 + 1) - z_size;
                let ghost s2 = rand@;
                assert(start.contains_key((x_chest, y, z_chest)));
                let mut ok = false;
                if level.get_block_at(x_chest, y, z_chest).unwrap() == FeatureBlock::Air {
                    assert(start.contains_key(((x_chest - 1) as i32, y, z_chest)));
                    assert(start.contains_key(((x_chest + 1) as i32, y, z_chest)));
                    assert(start.contains_key((x_chest, y, (z_chest - 1) as i32)));
                    assert(start.contains_key((x_chest, y, (z_chest + 1) as i32)));
                    let mut solid_count: u8 = 0;
                    if !level.get_block_at(x_chest - 1, y, z_chest).unwrap().non_solid() {
                        solid_count = solid_count + 1;
                    }
                    if !level.get_block_at(x_chest + 1, y, z_chest).unwrap().non_solid() {
                        solid_count = solid_count + 1;
                    }
                    if !level.get_block_at(x_chest, y, z_chest - 1).unwrap().non_solid() {
                        solid_count = solid_count + 1;
                    }
                    if !level.get_block_at(x_chest, y, z_chest + 1).unwrap().non_solid() {
                        solid_count = solid_count + 1;
                    }
                    assert(solid_count == chest_solid_sides(before, (x_chest, y, z_chest)));
                    ok = solid_count == 1;
                }
                assert(ok == chest_ok(before, (x_chest, z_chest), y));
                if ok {
                    Self::set_in_box(level, x, y, z, (x_chest, y, z_chest), FeatureBlock::Chest);
                    let mut k: usize = 0;
                    while k < 8
                        invariant
                            k <= 8,
                            rand@ == loot_run(s2, k as nat),
                        decreases 8 - k,
                    {
                        if !pick_chest_loot_item(rand) {
                            next_blank(rand);
                        }
                        k = k + 1;
                    }
                    placed = true;
                }
                j = j + 1;
            }
            proof {
                if !placed {
                    assert(j == 3);
                }
            }
            i = i + 1;
        }
    }

    /// Generates a dungeon at `x`/`y`/`z`: a room of a random size is checked, then built
    /// with chests and a spawner at its center. Returns whether it was generated; when
    /// not, the level is left as it was.
    pub fn generate<L: LevelView>(&self, level: &mut L, rand: &mut JavaRandom, x: i32, y: i32, z: i32) -> (r: bool)
        requires
            old(level).wf(),
            dungeon_coord_ok(x),
            dungeon_coord_ok(y),
            dungeon_coord_ok(z),
        ensures
            final(level).wf(),
            !r ==> final(level).blocks() == old(level).blocks(),
            r ==> final(level).blocks()[(x, y, z)] == FeatureBlock::Spawner,
            r ==> forall|p: (i32, i32, i32)| dungeon_reach(x, y, z, p) ==> #[trigger] old(level).blocks().contains_key(p),
            changed_in_box(old(level).blocks(), final(level).blocks(), x, y, z),
            r == dungeon_grows_at(old(level).blocks(), x, y, z, dungeon_sizes(old(rand)@).0, dungeon_sizes(old(rand)@).1),
            r ==> (final(level).blocks(), final(rand)@) == dungeon_result(old(level).blocks(), old(rand)@, x, y, z),
            !r ==> final(rand)@ == dungeon_sizes_state(old(rand)@),
    {
        let x_size = next_int_bounded(rand, 2) + 2;
        let z_size = next_int_bounded(rand, 2) + 2;
        assert(dungeon_sizes(old(rand)@) == (x_size, z_size));
        if !Self::room_fits(level, x, y, z, x_size, z_size) {
            assert(!dungeon_grows_at(level.blocks(), x, y, z, x_size, z_size));
            return false;
        }
        if !Self::holds_reach(level, x, y, z) {
            assert(!dungeon_grows_at(level.blocks(), x, y, z, x_size, z_size));
            return false;
        }
        assert(dungeon_grows_at(level.blocks(), x, y, z, x_size, z_size));
        let ghost start = level.blocks();
        let ghost s2 = rand@;
        Self::build_room(level, rand, x, y, z, x_size, z_size);
        let ghost mid = level.blocks();
        assert(mid =~= Map::new(|p: (i32, i32, i32)| start.contains_key(p),
            |p: (i32, i32, i32)| room_block(start, s2, x, y, z, x_size, z_size, p)));
        assert forall|p: (i32, i32, i32)| dungeon_reach(x, y, z, p) implies #[trigger] level.blocks().contains_key(p) by {
            assert(start.contains_key(p));
        }
        Self::place_chests(level, rand, x, y, z, x_size, z_size);
        assert(level.blocks().contains_key((x, y, z))) by {
            assert(mid.contains_key((x, y, z)));
        }
        Self::set_in_box(level, x, y, z, (x, y, z), FeatureBlock::Spawner);
        let _mob = pick_mob(rand);
        true
    }

}

impl Feature for DungeonFeature {

    open spec fn fits_in(&self, shape: LevelShape, x: i32, y: i32, z: i32) -> bool {
        dungeon_coord_ok(x) && dungeon_coord_ok(y) && dungeon_coord_ok(z)
    }

    fn fits_over<L: LevelView>(&self, level: &L, lo: (i32, i32, i32), hi: (i32, i32, i32)) -> (r: bool)
        ensures
            lo == hi ==> r == self.fits_in(level_shape(level), lo.0, lo.1, lo.2),
    {
        -0x7fff_fff0 <= lo.0 && hi.0 <= 0x7fff_fff0 && -0x7fff_fff0 <= lo.1 && hi.1 <= 0x7fff_fff0
            && -0x7fff_fff0 <= lo.2 && hi.2 <= 0x7fff_fff0
    }

    /// Only the dungeon's box changes, and only when true is returned: whether the room
    /// of a drawn size grows; then the spawner stands at `x`/`y`/`z`.
    open spec fn outcome(&self, seed: i64, before: Map<(i32, i32, i32), FeatureBlock>, heights: Heights, tops: TopSubChunks,
        after: Map<(i32, i32, i32), FeatureBlock>, x: i32, y: i32, z: i32, r: bool, seed_after: i64) -> bool {
        &&& !r ==> after == before
        &&& r ==> after[(x, y, z)] == FeatureBlock::Spawner
        &&& changed_in_box(before, after, x, y, z)
        &&& r == dungeon_grows_at(before, x, y, z, dungeon_sizes(seed).0, dungeon_sizes(seed).1)
        &&& r ==> (after, seed_after) == dungeon_result(before, seed, x, y, z)
        &&& !r ==> seed_after == dungeon_sizes_state(seed)
    }

    fn generate<L: LevelView>(&self, level: &mut L, rand: &mut JavaRandom, x: i32, y: i32, z: i32) -> (r: bool) {
        DungeonFeature::generate(self, level, rand, x, y, z)
    }

}

} // verus!
