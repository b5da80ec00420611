//! The integer part of the lake feature: where the lake sits, and the test and the
//! filling of its shape (the shape itself is drawn as floating point ellipsoids).

use vstd::prelude::*;

use crate::view::{LevelView, FeatureBlock};

verus! {

/// The lake feature: a lake of water or lava whose shape is drawn as a few ellipsoids.
pub struct LakeFeature {
    pub block: FeatureBlock,
}

impl LakeFeature {

    pub fn new(block: FeatureBlock) -> (r: Self)
        ensures
            r.block == block,
    {
        LakeFeature { block }
    }

}

/// The index of the cell `dx`/`dz`/`dy` of a lake's shape (16 by 16 by 8 cells).
pub open spec fn lake_index(dx: int, dz: int, dy: int) -> int {
    (dx * 16 + dz) * 8 + dy
}

/// The cell is outside the shape but beside one of its cells.
pub open spec fn lake_border(shape: Seq<bool>, dx: int, dz: int, dy: int) -> bool {
    !shape[lake_index(dx, dz, dy)] && (
        (dx != 15 && shape[lake_index(dx + 1, dz, dy)])
        || (dx != 0 && shape[lake_index(dx - 1, dz, dy)])
        || (dz != 15 && shape[lake_index(dx, dz + 1, dy)])
        || (dz != 0 && shape[lake_index(dx, dz - 1, dy)])
        || (dy != 7 && shape[lake_index(dx, dz, dy + 1)])
        || (dy != 0 && shape[lake_index(dx, dz, dy - 1)])
    )
}

/// A border block refuses the lake: liquid above its surface, or air (other than the
/// lake's own block) below it.
pub open spec fn lake_refuses(b: FeatureBlock, dy: int, block: FeatureBlock) -> bool {
    (dy >= 4 && (b == FeatureBlock::Water || b == FeatureBlock::Lava))
        || (dy < 4 && b == FeatureBlock::Air && b != block)
}

/// The position of the cell `dx`/`dz`/`dy` of a lake whose corner is `x`/`y`/`z`.
pub open spec fn lake_pos(x: i32, y: i32, z: i32, dx: int, dz: int, dy: int) -> (i32, i32, i32) {
    ((x + dx) as i32, (y + dy) as i32, (z + dz) as i32)
}

/// The cell is in the 16 by 16 by 8 cells of a lake.
pub open spec fn lake_cell(dx: int, dz: int, dy: int) -> bool {
    0 <= dx < 16 && 0 <= dz < 16 && 0 <= dy < 8
}

/// No border block of the shape refuses the lake.
pub open spec fn lake_fits(blocks: Map<(i32, i32, i32), FeatureBlock>, shape: Seq<bool>, x: i32, y: i32, z: i32, block: FeatureBlock) -> bool {
    forall|dx: int, dz: int, dy: int| lake_cell(dx, dz, dy) && #[trigger] lake_border(shape, dx, dz, dy)
        ==> !lake_refuses(blocks[lake_pos(x, y, z, dx, dz, dy)], dy, block)
}

/// A coordinate with room for a lake after it.
pub open spec fn lake_coord_ok(c: i32) -> bool {
    i32::MIN + 0x100 <= c <= i32::MAX - 0x100
}

/// The view holds the 16 by 16 by 8 blocks of the lake.
pub open spec fn holds_lake(blocks: Map<(i32, i32, i32), FeatureBlock>, x: i32, y: i32, z: i32) -> bool {
    forall|dx: int, dz: int, dy: int| lake_cell(dx, dz, dy) ==> #[trigger] blocks.contains_key(lake_pos(x, y, z, dx, dz, dy))
}

/// The height of the lake whose surface column is at `x`/`z`, going down from `y`
/// through air to 5 at least: 4 blocks below where it stops; `None` when `y` is 4 or
/// less.
pub fn lake_base<L: LevelView>(level: &L, x: i32, y: i32, z: i32) -> (r: Option<i32>)
    requires
        level.wf(),
        forall|k: i32| 5 < k <= y ==> #[trigger] level.blocks().contains_key((x, k, z)),
    ensures
        r is None <==> y <= 4,
        r matches Some(v) ==> 5 <= v + 4 <= y
            && (forall|k: i32| v + 4 < k <= y ==> #[trigger] level.blocks()[(x, k, z)] == FeatureBlock::Air)
            && (v + 4 == 5 || level.blocks()[(x, (v + 4) as i32, z)] != FeatureBlock::Air),
{
    let mut cy = y;
    while cy > 5 && level.get_block_at(x, cy, z).unwrap() == FeatureBlock::Air
        invariant
            cy <= y,
            y > 5 ==> cy >= 5,
            y <= 5 ==> cy == y,
            level.wf(),
            forall|k: i32| 5 < k <= y ==> #[trigger] level.blocks().contains_key((x, k, z)),
            forall|k: i32| cy < k <= y ==> #[trigger] level.blocks()[(x, k, z)] == FeatureBlock::Air,
        decreases cy,
    {
        cy = cy - 1;
    }
    if cy <= 4 {
        None
    } else {
        Some(cy - 4)
    }
}

/// Checks the lake of the given shape (2048 cells, X then Z then Y) whose corner is
/// `x`/`y`/`z`, then fills it: the cells of the shape below 4 get `block`, those above
/// get air. Returns whether it fits; when not, the level is left as it was.
pub fn lake_place<L: LevelView>(level: &mut L, x: i32, y: i32, z: i32, shape: &Vec<bool>, block: FeatureBlock) -> (r: bool)
    requires
        old(level).wf(),
        shape@.len() == 2048,
        lake_coord_ok(x),
        lake_coord_ok(y),
        lake_coord_ok(z),
        holds_lake(old(level).blocks(), x, y, z),
    ensures
        final(level).wf(),
        r == lake_fits(old(level).blocks(), shape@, x, y, z, block),
        !r ==> final(level).blocks() == old(level).blocks(),
        r ==> final(level).blocks() == Map::new(
            |p: (i32, i32, i32)| old(level).blocks().contains_key(p),
            |p: (i32, i32, i32)| if x <= p.0 < x + 16 && z <= p.2 < z + 16 && y <= p.1 < y + 8
                && shape@[lake_index(p.0 - x, p.2 - z, p.1 - y)] {
                if p.1 - y < 4 { block } else { FeatureBlock::Air }
            } else {
                old(level).blocks()[p]
            },
        ),
{
    if !lake_check(level, x, y, z, shape, block) {
        return false;
    }
    lake_fill(level, x, y, z, shape, block);
    true
}

fn lake_border_at(shape: &Vec<bool>, dx: usize, dz: usize, dy: usize) -> (r: bool)
    requires
        shape@.len() == 2048,
        lake_cell(dx as int, dz as int, dy as int),
    ensures
        r == lake_border(shape@, dx as int, dz as int, dy as int),
{
    !shape[(dx * 16 + dz) * 8 + dy] && (
        (dx != 15 && shape[((dx + 1) * 16 + dz) * 8 + dy])
        || (dx != 0 && shape[((dx - 1) * 16 + dz) * 8 + dy])
        || (dz != 15 && shape[(dx * 16 + (dz + 1)) * 8 + dy])
        || (dz != 0 && shape[(dx * 16 + (dz - 1)) * 8 + dy])
        || (dy != 7 && shape[(dx * 16 + dz) * 8 + (dy + 1)])
        || (dy != 0 && shape[(dx * 16 + dz) * 8 + (dy - 1)])
    )
}

fn lake_check<L: LevelView>(level: &L, x: i32, y: i32, z: i32, shape: &Vec<bool>, block: FeatureBlock) -> (r: bool)
    requires
        level.wf(),
        shape@.len() == 2048,
        lake_coord_ok(x),
        lake_coord_ok(y),
        lake_coord_ok(z),
        holds_lake(level.blocks(), x, y, z),
    ensures
        r == lake_fits(level.blocks(), shape@, x, y, z, block),
{
    let mut dx: usize = 0;
    while dx < 16
        invariant
            dx <= 16,
            level.wf(),
            shape@.len() == 2048,
            lake_coord_ok(x),
            lake_coord_ok(y),
            lake_coord_ok(z),
            holds_lake(level.blocks(), x, y, z),
            forall|a: int, c: int, b: int| lake_cell(a, c, b) && a < dx && #[trigger] lake_border(shape@, a, c, b)
                ==> !lake_refuses(level.blocks()[lake_pos(x, y, z, a, c, b)], b, block),
        decreases 16 - dx,
    {
        let mut dz: usize = 0;
        while dz < 16
            invariant
                dx < 16,
                dz <= 16,
                level.wf(),
                shape@.len() == 2048,
                lake_coord_ok(x),
                lake_coord_ok(y),
                lake_coord_ok(z),
                holds_lake(level.blocks(), x, y, z),
                forall|a: int, c: int, b: int| lake_cell(a, c, b) && (a < dx || (a == dx && c < dz)) && #[trigger] lake_border(shape@, a, c, b)
                    ==> !lake_refuses(level.blocks()[lake_pos(x, y, z, a, c, b)], b, block),
            decreases 16 - dz,
        {
            let mut dy: usize = 0;
            while dy < 8
                invariant
                    dx < 16,
                    dz < 16,
                    dy <= 8,
                    level.wf(),
                    shape@.len() == 2048,
                    lake_coord_ok(x),
                    lake_coord_ok(y),
                    lake_coord_ok(z),
                    holds_lake(level.blocks(), x, y, z),
                    forall|a: int, c: int, b: int| lake_cell(a, c, b) && (a < dx || (a == dx && c < dz) || (a == dx && c == dz && b < dy))
                        && #[trigger] lake_border(shape@, a, c, b)
                        ==> !lake_refuses(level.blocks()[lake_pos(x, y, z, a, c, b)], b, block),
                decreases 8 - dy,
            {
                if lake_border_at(shape, dx, dz, dy) {
                    assert(level.blocks().contains_key(lake_pos(x, y, z, dx as int, dz as int, dy as int)));
                    let b = level.get_block_at(x + dx as i32, y + dy as i32, z + dz as i32).unwrap();
                    if dy >= 4 && (b == FeatureBlock::Water || b == FeatureBlock::Lava) {
                        return false;
                    } else if dy < 4 && b == FeatureBlock::Air && b != block {
                        return false;
                    }
                }
                dy = dy + 1;
            }
            dz = dz + 1;
        }
        dx = dx + 1;
    }
    true
}

/// The blocks of a lake filled up to the cell `dx`/`dz`/`dy` excluded (X then Z then Y).
pub open spec fn lake_filled(old_blocks: Map<(i32, i32, i32), FeatureBlock>, shape: Seq<bool>, x: i32, y: i32, z: i32,
    block: FeatureBlock, done: spec_fn(int, int, int) -> bool) -> Map<(i32, i32, i32), FeatureBlock> {
    Map::new(
        |p: (i32, i32, i32)| old_blocks.contains_key(p),
        |p: (i32, i32, i32)| if x <= p.0 < x + 16 && z <= p.2 < z + 16 && y <= p.1 < y + 8
            && done(p.0 - x, p.2 - z, p.1 - y) && shape[lake_index(p.0 - x, p.2 - z, p.1 - y)] {
            if p.1 - y < 4 { block } else { FeatureBlock::Air }
        } else {
            old_blocks[p]
        },
    )
}

fn lake_fill<L: LevelView>(level: &mut L, x: i32, y: i32, z: i32, shape: &Vec<bool>, block: FeatureBlock)
    requires
        old(level).wf(),
        shape@.len() == 2048,
        lake_coord_ok(x),
        lake_coord_ok(y),
        lake_coord_ok(z),
        holds_lake(old(level).blocks(), x, y, z),
    ensures
        final(level).wf(),
        final(level).blocks() == lake_filled(old(level).blocks(), shape@, x, y, z, block, |a: int, c: int, b: int| true),
{
    let ghost start = level.blocks();
    let mut dx: usize = 0;
    while dx < 16
        invariant
            dx <= 16,
            level.wf(),
            shape@.len() == 2048,
            lake_coord_ok(x),
            lake_coord_ok(y),
            lake_coord_ok(z),
            holds_lake(start, x, y, z),
            level.blocks() == lake_filled(start, shape@, x, y, z, block, |a: int, c: int, b: int| a < dx),
        decreases 16 - dx,
    {
        let mut dz: usize = 0;
        while dz < 16
            invariant
                dx < 16,
                dz <= 16,
                level.wf(),
                shape@.len() == 2048,
                lake_coord_ok(x),
                lake_coord_ok(y),
                lake_coord_ok(z),
                holds_lake(start, x, y, z),
                level.blocks() == lake_filled(start, shape@, x, y, z, block, |a: int, c: int, b: int| a < dx || (a == dx && c < dz)),
            decreases 16 - dz,
        {
            let mut dy: usize = 0;
            while dy < 8
                invariant
                    dx < 16,
                    dz < 16,
                    dy <= 8,
                    level.wf(),
                    shape@.len() == 2048,
                    lake_coord_ok(x),
                    lake_coord_ok(y),
                    lake_coord_ok(z),
                    holds_lake(start, x, y, z),
                    level.blocks() == lake_filled(start, shape@, x, y, z, block,
                        |a: int, c: int, b: int| a < dx || (a == dx && c < dz) || (a == dx && c == dz && b < dy)),
                decreases 8 - dy,
            {
                let ghost before = level.blocks();
                if shape[(dx * 16 + dz) * 8 + dy] {
                    assert(start.contains_key(lake_pos(x, y, z, dx as int, dz as int, dy as int)));
                    let b = if dy < 4 { block } else { FeatureBlock::Air };
                    let _ = level.set_block_at(x + dx as i32, y + dy as i32, z + dz as i32, b);
                }
                proof {
                    let next = |a: int, c: int, b: int| a < dx || (a == dx && c < dz) || (a == dx && c == dz && b < dy + 1);
                    assert(level.blocks() =~= lake_filled(start, shape@, x, y, z, block, next));
                }
                dy = dy + 1;
            }
            proof {
                assert(level.blocks() =~= lake_filled(start, shape@, x, y, z, block, |a: int, c: int, b: int| a < dx || (a == dx && c < dz + 1)));
            }
            dz = dz + 1;
        }
        proof {
            assert(level.blocks() =~= lake_filled(start, shape@, x, y, z, block, |a: int, c: int, b: int| a < dx + 1));
        }
        dx = dx + 1;
    }
    proof {
        assert(level.blocks() =~= lake_filled(start, shape@, x, y, z, block, |a: int, c: int, b: int| true));
    }
}

} // verus!
