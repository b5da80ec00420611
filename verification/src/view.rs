//! Views on a level, as the features read and write it: the blocks a feature knows,
//! and the tags it reads of the others.

use vstd::prelude::*;

verus! {

/// The wood of a tree's logs and leaves.
#[derive(Clone, Copy, Debug, PartialEq, Eq, Structural)]
pub enum Wood {
    Oak,
    Birch,
    Spruce,
    Jungle,
}

/// The side of its block a vine hangs on.
#[derive(Clone, Copy, Debug, PartialEq, Eq, Structural)]
pub enum VineSide {
    West,
    East,
    South,
    North,
}

/// A plant the features place.
#[derive(Clone, Copy, Debug, PartialEq, Eq, Structural)]
pub enum PlantKind {
    Dandelion,
    Poppy,
    Grass,
    Fern,
    DeadBush,
    LilyPad,
    BrownMushroom,
    RedMushroom,
}

/// An ore the veins place.
#[derive(Clone, Copy, Debug, PartialEq, Eq, Structural)]
pub enum OreKind {
    Coal,
    Iron,
    Gold,
    Redstone,
    Diamond,
    Lapis,
}

/// A block as the features see it.
#[derive(Clone, Copy, Debug, PartialEq, Eq, Structural)]
pub enum FeatureBlock {
    Air,
    Stone,
    Water,
    GrassBlock,
    Dirt,
    Cobblestone,
    MossyCobblestone,
    Chest,
    Spawner,
    Log(Wood),
    /// Leaves at distance 1 of a log, not persistent.
    Leaves(Wood),
    Vine(VineSide),
    Lava,
    Sand,
    Gravel,
    Clay,
    Farmland,
    SugarCane,
    Plant(PlantKind),
    /// A sapling of the given wood.
    Sapling(Wood),
    Ore(OreKind),
    GoldBlock,
    /// Any other block, with the tags the features read.
    Other { non_solid: bool, leaves: bool, log: bool },
}

/// The heightmaps the features read.
#[derive(Clone, Copy, Debug, PartialEq, Eq, Structural)]
pub enum HeightmapKind {
    WorldSurface,
    MotionBlocking,
    OceanFloor,
    OceanFloorWg,
}

/// The block is tagged as not solid: air, water, lava, vines, plants, saplings and the
/// other blocks so tagged.
pub open spec fn non_solid_spec(b: FeatureBlock) -> bool {
    match b {
        FeatureBlock::Air | FeatureBlock::Water | FeatureBlock::Lava | FeatureBlock::Vine(_) | FeatureBlock::SugarCane
            | FeatureBlock::Plant(_) | FeatureBlock::Sapling(_) => true,
        FeatureBlock::Other { non_solid, .. } => non_solid,
        _ => false,
    }
}

/// The block is tagged as leaves.
pub open spec fn leaves_spec(b: FeatureBlock) -> bool {
    match b {
        FeatureBlock::Leaves(_) => true,
        FeatureBlock::Other { leaves, .. } => leaves,
        _ => false,
    }
}

/// The block is tagged as a log.
pub open spec fn log_spec(b: FeatureBlock) -> bool {
    match b {
        FeatureBlock::Log(_) => true,
        FeatureBlock::Other { log, .. } => log,
        _ => false,
    }
}

impl FeatureBlock {

    pub fn non_solid(&self) -> (r: bool)
        ensures
            r == non_solid_spec(*self),
    {
        match self {
            FeatureBlock::Air | FeatureBlock::Water | FeatureBlock::Lava | FeatureBlock::Vine(_) | FeatureBlock::SugarCane
                | FeatureBlock::Plant(_) | FeatureBlock::Sapling(_) => true,
            FeatureBlock::Other { non_solid, .. } => *non_solid,
            _ => false,
        }
    }

    pub fn is_leaves(&self) -> (r: bool)
        ensures
            r == leaves_spec(*self),
    {
        match self {
            FeatureBlock::Leaves(_) => true,
            FeatureBlock::Other { leaves, .. } => *leaves,
            _ => false,
        }
    }

    pub fn is_log(&self) -> (r: bool)
        ensures
            r == log_spec(*self),
    {
        match self {
            FeatureBlock::Log(_) => true,
            FeatureBlock::Other { log, .. } => *log,
            _ => false,
        }
    }

}

/// A local level view used to generate features in a partial level: the blocks at
/// the positions it holds.
pub trait LevelView {

    /// The view is in a usable state.
    spec fn wf(&self) -> bool;

    /// The blocks of the view, by position.
    spec fn blocks(&self) -> Map<(i32, i32, i32), FeatureBlock>;

    /// The block at `x`/`y`/`z`, `None` outside the view.
    fn get_block_at(&self, x: i32, y: i32, z: i32) -> (r: Option<FeatureBlock>)
        requires
            self.wf(),
        ensures
            r == (if self.blocks().contains_key((x, y, z)) { Some(self.blocks()[(x, y, z)]) } else { None }),
    ;

    /// The heights of the columns the view holds, by heightmap and column.
    spec fn heights(&self) -> Map<(HeightmapKind, i32, i32), i32>;

    /// The highest non empty sub chunk of the chunk holding each column the view holds.
    spec fn top_sub_chunks(&self) -> Map<(i32, i32), i8>;

    /// Sets the block at `x`/`y`/`z`; false, changing nothing, outside the view. The
    /// heights may follow the new block, for the same column; the other columns keep theirs.
    fn set_block_at(&mut self, x: i32, y: i32, z: i32, block: FeatureBlock) -> (r: bool)
        requires
            old(self).wf(),
        ensures
            final(self).wf(),
            r == old(self).blocks().contains_key((x, y, z)),
            final(self).blocks() == (if r { old(self).blocks().insert((x, y, z), block) } else { old(self).blocks() }),
            final(self).heights().dom() == old(self).heights().dom(),
            forall|k: HeightmapKind, cx: i32, cz: i32| (cx != x || cz != z) && #[trigger] old(self).heights().contains_key((k, cx, cz))
                ==> final(self).heights()[(k, cx, cz)] == old(self).heights()[(k, cx, cz)],
            final(self).top_sub_chunks().dom() == old(self).top_sub_chunks().dom(),
    ;

    /// The height of the column `x`/`z` in the heightmap `kind`, `None` outside the view.
    fn get_heightmap_column_at(&self, kind: HeightmapKind, x: i32, z: i32) -> (r: Option<i32>)
        requires
            self.wf(),
        ensures
            r == (if self.heights().contains_key((kind, x, z)) { Some(self.heights()[(kind, x, z)]) } else { None }),
    ;

    /// The highest non empty sub chunk of the chunk holding the column `x`/`z`, `None`
    /// outside the view.
    fn get_highest_sub_chunk_at(&self, x: i32, z: i32) -> (r: Option<i8>)
        requires
            self.wf(),
        ensures
            r == (if self.top_sub_chunks().contains_key((x, z)) { Some(self.top_sub_chunks()[(x, z)]) } else { None }),
    ;

}

/// What a view holds: the positions of its blocks. Features state what they need of a
/// view over it, and generating a feature keeps it.
pub type LevelShape = Set<(i32, i32, i32)>;

/// The positions the view holds.
pub open spec fn level_shape<L: LevelView>(level: &L) -> LevelShape {
    level.blocks().dom()
}

/// The view holds every position of the box of `xs` by `ys` by `zs` blocks from
/// `x`/`y`/`z`.
pub open spec fn holds_box_spec(blocks: Map<(i32, i32, i32), FeatureBlock>, x: i32, y: i32, z: i32, xs: i32, ys: i32, zs: i32) -> bool {
    forall|p: (i32, i32, i32)| x <= p.0 < x + xs && y <= p.1 < y + ys && z <= p.2 < z + zs ==> #[trigger] blocks.contains_key(p)
}

/// Whether the view holds every position of the box of `xs` by `ys` by `zs` blocks from
/// `x`/`y`/`z`.
pub fn holds_box<L: LevelView>(level: &L, x: i32, y: i32, z: i32, xs: i32, ys: i32, zs: i32) -> (r: bool)
    requires
        level.wf(),
        0 <= xs && 0 <= ys && 0 <= zs,
        x + xs <= i32::MAX && y + ys <= i32::MAX && z + zs <= i32::MAX,
    ensures
        r == holds_box_spec(level.blocks(), x, y, z, xs, ys, zs),
{
    let mut bx = x;
    while bx < x + xs
        invariant
            x <= bx <= x + xs,
            x + xs <= i32::MAX && y + ys <= i32::MAX && z + zs <= i32::MAX,
            0 <= ys && 0 <= zs,
            level.wf(),
            forall|p: (i32, i32, i32)| x <= p.0 < bx && y <= p.1 < y + ys && z <= p.2 < z + zs ==> #[trigger] level.blocks().contains_key(p),
        decreases x + xs - bx,
    {
        let mut bz = z;
        while bz < z + zs
            invariant
                x <= bx < x + xs,
                z <= bz <= z + zs,
                x + xs <= i32::MAX && y + ys <= i32::MAX && z + zs <= i32::MAX,
                0 <= ys,
                level.wf(),
                forall|p: (i32, i32, i32)| (x <= p.0 < bx || (p.0 == bx && z <= p.2 < bz)) && y <= p.1 < y + ys
                    && z <= p.2 < z + zs ==> #[trigger] level.blocks().contains_key(p),
            decreases z + zs - bz,
        {
            let mut by = y;
            while by < y + ys
                invariant
                    x <= bx < x + xs,
                    z <= bz < z + zs,
                    y <= by <= y + ys,
                    x + xs <= i32::MAX && y + ys <= i32::MAX && z + zs <= i32::MAX,
                    level.wf(),
                    forall|p: (i32, i32, i32)| (x <= p.0 < bx || (p.0 == bx && (z <= p.2 < bz || (p.2 == bz && y <= p.1 < by))))
                        && y <= p.1 < y + ys && z <= p.2 < z + zs ==> #[trigger] level.blocks().contains_key(p),
                decreases y + ys - by,
            {
                if level.get_block_at(bx, by, bz).is_none() {
                    return false;
                }
                by = by + 1;
            }
            bz = bz + 1;
        }
        bx = bx + 1;
    }
    true
}

/// A level view holding a box of blocks, stored X, then Z, then Y.
pub struct BoxLevel {
    pub x_start: i32,
    pub y_start: i32,
    pub z_start: i32,
    pub x_size: usize,
    pub y_size: usize,
    pub z_size: usize,
    pub data: Vec<FeatureBlock>,
    /// The height of each column, X then Z, for each heightmap in the order of
    /// `heightmap_index`.
    pub column_heights: Vec<i32>,
    /// The highest non empty sub chunk of the chunk holding each column, X then Z.
    pub top_sub_chunks: Vec<i8>,
}

/// The place of a heightmap among the heights of a box.
pub open spec fn heightmap_index(kind: HeightmapKind) -> int {
    match kind {
        HeightmapKind::WorldSurface => 0,
        HeightmapKind::MotionBlocking => 1,
        HeightmapKind::OceanFloor => 2,
        HeightmapKind::OceanFloorWg => 3,
    }
}

/// The place of a heightmap among the heights of a box.
pub fn heightmap_slot(kind: HeightmapKind) -> (r: usize)
    ensures
        r == heightmap_index(kind),
{
    match kind {
        HeightmapKind::WorldSurface => 0,
        HeightmapKind::MotionBlocking => 1,
        HeightmapKind::OceanFloor => 2,
        HeightmapKind::OceanFloorWg => 3,
    }
}

/// The box starting at `x0`/`z0` of the given sizes holds the column `x`/`z`.
pub open spec fn box_holds_column(x0: i32, z0: i32, xs: usize, zs: usize, x: i32, z: i32) -> bool {
    x0 <= x < x0 + xs && z0 <= z < z0 + zs
}

/// The index in a box's heights of the column `x`/`z` held by the box.
pub open spec fn box_column_index(x0: i32, z0: i32, xs: usize, x: i32, z: i32) -> int {
    (x - x0) + (z - z0) * xs
}

/// The box starting at `x0`/`y0`/`z0` of the given sizes holds `p`.
pub open spec fn box_holds(x0: i32, y0: i32, z0: i32, xs: usize, ys: usize, zs: usize, p: (i32, i32, i32)) -> bool {
    x0 <= p.0 < x0 + xs && y0 <= p.1 < y0 + ys && z0 <= p.2 < z0 + zs
}

/// The index in a box's data of the position `p` held by the box.
pub open spec fn box_index(x0: i32, y0: i32, z0: i32, xs: usize, zs: usize, p: (i32, i32, i32)) -> int {
    (p.0 - x0) + (p.2 - z0) * xs + (p.1 - y0) * (xs * zs)
}

impl BoxLevel {

    /// A box of the given sizes filled with one block, its columns' heights at its
    /// bottom and its highest sub chunk 0.
    pub fn new(x_start: i32, y_start: i32, z_start: i32, x_size: usize, y_size: usize, z_size: usize, fill: FeatureBlock) -> (r: Self)
        requires
            x_size * z_size <= usize::MAX,
            x_size * y_size <= usize::MAX,
            x_size * y_size * z_size <= usize::MAX,
            x_start + x_size <= i32::MAX + 1,
            y_start + y_size <= i32::MAX + 1,
            z_start + z_size <= i32::MAX + 1,
        ensures
            r.wf(),
            r.x_start == x_start && r.y_start == y_start && r.z_start == z_start,
            r.x_size == x_size && r.y_size == y_size && r.z_size == z_size,
            forall|p: (i32, i32, i32)| #[trigger] r.blocks().contains_key(p) <==> box_holds(x_start, y_start, z_start, x_size, y_size, z_size, p),
            forall|p: (i32, i32, i32)| r.blocks().contains_key(p) ==> #[trigger] r.blocks()[p] == fill,
            forall|k: HeightmapKind, x: i32, z: i32| #[trigger] r.heights().contains_key((k, x, z))
                <==> box_holds_column(x_start, z_start, x_size, z_size, x, z),
            forall|k: HeightmapKind, x: i32, z: i32| r.heights().contains_key((k, x, z)) ==> #[trigger] r.heights()[(k, x, z)] == y_start,
            forall|x: i32, z: i32| #[trigger] r.top_sub_chunks().contains_key((x, z)) <==> box_holds_column(x_start, z_start, x_size, z_size, x, z),
            forall|x: i32, z: i32| r.top_sub_chunks().contains_key((x, z)) ==> #[trigger] r.top_sub_chunks()[(x, z)] == 0,
    {
        let n = x_size * y_size * z_size;
        let mut data: Vec<FeatureBlock> = Vec::with_capacity(n);
        let mut i: usize = 0;
        while i < n
            invariant
                i <= n,
                data@.len() == i,
                forall|j: int| 0 <= j < i ==> #[trigger] data@[j] == fill,
            decreases n - i,
        {
            data.push(fill);
            i = i + 1;
        }
        let nc = x_size * z_size;
        assert(4 * nc <= 4 * usize::MAX);
        let mut column_heights: Vec<i32> = Vec::new();
        let mut i: usize = 0;
        while i < nc
            invariant
                i <= nc,
                column_heights@.len() == 4 * i,
                forall|j: int| 0 <= j < 4 * i ==> #[trigger] column_heights@[j] == y_start,
            decreases nc - i,
        {
            column_heights.push(y_start);
            column_heights.push(y_start);
            column_heights.push(y_start);
            column_heights.push(y_start);
            i = i + 1;
        }
        let mut top_sub_chunks: Vec<i8> = Vec::new();
        let mut i: usize = 0;
        while i < nc
            invariant
                i <= nc,
                top_sub_chunks@.len() == i,
                forall|j: int| 0 <= j < i ==> #[trigger] top_sub_chunks@[j] == 0,
            decreases nc - i,
        {
            top_sub_chunks.push(0);
            i = i + 1;
        }
        let r = BoxLevel { x_start, y_start, z_start, x_size, y_size, z_size, data, column_heights, top_sub_chunks };
        proof {
            assert forall|k: HeightmapKind, x: i32, z: i32| r.heights().contains_key((k, x, z)) implies #[trigger] r.heights()[(k, x, z)] == y_start by {
                r.lemma_column_index(x, z);
                r.lemma_height_index(k, x, z);
            }
            assert forall|x: i32, z: i32| r.top_sub_chunks().contains_key((x, z)) implies #[trigger] r.top_sub_chunks()[(x, z)] == 0 by {
                r.lemma_column_index(x, z);
            }
            assert forall|p: (i32, i32, i32)| r.blocks().contains_key(p) implies #[trigger] r.blocks()[p] == fill by {
                r.lemma_index(p);
            }
        }
        r
    }

    /// A position held by the box has its index in the data.
    pub proof fn lemma_index(&self, p: (i32, i32, i32))
        requires
            self.data@.len() == self.x_size * self.y_size * self.z_size,
            box_holds(self.x_start, self.y_start, self.z_start, self.x_size, self.y_size, self.z_size, p),
        ensures
            0 <= box_index(self.x_start, self.y_start, self.z_start, self.x_size, self.z_size, p) < self.data@.len(),
    {
        let a = p.0 - self.x_start;
        let b = p.2 - self.z_start;
        let c = p.1 - self.y_start;
        let xs = self.x_size as int;
        let zs = self.z_size as int;
        let ys = self.y_size as int;
        assert(0 <= a + b * xs < xs * zs) by (nonlinear_arith)
            requires 0 <= a < xs, 0 <= b < zs;
        assert(0 <= c * (xs * zs) && (c + 1) * (xs * zs) <= ys * (xs * zs)) by (nonlinear_arith)
            requires 0 <= c < ys, xs >= 0, zs >= 0;
        assert(xs * ys * zs == ys * (xs * zs)) by (nonlinear_arith);
        assert((c + 1) * (xs * zs) == c * (xs * zs) + xs * zs) by (nonlinear_arith);
    }

    /// A column held by the box has its index in the heights.
    pub proof fn lemma_column_index(&self, x: i32, z: i32)
        requires
            box_holds_column(self.x_start, self.z_start, self.x_size, self.z_size, x, z),
        ensures
            0 <= box_column_index(self.x_start, self.z_start, self.x_size, x, z) < self.x_size * self.z_size,
    {
        let a = x - self.x_start;
        let b = z - self.z_start;
        let xs = self.x_size as int;
        let zs = self.z_size as int;
        assert(0 <= a + b * xs < xs * zs) by (nonlinear_arith)
            requires 0 <= a < xs, 0 <= b < zs;
    }

    /// Two columns held by the box have the same index only when they are the same.
    pub proof fn lemma_column_index_injective(&self, x1: i32, z1: i32, x2: i32, z2: i32)
        requires
            box_holds_column(self.x_start, self.z_start, self.x_size, self.z_size, x1, z1),
            box_holds_column(self.x_start, self.z_start, self.x_size, self.z_size, x2, z2),
            x1 != x2 || z1 != z2,
        ensures
            box_column_index(self.x_start, self.z_start, self.x_size, x1, z1)
                != box_column_index(self.x_start, self.z_start, self.x_size, x2, z2),
    {
        let xs = self.x_size as int;
        let (a1, b1) = (x1 - self.x_start, z1 - self.z_start);
        let (a2, b2) = (x2 - self.x_start, z2 - self.z_start);
        assert(a1 + b1 * xs != a2 + b2 * xs) by (nonlinear_arith)
            requires 0 <= a1 < xs, 0 <= a2 < xs, b1 >= 0, b2 >= 0, a1 != a2 || b1 != b2;
    }

    /// The place of the height of the column `x`/`z` in the heightmap `kind`.
    pub proof fn lemma_height_index(&self, kind: HeightmapKind, x: i32, z: i32)
        requires
            box_holds_column(self.x_start, self.z_start, self.x_size, self.z_size, x, z),
        ensures
            0 <= heightmap_index(kind) * (self.x_size * self.z_size) + box_column_index(self.x_start, self.z_start, self.x_size, x, z)
                < 4 * (self.x_size * self.z_size),
    {
        self.lemma_column_index(x, z);
        let n = (self.x_size * self.z_size) as int;
        let c = box_column_index(self.x_start, self.z_start, self.x_size, x, z);
        let k = heightmap_index(kind);
        assert(0 <= k * n + c < 4 * n) by (nonlinear_arith)
            requires 0 <= k < 4, 0 <= c < n;
    }

    /// Two heights of the box have the same place only when they are the same.
    pub proof fn lemma_height_index_injective(&self, k1: HeightmapKind, x1: i32, z1: i32, k2: HeightmapKind, x2: i32, z2: i32)
        requires
            box_holds_column(self.x_start, self.z_start, self.x_size, self.z_size, x1, z1),
            box_holds_column(self.x_start, self.z_start, self.x_size, self.z_size, x2, z2),
            k1 != k2 || x1 != x2 || z1 != z2,
        ensures
            heightmap_index(k1) * (self.x_size * self.z_size) + box_column_index(self.x_start, self.z_start, self.x_size, x1, z1)
                != heightmap_index(k2) * (self.x_size * self.z_size) + box_column_index(self.x_start, self.z_start, self.x_size, x2, z2),
    {
        self.lemma_column_index(x1, z1);
        self.lemma_column_index(x2, z2);
        let n = (self.x_size * self.z_size) as int;
        let c1 = box_column_index(self.x_start, self.z_start, self.x_size, x1, z1);
        let c2 = box_column_index(self.x_start, self.z_start, self.x_size, x2, z2);
        if x1 != x2 || z1 != z2 {
            self.lemma_column_index_injective(x1, z1, x2, z2);
        }
        let a = heightmap_index(k1);
        let b = heightmap_index(k2);
        assert(a != b || c1 != c2);
        assert(a * n + c1 != b * n + c2) by (nonlinear_arith)
            requires 0 <= a < 4, 0 <= b < 4, 0 <= c1 < n, 0 <= c2 < n, a != b || c1 != c2;
    }

    /// The index of the column `x`/`z` among the columns, if the box holds it.
    fn column_slot(&self, x: i32, z: i32) -> (r: Option<usize>)
        requires
            self.wf(),
        ensures
            r is Some <==> box_holds_column(self.x_start, self.z_start, self.x_size, self.z_size, x, z),
            r matches Some(i) ==> i == box_column_index(self.x_start, self.z_start, self.x_size, x, z)
                && i < self.x_size * self.z_size,
    {
        let a = x as i64 - self.x_start as i64;
        let b = z as i64 - self.z_start as i64;
        let _len = self.column_heights.len();
        if a >= 0 && b >= 0 && (a as u64) < (self.x_size as u64) && (b as u64) < (self.z_size as u64) {
            let a = a as usize;
            let b = b as usize;
            let xs = self.x_size;
            proof {
                self.lemma_column_index(x, z);
                assert(a + b * xs < xs * self.z_size && b * xs <= xs * self.z_size) by (nonlinear_arith)
                    requires a < xs, b < self.z_size;
            }
            Some(a + b * xs)
        } else {
            None
        }
    }

    /// Sets the height of the column `x`/`z` in the heightmap `kind`; false, changing
    /// nothing, outside the box.
    pub fn set_heightmap_column(&mut self, kind: HeightmapKind, x: i32, z: i32, height: i32) -> (r: bool)
        requires
            old(self).wf(),
        ensures
            final(self).wf(),
            r == box_holds_column(old(self).x_start, old(self).z_start, old(self).x_size, old(self).z_size, x, z),
            final(self).blocks() == old(self).blocks(),
            final(self).top_sub_chunks() == old(self).top_sub_chunks(),
            final(self).heights() == (if r { old(self).heights().insert((kind, x, z), height) } else { old(self).heights() }),
            final(self).x_start == old(self).x_start && final(self).z_start == old(self).z_start,
            final(self).x_size == old(self).x_size && final(self).z_size == old(self).z_size,
    {
        match self.column_slot(x, z) {
            Some(c) => {
                let _len = self.column_heights.len();
                let n = self.x_size * self.z_size;
                let k = heightmap_slot(kind);
                proof {
                    self.lemma_height_index(kind, x, z);
                    assert(k * n + c < 4 * n && k * n <= 3 * n) by (nonlinear_arith)
                        requires k < 4, c < n;
                }
                let ghost before = *self;
                self.column_heights.set(k * n + c, height);
                proof {
                    assert forall|kk: HeightmapKind, cx: i32, cz: i32| #[trigger] self.heights().contains_key((kk, cx, cz))
                        && (kk != kind || cx != x || cz != z) implies self.heights()[(kk, cx, cz)] == before.heights()[(kk, cx, cz)] by {
                        before.lemma_height_index(kk, cx, cz);
                        before.lemma_height_index_injective(kk, cx, cz, kind, x, z);
                    }
                    assert(self.heights() =~= before.heights().insert((kind, x, z), height));
                    assert(self.blocks() =~= before.blocks());
                    assert(self.top_sub_chunks() =~= before.top_sub_chunks());
                }
                true
            },
            None => false,
        }
    }

    /// Sets the height of the column `x`/`z` in every heightmap; false, changing
    /// nothing, outside the box.
    pub fn set_column_height(&mut self, x: i32, z: i32, height: i32) -> (r: bool)
        requires
            old(self).wf(),
        ensures
            final(self).wf(),
            r == box_holds_column(old(self).x_start, old(self).z_start, old(self).x_size, old(self).z_size, x, z),
            final(self).blocks() == old(self).blocks(),
            final(self).top_sub_chunks() == old(self).top_sub_chunks(),
            forall|k: HeightmapKind, cx: i32, cz: i32| #[trigger] final(self).heights().contains_key((k, cx, cz))
                <==> old(self).heights().contains_key((k, cx, cz)),
            forall|k: HeightmapKind, cx: i32, cz: i32| #[trigger] final(self).heights().contains_key((k, cx, cz))
                ==> final(self).heights()[(k, cx, cz)] == (if r && cx == x && cz == z { height } else { old(self).heights()[(k, cx, cz)] }),
    {
        let r = self.set_heightmap_column(HeightmapKind::WorldSurface, x, z, height);
        self.set_heightmap_column(HeightmapKind::MotionBlocking, x, z, height);
        self.set_heightmap_column(HeightmapKind::OceanFloor, x, z, height);
        self.set_heightmap_column(HeightmapKind::OceanFloorWg, x, z, height);
        proof {
            assert forall|k: HeightmapKind, cx: i32, cz: i32| #[trigger] self.heights().contains_key((k, cx, cz))
                implies self.heights()[(k, cx, cz)] == (if r && cx == x && cz == z { height } else { old(self).heights()[(k, cx, cz)] }) by {
                match k {
                    HeightmapKind::WorldSurface => {},
                    HeightmapKind::MotionBlocking => {},
                    HeightmapKind::OceanFloor => {},
                    HeightmapKind::OceanFloorWg => {},
                }
            }
        }
        r
    }

    /// Sets the highest non empty sub chunk of the column `x`/`z`; false, changing
    /// nothing, outside the box.
    pub fn set_top_sub_chunk(&mut self, x: i32, z: i32, top: i8) -> (r: bool)
        requires
            old(self).wf(),
        ensures
            final(self).wf(),
            r == box_holds_column(old(self).x_start, old(self).z_start, old(self).x_size, old(self).z_size, x, z),
            final(self).blocks() == old(self).blocks(),
            final(self).heights() == old(self).heights(),
            final(self).top_sub_chunks() == (if r { old(self).top_sub_chunks().insert((x, z), top) } else { old(self).top_sub_chunks() }),
    {
        match self.column_slot(x, z) {
            Some(c) => {
                let ghost before = *self;
                self.top_sub_chunks.set(c, top);
                proof {
                    assert forall|cx: i32, cz: i32| #[trigger] self.top_sub_chunks().contains_key((cx, cz)) && (cx != x || cz != z)
                        implies self.top_sub_chunks()[(cx, cz)] == before.top_sub_chunks()[(cx, cz)] by {
                        before.lemma_column_index(cx, cz);
                        before.lemma_column_index_injective(cx, cz, x, z);
                    }
                    assert(self.top_sub_chunks() =~= before.top_sub_chunks().insert((x, z), top));
                    assert(self.blocks() =~= before.blocks());
                    assert(self.heights() =~= before.heights());
                }
                true
            },
            None => false,
        }
    }

    /// Two positions held by the box have the same index only when they are the same.
    pub proof fn lemma_index_injective(&self, p: (i32, i32, i32), q: (i32, i32, i32))
        requires
            box_holds(self.x_start, self.y_start, self.z_start, self.x_size, self.y_size, self.z_size, p),
            box_holds(self.x_start, self.y_start, self.z_start, self.x_size, self.y_size, self.z_size, q),
            p != q,
        ensures
            box_index(self.x_start, self.y_start, self.z_start, self.x_size, self.z_size, p)
                != box_index(self.x_start, self.y_start, self.z_start, self.x_size, self.z_size, q),
    {
        let xs = self.x_size as int;
        let zs = self.z_size as int;
        let (a1, b1, c1) = (p.0 - self.x_start, p.2 - self.z_start, p.1 - self.y_start);
        let (a2, b2, c2) = (q.0 - self.x_start, q.2 - self.z_start, q.1 - self.y_start);
        assert(a1 + b1 * xs + c1 * (xs * zs) != a2 + b2 * xs + c2 * (xs * zs)) by (nonlinear_arith)
            requires
                0 <= a1 < xs, 0 <= a2 < xs, 0 <= b1 < zs, 0 <= b2 < zs, c1 >= 0, c2 >= 0,
                a1 != a2 || b1 != b2 || c1 != c2;
    }

}

impl BoxLevel {

    /// The index in the data of the position `x`/`y`/`z`, if the box holds it.
    fn locate(&self, x: i32, y: i32, z: i32) -> (r: Option<usize>)
        requires
            self.wf(),
        ensures
            r is Some <==> box_holds(self.x_start, self.y_start, self.z_start, self.x_size, self.y_size, self.z_size, (x, y, z)),
            r matches Some(i) ==> i == box_index(self.x_start, self.y_start, self.z_start, self.x_size, self.z_size, (x, y, z))
                && i < self.data@.len(),
    {
        let a = x as i64 - self.x_start as i64;
        let b = z as i64 - self.z_start as i64;
        let c = y as i64 - self.y_start as i64;
        let _len = self.data.len();
        if a >= 0 && b >= 0 && c >= 0 && (a as u64) < (self.x_size as u64) && (b as u64) < (self.z_size as u64)
            && (c as u64) < (self.y_size as u64) {
            let a = a as usize;
            let b = b as usize;
            let c = c as usize;
            let xs = self.x_size;
            let zs = self.z_size;
            let ys = self.y_size;
            proof {
                self.lemma_index((x, y, z));
                assert(b * xs <= xs * zs) by (nonlinear_arith)
                    requires b < zs, xs >= 0;
                assert(xs * zs <= xs * ys * zs) by (nonlinear_arith)
                    requires c < ys, xs >= 0, zs >= 0;
                assert(c * (xs * zs) <= xs * ys * zs) by (nonlinear_arith)
                    requires c < ys, xs >= 0, zs >= 0;
                assert(a + b * xs <= xs * zs) by (nonlinear_arith)
                    requires a < xs, b < zs;
            }
            Some(a + b * xs + c * (xs * zs))
        } else {
            None
        }
    }

}

impl LevelView for BoxLevel {

    /// The box holds `x_size * y_size * z_size` blocks, `x_size * z_size` column heights,
    /// and its positions fit in `i32`.
    open spec fn wf(&self) -> bool {
        &&& self.data@.len() == self.x_size * self.y_size * self.z_size
        &&& self.column_heights@.len() == 4 * (self.x_size * self.z_size)
        &&& self.top_sub_chunks@.len() == self.x_size * self.z_size
        &&& self.x_start + self.x_size <= i32::MAX + 1
        &&& self.y_start + self.y_size <= i32::MAX + 1
        &&& self.z_start + self.z_size <= i32::MAX + 1
    }

    closed spec fn blocks(&self) -> Map<(i32, i32, i32), FeatureBlock> {
        Map::new(
            |p: (i32, i32, i32)| box_holds(self.x_start, self.y_start, self.z_start, self.x_size, self.y_size, self.z_size, p),
            |p: (i32, i32, i32)| self.data@[box_index(self.x_start, self.y_start, self.z_start, self.x_size, self.z_size, p)],
        )
    }

    closed spec fn heights(&self) -> Map<(HeightmapKind, i32, i32), i32> {
        Map::new(
            |c: (HeightmapKind, i32, i32)| box_holds_column(self.x_start, self.z_start, self.x_size, self.z_size, c.1, c.2),
            |c: (HeightmapKind, i32, i32)| self.column_heights@[heightmap_index(c.0) * (self.x_size * self.z_size)
                + box_column_index(self.x_start, self.z_start, self.x_size, c.1, c.2)],
        )
    }

    closed spec fn top_sub_chunks(&self) -> Map<(i32, i32), i8> {
        Map::new(
            |c: (i32, i32)| box_holds_column(self.x_start, self.z_start, self.x_size, self.z_size, c.0, c.1),
            |c: (i32, i32)| self.top_sub_chunks@[box_column_index(self.x_start, self.z_start, self.x_size, c.0, c.1)],
        )
    }

    fn get_heightmap_column_at(&self, kind: HeightmapKind, x: i32, z: i32) -> (r: Option<i32>) {
        match self.column_slot(x, z) {
            Some(c) => {
                let _len = self.column_heights.len();
                let n = self.x_size * self.z_size;
                let k = heightmap_slot(kind);
                proof {
                    self.lemma_height_index(kind, x, z);
                    assert(k * n + c < 4 * n && k * n <= 3 * n) by (nonlinear_arith)
                        requires k < 4, c < n;
                }
                Some(self.column_heights[k * n + c])
            },
            None => None,
        }
    }

    fn get_highest_sub_chunk_at(&self, x: i32, z: i32) -> (r: Option<i8>) {
        match self.column_slot(x, z) {
            Some(c) => Some(self.top_sub_chunks[c]),
            None => None,
        }
    }

    fn get_block_at(&self, x: i32, y: i32, z: i32) -> (r: Option<FeatureBlock>) {
        match self.locate(x, y, z) {
            Some(i) => Some(self.data[i]),
            None => None,
        }
    }

    fn set_block_at(&mut self, x: i32, y: i32, z: i32, block: FeatureBlock) -> (r: bool) {
        match self.locate(x, y, z) {
            Some(i) => {
                let ghost before = *self;
                self.data.set(i, block);
                proof {
                    assert forall|p: (i32, i32, i32)| box_holds(self.x_start, self.y_start, self.z_start, self.x_size, self.y_size, self.z_size, p)
                        && p != (x, y, z) implies
                        self.data@[box_index(self.x_start, self.y_start, self.z_start, self.x_size, self.z_size, p)]
                        == before.data@[box_index(self.x_start, self.y_start, self.z_start, self.x_size, self.z_size, p)] by {
                        before.lemma_index(p);
                        before.lemma_index_injective(p, (x, y, z));
                    }
                    assert(self.blocks() =~= before.blocks().insert((x, y, z), block));
                    assert(self.heights() =~= before.heights());
                    assert(self.top_sub_chunks() =~= before.top_sub_chunks());
                }
                true
            },
            None => false,
        }
    }

}

} // verus!
