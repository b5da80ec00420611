//! The per-cell rules of the biome layers. Each rule decides the value of one
//! cell from the values of its parent cells and from the draws of the layer's
//! random generator, once its chunk seed is initialized for that cell. Both the
//! grid layers and the iterative layers apply these rules.

use vstd::prelude::*;
use vstd::std_specs::cmp::PartialEqSpec;

use crate::biome::{
    BiomeId, OCEAN, PLAINS, DESERT, MOUNTAINS, FOREST, TAIGA, SWAMP, RIVER, FROZEN_OCEAN,
    FROZEN_RIVER, SNOWY_TUNDRA, SNOWY_MOUNTAINS, MUSHROOM_FIELDS, MUSHROOM_FIELD_SHORE, BEACH,
    DESERT_HILLS, WOODED_HILLS, TAIGA_HILLS, MOUNTAIN_EDGE, JUNGLE, JUNGLE_HILLS,
};
use crate::layer_new::rand::{LayerRand, hash_seed_spec, chunk_seed_spec, draw_spec, advance_spec};

verus! {

/// The value of the `n`-th draw (from 0) bounded by `bound`, from the chunk seed `c0`.
pub open spec fn draw_at(world: i64, c0: i64, n: nat, bound: u32) -> u32 {
    draw_spec(advance_spec(c0, world, n), bound)
}

pub open spec fn is_ocean(b: BiomeId) -> bool {
    b == OCEAN
}

// Island //

/// The initial island rule: one cell in ten is plains, the others are ocean.
pub open spec fn island_rule(world: i64, x: i32, z: i32) -> BiomeId {
    if draw_at(world, chunk_seed_spec(world, x, z), 0, 10) == 0 {
        PLAINS
    } else {
        OCEAN
    }
}

pub fn island_cell(rand: &mut LayerRand, x: i32, z: i32) -> (r: BiomeId)
    ensures
        r == island_rule(old(rand).spec_world_seed(), x, z),
        final(rand).spec_base_seed() == old(rand).spec_base_seed(),
        final(rand).spec_world_seed() == old(rand).spec_world_seed(),
{
    rand.init_chunk_seed(x, z);
    if rand.next_int(10) == 0 {
        PLAINS
    } else {
        OCEAN
    }
}

// Add island //

/// One candidate of the add island rule: when the candidate is land, a draw
/// bounded by the number of land candidates seen so far (this one included)
/// decides whether it replaces the current pick. Returns the number of draws
/// made so far, the next bound and the pick.
pub open spec fn island_candidate(world: i64, c0: i64, cand: BiomeId, n: nat, bound: u32, pick: BiomeId, last: bool) -> (nat, u32, BiomeId) {
    if !is_ocean(cand) {
        let d = draw_at(world, c0, n, bound);
        (n + 1, if last { bound } else { (bound + 1) as u32 }, if d == 0 { cand } else { pick })
    } else {
        (n, bound, pick)
    }
}

/// The add island rule: an ocean cell touching land at a corner becomes, one time in
/// three, one of the land corners picked at random (or plains), else a frozen ocean if
/// that pick is a snowy tundra, else ocean; a land cell touching ocean at a corner
/// becomes ocean (frozen ocean for a snowy tundra) one time in five.
pub open spec fn add_island_rule(world: i64, x: i32, z: i32, center: BiomeId, sw: BiomeId, nw: BiomeId, se: BiomeId, ne: BiomeId) -> BiomeId {
    let c0 = chunk_seed_spec(world, x, z);
    if is_ocean(center) && (!is_ocean(sw) || !is_ocean(nw) || !is_ocean(se) || !is_ocean(ne)) {
        let s1 = island_candidate(world, c0, sw, 0, 1, PLAINS, false);
        let s2 = island_candidate(world, c0, nw, s1.0, s1.1, s1.2, false);
        let s3 = island_candidate(world, c0, se, s2.0, s2.1, s2.2, false);
        let s4 = island_candidate(world, c0, ne, s3.0, s3.1, s3.2, true);
        if draw_at(world, c0, s4.0, 3) == 0 {
            s4.2
        } else if s4.2 == SNOWY_TUNDRA {
            FROZEN_OCEAN
        } else {
            OCEAN
        }
    } else if !is_ocean(center) && (is_ocean(sw) || is_ocean(nw) || is_ocean(se) || is_ocean(ne)) {
        if draw_at(world, c0, 0, 5) == 0 {
            if center == SNOWY_TUNDRA {
                FROZEN_OCEAN
            } else {
                OCEAN
            }
        } else {
            center
        }
    } else {
        center
    }
}

fn island_candidate_step(rand: &mut LayerRand, cand: BiomeId, bound: u32, pick: BiomeId, last: bool, Ghost(c0): Ghost<i64>, Ghost(n): Ghost<nat>) -> (r: (u32, BiomeId, Ghost<nat>))
    requires
        1 <= bound <= 4,
        old(rand).spec_chunk_seed() == advance_spec(c0, old(rand).spec_world_seed(), n),
    ensures
        ({
            let s = island_candidate(old(rand).spec_world_seed(), c0, cand, n, bound, pick, last);
            &&& r.2@ == s.0
            &&& r.0 == s.1
            &&& r.1 == s.2
            &&& 1 <= r.0 <= 5
        }),
        final(rand).spec_base_seed() == old(rand).spec_base_seed(),
        final(rand).spec_world_seed() == old(rand).spec_world_seed(),
        final(rand).spec_chunk_seed() == advance_spec(c0, old(rand).spec_world_seed(), r.2@),
{
    if cand != OCEAN {
        let d = rand.next_int(bound);
        let next_bound = if last { bound } else { bound + 1 };
        (next_bound, if d == 0 { cand } else { pick }, Ghost(n + 1))
    } else {
        (bound, pick, Ghost(n))
    }
}

pub fn add_island_cell(rand: &mut LayerRand, x: i32, z: i32, center: BiomeId, sw: BiomeId, nw: BiomeId, se: BiomeId, ne: BiomeId) -> (r: BiomeId)
    ensures
        r == add_island_rule(old(rand).spec_world_seed(), x, z, center, sw, nw, se, ne),
        final(rand).spec_base_seed() == old(rand).spec_base_seed(),
        final(rand).spec_world_seed() == old(rand).spec_world_seed(),
{
    rand.init_chunk_seed(x, z);
    let ghost c0 = rand.spec_chunk_seed();
    let ghost world = rand.spec_world_seed();
    assert(advance_spec(c0, world, 0) == c0);
    if center == OCEAN && (sw != OCEAN || nw != OCEAN || se != OCEAN || ne != OCEAN) {
        let (b1, p1, Ghost(n1)) = island_candidate_step(rand, sw, 1, PLAINS, false, Ghost(c0), Ghost(0));
        let (b2, p2, Ghost(n2)) = island_candidate_step(rand, nw, b1, p1, false, Ghost(c0), Ghost(n1));
        let (b3, p3, Ghost(n3)) = island_candidate_step(rand, se, b2, p2, false, Ghost(c0), Ghost(n2));
        let (_b4, p4, Ghost(n4)) = island_candidate_step(rand, ne, b3, p3, true, Ghost(c0), Ghost(n3));
        if rand.next_int(3) == 0 {
            p4
        } else if p4 == SNOWY_TUNDRA {
            FROZEN_OCEAN
        } else {
            OCEAN
        }
    } else if center != OCEAN && (sw == OCEAN || nw == OCEAN || se == OCEAN || ne == OCEAN) {
        if rand.next_int(5) == 0 {
            if center == SNOWY_TUNDRA {
                FROZEN_OCEAN
            } else {
                OCEAN
            }
        } else {
            center
        }
    } else {
        center
    }
}

// Mushroom island //

/// An ocean cell with ocean at its four corners becomes mushroom fields one time in a hundred.
pub open spec fn mushroom_island_rule(world: i64, x: i32, z: i32, center: BiomeId, sw: BiomeId, nw: BiomeId, se: BiomeId, ne: BiomeId) -> BiomeId {
    if is_ocean(center) && is_ocean(sw) && is_ocean(nw) && is_ocean(se) && is_ocean(ne)
        && draw_at(world, chunk_seed_spec(world, x, z), 0, 100) == 0 {
        MUSHROOM_FIELDS
    } else {
        center
    }
}

pub fn mushroom_island_cell(rand: &mut LayerRand, x: i32, z: i32, center: BiomeId, sw: BiomeId, nw: BiomeId, se: BiomeId, ne: BiomeId) -> (r: BiomeId)
    ensures
        r == mushroom_island_rule(old(rand).spec_world_seed(), x, z, center, sw, nw, se, ne),
        final(rand).spec_base_seed() == old(rand).spec_base_seed(),
        final(rand).spec_world_seed() == old(rand).spec_world_seed(),
{
    let mut c = center;
    if center == OCEAN && sw == OCEAN && nw == OCEAN && se == OCEAN && ne == OCEAN {
        rand.init_chunk_seed(x, z);
        if rand.next_int(100) == 0 {
            c = MUSHROOM_FIELDS;
        }
    }
    c
}

// Snow //

/// One plains cell in five becomes a snowy tundra.
pub open spec fn snow_rule(world: i64, x: i32, z: i32, biome: BiomeId) -> BiomeId {
    if biome == PLAINS && draw_at(world, chunk_seed_spec(world, x, z), 0, 5) == 0 {
        SNOWY_TUNDRA
    } else {
        biome
    }
}

pub fn snow_cell(rand: &mut LayerRand, x: i32, z: i32, biome: BiomeId) -> (r: BiomeId)
    ensures
        r == snow_rule(old(rand).spec_world_seed(), x, z, biome),
        final(rand).spec_base_seed() == old(rand).spec_base_seed(),
        final(rand).spec_world_seed() == old(rand).spec_world_seed(),
{
    let mut b = biome;
    if biome == PLAINS {
        rand.init_chunk_seed(x, z);
        if rand.next_int(5) == 0 {
            b = SNOWY_TUNDRA;
        }
    }
    b
}

// Rivers //

/// The river potential of a cell: 0 for ocean, else 2 or 3 at random.
pub open spec fn init_river_rule(world: i64, x: i32, z: i32, biome: BiomeId) -> u8 {
    if biome == OCEAN {
        0
    } else {
        (draw_at(world, chunk_seed_spec(world, x, z), 0, 2) + 2) as u8
    }
}

pub fn init_river_cell(rand: &mut LayerRand, x: i32, z: i32, biome: BiomeId) -> (r: u8)
    ensures
        r == init_river_rule(old(rand).spec_world_seed(), x, z, biome),
        final(rand).spec_base_seed() == old(rand).spec_base_seed(),
        final(rand).spec_world_seed() == old(rand).spec_world_seed(),
{
    if biome == OCEAN {
        0
    } else {
        rand.init_chunk_seed(x, z);
        (rand.next_int(2) as u8) + 2
    }
}

/// A cell is a river when it or one of its four neighbours has no river potential,
/// or when one of its neighbours has another potential than itself.
pub open spec fn add_river_rule(center: u8, south: u8, north: u8, west: u8, east: u8) -> bool {
    if center == 0 || south == 0 || north == 0 || west == 0 || east == 0 {
        true
    } else {
        center != south || center != west || center != north || center != east
    }
}

/// The add river rule treats the four neighbours alike: exchanging two of them gives the
/// same answer.
pub proof fn add_river_rule_symmetric(center: u8, south: u8, north: u8, west: u8, east: u8)
    ensures
        add_river_rule(center, south, north, west, east) == add_river_rule(center, north, south, west, east),
        add_river_rule(center, south, north, west, east) == add_river_rule(center, south, west, north, east),
        add_river_rule(center, south, north, west, east) == add_river_rule(center, south, north, east, west),
{
}

/// A cell is not a river exactly when it has a river potential and its four neighbours
/// all have the same potential.
pub proof fn add_river_rule_needs_equal_neighbours(center: u8, south: u8, north: u8, west: u8, east: u8)
    ensures
        !add_river_rule(center, south, north, west, east)
            <==> (center != 0 && south == center && north == center && west == center && east == center),
{
}

pub fn add_river_cell(center: u8, south: u8, north: u8, west: u8, east: u8) -> (r: bool)
    ensures
        r == add_river_rule(center, south, north, west, east),
{
    if center == 0 || south == 0 || north == 0 || west == 0 || east == 0 {
        true
    } else if center != south || center != west || center != north || center != east {
        true
    } else {
        false
    }
}

// Smooth //

/// The smooth rule: when both axes agree, a draw picks the south or west value;
/// when one axis agrees, its value is taken; else the center stays.
pub open spec fn smooth_rule<T: PartialEq>(world: i64, x: i32, z: i32, south: T, north: T, west: T, east: T, center: T) -> T {
    if south.eq_spec(&north) && west.eq_spec(&east) {
        if draw_at(world, chunk_seed_spec(world, x, z), 0, 2) == 0 {
            south
        } else {
            west
        }
    } else if west.eq_spec(&east) {
        west
    } else if south.eq_spec(&north) {
        south
    } else {
        center
    }
}

pub fn smooth_cell<T: Copy + PartialEq>(rand: &mut LayerRand, x: i32, z: i32, south: T, north: T, west: T, east: T, center: T) -> (r: T)
    requires
        T::obeys_eq_spec(),
    ensures
        r == smooth_rule(old(rand).spec_world_seed(), x, z, south, north, west, east, center),
        final(rand).spec_base_seed() == old(rand).spec_base_seed(),
        final(rand).spec_world_seed() == old(rand).spec_world_seed(),
{
    if south == north && west == east {
        rand.init_chunk_seed(x, z);
        if rand.next_int(2) == 0 {
            south
        } else {
            west
        }
    } else if west == east {
        west
    } else if south == north {
        south
    } else {
        center
    }
}

// Zoom //

/// The value that the "smart" choice keeps without drawing: a value shared by
/// three of the four cells, else a value shared by a pair when the other pair
/// differs (in the order the game tests them); `None` when a draw decides.
pub open spec fn smart_pick<T: PartialEq>(v1: T, v2: T, v3: T, v4: T) -> Option<T> {
    if v2.eq_spec(&v3) && v3.eq_spec(&v4) {
        Some(v2)
    } else if v1.eq_spec(&v2) && v1.eq_spec(&v3) {
        Some(v1)
    } else if v1.eq_spec(&v2) && v1.eq_spec(&v4) {
        Some(v1)
    } else if v1.eq_spec(&v3) && v1.eq_spec(&v4) {
        Some(v1)
    } else if v1.eq_spec(&v2) && !v3.eq_spec(&v4) {
        Some(v1)
    } else if v1.eq_spec(&v3) && !v2.eq_spec(&v4) {
        Some(v1)
    } else if v1.eq_spec(&v4) && !v2.eq_spec(&v3) {
        Some(v1)
    } else if v2.eq_spec(&v1) && !v3.eq_spec(&v4) {
        Some(v2)
    } else if v2.eq_spec(&v3) && !v1.eq_spec(&v4) {
        Some(v2)
    } else if v2.eq_spec(&v4) && !v1.eq_spec(&v3) {
        Some(v2)
    } else if v3.eq_spec(&v1) && !v2.eq_spec(&v4) {
        Some(v3)
    } else if v3.eq_spec(&v2) && !v1.eq_spec(&v4) {
        Some(v3)
    } else if v3.eq_spec(&v4) && !v1.eq_spec(&v2) {
        Some(v3)
    } else if v4.eq_spec(&v1) && !v2.eq_spec(&v3) {
        Some(v3)
    } else if v4.eq_spec(&v2) && !v1.eq_spec(&v3) {
        Some(v3)
    } else if v4.eq_spec(&v3) && !v1.eq_spec(&v2) {
        Some(v3)
    } else {
        None
    }
}

/// The smart choice among four values with the chunk seed `chunk`: the kept value,
/// else one of the four picked by a draw bounded by 4.
pub open spec fn choose_smart_rule<T: PartialEq>(chunk: i64, v1: T, v2: T, v3: T, v4: T) -> T {
    match smart_pick(v1, v2, v3, v4) {
        Some(v) => v,
        None => seq![v1, v2, v3, v4][draw_spec(chunk, 4) as int],
    }
}

/// Chooses from 4 states the most commonly represented.
pub fn choose_smart<T: Copy + PartialEq>(rand: &mut LayerRand, v1: T, v2: T, v3: T, v4: T) -> (r: T)
    requires
        T::obeys_eq_spec(),
    ensures
        r == choose_smart_rule(old(rand).spec_chunk_seed(), v1, v2, v3, v4),
        final(rand).spec_base_seed() == old(rand).spec_base_seed(),
        final(rand).spec_world_seed() == old(rand).spec_world_seed(),
        final(rand).spec_chunk_seed() == (if smart_pick(v1, v2, v3, v4) is Some {
            old(rand).spec_chunk_seed()
        } else {
            hash_seed_spec(old(rand).spec_chunk_seed(), old(rand).spec_world_seed())
        }),
{
    if v2 == v3 && v3 == v4 {
        v2
    } else if v1 == v2 && v1 == v3 {
        v1
    } else if v1 == v2 && v1 == v4 {
        v1
    } else if v1 == v3 && v1 == v4 {
        v1
    } else if v1 == v2 && v3 != v4 {
        v1
    } else if v1 == v3 && v2 != v4 {
        v1
    } else if v1 == v4 && v2 != v3 {
        v1
    } else if v2 == v1 && v3 != v4 {
        v2
    } else if v2 == v3 && v1 != v4 {
        v2
    } else if v2 == v4 && v1 != v3 {
        v2
    } else if v3 == v1 && v2 != v4 {
        v3
    } else if v3 == v2 && v1 != v4 {
        v3
    } else if v3 == v4 && v1 != v2 {
        v3
    } else if v4 == v1 && v2 != v3 {
        v3
    } else if v4 == v2 && v1 != v3 {
        v3
    } else if v4 == v3 && v1 != v2 {
        v3
    } else {
        let r = rand.pick(&[v1, v2, v3, v4]);
        proof {
            assert(seq![v1, v2, v3, v4] =~= [v1, v2, v3, v4]@);
        }
        r
    }
}

/// The smart choice is one of the four values.
pub proof fn smart_choice_is_one_of_the_four<T: PartialEq>(chunk: i64, v1: T, v2: T, v3: T, v4: T)
    ensures
        ({
            let r = choose_smart_rule(chunk, v1, v2, v3, v4);
            r == v1 || r == v2 || r == v3 || r == v4
        }),
{
    crate::layer_new::rand::lemma_draw_below(chunk, 4);
}

/// The smart choice keeps the biome held by three of the four cells.
pub proof fn smart_choice_keeps_a_triple(chunk: i64, v1: BiomeId, v2: BiomeId, v3: BiomeId, v4: BiomeId)
    requires
        (v1 == v2 && v2 == v3) || (v1 == v2 && v2 == v4) || (v1 == v3 && v3 == v4) || (v2 == v3 && v3 == v4),
    ensures
        choose_smart_rule(chunk, v1, v2, v3, v4) == (if v2 == v3 && v3 == v4 { v2 } else { v1 }),
{
}

/// The zoom rule for the cell at odd-ness `x_odd`/`z_odd` with the chunk seed
/// initialized at `sx`/`sz`, where `v1` is the parent cell at the half coordinates,
/// `v2` the one below it on Z, `v3` the one after it on X and `v4` the diagonal one.
/// Odd cells on one axis draw between `v1` and the neighbour on that axis (the X
/// case after one skipped draw), odd cells on both axes pick among the four after
/// two skipped draws, at random when `fuzzy`, else with the smart choice.
pub open spec fn zoom_rule<T: PartialEq>(world: i64, sx: i32, sz: i32, x_odd: bool, z_odd: bool, fuzzy: bool, v1: T, v2: T, v3: T, v4: T) -> T {
    let c0 = chunk_seed_spec(world, sx, sz);
    if x_odd && z_odd {
        let c2 = advance_spec(c0, world, 2);
        if fuzzy {
            seq![v1, v3, v2, v4][draw_spec(c2, 4) as int]
        } else {
            choose_smart_rule(c2, v1, v3, v2, v4)
        }
    } else if x_odd {
        if draw_at(world, c0, 1, 2) == 0 { v1 } else { v3 }
    } else if z_odd {
        if draw_at(world, c0, 0, 2) == 0 { v1 } else { v2 }
    } else {
        v1
    }
}

/// The zoom rule applied to the cell at `x`/`z`, from its four parent values.
pub fn zoom_cell<T: Copy + PartialEq>(rand: &mut LayerRand, x: i32, z: i32, fuzzy: bool, v1: T, v2: T, v3: T, v4: T) -> (r: T)
    requires
        T::obeys_eq_spec(),
    ensures
        r == zoom_rule(old(rand).spec_world_seed(), (x >> 1u32) << 1u32, (z >> 1u32) << 1u32,
            (x & 1) == 1, (z & 1) == 1, fuzzy, v1, v2, v3, v4),
        final(rand).spec_base_seed() == old(rand).spec_base_seed(),
        final(rand).spec_world_seed() == old(rand).spec_world_seed(),
{
    assert(-0x4000_0000 <= (x >> 1u32) <= 0x3fff_ffff && -0x4000_0000 <= (z >> 1u32) <= 0x3fff_ffff) by (bit_vector);
    rand.init_chunk_seed((x >> 1u32) << 1u32, (z >> 1u32) << 1u32);
    let ghost w = rand.spec_world_seed();
    let ghost c0 = rand.spec_chunk_seed();
    assert(advance_spec(c0, w, 0) == c0);
    assert(advance_spec(c0, w, 1) == hash_seed_spec(c0, w));
    assert(advance_spec(c0, w, 2) == hash_seed_spec(hash_seed_spec(c0, w), w));
    let x_odd = (x & 1) == 1;
    let z_odd = (z & 1) == 1;
    if x_odd && z_odd {
        rand.skip();
        rand.skip();
        if fuzzy {
            let r = rand.pick(&[v1, v3, v2, v4]);
            proof { assert(seq![v1, v3, v2, v4] =~= [v1, v3, v2, v4]@); }
            r
        } else {
            choose_smart(rand, v1, v3, v2, v4)
        }
    } else if x_odd {
        rand.skip();
        if rand.next_int(2) == 0 { v1 } else { v3 }
    } else if z_odd {
        if rand.next_int(2) == 0 { v1 } else { v2 }
    } else {
        v1
    }
}

// Biomes //

/// A plains cell becomes one of the given biomes picked at random.
pub open spec fn biome_rule(world: i64, x: i32, z: i32, biome: BiomeId, biomes: Seq<BiomeId>) -> BiomeId {
    if biome == PLAINS {
        biomes[draw_at(world, chunk_seed_spec(world, x, z), 0, biomes.len() as u32) as int]
    } else {
        biome
    }
}

pub fn biome_cell(rand: &mut LayerRand, x: i32, z: i32, biome: BiomeId, biomes: &[BiomeId]) -> (r: BiomeId)
    requires
        0 < biomes@.len() <= u32::MAX,
    ensures
        r == biome_rule(old(rand).spec_world_seed(), x, z, biome, biomes@),
        final(rand).spec_base_seed() == old(rand).spec_base_seed(),
        final(rand).spec_world_seed() == old(rand).spec_world_seed(),
{
    if biome == PLAINS {
        rand.init_chunk_seed(x, z);
        rand.pick(biomes)
    } else {
        biome
    }
}

/// The hills variant of a biome, if it has one.
pub open spec fn hills_variant(biome: BiomeId) -> Option<BiomeId> {
    if biome == DESERT {
        Some(DESERT_HILLS)
    } else if biome == FOREST {
        Some(WOODED_HILLS)
    } else if biome == TAIGA {
        Some(TAIGA_HILLS)
    } else if biome == PLAINS {
        Some(FOREST)
    } else if biome == SNOWY_TUNDRA {
        Some(SNOWY_MOUNTAINS)
    } else if biome == JUNGLE {
        Some(JUNGLE_HILLS)
    } else {
        None
    }
}

pub fn hills_variant_of(biome: BiomeId) -> (r: Option<BiomeId>)
    ensures
        r == hills_variant(biome),
{
    if biome == DESERT {
        Some(DESERT_HILLS)
    } else if biome == FOREST {
        Some(WOODED_HILLS)
    } else if biome == TAIGA {
        Some(TAIGA_HILLS)
    } else if biome == PLAINS {
        Some(FOREST)
    } else if biome == SNOWY_TUNDRA {
        Some(SNOWY_MOUNTAINS)
    } else if biome == JUNGLE {
        Some(JUNGLE_HILLS)
    } else {
        None
    }
}

/// One time in three, a biome that has a hills variant and the same biome on its
/// four sides becomes that variant.
pub open spec fn hills_rule(world: i64, x: i32, z: i32, biome: BiomeId, south: BiomeId, north: BiomeId, west: BiomeId, east: BiomeId) -> BiomeId {
    if draw_at(world, chunk_seed_spec(world, x, z), 0, 3) == 0 && hills_variant(biome) is Some
        && south == biome && north == biome && west == biome && east == biome {
        hills_variant(biome).unwrap()
    } else {
        biome
    }
}

pub fn hills_cell(rand: &mut LayerRand, x: i32, z: i32, biome: BiomeId, south: BiomeId, north: BiomeId, west: BiomeId, east: BiomeId) -> (r: BiomeId)
    ensures
        r == hills_rule(old(rand).spec_world_seed(), x, z, biome, south, north, west, east),
        final(rand).spec_base_seed() == old(rand).spec_base_seed(),
        final(rand).spec_world_seed() == old(rand).spec_world_seed(),
{
    rand.init_chunk_seed(x, z);
    let ghost c0 = rand.spec_chunk_seed();
    assert(advance_spec(c0, rand.spec_world_seed(), 0) == c0);
    let mut b = biome;
    if rand.next_int(3) == 0 {
        match hills_variant_of(biome) {
            Some(repl) => {
                if south == biome && north == biome && west == biome && east == biome {
                    b = repl;
                }
            },
            None => {},
        }
    }
    b
}

/// The shore rule: mushroom fields surrounded by ocean become their shore, land
/// other than river, swamp and mountains touching ocean becomes beach, mountains
/// not surrounded by mountains become mountain edge.
pub open spec fn shore_rule(center: BiomeId, south: BiomeId, north: BiomeId, west: BiomeId, east: BiomeId) -> BiomeId {
    if center == MUSHROOM_FIELDS {
        if south == OCEAN && north == OCEAN && west == OCEAN && east == OCEAN {
            MUSHROOM_FIELD_SHORE
        } else {
            center
        }
    } else if center != OCEAN && center != RIVER && center != SWAMP && center != MOUNTAINS {
        if south == OCEAN || north == OCEAN || west == OCEAN || east == OCEAN {
            BEACH
        } else {
            center
        }
    } else if center == MOUNTAINS {
        if south != MOUNTAINS || north != MOUNTAINS || west != MOUNTAINS || east != MOUNTAINS {
            MOUNTAIN_EDGE
        } else {
            center
        }
    } else {
        center
    }
}

/// The shore rule treats the four neighbours alike: exchanging two of them gives the
/// same biome.
pub proof fn shore_rule_symmetric(center: BiomeId, south: BiomeId, north: BiomeId, west: BiomeId, east: BiomeId)
    ensures
        shore_rule(center, south, north, west, east) == shore_rule(center, north, south, west, east),
        shore_rule(center, south, north, west, east) == shore_rule(center, south, west, north, east),
        shore_rule(center, south, north, west, east) == shore_rule(center, south, north, east, west),
{
}

/// Land other than river, swamp, mountains and mushroom fields becomes beach when any of
/// its four neighbours is ocean, and stays when none is; mushroom fields become their
/// shore when all four are ocean; mountains become mountain edge when any is not
/// mountains; ocean, river and swamp stay.
pub proof fn shore_rule_by_neighbours(center: BiomeId, south: BiomeId, north: BiomeId, west: BiomeId, east: BiomeId)
    ensures
        center != OCEAN && center != RIVER && center != SWAMP && center != MOUNTAINS && center != MUSHROOM_FIELDS
            ==> shore_rule(center, south, north, west, east)
                == (if south == OCEAN || north == OCEAN || west == OCEAN || east == OCEAN { BEACH } else { center }),
        center == MUSHROOM_FIELDS ==> shore_rule(center, south, north, west, east)
            == (if south == OCEAN && north == OCEAN && west == OCEAN && east == OCEAN { MUSHROOM_FIELD_SHORE } else { center }),
        center == MOUNTAINS ==> shore_rule(center, south, north, west, east)
            == (if south != MOUNTAINS || north != MOUNTAINS || west != MOUNTAINS || east != MOUNTAINS { MOUNTAIN_EDGE } else { center }),
        center == OCEAN || center == RIVER || center == SWAMP ==> shore_rule(center, south, north, west, east) == center,
{
}

pub fn shore_cell(center: BiomeId, south: BiomeId, north: BiomeId, west: BiomeId, east: BiomeId) -> (r: BiomeId)
    ensures
        r == shore_rule(center, south, north, west, east),
{
    let mut c = center;
    if center == MUSHROOM_FIELDS {
        if south == OCEAN && north == OCEAN && west == OCEAN && east == OCEAN {
            c = MUSHROOM_FIELD_SHORE;
        }
    } else if center != OCEAN && center != RIVER && center != SWAMP && center != MOUNTAINS {
        if south == OCEAN || north == OCEAN || west == OCEAN || east == OCEAN {
            c = BEACH;
        }
    } else if center == MOUNTAINS {
        if south != MOUNTAINS || north != MOUNTAINS || west != MOUNTAINS || east != MOUNTAINS {
            c = MOUNTAIN_EDGE;
        }
    }
    c
}

/// A swamp becomes a river one time in six, a jungle (or jungle hills) one time in eight.
pub open spec fn biome_river_rule(world: i64, x: i32, z: i32, biome: BiomeId) -> BiomeId {
    let c0 = chunk_seed_spec(world, x, z);
    if biome == SWAMP && draw_at(world, c0, 0, 6) == 0 {
        RIVER
    } else if (biome == JUNGLE || biome == JUNGLE_HILLS) && draw_at(world, c0, 0, 8) == 0 {
        RIVER
    } else {
        biome
    }
}

pub fn biome_river_cell(rand: &mut LayerRand, x: i32, z: i32, biome: BiomeId) -> (r: BiomeId)
    ensures
        r == biome_river_rule(old(rand).spec_world_seed(), x, z, biome),
        final(rand).spec_base_seed() == old(rand).spec_base_seed(),
        final(rand).spec_world_seed() == old(rand).spec_world_seed(),
{
    rand.init_chunk_seed(x, z);
    let mut b = biome;
    if biome == SWAMP && rand.next_int(6) == 0 {
        b = RIVER;
    } else if (biome == JUNGLE || biome == JUNGLE_HILLS) && rand.next_int(8) == 0 {
        b = RIVER;
    }
    b
}

/// The river biome replacing a non ocean biome where there is a river.
pub open spec fn river_biome(biome: BiomeId) -> BiomeId {
    if biome == SNOWY_TUNDRA {
        FROZEN_RIVER
    } else if biome == MUSHROOM_FIELDS || biome == MUSHROOM_FIELD_SHORE {
        MUSHROOM_FIELD_SHORE
    } else {
        RIVER
    }
}

/// Mixes a biome with the river layer: a non ocean biome with a river becomes its river biome.
pub open spec fn mix_rule(biome: BiomeId, river: bool) -> BiomeId {
    if biome != OCEAN && river {
        river_biome(biome)
    } else {
        biome
    }
}

pub fn river_biome_of(biome: BiomeId) -> (r: BiomeId)
    ensures
        r == river_biome(biome),
{
    if biome == SNOWY_TUNDRA {
        FROZEN_RIVER
    } else if biome == MUSHROOM_FIELDS {
        MUSHROOM_FIELD_SHORE
    } else if biome == MUSHROOM_FIELD_SHORE {
        MUSHROOM_FIELD_SHORE
    } else {
        RIVER
    }
}

} // verus!
