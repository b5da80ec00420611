//! The zoom layer: doubles the resolution of its parent layer.

use vstd::prelude::*;
use vstd::std_specs::cmp::PartialEqSpec;

use crate::layer_new::rand::{LayerRand, world_seed_spec, advance_spec, chunk_seed_spec, hash_seed_spec, base_seed_spec, draw_spec};
use crate::layer_new::cell::{zoom_rule, choose_smart};
use super::{Layer, LayerCache, in_reach, MAX_REACH};
use crate::biome::BiomeId;
use crate::layer_new::{LayerData, State};
use crate::layer_new::zoom::{zoom_out, lemma_half_offset, lemma_zoom_rule_on_biomes};

verus! {

/// Half of a coordinate, rounded down, and the parent coordinates read around it
/// stay in reach of a parent with a reach below `MAX_REACH`.
proof fn lemma_half_in_reach(x: i32, reach: nat)
    requires
        reach < MAX_REACH,
    ensures
        in_reach(x >> 1u32, reach),
        in_reach(((x >> 1u32) + 1) as i32, reach),
        (x >> 1u32) + 1 <= i32::MAX,
{
    assert(-0x4000_0000 <= (x >> 1u32) && (x >> 1u32) <= 0x3fff_ffff) by (bit_vector);
}

/// The zoom layer, picking at random the value of odd cells among their parent
/// neighbours (`FUZZY`), or with the smart choice.
pub struct ZoomLayer<P: Layer, const FUZZY: bool> {
    pub parent: P,
    rand: LayerRand,
    cache: LayerCache<P::Item>,
}

impl<P: Layer> ZoomLayer<P, true> where P::Item: Copy + PartialEq {

    pub fn new_fuzzy(parent: P, base_seed: i64) -> (r: Self)
        requires
            parent.wf(),
            parent.reach() < MAX_REACH,
            <P::Item as PartialEqSpec>::obeys_eq_spec(),
        ensures
            r.wf(),
            r.reach() == parent.reach() + 1,
            r.spec_base_seed() == crate::layer_new::rand::base_seed_spec(base_seed),
            r.spec_parent() == parent,
            forall|s: i64, x: i32, z: i32| #[trigger] r.seeded_cell(s, x, z) == zoom_rule(
                world_seed_spec(crate::layer_new::rand::base_seed_spec(base_seed), s),
                (x >> 1u32) << 1u32, (z >> 1u32) << 1u32, (x & 1) == 1, (z & 1) == 1, true,
                parent.seeded_cell(s, x >> 1u32, z >> 1u32),
                parent.seeded_cell(s, x >> 1u32, ((z >> 1u32) + 1) as i32),
                parent.seeded_cell(s, ((x >> 1u32) + 1) as i32, z >> 1u32),
                parent.seeded_cell(s, ((x >> 1u32) + 1) as i32, ((z >> 1u32) + 1) as i32),
            ),
    {
        ZoomLayer { parent, rand: LayerRand::new(base_seed), cache: LayerCache::new() }
    }

}

impl<P: Layer> ZoomLayer<P, false> where P::Item: Copy + PartialEq {

    pub fn new_smart(parent: P, base_seed: i64) -> (r: Self)
        requires
            parent.wf(),
            parent.reach() < MAX_REACH,
            <P::Item as PartialEqSpec>::obeys_eq_spec(),
        ensures
            r.wf(),
            r.reach() == parent.reach() + 1,
            r.spec_base_seed() == crate::layer_new::rand::base_seed_spec(base_seed),
            r.spec_parent() == parent,
            forall|s: i64, x: i32, z: i32| #[trigger] r.seeded_cell(s, x, z) == zoom_rule(
                world_seed_spec(crate::layer_new::rand::base_seed_spec(base_seed), s),
                (x >> 1u32) << 1u32, (z >> 1u32) << 1u32, (x & 1) == 1, (z & 1) == 1, false,
                parent.seeded_cell(s, x >> 1u32, z >> 1u32),
                parent.seeded_cell(s, x >> 1u32, ((z >> 1u32) + 1) as i32),
                parent.seeded_cell(s, ((x >> 1u32) + 1) as i32, z >> 1u32),
                parent.seeded_cell(s, ((x >> 1u32) + 1) as i32, ((z >> 1u32) + 1) as i32),
            ),
    {
        ZoomLayer { parent, rand: LayerRand::new(base_seed), cache: LayerCache::new() }
    }

}

impl<P: Layer, const FUZZY: bool> Layer for ZoomLayer<P, FUZZY> where P::Item: Copy + PartialEq {

    type Item = P::Item;

    closed spec fn wf(&self) -> bool {
        &&& self.parent.wf()
        &&& self.parent.reach() < MAX_REACH
        &&& <P::Item as PartialEqSpec>::obeys_eq_spec()
        &&& self.cache.wf()
        &&& forall|i: int| 0 <= i < 256 ==> (#[trigger] self.cache.view()[i] matches Some(e) ==> e.2 == self.cell(e.0, e.1))
    }

    closed spec fn reach(&self) -> nat {
        self.parent.reach() + 1
    }

    closed spec fn cell(&self, x: i32, z: i32) -> P::Item {
        zoom_rule(
            self.rand.spec_world_seed(),
            (x >> 1u32) << 1u32, (z >> 1u32) << 1u32, (x & 1) == 1, (z & 1) == 1, FUZZY,
            self.parent.cell(x >> 1u32, z >> 1u32),
            self.parent.cell(x >> 1u32, ((z >> 1u32) + 1) as i32),
            self.parent.cell(((x >> 1u32) + 1) as i32, z >> 1u32),
            self.parent.cell(((x >> 1u32) + 1) as i32, ((z >> 1u32) + 1) as i32),
        )
    }

    closed spec fn seeded_cell(&self, seed: i64, x: i32, z: i32) -> P::Item {
        zoom_rule(
            world_seed_spec(self.rand.spec_base_seed(), seed),
            (x >> 1u32) << 1u32, (z >> 1u32) << 1u32, (x & 1) == 1, (z & 1) == 1, FUZZY,
            self.parent.seeded_cell(seed, x >> 1u32, z >> 1u32),
            self.parent.seeded_cell(seed, x >> 1u32, ((z >> 1u32) + 1) as i32),
            self.parent.seeded_cell(seed, ((x >> 1u32) + 1) as i32, z >> 1u32),
            self.parent.seeded_cell(seed, ((x >> 1u32) + 1) as i32, ((z >> 1u32) + 1) as i32),
        )
    }

    fn seed(&mut self, seed: i64) {
        self.parent.seed(seed);
        self.rand.init_world_seed(seed);
        self.cache.clear();
    }

    fn next(&mut self, x: i32, z: i32) -> (r: P::Item) {
        match self.cache.get(x, z) {
            Some(v) => {
                proof {
                    LayerCache::<P::Item>::lemma_slot_range(x, z);
                    let i = crate::layer::cache::slot_of(x, z);
                    assert(self.cache.view()[i] matches Some(e) ==> e.2 == self.cell(e.0, e.1));
                }
                *v
            },
            None => {
                let v = self.compute(x, z);
                let ghost mid = *self;
                self.cache.insert(x, z, v);
                proof {
                    LayerCache::<P::Item>::lemma_slot_range(x, z);
                    assert(self.parent == mid.parent && self.rand == mid.rand);
                    assert forall|a: i32, b: i32| #[trigger] self.cell(a, b) == mid.cell(a, b) by {}
                    assert forall|s: i64, a: i32, b: i32| #[trigger] self.seeded_cell(s, a, b) == mid.seeded_cell(s, a, b) by {}
                    let f = |a: i32, b: i32| self.cell(a, b);
                    assert(f(x, z) == v);
                    assert forall|i: int| 0 <= i < 256 implies (#[trigger] mid.cache.view()[i] matches Some(e) ==> e.2 == f(e.0, e.1)) by {
                        assert(mid.cache.view()[i] matches Some(e) ==> e.2 == mid.cell(e.0, e.1));
                    }
                    LayerCache::lemma_insert_agrees(mid.cache.view(), self.cache.view(), f, x, z);
                    assert forall|i: int| 0 <= i < 256 implies (#[trigger] self.cache.view()[i] matches Some(e) ==> e.2 == self.cell(e.0, e.1)) by {
                        assert(self.cache.view()[i] matches Some(e) ==> e.2 == f(e.0, e.1));
                    }
                }
                v
            },
        }
    }

}

impl<P: Layer, const FUZZY: bool> ZoomLayer<P, FUZZY> where P::Item: Copy + PartialEq {

    /// The base seed hashed from the seed the layer was built with.
    pub closed spec fn spec_base_seed(&self) -> i64 {
        self.rand.spec_base_seed()
    }

    /// The layer whose cells are zoomed.
    pub closed spec fn spec_parent(&self) -> P {
        self.parent
    }

    /// Computes the cell at `x`/`z` from the parent cells, without the cache.
    fn compute(&mut self, x: i32, z: i32) -> (r: P::Item)
        requires
            old(self).parent.wf(),
            old(self).parent.reach() < MAX_REACH,
            <P::Item as PartialEqSpec>::obeys_eq_spec(),
        ensures
            r == old(self).cell(x, z),
            final(self).parent.wf(),
            final(self).parent.reach() == old(self).parent.reach(),
            final(self).cache == old(self).cache,
            final(self).rand.spec_world_seed() == old(self).rand.spec_world_seed(),
            final(self).rand.spec_base_seed() == old(self).rand.spec_base_seed(),
            forall|x: i32, z: i32| #[trigger] final(self).cell(x, z) == old(self).cell(x, z),
            forall|s: i64, x: i32, z: i32| #[trigger] final(self).seeded_cell(s, x, z) == old(self).seeded_cell(s, x, z),
    {
        let ghost old_self = *self;
        proof {
            lemma_half_in_reach(x, self.parent.reach());
            lemma_half_in_reach(z, self.parent.reach());
        }
        let x_half = x >> 1u32;
        let z_half = z >> 1u32;
        let x_odd = (x & 1) == 1;
        let z_odd = (z & 1) == 1;
        let v1 = self.parent.next(x_half, z_half);
        self.rand.init_chunk_seed(x_half << 1u32, z_half << 1u32);
        let ghost w = self.rand.spec_world_seed();
        let ghost c0 = self.rand.spec_chunk_seed();
        assert(c0 == chunk_seed_spec(w, (x >> 1u32) << 1u32, (z >> 1u32) << 1u32));
        assert(advance_spec(c0, w, 0) == c0);
        assert(advance_spec(c0, w, 1) == hash_seed_spec(c0, w));
        assert(advance_spec(c0, w, 2) == hash_seed_spec(hash_seed_spec(c0, w), w));
        let v = if x_odd && z_odd {
            let v2 = self.parent.next(x_half, z_half + 1);
            let v3 = self.parent.next(x_half + 1, z_half);
            let v4 = self.parent.next(x_half + 1, z_half + 1);
            self.rand.skip();
            self.rand.skip();
            if FUZZY {
                let r = self.rand.pick(&[v1, v3, v2, v4]);
                proof { assert(seq![v1, v3, v2, v4] =~= [v1, v3, v2, v4]@); }
                r
            } else {
                choose_smart(&mut self.rand, v1, v3, v2, v4)
            }
        } else if x_odd {
            self.rand.skip();
            if self.rand.next_int(2) == 0 {
                v1
            } else {
                self.parent.next(x_half + 1, z_half)
            }
        } else if z_odd {
            if self.rand.next_int(2) == 0 {
                v1
            } else {
                self.parent.next(x_half, z_half + 1)
            }
        } else {
            v1
        };
        proof {
            Self::lemma_frame(old_self, *self);
        }
        v
    }

    proof fn lemma_frame(a: Self, b: Self)
        requires
            a.rand.spec_world_seed() == b.rand.spec_world_seed(),
            a.rand.spec_base_seed() == b.rand.spec_base_seed(),
            forall|x: i32, z: i32| #[trigger] b.parent.cell(x, z) == a.parent.cell(x, z),
            forall|s: i64, x: i32, z: i32| #[trigger] b.parent.seeded_cell(s, x, z) == a.parent.seeded_cell(s, x, z),
        ensures
            forall|x: i32, z: i32| #[trigger] b.cell(x, z) == a.cell(x, z),
            forall|s: i64, x: i32, z: i32| #[trigger] b.seeded_cell(s, x, z) == a.seeded_cell(s, x, z),
    {
    }

}

/// The parent coordinate of the corner `i` (0 or 1) of the voronoi cell `c`, times 4:
/// the seed coordinate of the corner's jitter.
pub open spec fn voronoi_corner(c: i32, i: int) -> i32 {
    ((((c - 2) as i32 >> 2u32) + i) * 4) as i32
}

/// The two draws in `[0; 1024[` of the corner `cx`/`cz` of a voronoi cell.
pub open spec fn corner_draws_spec(world: i64, cx: i32, cz: i32) -> (u32, u32) {
    (draw_spec(chunk_seed_spec(world, cx, cz), 1024),
        draw_spec(hash_seed_spec(chunk_seed_spec(world, cx, cz), world), 1024))
}

/// The voronoi zoom by 4: each cell takes the value of the nearest of the four parent
/// cells around it, each one moved by two drawn jitters. The distances are floating
/// point: this layer gives the draws, its user compares the distances and reads the
/// parent.
pub struct VoronoiLayer<P> {
    pub parent: P,
    pub rand: LayerRand,
}

impl<P> VoronoiLayer<P> {

    pub fn new(parent: P, base_seed: i64) -> (r: Self)
        ensures
            r.parent == parent,
            r.rand.spec_base_seed() == base_seed_spec(base_seed),
            r.rand.spec_world_seed() == 0,
            r.rand.spec_chunk_seed() == 0,
    {
        VoronoiLayer { parent, rand: LayerRand::new(base_seed) }
    }

    /// The jitter draws of the four corners of the cell `x`/`z`, corner 0/0, 1/0, 0/1 then
    /// 1/1, each reseeding the generator with its coordinates and drawing two values.
    pub fn corner_draws(&mut self, x: i32, z: i32) -> (r: Vec<u32>)
        requires
            i32::MIN + 2 <= x <= i32::MAX - 8,
            i32::MIN + 2 <= z <= i32::MAX - 8,
        ensures
            r@.len() == 8,
            final(self).parent == old(self).parent,
            final(self).rand.spec_base_seed() == old(self).rand.spec_base_seed(),
            final(self).rand.spec_world_seed() == old(self).rand.spec_world_seed(),
            forall|k: int| 0 <= k < 4 ==> (#[trigger] r@[2 * k], r@[2 * k + 1]) == corner_draws_spec(
                old(self).rand.spec_world_seed(), voronoi_corner(x, k % 2), voronoi_corner(z, k / 2)),
    {
        let xm = x - 2;
        let zm = z - 2;
        let x_new = xm >> 2u32;
        let z_new = zm >> 2u32;
        assert(-0x2000_0000 <= xm >> 2u32 <= 0x1fff_fffd) by (bit_vector)
            requires i32::MIN <= xm <= i32::MAX - 10;
        assert(-0x2000_0000 <= zm >> 2u32 <= 0x1fff_fffd) by (bit_vector)
            requires i32::MIN <= zm <= i32::MAX - 10;
        let ghost world = self.rand.spec_world_seed();
        let mut r: Vec<u32> = Vec::with_capacity(8);
        let mut k: i32 = 0;
        while k < 4
            invariant
                0 <= k <= 4,
                r@.len() == 2 * k,
                x_new == (x - 2) as i32 >> 2u32,
                z_new == (z - 2) as i32 >> 2u32,
                -0x2000_0000 <= x_new <= 0x1fff_fffd,
                -0x2000_0000 <= z_new <= 0x1fff_fffd,
                self.parent == old(self).parent,
                self.rand.spec_base_seed() == old(self).rand.spec_base_seed(),
                self.rand.spec_world_seed() == world,
                world == old(self).rand.spec_world_seed(),
                forall|j: int| 0 <= j < k ==> (#[trigger] r@[2 * j], r@[2 * j + 1]) == corner_draws_spec(
                    world, voronoi_corner(x, j % 2), voronoi_corner(z, j / 2)),
            decreases 4 - k,
        {
            let cx = (x_new + k % 2) * 4;
            let cz = (z_new + k / 2) * 4;
            assert(cx == voronoi_corner(x, (k % 2) as int));
            assert(cz == voronoi_corner(z, (k / 2) as int));
            self.rand.init_chunk_seed(cx, cz);
            let a = self.rand.next_int(1024);
            let b = self.rand.next_int(1024);
            r.push(a);
            r.push(b);
            assert((r@[2 * k], r@[2 * k + 1]) == corner_draws_spec(world, cx, cz));
            k = k + 1;
        }
        r
    }

}

impl<P: Layer> VoronoiLayer<P> {

    /// Seeds the parent and the generator with the world seed.
    pub fn seed(&mut self, seed: i64)
        requires
            old(self).parent.wf(),
        ensures
            final(self).parent.wf(),
            final(self).parent.reach() == old(self).parent.reach(),
            forall|x: i32, z: i32| #[trigger] final(self).parent.cell(x, z) == old(self).parent.seeded_cell(seed, x, z),
            final(self).rand.spec_base_seed() == old(self).rand.spec_base_seed(),
            final(self).rand.spec_world_seed() == world_seed_spec(old(self).rand.spec_base_seed(), seed),
    {
        self.parent.seed(seed);
        self.rand.init_world_seed(seed);
    }

}

/// The grid zoom agrees with the cell zoom on biomes: where the parent rectangle of the
/// grid holds, as biome states, the cells of the cell layer's parent seeded with `seed`,
/// each cell of the zoomed rectangle is, as a biome state, the cell of the cell zoom
/// layer built with the same base seed and mode and seeded with `seed`.
pub proof fn grid_zoom_agrees_with_cell_zoom<P: Layer<Item = BiomeId>, const FUZZY: bool>(
    grid: crate::layer_new::zoom::ZoomLayer,
    cells: ZoomLayer<P, FUZZY>,
    seed: i64,
    x: i32,
    z: i32,
    input: &LayerData,
    dx: int,
    dz: int,
)
    requires
        grid.spec_base_seed() == cells.spec_base_seed(),
        grid.spec_fuzzy() == FUZZY,
        grid.spec_world_seed() == world_seed_spec(grid.spec_base_seed(), seed),
        0 <= dx,
        0 <= dz,
        x + dx <= i32::MAX,
        z + dz <= i32::MAX,
        forall|i: int, j: int| 0 <= i <= (dx + 1) / 2 + 1 && 0 <= j <= (dz + 1) / 2 + 1
            ==> #[trigger] input.at(i, j) == State::Biome(cells.spec_parent().seeded_cell(seed, ((x >> 1u32) + i) as i32, ((z >> 1u32) + j) as i32)),
    ensures
        zoom_out(grid.spec_world_seed(), x, z, FUZZY, input, dx, dz)
            == State::Biome(cells.seeded_cell(seed, (x + dx) as i32, (z + dz) as i32)),
{
    let cx = (x + dx) as i32;
    let cz = (z + dz) as i32;
    lemma_half_offset(x, cx, dx);
    lemma_half_offset(z, cz, dz);
    assert(-0x4000_0000 <= (cx >> 1u32) <= 0x3fff_ffff && -0x4000_0000 <= (cz >> 1u32) <= 0x3fff_ffff) by (bit_vector);
    let ix = (cx >> 1u32) - (x >> 1u32);
    let iz = (cz >> 1u32) - (z >> 1u32);
    let p = cells.spec_parent();
    assert(input.at(ix, iz) == State::Biome(p.seeded_cell(seed, cx >> 1u32, cz >> 1u32)));
    assert(input.at(ix, iz + 1) == State::Biome(p.seeded_cell(seed, cx >> 1u32, ((cz >> 1u32) + 1) as i32)));
    assert(input.at(ix + 1, iz) == State::Biome(p.seeded_cell(seed, ((cx >> 1u32) + 1) as i32, cz >> 1u32)));
    assert(input.at(ix + 1, iz + 1) == State::Biome(p.seeded_cell(seed, ((cx >> 1u32) + 1) as i32, ((cz >> 1u32) + 1) as i32)));
    lemma_zoom_rule_on_biomes(grid.spec_world_seed(), (cx >> 1u32) << 1u32, (cz >> 1u32) << 1u32, (cx & 1) == 1, (cz & 1) == 1, FUZZY,
        p.seeded_cell(seed, cx >> 1u32, cz >> 1u32),
        p.seeded_cell(seed, cx >> 1u32, ((cz >> 1u32) + 1) as i32),
        p.seeded_cell(seed, ((cx >> 1u32) + 1) as i32, cz >> 1u32),
        p.seeded_cell(seed, ((cx >> 1u32) + 1) as i32, ((cz >> 1u32) + 1) as i32));
}

} // verus!
