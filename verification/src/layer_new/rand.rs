//! The linear congruential generator used by biome layers.

use vstd::prelude::*;
use vstd::wrapping::i64_specs;

verus! {

/// Multiplier of the seed hash.
pub const HASH_MUL: i64 = 0x5851f42d4c957f2d;
/// Addend of the seed hash.
pub const HASH_ADD: i64 = 0x14057b7ef767814f;

/// One step of the seed hash: `seed * (seed * HASH_MUL + HASH_ADD) + to_add`,
/// every operation wrapping on 64 bits.
#[verifier::opaque]
pub open spec fn hash_seed_spec(seed: i64, to_add: i64) -> i64 {
    i64_specs::wrapping_add(
        i64_specs::wrapping_mul(seed, i64_specs::wrapping_add(i64_specs::wrapping_mul(seed, HASH_MUL), HASH_ADD)),
        to_add,
    )
}

/// The base seed a layer derives from the seed it is constructed with.
pub open spec fn base_seed_spec(base: i64) -> i64 {
    hash_seed_spec(hash_seed_spec(hash_seed_spec(base, base), base), base)
}

/// The world seed of a layer with hashed base seed `base` for the world seed `world`.
pub open spec fn world_seed_spec(base: i64, world: i64) -> i64 {
    hash_seed_spec(hash_seed_spec(hash_seed_spec(world, base), base), base)
}

/// The chunk seed of a layer with hashed world seed `world` at the cell `x`/`z`.
pub open spec fn chunk_seed_spec(world: i64, x: i32, z: i32) -> i64 {
    hash_seed_spec(
        hash_seed_spec(hash_seed_spec(hash_seed_spec(world, x as i64), z as i64), x as i64),
        z as i64,
    )
}

/// The value drawn from the chunk seed `chunk` with the exclusive bound `bound`:
/// the chunk seed shifted right by 24 bits, taken modulo the bound.
#[verifier::opaque]
pub open spec fn draw_spec(chunk: i64, bound: u32) -> u32 {
    ((chunk >> 24u64) as int % bound as int) as u32
}

/// A draw with a positive bound is below the bound.
pub proof fn lemma_draw_below(chunk: i64, bound: u32)
    requires
        bound > 0,
    ensures
        draw_spec(chunk, bound) < bound,
{
    reveal(draw_spec);
    vstd::arithmetic::div_mod::lemma_mod_bound((chunk >> 24u64) as int, bound as int);
}

/// The chunk seed after `n` draws from the chunk seed `chunk` of a layer with
/// hashed world seed `world`.
pub open spec fn advance_spec(chunk: i64, world: i64, n: nat) -> i64
    decreases n,
{
    if n == 0 {
        chunk
    } else {
        hash_seed_spec(advance_spec(chunk, world, (n - 1) as nat), world)
    }
}

proof fn lemma_neg_rem(a: int, b: int)
    requires
        a < 0,
        b > 0,
    ensures
        (-a) % b == 0 ==> a % b == 0,
        (-a) % b != 0 ==> a % b == b - (-a) % b,
{
    let r = (-a) % b;
    let q = (-a) / b;
    vstd::arithmetic::div_mod::lemma_fundamental_div_mod(-a, b);
    assert(a == (-q) * b - r) by (nonlinear_arith)
        requires
            -a == b * q + r,
    ;
    if r == 0 {
        vstd::arithmetic::div_mod::lemma_mod_multiples_basic(-q, b);
    } else {
        assert(a == (-q - 1) * b + (b - r)) by (nonlinear_arith)
            requires
                a == (-q) * b - r,
        ;
        vstd::arithmetic::div_mod::lemma_mod_bound(-a, b);
        vstd::arithmetic::div_mod::lemma_fundamental_div_mod_converse_mod(a, b, -q - 1, b - r);
    }
}

/// The remainder of `a` by `b > 0` in `[0; b[`, computed as Rust's remainder
/// plus `b` when it is negative.
fn euclid_rem(a: i64, b: i64) -> (r: i64)
    requires
        b > 0,
    ensures
        r == a as int % b as int,
        0 <= r < b,
{
    let mut i = a % b;
    proof {
        if a >= 0 {
            assert(i == a as int % b as int);
        } else {
            assert(i == -((-(a as int)) % (b as int)));
            lemma_neg_rem(a as int, b as int);
        }
    }
    if i < 0 {
        i = i + b;
    }
    i
}

/// A LCG RNG specific for layers.
#[derive(Debug, Clone, Copy)]
pub struct LayerRand {
    base_seed: i64,
    world_seed: i64,
    chunk_seed: i64,
}

impl LayerRand {

    pub closed spec fn spec_base_seed(&self) -> i64 {
        self.base_seed
    }

    pub closed spec fn spec_world_seed(&self) -> i64 {
        self.world_seed
    }

    pub closed spec fn spec_chunk_seed(&self) -> i64 {
        self.chunk_seed
    }

    fn hash_seed(seed: i64, to_add: i64) -> (r: i64)
        ensures
            r == hash_seed_spec(seed, to_add),
    {
        reveal(hash_seed_spec);
        seed.wrapping_mul(seed.wrapping_mul(HASH_MUL).wrapping_add(HASH_ADD)).wrapping_add(to_add)
    }

    /// Creates a generator for the given base seed; the world and chunk seeds are zero.
    pub fn new(base_seed: i64) -> (r: LayerRand)
        ensures
            r.spec_base_seed() == base_seed_spec(base_seed),
            r.spec_world_seed() == 0,
            r.spec_chunk_seed() == 0,
    {
        let mut new_base_seed = base_seed;
        new_base_seed = Self::hash_seed(new_base_seed, base_seed);
        new_base_seed = Self::hash_seed(new_base_seed, base_seed);
        new_base_seed = Self::hash_seed(new_base_seed, base_seed);
        LayerRand { base_seed: new_base_seed, world_seed: 0, chunk_seed: 0 }
    }

    pub fn get_chunk_seed(&self) -> (r: i64)
        ensures
            r == self.spec_chunk_seed(),
    {
        self.chunk_seed
    }

    /// Initializes the world seed from the given seed and the base seed.
    pub fn init_world_seed(&mut self, world_seed: i64)
        ensures
            final(self).spec_base_seed() == old(self).spec_base_seed(),
            final(self).spec_world_seed() == world_seed_spec(old(self).spec_base_seed(), world_seed),
            final(self).spec_chunk_seed() == old(self).spec_chunk_seed(),
    {
        let mut w = world_seed;
        w = Self::hash_seed(w, self.base_seed);
        w = Self::hash_seed(w, self.base_seed);
        w = Self::hash_seed(w, self.base_seed);
        self.world_seed = w;
    }

    /// Initializes the chunk seed for the cell `x`/`z` from the world seed.
    pub fn init_chunk_seed(&mut self, x: i32, z: i32)
        ensures
            final(self).spec_base_seed() == old(self).spec_base_seed(),
            final(self).spec_world_seed() == old(self).spec_world_seed(),
            final(self).spec_chunk_seed() == chunk_seed_spec(old(self).spec_world_seed(), x, z),
    {
        let mut c = self.world_seed;
        c = Self::hash_seed(c, x as i64);
        c = Self::hash_seed(c, z as i64);
        c = Self::hash_seed(c, x as i64);
        c = Self::hash_seed(c, z as i64);
        self.chunk_seed = c;
    }

    /// Draws a value in `[0; bound[` and advances the chunk seed.
    pub fn next_int(&mut self, bound: u32) -> (r: u32)
        requires
            bound > 0,
        ensures
            r == draw_spec(old(self).spec_chunk_seed(), bound),
            r < bound,
            final(self).spec_base_seed() == old(self).spec_base_seed(),
            final(self).spec_world_seed() == old(self).spec_world_seed(),
            final(self).spec_chunk_seed() == hash_seed_spec(old(self).spec_chunk_seed(), old(self).spec_world_seed()),
    {
        reveal(draw_spec);
        let i = euclid_rem(self.chunk_seed >> 24u64, bound as i64);
        self.chunk_seed = Self::hash_seed(self.chunk_seed, self.world_seed);
        i as u32
    }

    /// Advances the chunk seed as a draw would, without drawing.
    pub fn skip(&mut self)
        ensures
            final(self).spec_base_seed() == old(self).spec_base_seed(),
            final(self).spec_world_seed() == old(self).spec_world_seed(),
            final(self).spec_chunk_seed() == hash_seed_spec(old(self).spec_chunk_seed(), old(self).spec_world_seed()),
    {
        self.chunk_seed = Self::hash_seed(self.chunk_seed, self.world_seed);
    }

    /// Picks one of the given elements with a draw bounded by their count.
    pub fn pick<T: Copy>(&mut self, elements: &[T]) -> (r: T)
        requires
            0 < elements@.len() <= u32::MAX,
        ensures
            r == elements@[draw_spec(old(self).spec_chunk_seed(), elements@.len() as u32) as int],
            final(self).spec_base_seed() == old(self).spec_base_seed(),
            final(self).spec_world_seed() == old(self).spec_world_seed(),
            final(self).spec_chunk_seed() == hash_seed_spec(old(self).spec_chunk_seed(), old(self).spec_world_seed()),
    {
        let i = self.next_int(elements.len() as u32);
        elements[i as usize]
    }

}

/// A layer generator is its three seeds: two with the same base, world and chunk seeds
/// are the same generator, so the same calls on them give the same values (each call's
/// contract states its result and its new seeds from the seeds alone), and two built from
/// the same base seed answer every sequence of calls alike.
pub proof fn layer_rand_is_its_seeds(a: LayerRand, b: LayerRand)
    requires
        a.spec_base_seed() == b.spec_base_seed(),
        a.spec_world_seed() == b.spec_world_seed(),
        a.spec_chunk_seed() == b.spec_chunk_seed(),
    ensures
        a == b,
{
}

} // verus!
