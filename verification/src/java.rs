//! The Java linear congruential generator (`java.util.Random`), as release 1.2 draws
//! from it: a 48 bits state, advanced by `state * 0x5DEECE66D + 0xB` modulo 2^48.
//!
//! Every draw is stated exactly, as a function of the state before it, and so is the
//! state after it: a generator seeded with the same seed gives the same draws.

use vstd::prelude::*;
use vstd::wrapping::i64_specs;

verus! {

/// The multiplier of the generator.
pub const MULTIPLIER: i64 = 0x5DEECE66D;
/// The addend of the generator.
pub const ADDEND: i64 = 0xB;
/// The mask of the 48 bits of the state.
pub const MASK: i64 = 0xFFFF_FFFF_FFFF;

/// The state a seed gives: the seed with the multiplier's bits flipped, on 48 bits.
pub open spec fn scramble(seed: i64) -> i64 {
    (seed ^ MULTIPLIER) & MASK
}

/// The state after `s`: `s * MULTIPLIER + ADDEND`, wrapping on 64 bits, on 48 bits.
#[verifier::opaque]
pub open spec fn lcg_next(s: i64) -> i64 {
    i64_specs::wrapping_add(i64_specs::wrapping_mul(s, MULTIPLIER), ADDEND) & MASK
}

/// The `bits` high bits (of 48) of the state after `s`, as an `i32`: the value of a draw
/// of `bits` bits from the state `s`.
pub open spec fn bits_after(s: i64, bits: u32) -> i32 {
    ((lcg_next(s) as u64) >> ((48 - bits) as u32)) as i32
}

/// The bound is a power of two.
pub open spec fn is_power_of_two_bound(bound: i32) -> bool {
    (bound & ((0 - bound) as i32)) == bound
}

/// A draw of 31 bits `bits` is kept for the bound: the value it gives does not fall in
/// the last, incomplete run of `bound` values below 2^31.
pub open spec fn draw_kept(bits: i32, bound: i32) -> bool {
    bits - bits % bound + (bound - 1) <= i32::MAX
}

/// The largest number of draws a bounded draw makes.
pub open spec fn max_draws() -> nat {
    0x1_0000_0000_0000
}

/// A bounded draw that is not for a power of two, from the state `s`, with at most
/// `fuel + 1` draws of 31 bits: the first kept draw's value modulo the bound, and the
/// state after it.
pub open spec fn rejection_draw(s: i64, bound: i32, fuel: nat) -> (i32, i64)
    decreases fuel,
{
    let bits = bits_after(s, 31);
    if draw_kept(bits, bound) || fuel == 0 {
        ((bits % bound) as i32, lcg_next(s))
    } else {
        rejection_draw(lcg_next(s), bound, (fuel - 1) as nat)
    }
}

/// A draw bounded by `bound` from the state `s`, and the state after it: for a power of
/// two, the high bits of one draw of 31 bits; else draws of 31 bits until one is kept.
pub open spec fn int_draw(s: i64, bound: i32) -> (i32, i64) {
    if is_power_of_two_bound(bound) {
        (((((bound as i64) * (bits_after(s, 31) as i64)) as i64) >> 31u32) as i32, lcg_next(s))
    } else {
        rejection_draw(s, bound, max_draws())
    }
}

/// A draw of 64 bits from the state `s`: two draws of 32 bits, the first one shifted
/// up, added wrapping; and the state after them.
pub open spec fn long_draw(s: i64) -> (i64, i64) {
    let s1 = lcg_next(s);
    (i64_specs::wrapping_add(((bits_after(s, 32) as i64) << 32u32), bits_after(s1, 32) as i64), lcg_next(s1))
}

/// The 53 bits of a draw of a double from the state `s` (the double is these bits
/// divided by 2^53): a draw of 26 bits shifted up by 27, plus a draw of 27 bits; and the
/// state after them.
pub open spec fn double_bits_draw(s: i64) -> (i64, i64) {
    let s1 = lcg_next(s);
    ((((bits_after(s, 26) as i64) << 27u32) + (bits_after(s1, 27) as i64)) as i64, lcg_next(s1))
}

/// The Java generator: its 48 bits state.
pub struct JavaRandom {
    seed: i64,
}

impl View for JavaRandom {
    type V = i64;

    /// The state of the generator.
    closed spec fn view(&self) -> i64 {
        self.seed
    }
}

/// A state of 48 bits stays on 48 bits after a step, and its high bits fit their width.
proof fn lemma_step_bits(s: i64)
    ensures
        0 <= lcg_next(s) < 0x1_0000_0000_0000,
        0 <= bits_after(s, 31) < 0x8000_0000,
        0 <= bits_after(s, 26) < 0x400_0000,
        0 <= bits_after(s, 27) < 0x800_0000,
        0 <= bits_after(s, 24) < 0x100_0000,
{
    reveal(lcg_next);
    let x = i64_specs::wrapping_add(i64_specs::wrapping_mul(s, MULTIPLIER), ADDEND);
    assert(0 <= x & 0xFFFF_FFFF_FFFF < 0x1_0000_0000_0000) by (bit_vector);
    let n = x & 0xFFFF_FFFF_FFFF;
    assert(0 <= n < 0x1_0000_0000_0000 ==> ((n as u64) >> 17u32) < 0x8000_0000) by (bit_vector);
    assert(0 <= n < 0x1_0000_0000_0000 ==> ((n as u64) >> 22u32) < 0x400_0000) by (bit_vector);
    assert(0 <= n < 0x1_0000_0000_0000 ==> ((n as u64) >> 21u32) < 0x800_0000) by (bit_vector);
    assert(0 <= n < 0x1_0000_0000_0000 ==> ((n as u64) >> 24u32) < 0x100_0000) by (bit_vector);
}

/// A draw bounded by 4 gives a value in `[0; 4[`.
pub proof fn lemma_draw_below_four(s: i64)
    ensures
        0 <= int_draw(s, 4).0 < 4,
{
    lemma_step_bits(s);
    assert(is_power_of_two_bound(4)) by (bit_vector);
    let b = bits_after(s, 31);
    assert(0 <= b < 0x8000_0000 ==> 0 <= (((((4i32 as i64) * (b as i64)) as i64) >> 31u32) as i32)
        && (((((4i32 as i64) * (b as i64)) as i64) >> 31u32) as i32) < 4) by (bit_vector);
}

/// One step of a bounded draw that is not for a power of two.
proof fn lemma_rejection_unfold(s: i64, bound: i32, fuel: nat)
    ensures
        rejection_draw(s, bound, fuel) == (if draw_kept(bits_after(s, 31), bound) || fuel == 0 {
            ((bits_after(s, 31) % bound) as i32, lcg_next(s))
        } else {
            rejection_draw(lcg_next(s), bound, (fuel - 1) as nat)
        }),
{
}

impl JavaRandom {

    /// A generator seeded with `seed`.
    pub fn new(seed: i64) -> (r: Self)
        ensures
            r@ == scramble(seed),
    {
        JavaRandom { seed: (seed ^ MULTIPLIER) & MASK }
    }

    /// Reseeds the generator with `seed`.
    pub fn set_seed(&mut self, seed: i64)
        ensures
            final(self)@ == scramble(seed),
    {
        self.seed = (seed ^ MULTIPLIER) & MASK;
    }

    /// The state of the generator.
    pub fn get_seed(&self) -> (r: i64)
        ensures
            r == self@,
    {
        self.seed
    }

    /// Advances the generator as a draw does, without a value.
    pub fn next_blank(&mut self)
        ensures
            final(self)@ == lcg_next(old(self)@),
    {
        proof {
            reveal(lcg_next);
        }
        self.seed = self.seed.wrapping_mul(MULTIPLIER).wrapping_add(ADDEND) & MASK;
    }

    /// A draw of `bits` bits: the high bits of the next state.
    fn next(&mut self, bits: u32) -> (r: i32)
        requires
            1 <= bits <= 32,
        ensures
            r == bits_after(old(self)@, bits),
            final(self)@ == lcg_next(old(self)@),
    {
        self.next_blank();
        ((self.seed as u64) >> (48 - bits)) as i32
    }

    /// A draw of 32 bits.
    pub fn next_int(&mut self) -> (r: i32)
        ensures
            r == bits_after(old(self)@, 32),
            final(self)@ == lcg_next(old(self)@),
    {
        self.next(32)
    }

    /// A draw in `[0; bound[`.
    pub fn next_int_bounded(&mut self, bound: i32) -> (r: i32)
        requires
            bound > 0,
        ensures
            (r, final(self)@) == int_draw(old(self)@, bound),
            0 <= r < bound,
    {
        if (bound & -bound) == bound {
            let ghost s = self@;
            let v = self.next(31);
            proof {
                lemma_step_bits(s);
            }
            let b = bound as i64;
            let v = v as i64;
            assert(0 <= b * v < 0x4000_0000_0000_0000) by (nonlinear_arith)
                requires 0 < b <= 0x7fff_ffff, 0 <= v < 0x8000_0000;
            let p = b * v;
            let q = p >> 31;
            assert(p >> 31u32 == p / 0x8000_0000) by (bit_vector)
                requires 0 <= p < 0x4000_0000_0000_0000;
            assert(0 <= p / 0x8000_0000 < b) by (nonlinear_arith)
                requires p == b * v, 0 < b, 0 <= v < 0x8000_0000;
            q as i32
        } else {
            let ghost start = self@;
            let mut tries: u64 = 0;
            loop
                invariant
                    bound > 0,
                    start == old(self)@,
                    !is_power_of_two_bound(bound),
                    tries <= max_draws(),
                    rejection_draw(start, bound, max_draws()) == rejection_draw(self@, bound, (max_draws() - tries) as nat),
                decreases max_draws() - tries,
            {
                let ghost s = self@;
                let bits = self.next(31);
                proof {
                    lemma_step_bits(s);
                    lemma_rejection_unfold(s, bound, (max_draws() - tries) as nat);
                }
                let val = bits % bound;
                if (bits - val) as i64 + (bound - 1) as i64 <= i32::MAX as i64 || tries == 0x1_0000_0000_0000 {
                    return val;
                }
                tries = tries + 1;
            }
        }
    }

    /// A draw of 64 bits.
    pub fn next_long(&mut self) -> (r: i64)
        ensures
            (r, final(self)@) == long_draw(old(self)@),
    {
        let high = self.next(32) as i64;
        let low = self.next(32) as i64;
        (high << 32).wrapping_add(low)
    }

    /// A draw of 24 bits, whose value divided by 2^24 is the drawn float.
    pub fn next_float_bits(&mut self) -> (r: i32)
        ensures
            r == bits_after(old(self)@, 24),
            final(self)@ == lcg_next(old(self)@),
            0 <= r < 0x100_0000,
    {
        proof {
            lemma_step_bits(self@);
        }
        self.next(24)
    }

    /// The 53 bits of a draw of a double, whose value divided by 2^53 is the drawn double.
    pub fn next_double_bits(&mut self) -> (r: i64)
        ensures
            (r, final(self)@) == double_bits_draw(old(self)@),
            0 <= r < 0x20_0000_0000_0000,
    {
        let ghost s = self@;
        proof {
            lemma_step_bits(s);
            lemma_step_bits(lcg_next(s));
        }
        let high = self.next(26) as i64;
        let low = self.next(27) as i64;
        assert((high << 27u32) == high * 0x800_0000) by (bit_vector)
            requires 0 <= high < 0x400_0000;
        (high << 27) + low
    }

}

/// A generator seeded with `seed`.
pub fn java_random(seed: i64) -> (r: JavaRandom)
    ensures
        r@ == scramble(seed),
{
    JavaRandom::new(seed)
}

/// A draw in `[0; bound[` from `rand`.
pub fn next_int_bounded(rand: &mut JavaRandom, bound: i32) -> (r: i32)
    requires
        bound > 0,
    ensures
        (r, final(rand)@) == int_draw(old(rand)@, bound),
        0 <= r < bound,
{
    rand.next_int_bounded(bound)
}

/// Advances `rand` as a draw does, without a value.
pub fn next_blank(rand: &mut JavaRandom)
    ensures
        final(rand)@ == lcg_next(old(rand)@),
{
    rand.next_blank()
}

/// A draw of 64 bits from `rand`.
pub fn next_long(rand: &mut JavaRandom) -> (r: i64)
    ensures
        (r, final(rand)@) == long_draw(old(rand)@),
{
    rand.next_long()
}

/// Reseeds `rand` with `seed`.
pub fn set_seed(rand: &mut JavaRandom, seed: i64)
    ensures
        final(rand)@ == scramble(seed),
{
    rand.set_seed(seed)
}

} // verus!
