//! The integer part of the Perlin noise: its permutation table.

use vstd::prelude::*;

use crate::java::JavaRandom;

use crate::java::{next_int_bounded, int_draw};

verus! {

/// The first 256 entries of `p` are the numbers 0 to 255, each once.
pub open spec fn is_permutation_256(p: Seq<u16>) -> bool {
    &&& p.len() >= 256
    &&& forall|i: int| 0 <= i < 256 ==> #[trigger] p[i] < 256
    &&& forall|i: int, j: int| 0 <= i < 256 && 0 <= j < 256 && i != j ==> #[trigger] p[i] != #[trigger] p[j]
}

/// The shuffle of the table `t` from the index `i` with the generator state `s`: for each
/// index from `i` to 255 in turn, a draw in `[0; 256 - index[` gives the index it is
/// swapped with, that many places further; the table and the generator state after them.
pub open spec fn shuffle_from(s: i64, t: Seq<u16>, i: int) -> (Seq<u16>, i64)
    decreases 256 - i,
{
    if i >= 256 || i < 0 {
        (t, s)
    } else {
        let (d, s1) = int_draw(s, (256 - i) as i32);
        let n = d + i;
        shuffle_from(s1, t.update(i, t[n]).update(n, t[i]), i + 1)
    }
}

/// The numbers 0 to 255, in order.
pub open spec fn identity_256() -> Seq<u16> {
    Seq::new(256, |k: int| k as u16)
}

/// The permutation table of a Perlin noise: the numbers 0 to 255 shuffled by drawing,
/// for each index `i` in turn, the index in `[i; 256[` to swap it with; the second half
/// repeats the first one.
pub fn permutation_table(rand: &mut JavaRandom) -> (r: Vec<u16>)
    ensures
        r@.len() == 512,
        is_permutation_256(r@),
        forall|i: int| 0 <= i < 256 ==> #[trigger] r@[i + 256] == r@[i],
        r@.subrange(0, 256) == shuffle_from(old(rand)@, identity_256(), 0).0,
        final(rand)@ == shuffle_from(old(rand)@, identity_256(), 0).1,
{
    let mut p: Vec<u16> = Vec::with_capacity(512);
    let mut i: usize = 0;
    while i < 512
        invariant
            i <= 512,
            p@.len() == i,
            forall|k: int| 0 <= k < i && k < 256 ==> #[trigger] p@[k] == k,
        decreases 512 - i,
    {
        if i < 256 {
            p.push(i as u16);
        } else {
            p.push(0);
        }
        i = i + 1;
    }
    assert(is_permutation_256(p@));
    assert(p@.subrange(0, 256) =~= identity_256());
    let mut i: usize = 0;
    while i < 256
        invariant
            i <= 256,
            shuffle_from(rand@, p@.subrange(0, 256), i as int) == shuffle_from(old(rand)@, identity_256(), 0),
            p@.len() == 512,
            is_permutation_256(p@),
            forall|k: int| 0 <= k < i ==> #[trigger] p@[k + 256] == p@[k],
        decreases 256 - i,
    {
        let ghost s0 = rand@;
        let ghost h0 = p@.subrange(0, 256);
        let n = next_int_bounded(rand, 256 - i as i32) as usize + i;
        let ghost before = p@;
        let t = p[i];
        let u = p[n];
        p.set(i, u);
        p.set(n, t);
        assert forall|a: int, b: int| 0 <= a < 256 && 0 <= b < 256 && a != b implies #[trigger] p@[a] != #[trigger] p@[b] by {
            let sa = if a == i { n as int } else if a == n { i as int } else { a };
            let sb = if b == i { n as int } else if b == n { i as int } else { b };
            assert(p@[a] == before[sa]);
            assert(p@[b] == before[sb]);
            assert(sa != sb);
        }
        assert forall|a: int| 0 <= a < 256 implies #[trigger] p@[a] < 256 by {
            let sa = if a == i { n as int } else if a == n { i as int } else { a };
            assert(p@[a] == before[sa]);
        }
        assert(p@.subrange(0, 256) =~= h0.update(i as int, h0[n as int]).update(n as int, h0[i as int]));
        p.set(i + 256, u);
        assert(p@.subrange(0, 256) =~= before.update(i as int, u).update(n as int, t).subrange(0, 256));
        assert forall|a: int, b: int| 0 <= a < 256 && 0 <= b < 256 && a != b implies #[trigger] p@[a] != #[trigger] p@[b] by {
            assert(p@[a] == p@.update(i + 256, u)[a]);
        }
        i = i + 1;
    }
    p
}

} // verus!
