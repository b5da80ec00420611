//! The decisions of the legacy threaded level source: which chunks to request around a
//! requested chunk, when a chunk can be decorated and released, and which chunk of a
//! quad of chunks holds a block.

use vstd::prelude::*;

verus! {

broadcast use vstd::std_specs::hash::group_hash_axioms;

/// The key of the chunk `cx`/`cz` in the hash tables: the two coordinates side by side
/// on 64 bits.
pub open spec fn chunk_key_spec(cx: i32, cz: i32) -> u64 {
    ((cx as u32 as u64) << 32u64) | (cz as u32 as u64)
}

pub fn chunk_key(cx: i32, cz: i32) -> (r: u64)
    ensures
        r == chunk_key_spec(cx, cz),
{
    ((cx as u32 as u64) << 32u64) | (cz as u32 as u64)
}

/// Two chunks have the same key only when they are the same chunk.
pub proof fn lemma_chunk_key_injective(ax: i32, az: i32, bx: i32, bz: i32)
    ensures
        chunk_key_spec(ax, az) == chunk_key_spec(bx, bz) <==> (ax == bx && az == bz),
{
    assert(((ax as u32 as u64) << 32u64) | (az as u32 as u64) == ((bx as u32 as u64) << 32u64) | (bz as u32 as u64)
        <==> (ax == bx && az == bz)) by (bit_vector);
}

/// The `k`-th chunk (from 0 to 8) of the 3 by 3 chunks around `cx`/`cz`, X then Z.
pub open spec fn around(cx: i32, cz: i32, k: int) -> (i32, i32) {
    ((cx - 1 + k / 3) as i32, (cz - 1 + k % 3) as i32)
}

/// A chunk coordinate with room for the chunks around it and for the block
/// coordinates of their population chunks.
pub open spec fn chunk_coord_ok(c: i32) -> bool {
    -0x07ff_fff0 <= c <= 0x07ff_fff0
}

/// A chunk coordinate with room for the chunks around it: one more and one less fit
/// in `i32`.
pub open spec fn around_ok(c: i32) -> bool {
    i32::MIN < c < i32::MAX
}

// Quad level view //

/// The error of a block position outside the chunks of a view.
#[derive(Clone, Copy, Debug, PartialEq, Eq, Structural)]
pub enum ViewError {
    ChunkUnloaded,
}

/// A view on a quad of 4 chunks, used to generate one feature chunk; the chunks are
/// ordered 0/0 1/0 0/1 1/1 (X then Z), starting at the block `x_start`/`z_start`.
pub struct QuadLevelView<C> {
    pub chunks: [C; 4],
    pub x_start: i32,
    pub z_start: i32,
}

impl<C> QuadLevelView<C> {

    /// The index of the chunk holding the block column `x`/`z`, when one of the four does.
    pub fn get_chunk_index(&self, x: i32, z: i32) -> (r: Result<usize, ViewError>)
        requires
            i32::MIN <= x - self.x_start <= i32::MAX,
            i32::MIN <= z - self.z_start <= i32::MAX,
        ensures
            (0 <= x - self.x_start < 32 && 0 <= z - self.z_start < 32) <==> r is Ok,
            r matches Ok(i) ==> i == (x - self.x_start) / 16 + 2 * ((z - self.z_start) / 16),
            r matches Err(e) ==> e == ViewError::ChunkUnloaded,
    {
        let ox = x - self.x_start;
        let oz = z - self.z_start;
        let dx = ox >> 4u32;
        let dz = oz >> 4u32;
        assert(0 <= ox < 32 <==> 0 <= (ox >> 4u32) < 2) by (bit_vector);
        assert(0 <= oz < 32 <==> 0 <= (oz >> 4u32) < 2) by (bit_vector);
        assert(0 <= ox < 32 ==> (ox >> 4u32) == ox / 16) by (bit_vector);
        assert(0 <= oz < 32 ==> (oz >> 4u32) == oz / 16) by (bit_vector);
        if dx >= 0 && dz >= 0 && dx < 2 && dz < 2 {
            Ok(dx as usize + dz as usize * 2)
        } else {
            Err(ViewError::ChunkUnloaded)
        }
    }

}

// Load requests //

/// The requests made for the chunk `cx`/`cz` after `k` of the 3 by 3 chunks around it
/// were looked at: each chunk not loading yet is requested and becomes loading. Returns
/// the loading chunks and the requested ones.
pub open spec fn request_steps(loading: Set<u64>, cx: i32, cz: i32, k: nat) -> (Set<u64>, Seq<(i32, i32)>)
    decreases k,
{
    if k == 0 {
        (loading, Seq::empty())
    } else {
        let (l, reqs) = request_steps(loading, cx, cz, (k - 1) as nat);
        let p = around(cx, cz, k - 1);
        if l.contains(chunk_key_spec(p.0, p.1)) {
            (l, reqs)
        } else {
            (l.insert(chunk_key_spec(p.0, p.1)), reqs.push(p))
        }
    }
}

/// The 3 by 3 chunks around `cx`/`cz` are distinct.
pub proof fn lemma_around_distinct(cx: i32, cz: i32, j: int, k: int)
    requires
        around_ok(cx),
        around_ok(cz),
        0 <= j < 9,
        0 <= k < 9,
        j != k,
    ensures
        around(cx, cz, j) != around(cx, cz, k),
{
}

/// The requests for a chunk: the loading chunks become those that were loading and the
/// 3 by 3 chunks around it; each requested chunk is one of those 9 that was not
/// loading, requested once.
pub proof fn requests_are_new_and_once(loading: Set<u64>, cx: i32, cz: i32, k: nat)
    requires
        around_ok(cx),
        around_ok(cz),
        k <= 9,
    ensures
        ({
            let (l, reqs) = request_steps(loading, cx, cz, k);
            &&& l == loading.union(Set::new(|key: u64| exists|j: int| 0 <= j < k && key == #[trigger] chunk_key_spec(around(cx, cz, j).0, around(cx, cz, j).1)))
            &&& forall|i: int| 0 <= i < reqs.len() ==> !loading.contains(chunk_key_spec(#[trigger] reqs[i].0, reqs[i].1))
            &&& forall|i: int| 0 <= i < reqs.len() ==> exists|j: int| 0 <= j < k && #[trigger] reqs[i] == around(cx, cz, j)
            &&& reqs.no_duplicates()
            &&& forall|j: int| 0 <= j < k && !loading.contains(chunk_key_spec(around(cx, cz, j).0, around(cx, cz, j).1))
                ==> reqs.contains(#[trigger] around(cx, cz, j))
        }),
    decreases k,
{
    if k > 0 {
        requests_are_new_and_once(loading, cx, cz, (k - 1) as nat);
        let (l, reqs) = request_steps(loading, cx, cz, (k - 1) as nat);
        let p = around(cx, cz, k - 1);
        let key = chunk_key_spec(p.0, p.1);
        let (l2, reqs2) = request_steps(loading, cx, cz, k);
        let s_prev = Set::new(|key: u64| exists|j: int| 0 <= j < k - 1 && key == #[trigger] chunk_key_spec(around(cx, cz, j).0, around(cx, cz, j).1));
        let s_next = Set::new(|key: u64| exists|j: int| 0 <= j < k && key == #[trigger] chunk_key_spec(around(cx, cz, j).0, around(cx, cz, j).1));
        assert(s_next =~= s_prev.insert(key)) by {
            assert forall|q: u64| s_next.contains(q) implies s_prev.insert(key).contains(q) by {
                let j = choose|j: int| 0 <= j < k && q == #[trigger] chunk_key_spec(around(cx, cz, j).0, around(cx, cz, j).1);
                if j < k - 1 {
                    assert(s_prev.contains(q));
                }
            }
            assert forall|q: u64| s_prev.insert(key).contains(q) implies s_next.contains(q) by {
                if q != key {
                    let j = choose|j: int| 0 <= j < k - 1 && q == #[trigger] chunk_key_spec(around(cx, cz, j).0, around(cx, cz, j).1);
                    assert(0 <= j < k && q == chunk_key_spec(around(cx, cz, j).0, around(cx, cz, j).1));
                } else {
                    assert(0 <= k - 1 < k && q == chunk_key_spec(around(cx, cz, k - 1).0, around(cx, cz, k - 1).1));
                }
            }
        }
        if !l.contains(key) {
            assert forall|i: int| 0 <= i < reqs.len() implies #[trigger] reqs[i] != p by {
                let j = choose|j: int| 0 <= j < k - 1 && #[trigger] reqs[i] == around(cx, cz, j);
                lemma_around_distinct(cx, cz, j, k - 1);
            }
            assert(reqs2 == reqs.push(p));
            assert forall|i: int| 0 <= i < reqs2.len() implies exists|j: int| 0 <= j < k && #[trigger] reqs2[i] == around(cx, cz, j) by {
                if i < reqs.len() {
                    assert(reqs2[i] == reqs[i]);
                    let j = choose|j: int| 0 <= j < k - 1 && #[trigger] reqs[i] == around(cx, cz, j);
                    assert(0 <= j < k && reqs2[i] == around(cx, cz, j));
                } else {
                    assert(0 <= k - 1 < k && reqs2[i] == around(cx, cz, k - 1));
                }
            }
            assert forall|j: int| 0 <= j < k && !loading.contains(chunk_key_spec(around(cx, cz, j).0, around(cx, cz, j).1))
                implies reqs2.contains(#[trigger] around(cx, cz, j)) by {
                if j < k - 1 {
                    assert(reqs.contains(around(cx, cz, j)));
                    let i = choose|i: int| 0 <= i < reqs.len() && reqs[i] == around(cx, cz, j);
                    assert(reqs2[i] == around(cx, cz, j));
                } else {
                    assert(reqs2[reqs.len() as int] == around(cx, cz, j));
                }
            }
        } else {
            assert forall|j: int| 0 <= j < k && !loading.contains(chunk_key_spec(around(cx, cz, j).0, around(cx, cz, j).1))
                implies reqs2.contains(#[trigger] around(cx, cz, j)) by {
                if j == k - 1 {
                    let q = chunk_key_spec(around(cx, cz, j).0, around(cx, cz, j).1);
                    assert(s_prev.contains(q));
                    let j2 = choose|j2: int| 0 <= j2 < k - 1 && q == #[trigger] chunk_key_spec(around(cx, cz, j2).0, around(cx, cz, j2).1);
                    lemma_chunk_key_injective(around(cx, cz, j2).0, around(cx, cz, j2).1, around(cx, cz, j).0, around(cx, cz, j).1);
                    lemma_around_distinct(cx, cz, j2, j);
                }
            }
            assert forall|i: int| 0 <= i < reqs2.len() implies exists|j: int| 0 <= j < k && #[trigger] reqs2[i] == around(cx, cz, j) by {
                let j = choose|j: int| 0 <= j < k - 1 && #[trigger] reqs[i] == around(cx, cz, j);
                assert(0 <= j < k && reqs2[i] == around(cx, cz, j));
            }
        }
    }
}

/// The chunks being loaded by a level source, so that each chunk is requested once.
pub struct LoadTracker {
    pub loading_chunks: std::collections::HashSet<u64>,
}

impl LoadTracker {

    pub fn new() -> (r: Self)
        ensures
            r.loading_chunks@ == Set::<u64>::empty(),
    {
        LoadTracker { loading_chunks: std::collections::HashSet::new() }
    }

    /// Registers the load request of the chunk `cx`/`cz`, which also needs the chunks
    /// around it; returns the chunks to request, those that were not loading yet.
    pub fn request_chunk_load(&mut self, cx: i32, cz: i32) -> (r: Vec<(i32, i32)>)
        requires
            around_ok(cx),
            around_ok(cz),
        ensures
            (final(self).loading_chunks@, r@) == request_steps(old(self).loading_chunks@, cx, cz, 9),
    {
        let mut reqs: Vec<(i32, i32)> = Vec::new();
        let mut k: usize = 0;
        while k < 9
            invariant
                k <= 9,
                around_ok(cx),
                around_ok(cz),
                (self.loading_chunks@, reqs@) == request_steps(old(self).loading_chunks@, cx, cz, k as nat),
            decreases 9 - k,
        {
            let ncx = cx - 1 + (k / 3) as i32;
            let ncz = cz - 1 + (k % 3) as i32;
            assert((ncx, ncz) == around(cx, cz, k as int));
            let key = chunk_key(ncx, ncz);
            if !self.loading_chunks.contains(&key) {
                self.loading_chunks.insert(key);
                reqs.push((ncx, ncz));
            }
            k = k + 1;
        }
        reqs
    }

    /// The chunk `cx`/`cz` came back from the generator: it is no longer loading.
    pub fn chunk_polled(&mut self, cx: i32, cz: i32)
        ensures
            final(self).loading_chunks@ == old(self).loading_chunks@.remove(chunk_key_spec(cx, cz)),
    {
        let key = chunk_key(cx, cz);
        self.loading_chunks.remove(&key);
    }

}

// Feature scheduling //

/// What the feature worker does when a terrain chunk arrives.
#[derive(Clone, Copy, Debug, PartialEq, Eq, Structural)]
pub enum FeatureAction {
    /// Decorate the population chunk whose quad of chunks starts at the chunk
    /// `ocx`/`ocz`, at the block `x`/`z`.
    Decorate { ocx: i32, ocz: i32, x: i32, z: i32 },
    /// All the chunks around the chunk `cx`/`cz` are decorated: send it.
    Release { cx: i32, cz: i32 },
}

/// The order in which the four quads holding a chunk are decorated, by the parity of
/// the chunk's coordinates: offsets of the quads' last chunk from the chunk.
pub open spec fn decorate_order(x_odd: bool, z_odd: bool) -> Seq<(i32, i32)> {
    if !x_odd && !z_odd {
        seq![(1i32, 1i32), (1i32, 0i32), (0i32, 0i32), (0i32, 1i32)]
    } else if !x_odd && z_odd {
        seq![(1i32, 0i32), (1i32, 1i32), (0i32, 1i32), (0i32, 0i32)]
    } else if x_odd && !z_odd {
        seq![(0i32, 1i32), (0i32, 0i32), (1i32, 0i32), (1i32, 1i32)]
    } else {
        seq![(0i32, 0i32), (0i32, 1i32), (1i32, 1i32), (1i32, 0i32)]
    }
}

/// The four chunks of the quad starting at `ocx`/`ocz` are loaded.
pub open spec fn quad_loaded(loaded: Set<u64>, ocx: i32, ocz: i32) -> bool {
    &&& loaded.contains(chunk_key_spec(ocx, ocz))
    &&& loaded.contains(chunk_key_spec((ocx + 1) as i32, ocz))
    &&& loaded.contains(chunk_key_spec(ocx, (ocz + 1) as i32))
    &&& loaded.contains(chunk_key_spec((ocx + 1) as i32, (ocz + 1) as i32))
}

/// The decorations of the first `k` quads holding the chunk `ncx`/`ncz`, in the order
/// of its parity: each quad whose four chunks are loaded is decorated.
pub open spec fn decorations(loaded: Set<u64>, ncx: i32, ncz: i32, k: nat) -> Seq<FeatureAction>
    decreases k,
{
    if k == 0 {
        Seq::empty()
    } else {
        let prev = decorations(loaded, ncx, ncz, (k - 1) as nat);
        let (dx, dz) = decorate_order((ncx & 1) == 1, (ncz & 1) == 1)[k - 1];
        let ocx = (ncx + dx - 1) as i32;
        let ocz = (ncz + dz - 1) as i32;
        if quad_loaded(loaded, ocx, ocz) {
            prev.push(FeatureAction::Decorate { ocx, ocz, x: (ocx * 16 + 8) as i32, z: (ocz * 16 + 8) as i32 })
        } else {
            prev
        }
    }
}

/// The count of the chunk `n` once one more chunk around it arrived.
pub open spec fn next_count(counters: Map<u64, u8>, n: (i32, i32)) -> int {
    let key = chunk_key_spec(n.0, n.1);
    if counters.contains_key(key) { counters[key] + 1 } else { 1 }
}

/// One more chunk around the chunk `n` arrived: when the 9 chunks around it have
/// arrived, the quads holding it are decorated and it is released; else its count grows.
pub open spec fn neighbour_step(counters: Map<u64, u8>, loaded: Set<u64>, n: (i32, i32)) -> (Map<u64, u8>, Set<u64>, Seq<FeatureAction>) {
    let key = chunk_key_spec(n.0, n.1);
    let count = next_count(counters, n);
    if count == 9 {
        (counters.remove(key), loaded.remove(key), decorations(loaded, n.0, n.1, 4).push(FeatureAction::Release { cx: n.0, cz: n.1 }))
    } else {
        (counters.insert(key, count as u8), loaded, Seq::empty())
    }
}

/// The steps over the first `k` of the 3 by 3 chunks around the arrived chunk `cx`/`cz`,
/// X then Z.
pub open spec fn arrival_steps(counters: Map<u64, u8>, loaded: Set<u64>, cx: i32, cz: i32, k: nat) -> (Map<u64, u8>, Set<u64>, Seq<FeatureAction>)
    decreases k,
{
    if k == 0 {
        (counters, loaded, Seq::empty())
    } else {
        let (c, l, acts) = arrival_steps(counters, loaded, cx, cz, (k - 1) as nat);
        let (c2, l2, acts2) = neighbour_step(c, l, around(cx, cz, k - 1));
        (c2, l2, acts + acts2)
    }
}

/// The arrival of the terrain chunk `cx`/`cz`: it is loaded, then each chunk around it
/// counts it.
pub open spec fn arrival(counters: Map<u64, u8>, loaded: Set<u64>, cx: i32, cz: i32) -> (Map<u64, u8>, Set<u64>, Seq<FeatureAction>) {
    arrival_steps(counters, loaded.insert(chunk_key_spec(cx, cz)), cx, cz, 9)
}

/// A chunk that completes the 9 chunks around it must be loaded (it is released).
pub open spec fn releasable(counters: Map<u64, u8>, loaded: Set<u64>, cx: i32, cz: i32) -> bool {
    forall|k: int| 0 <= k < 9 ==> #[trigger] next_count(counters, around(cx, cz, k)) == 9
        ==> loaded.contains(chunk_key_spec(around(cx, cz, k).0, around(cx, cz, k).1)) || around(cx, cz, k) == (cx, cz)
}

/// The decisions of the feature worker: for each chunk, the number of chunks around it
/// (itself included) whose terrain arrived, and the terrain chunks not released yet.
pub struct FeatureScheduler {
    pub chunks_counters: std::collections::HashMap<u64, u8>,
    pub chunks: std::collections::HashSet<u64>,
}

impl FeatureScheduler {

    /// Counts are between 1 and 8: a chunk is released as its count reaches 9.
    pub open spec fn wf(&self) -> bool {
        forall|k: u64| #[trigger] self.chunks_counters@.contains_key(k) ==> 1 <= self.chunks_counters@[k] <= 8
    }

    pub fn new() -> (r: Self)
        ensures
            r.wf(),
            r.chunks_counters@ == Map::<u64, u8>::empty(),
            r.chunks@ == Set::<u64>::empty(),
    {
        FeatureScheduler { chunks_counters: std::collections::HashMap::new(), chunks: std::collections::HashSet::new() }
    }

    /// The terrain chunk `cx`/`cz` arrived; returns what to do, in order.
    pub fn on_terrain(&mut self, cx: i32, cz: i32) -> (r: Vec<FeatureAction>)
        requires
            old(self).wf(),
            chunk_coord_ok(cx),
            chunk_coord_ok(cz),
            releasable(old(self).chunks_counters@, old(self).chunks@, cx, cz),
        ensures
            final(self).wf(),
            (final(self).chunks_counters@, final(self).chunks@, r@)
                == arrival(old(self).chunks_counters@, old(self).chunks@, cx, cz),
    {
        let key = chunk_key(cx, cz);
        self.chunks.insert(key);
        let ghost c0 = self.chunks_counters@;
        let ghost l0 = self.chunks@;
        let mut actions: Vec<FeatureAction> = Vec::new();
        let mut k: usize = 0;
        while k < 9
            invariant
                k <= 9,
                chunk_coord_ok(cx),
                chunk_coord_ok(cz),
                self.wf(),
                releasable(old(self).chunks_counters@, old(self).chunks@, cx, cz),
                c0 == old(self).chunks_counters@,
                l0 == old(self).chunks@.insert(chunk_key_spec(cx, cz)),
                (self.chunks_counters@, self.chunks@, actions@) == arrival_steps(c0, l0, cx, cz, k as nat),
                forall|j: int| k <= j < 9 ==> #[trigger] next_count(self.chunks_counters@, around(cx, cz, j))
                    == next_count(c0, around(cx, cz, j)),
                forall|j: int| k <= j < 9 ==> self.chunks@.contains(chunk_key_spec(around(cx, cz, j).0, around(cx, cz, j).1))
                    == l0.contains(chunk_key_spec(around(cx, cz, j).0, around(cx, cz, j).1)),
            decreases 9 - k,
        {
            let ncx = cx - 1 + (k / 3) as i32;
            let ncz = cz - 1 + (k % 3) as i32;
            assert((ncx, ncz) == around(cx, cz, k as int));
            let ghost before = self.chunks_counters@;
            self.neighbour(ncx, ncz, &mut actions);
            proof {
                assert forall|j: int| k + 1 <= j < 9 implies #[trigger] next_count(self.chunks_counters@, around(cx, cz, j))
                    == next_count(c0, around(cx, cz, j)) by {
                    lemma_chunk_key_injective(ncx, ncz, around(cx, cz, j).0, around(cx, cz, j).1);
                    assert(around(cx, cz, j) != (ncx, ncz));
                    assert(next_count(before, around(cx, cz, j)) == next_count(c0, around(cx, cz, j)));
                }
                assert forall|j: int| k + 1 <= j < 9 implies self.chunks@.contains(chunk_key_spec(around(cx, cz, j).0, around(cx, cz, j).1))
                    == l0.contains(chunk_key_spec(around(cx, cz, j).0, around(cx, cz, j).1)) by {
                    lemma_chunk_key_injective(ncx, ncz, around(cx, cz, j).0, around(cx, cz, j).1);
                }
            }
            k = k + 1;
        }
        actions
    }

    /// One more chunk around the chunk `ncx`/`ncz` arrived, see `neighbour_step`.
    fn neighbour(&mut self, ncx: i32, ncz: i32, actions: &mut Vec<FeatureAction>)
        requires
            old(self).wf(),
            -0x07ff_fff8 <= ncx <= 0x07ff_fff8,
            -0x07ff_fff8 <= ncz <= 0x07ff_fff8,
            next_count(old(self).chunks_counters@, (ncx, ncz)) == 9 ==> old(self).chunks@.contains(chunk_key_spec(ncx, ncz)),
        ensures
            final(self).wf(),
            ({
                let (c, l, acts) = neighbour_step(old(self).chunks_counters@, old(self).chunks@, (ncx, ncz));
                &&& final(self).chunks_counters@ == c
                &&& final(self).chunks@ == l
                &&& final(actions)@ == old(actions)@ + acts
            }),
    {
        let key = chunk_key(ncx, ncz);
        let count: u8 = match self.chunks_counters.get(&key) {
            Some(c) => *c + 1,
            None => 1,
        };
        if count == 9 {
            let decos = Self::quad_decorations(&self.chunks, ncx, ncz);
            self.chunks_counters.remove(&key);
            self.chunks.remove(&key);
            let mut decos = decos;
            decos.push(FeatureAction::Release { cx: ncx, cz: ncz });
            actions.append(&mut decos);
        } else {
            self.chunks_counters.insert(key, count);
        }
    }

    /// The decorations of the quads holding the chunk `ncx`/`ncz`, see `decorations`.
    fn quad_decorations(loaded: &std::collections::HashSet<u64>, ncx: i32, ncz: i32) -> (r: Vec<FeatureAction>)
        requires
            -0x07ff_fff8 <= ncx <= 0x07ff_fff8,
            -0x07ff_fff8 <= ncz <= 0x07ff_fff8,
        ensures
            r@ == decorations(loaded@, ncx, ncz, 4),
    {
        let x_odd = (ncx & 1) == 1;
        let z_odd = (ncz & 1) == 1;
        let order: [(i32, i32); 4] = if !x_odd && !z_odd {
            [(1, 1), (1, 0), (0, 0), (0, 1)]
        } else if !x_odd && z_odd {
            [(1, 0), (1, 1), (0, 1), (0, 0)]
        } else if x_odd && !z_odd {
            [(0, 1), (0, 0), (1, 0), (1, 1)]
        } else {
            [(0, 0), (0, 1), (1, 1), (1, 0)]
        };
        proof {
            assert(order@ == decorate_order(x_odd, z_odd));
        }
        let mut r: Vec<FeatureAction> = Vec::new();
        let mut k: usize = 0;
        while k < 4
            invariant
                k <= 4,
                -0x07ff_fff8 <= ncx <= 0x07ff_fff8,
                -0x07ff_fff8 <= ncz <= 0x07ff_fff8,
                order@ == decorate_order((ncx & 1) == 1, (ncz & 1) == 1),
                r@ == decorations(loaded@, ncx, ncz, k as nat),
            decreases 4 - k,
        {
            let (dx, dz) = order[k];
            let ocx = ncx + dx - 1;
            let ocz = ncz + dz - 1;
            let all = loaded.contains(&chunk_key(ocx, ocz))
                && loaded.contains(&chunk_key(ocx + 1, ocz))
                && loaded.contains(&chunk_key(ocx, ocz + 1))
                && loaded.contains(&chunk_key(ocx + 1, ocz + 1));
            if all {
                assert((ocx << 4u32) + 8 == ocx * 16 + 8) by (bit_vector)
                    requires -0x07ff_fff9 <= ocx <= 0x07ff_fff9;
                assert((ocz << 4u32) + 8 == ocz * 16 + 8) by (bit_vector)
                    requires -0x07ff_fff9 <= ocz <= 0x07ff_fff9;
                r.push(FeatureAction::Decorate { ocx, ocz, x: (ocx << 4u32) + 8, z: (ocz << 4u32) + 8 });
            }
            k = k + 1;
        }
        r
    }

    /// Whether the arrival of the chunk `cx`/`cz` can be handled: each chunk that it
    /// completes is loaded (or is itself).
    pub fn can_arrive(&self, cx: i32, cz: i32) -> (r: bool)
        requires
            self.wf(),
            chunk_coord_ok(cx),
            chunk_coord_ok(cz),
        ensures
            r == releasable(self.chunks_counters@, self.chunks@, cx, cz),
    {
        let mut k: usize = 0;
        while k < 9
            invariant
                k <= 9,
                self.wf(),
                chunk_coord_ok(cx),
                chunk_coord_ok(cz),
                forall|j: int| 0 <= j < k ==> #[trigger] next_count(self.chunks_counters@, around(cx, cz, j)) == 9
                    ==> self.chunks@.contains(chunk_key_spec(around(cx, cz, j).0, around(cx, cz, j).1)) || around(cx, cz, j) == (cx, cz),
            decreases 9 - k,
        {
            let ncx = cx - 1 + (k / 3) as i32;
            let ncz = cz - 1 + (k % 3) as i32;
            assert((ncx, ncz) == around(cx, cz, k as int));
            let key = chunk_key(ncx, ncz);
            let completes = match self.chunks_counters.get(&key) {
                Some(c) => *c == 8,
                None => false,
            };
            if completes && !self.chunks.contains(&key) && !(ncx == cx && ncz == cz) {
                assert(next_count(self.chunks_counters@, around(cx, cz, k as int)) == 9);
                return false;
            }
            k = k + 1;
        }
        true
    }

}

// What the scheduling keeps //

/// A chunk near the chunks whose coordinates are accepted: the chunks around them.
pub open spec fn near_ok(n: (i32, i32)) -> bool {
    -0x07ff_fff8 <= n.0 <= 0x07ff_fff8 && -0x07ff_fff8 <= n.1 <= 0x07ff_fff8
}

/// 1 when the `k`-th chunk around `n` arrived, else 0.
pub open spec fn arrived_at(arrived: Set<(i32, i32)>, n: (i32, i32), k: int) -> int {
    if arrived.contains(around(n.0, n.1, k)) { 1 } else { 0 }
}

/// The number of the 3 by 3 chunks around `n` (itself included) that arrived.
pub open spec fn arrived_around(arrived: Set<(i32, i32)>, n: (i32, i32)) -> int {
    arrived_at(arrived, n, 0) + arrived_at(arrived, n, 1) + arrived_at(arrived, n, 2)
        + arrived_at(arrived, n, 3) + arrived_at(arrived, n, 4) + arrived_at(arrived, n, 5)
        + arrived_at(arrived, n, 6) + arrived_at(arrived, n, 7) + arrived_at(arrived, n, 8)
}

/// `c` is one of the 3 by 3 chunks around `n`.
pub open spec fn adjacent(c: (i32, i32), n: (i32, i32)) -> bool {
    -1 <= c.0 - n.0 <= 1 && -1 <= c.1 - n.1 <= 1
}

/// The counters and the loaded chunks of a scheduler after the chunks of `arrived`
/// arrived: a chunk has a counter when some but not all of the 9 chunks around it
/// arrived, and then counts them; a chunk is loaded when it arrived and is not released,
/// that is not all of the 9 chunks around it arrived.
pub open spec fn tracks(counters: Map<u64, u8>, loaded: Set<u64>, arrived: Set<(i32, i32)>) -> bool {
    &&& forall|n: (i32, i32)| #[trigger] arrived.contains(n) ==> chunk_coord_ok(n.0) && chunk_coord_ok(n.1)
    &&& forall|n: (i32, i32)| near_ok(n) ==> (#[trigger] counters.contains_key(chunk_key_spec(n.0, n.1))
        <==> 0 < arrived_around(arrived, n) < 9)
    &&& forall|n: (i32, i32)| near_ok(n) && #[trigger] counters.contains_key(chunk_key_spec(n.0, n.1))
        ==> counters[chunk_key_spec(n.0, n.1)] == arrived_around(arrived, n)
    &&& forall|n: (i32, i32)| near_ok(n) ==> (#[trigger] loaded.contains(chunk_key_spec(n.0, n.1))
        <==> arrived.contains(n) && arrived_around(arrived, n) < 9)
}

/// The arrival of a new chunk `c` adds one to the count of the chunks around it.
proof fn lemma_arrived_around_insert(arrived: Set<(i32, i32)>, c: (i32, i32), n: (i32, i32))
    requires
        !arrived.contains(c),
        chunk_coord_ok(c.0),
        chunk_coord_ok(c.1),
        near_ok(n),
    ensures
        arrived_around(arrived.insert(c), n) == arrived_around(arrived, n) + (if adjacent(c, n) { 1int } else { 0int }),
        adjacent(c, n) ==> arrived_around(arrived, n) <= 8,
        adjacent(c, n) ==> around(n.0, n.1, (c.0 - n.0 + 1) * 3 + (c.1 - n.1 + 1)) == c,
{
    let a2 = arrived.insert(c);
    assert forall|k: int| 0 <= k < 9 implies #[trigger] arrived_at(a2, n, k)
        == arrived_at(arrived, n, k) + (if around(n.0, n.1, k) == c { 1int } else { 0int }) by {
    }
}

/// With counters tracking the arrived chunks, the arrival of a new chunk can be
/// handled: each chunk it completes is loaded or is itself.
pub proof fn tracked_arrival_is_releasable(counters: Map<u64, u8>, loaded: Set<u64>, arrived: Set<(i32, i32)>, cx: i32, cz: i32)
    requires
        tracks(counters, loaded, arrived),
        !arrived.contains((cx, cz)),
        chunk_coord_ok(cx),
        chunk_coord_ok(cz),
    ensures
        releasable(counters, loaded, cx, cz),
{
    assert forall|k: int| 0 <= k < 9 && #[trigger] next_count(counters, around(cx, cz, k)) == 9
        implies loaded.contains(chunk_key_spec(around(cx, cz, k).0, around(cx, cz, k).1)) || around(cx, cz, k) == (cx, cz) by {
        let n = around(cx, cz, k);
        assert(near_ok(n));
        lemma_arrived_around_insert(arrived, (cx, cz), n);
        assert(counters.contains_key(chunk_key_spec(n.0, n.1)));
        if n != (cx, cz) {
            assert(arrived_at(arrived, n, 4) == 1);
        }
    }
}

/// After `k` steps of an arrival, the chunks whose step is done count the new chunk,
/// the others do not yet.
pub open spec fn tracks_partly(counters: Map<u64, u8>, loaded: Set<u64>, arrived: Set<(i32, i32)>, c: (i32, i32), k: int) -> bool {
    let a2 = arrived.insert(c);
    &&& forall|n: (i32, i32)| near_ok(n) ==> (#[trigger] counters.contains_key(chunk_key_spec(n.0, n.1))
        <==> 0 < (if adjacent(c, n) && (n.0 - c.0 + 1) * 3 + (n.1 - c.1 + 1) < k { arrived_around(a2, n) } else { arrived_around(arrived, n) }) < 9)
    &&& forall|n: (i32, i32)| near_ok(n) && #[trigger] counters.contains_key(chunk_key_spec(n.0, n.1))
        ==> counters[chunk_key_spec(n.0, n.1)] == (if adjacent(c, n) && (n.0 - c.0 + 1) * 3 + (n.1 - c.1 + 1) < k { arrived_around(a2, n) } else { arrived_around(arrived, n) })
    &&& forall|n: (i32, i32)| near_ok(n) ==> (#[trigger] loaded.contains(chunk_key_spec(n.0, n.1))
        <==> a2.contains(n) && (if adjacent(c, n) && (n.0 - c.0 + 1) * 3 + (n.1 - c.1 + 1) < k { arrived_around(a2, n) } else { arrived_around(arrived, n) }) < 9)
}

proof fn lemma_arrival_steps_track(counters: Map<u64, u8>, loaded: Set<u64>, arrived: Set<(i32, i32)>, cx: i32, cz: i32, k: nat)
    requires
        tracks(counters, loaded, arrived),
        !arrived.contains((cx, cz)),
        chunk_coord_ok(cx),
        chunk_coord_ok(cz),
        k <= 9,
    ensures
        ({
            let (c2, l2, acts) = arrival_steps(counters, loaded.insert(chunk_key_spec(cx, cz)), cx, cz, k);
            tracks_partly(c2, l2, arrived, (cx, cz), k as int)
        }),
    decreases k,
{
    let c = (cx, cz);
    let a2 = arrived.insert(c);
    let l0 = loaded.insert(chunk_key_spec(cx, cz));
    if k == 0 {
        assert forall|n: (i32, i32)| near_ok(n) implies (#[trigger] l0.contains(chunk_key_spec(n.0, n.1))
            <==> a2.contains(n) && arrived_around(arrived, n) < 9) by {
            lemma_chunk_key_injective(n.0, n.1, cx, cz);
            lemma_arrived_around_insert(arrived, c, n);
        }
    } else {
        lemma_arrival_steps_track(counters, loaded, arrived, cx, cz, (k - 1) as nat);
        let (ck, lk, acts) = arrival_steps(counters, l0, cx, cz, (k - 1) as nat);
        let nk = around(cx, cz, k - 1);
        let key = chunk_key_spec(nk.0, nk.1);
        assert(near_ok(nk));
        assert(adjacent(c, nk) && (nk.0 - c.0 + 1) * 3 + (nk.1 - c.1 + 1) == k - 1);
        lemma_arrived_around_insert(arrived, c, nk);
        assert(next_count(ck, nk) == arrived_around(a2, nk));
        let (c2, l2, acts2) = neighbour_step(ck, lk, nk);
        assert forall|n: (i32, i32)| near_ok(n) && n != nk implies
            (#[trigger] c2.contains_key(chunk_key_spec(n.0, n.1)) == ck.contains_key(chunk_key_spec(n.0, n.1)))
            && (c2.contains_key(chunk_key_spec(n.0, n.1)) ==> c2[chunk_key_spec(n.0, n.1)] == ck[chunk_key_spec(n.0, n.1)]) by {
            lemma_chunk_key_injective(n.0, n.1, nk.0, nk.1);
        }
        assert forall|n: (i32, i32)| near_ok(n) && n != nk implies
            #[trigger] l2.contains(chunk_key_spec(n.0, n.1)) == lk.contains(chunk_key_spec(n.0, n.1)) by {
            lemma_chunk_key_injective(n.0, n.1, nk.0, nk.1);
        }
        assert forall|n: (i32, i32)| near_ok(n) implies (#[trigger] c2.contains_key(chunk_key_spec(n.0, n.1))
            <==> 0 < (if adjacent(c, n) && (n.0 - c.0 + 1) * 3 + (n.1 - c.1 + 1) < k { arrived_around(a2, n) } else { arrived_around(arrived, n) }) < 9) by {
            lemma_arrived_around_insert(arrived, c, n);
            if n != nk {
                lemma_chunk_key_injective(n.0, n.1, nk.0, nk.1);
            }
        }
        assert forall|n: (i32, i32)| near_ok(n) && #[trigger] c2.contains_key(chunk_key_spec(n.0, n.1))
            implies c2[chunk_key_spec(n.0, n.1)] == (if adjacent(c, n) && (n.0 - c.0 + 1) * 3 + (n.1 - c.1 + 1) < k { arrived_around(a2, n) } else { arrived_around(arrived, n) }) by {
            lemma_arrived_around_insert(arrived, c, n);
            if n != nk {
                lemma_chunk_key_injective(n.0, n.1, nk.0, nk.1);
            }
        }
        assert forall|n: (i32, i32)| near_ok(n) implies (#[trigger] l2.contains(chunk_key_spec(n.0, n.1))
            <==> a2.contains(n) && (if adjacent(c, n) && (n.0 - c.0 + 1) * 3 + (n.1 - c.1 + 1) < k { arrived_around(a2, n) } else { arrived_around(arrived, n) }) < 9) by {
            lemma_arrived_around_insert(arrived, c, n);
            if n != nk {
                lemma_chunk_key_injective(n.0, n.1, nk.0, nk.1);
            }
        }
    }
}

/// The arrival of a new chunk keeps the counters and the loaded chunks tracking the
/// arrived chunks: a chunk is released exactly when the last of the 9 chunks around it
/// arrives, and never counted again.
pub proof fn arrival_keeps_tracking(counters: Map<u64, u8>, loaded: Set<u64>, arrived: Set<(i32, i32)>, cx: i32, cz: i32)
    requires
        tracks(counters, loaded, arrived),
        !arrived.contains((cx, cz)),
        chunk_coord_ok(cx),
        chunk_coord_ok(cz),
    ensures
        ({
            let (c2, l2, acts) = arrival(counters, loaded, cx, cz);
            tracks(c2, l2, arrived.insert((cx, cz)))
        }),
{
    lemma_arrival_steps_track(counters, loaded, arrived, cx, cz, 9);
    let c = (cx, cz);
    let a2 = arrived.insert(c);
    let (c2, l2, acts) = arrival(counters, loaded, cx, cz);
    assert forall|n: (i32, i32)| near_ok(n) implies (#[trigger] c2.contains_key(chunk_key_spec(n.0, n.1))
        <==> 0 < arrived_around(a2, n) < 9) by {
        lemma_arrived_around_insert(arrived, c, n);
    }
    assert forall|n: (i32, i32)| near_ok(n) && #[trigger] c2.contains_key(chunk_key_spec(n.0, n.1))
        implies c2[chunk_key_spec(n.0, n.1)] == arrived_around(a2, n) by {
        lemma_arrived_around_insert(arrived, c, n);
    }
    assert forall|n: (i32, i32)| near_ok(n) implies (#[trigger] l2.contains(chunk_key_spec(n.0, n.1))
        <==> a2.contains(n) && arrived_around(a2, n) < 9) by {
        lemma_arrived_around_insert(arrived, c, n);
    }
}

/// An empty scheduler tracks that no chunk arrived.
pub proof fn empty_scheduler_tracks_nothing()
    ensures
        tracks(Map::<u64, u8>::empty(), Set::<u64>::empty(), Set::<(i32, i32)>::empty()),
{
}

// Each quad is decorated once //

/// All the 3 by 3 chunks around `n` (itself included) arrived.
pub open spec fn complete(arrived: Set<(i32, i32)>, n: (i32, i32)) -> bool {
    forall|k: int| 0 <= k < 9 ==> #[trigger] arrived.contains(around(n.0, n.1, k))
}

/// Some chunk of the quad starting at `ocx`/`ocz` has all the chunks around it arrived.
pub open spec fn quad_complete(arrived: Set<(i32, i32)>, ocx: i32, ocz: i32) -> bool {
    ||| complete(arrived, (ocx, ocz))
    ||| complete(arrived, ((ocx + 1) as i32, ocz))
    ||| complete(arrived, (ocx, (ocz + 1) as i32))
    ||| complete(arrived, ((ocx + 1) as i32, (ocz + 1) as i32))
}

/// `a` and `b` decorate the same quad.
pub open spec fn same_quad(a: FeatureAction, b: FeatureAction) -> bool {
    &&& a matches FeatureAction::Decorate { ocx: ax, ocz: az, .. }
    &&& b matches FeatureAction::Decorate { ocx: bx, ocz: bz, .. }
    &&& ax == bx && az == bz
}

/// The actions `acts` taken between the arrived chunks `before` and `after`, with the
/// chunks `loaded` left: each decoration is, at the middle of its first chunk, of a quad
/// that no complete chunk held before and a complete chunk holds after, and that is no
/// longer loaded; no two decorate the same quad; each release is of a chunk complete after
/// and not before, and no two release the same chunk.
pub open spec fn decorated_once(acts: Seq<FeatureAction>, before: Set<(i32, i32)>, after: Set<(i32, i32)>, loaded: Set<u64>) -> bool {
    &&& forall|i: int| 0 <= i < acts.len() ==> (#[trigger] acts[i] matches FeatureAction::Decorate { ocx, ocz, x, z }
        ==> !quad_complete(before, ocx, ocz) && quad_complete(after, ocx, ocz) && !quad_loaded(loaded, ocx, ocz)
            && x == ocx * 16 + 8 && z == ocz * 16 + 8)
    &&& forall|i: int, j: int| 0 <= i < j < acts.len() ==> !same_quad(#[trigger] acts[i], #[trigger] acts[j])
    &&& forall|i: int| 0 <= i < acts.len() ==> (#[trigger] acts[i] matches FeatureAction::Release { cx, cz }
        ==> !complete(before, (cx, cz)) && complete(after, (cx, cz)))
    &&& forall|i: int, j: int| 0 <= i < j < acts.len() ==> !same_release(#[trigger] acts[i], #[trigger] acts[j])
}

/// Each release of `acts` is of one of the first `k` chunks around `cx`/`cz`.
pub open spec fn releases_before(acts: Seq<FeatureAction>, cx: i32, cz: i32, k: int) -> bool {
    forall|i: int| 0 <= i < acts.len() ==> (#[trigger] acts[i] matches FeatureAction::Release { cx: rx, cz: rz }
        ==> -1 <= rx - cx <= 1 && -1 <= rz - cz <= 1 && (rx - cx + 1) * 3 + (rz - cz + 1) < k)
}

proof fn lemma_decorate_order(x_odd: bool, z_odd: bool)
    ensures
        decorate_order(x_odd, z_odd).len() == 4,
        forall|i: int, j: int| 0 <= i < j < 4 ==> decorate_order(x_odd, z_odd)[i] != decorate_order(x_odd, z_odd)[j],
        forall|i: int| 0 <= i < 4 ==> 0 <= #[trigger] decorate_order(x_odd, z_odd)[i].0 <= 1
            && 0 <= decorate_order(x_odd, z_odd)[i].1 <= 1,
{
}

/// The decorations of the quads holding a chunk: each decorates a loaded quad holding it,
/// none the quad of the order's entries not reached yet, no two the same quad.
proof fn lemma_decorations(loaded: Set<u64>, ncx: i32, ncz: i32, k: nat)
    requires
        near_ok((ncx, ncz)),
        k <= 4,
    ensures
        ({
            let d = decorations(loaded, ncx, ncz, k);
            let o = decorate_order((ncx & 1) == 1, (ncz & 1) == 1);
            &&& forall|i: int| 0 <= i < d.len() ==> (#[trigger] d[i] matches FeatureAction::Decorate { ocx, ocz, x, z }
                && quad_loaded(loaded, ocx, ocz) && ncx - 1 <= ocx <= ncx && ncz - 1 <= ocz <= ncz
                && x == ocx * 16 + 8 && z == ocz * 16 + 8
                && forall|j: int| k <= j < 4 ==> (o[j].0 != ocx - ncx + 1 || o[j].1 != ocz - ncz + 1))
            &&& forall|i: int, j: int| 0 <= i < j < d.len() ==> !same_quad(#[trigger] d[i], #[trigger] d[j])
        }),
    decreases k,
{
    let o = decorate_order((ncx & 1) == 1, (ncz & 1) == 1);
    lemma_decorate_order((ncx & 1) == 1, (ncz & 1) == 1);
    if k > 0 {
        lemma_decorations(loaded, ncx, ncz, (k - 1) as nat);
        let prev = decorations(loaded, ncx, ncz, (k - 1) as nat);
        let d = decorations(loaded, ncx, ncz, k);
        let (dx, dz) = o[k - 1];
        assert(0 <= o[k - 1].0 <= 1 && 0 <= o[k - 1].1 <= 1);
        let ocx = (ncx + dx - 1) as i32;
        let ocz = (ncz + dz - 1) as i32;
        if quad_loaded(loaded, ocx, ocz) {
            assert(d == prev.push(FeatureAction::Decorate { ocx, ocz, x: (ocx * 16 + 8) as i32, z: (ocz * 16 + 8) as i32 }));
            assert forall|i: int| 0 <= i < d.len() implies (#[trigger] d[i] matches FeatureAction::Decorate { ocx, ocz, x, z }
                && quad_loaded(loaded, ocx, ocz) && ncx - 1 <= ocx <= ncx && ncz - 1 <= ocz <= ncz
                && x == ocx * 16 + 8 && z == ocz * 16 + 8
                && forall|j: int| k <= j < 4 ==> (o[j].0 != ocx - ncx + 1 || o[j].1 != ocz - ncz + 1)) by {
                if i < prev.len() {
                    assert(d[i] == prev[i]);
                } else {
                    assert forall|j: int| k <= j < 4 implies (o[j].0 != ocx - ncx + 1 || o[j].1 != ocz - ncz + 1) by {
                        assert(o[k - 1] != o[j]);
                    }
                }
            }
            assert forall|i: int, j: int| 0 <= i < j < d.len() implies !same_quad(#[trigger] d[i], #[trigger] d[j]) by {
                if j < prev.len() {
                    assert(d[i] == prev[i] && d[j] == prev[j]);
                } else {
                    assert(d[i] == prev[i]);
                    assert(d[j] == FeatureAction::Decorate { ocx, ocz, x: (ocx * 16 + 8) as i32, z: (ocz * 16 + 8) as i32 });
                }
            }
        }
    }
}

/// The 9 chunks around `n` arrived exactly when its count is 9.
proof fn lemma_complete_count(arrived: Set<(i32, i32)>, n: (i32, i32))
    ensures
        complete(arrived, n) <==> arrived_around(arrived, n) == 9,
        arrived_around(arrived, n) <= 9,
{
    if arrived_around(arrived, n) == 9 {
        assert forall|k: int| 0 <= k < 9 implies #[trigger] arrived.contains(around(n.0, n.1, k)) by {
            if k == 0 { assert(arrived_at(arrived, n, 0) == 1); }
            else if k == 1 { assert(arrived_at(arrived, n, 1) == 1); }
            else if k == 2 { assert(arrived_at(arrived, n, 2) == 1); }
            else if k == 3 { assert(arrived_at(arrived, n, 3) == 1); }
            else if k == 4 { assert(arrived_at(arrived, n, 4) == 1); }
            else if k == 5 { assert(arrived_at(arrived, n, 5) == 1); }
            else if k == 6 { assert(arrived_at(arrived, n, 6) == 1); }
            else if k == 7 { assert(arrived_at(arrived, n, 7) == 1); }
            else { assert(arrived_at(arrived, n, 8) == 1); }
        }
    }
}

/// After `k` steps of an arrival, the decorations made so far are each of a quad
/// decorated for the first time, and of different quads.
proof fn lemma_arrival_steps_decorate(counters: Map<u64, u8>, loaded: Set<u64>, arrived: Set<(i32, i32)>, cx: i32, cz: i32, k: nat)
    requires
        tracks(counters, loaded, arrived),
        !arrived.contains((cx, cz)),
        chunk_coord_ok(cx),
        chunk_coord_ok(cz),
        k <= 9,
    ensures
        ({
            let (ck, lk, acts) = arrival_steps(counters, loaded.insert(chunk_key_spec(cx, cz)), cx, cz, k);
            &&& decorated_once(acts, arrived, arrived.insert((cx, cz)), lk)
            &&& releases_before(acts, cx, cz, k as int)
        }),
    decreases k,
{
    let c = (cx, cz);
    let a2 = arrived.insert(c);
    let l0 = loaded.insert(chunk_key_spec(cx, cz));
    if k > 0 {
        lemma_arrival_steps_decorate(counters, loaded, arrived, cx, cz, (k - 1) as nat);
        lemma_arrival_steps_track(counters, loaded, arrived, cx, cz, (k - 1) as nat);
        let (ck, lk, acts) = arrival_steps(counters, l0, cx, cz, (k - 1) as nat);
        let nk = around(cx, cz, k - 1);
        assert(near_ok(nk));
        assert(adjacent(c, nk) && (nk.0 - c.0 + 1) * 3 + (nk.1 - c.1 + 1) == k - 1);
        lemma_arrived_around_insert(arrived, c, nk);
        assert(next_count(ck, nk) == arrived_around(a2, nk));
        let (c2, l2, acts2) = neighbour_step(ck, lk, nk);
        let all = acts + acts2;
        if next_count(ck, nk) == 9 {
            lemma_complete_count(a2, nk);
            let d = decorations(lk, nk.0, nk.1, 4);
            lemma_decorations(lk, nk.0, nk.1, 4);
            assert(acts2 == d.push(FeatureAction::Release { cx: nk.0, cz: nk.1 }));
            assert(l2 == lk.remove(chunk_key_spec(nk.0, nk.1)));
            // A loaded quad holds no chunk complete before the arrival.
            assert forall|m: (i32, i32)| adjacent(m, nk) && #[trigger] lk.contains(chunk_key_spec(m.0, m.1))
                implies !complete(arrived, m) by {
                assert(near_ok(m));
                lemma_arrived_around_insert(arrived, c, m);
                lemma_complete_count(arrived, m);
            }
            assert forall|i: int| 0 <= i < all.len() implies (#[trigger] all[i] matches FeatureAction::Decorate { ocx, ocz, x, z }
                ==> !quad_complete(arrived, ocx, ocz) && quad_complete(a2, ocx, ocz) && !quad_loaded(l2, ocx, ocz)
                    && x == ocx * 16 + 8 && z == ocz * 16 + 8) by {
                if i < acts.len() {
                    assert(all[i] == acts[i]);
                } else if i < acts.len() + d.len() {
                    assert(all[i] == d[i - acts.len()]);
                    if let FeatureAction::Decorate { ocx, ocz, x, z } = d[i - acts.len()] {
                        assert(adjacent((ocx, ocz), nk));
                        assert(adjacent(((ocx + 1) as i32, ocz), nk));
                        assert(adjacent((ocx, (ocz + 1) as i32), nk));
                        assert(adjacent(((ocx + 1) as i32, (ocz + 1) as i32), nk));
                        lemma_chunk_key_injective(ocx, ocz, nk.0, nk.1);
                        lemma_chunk_key_injective((ocx + 1) as i32, ocz, nk.0, nk.1);
                        lemma_chunk_key_injective(ocx, (ocz + 1) as i32, nk.0, nk.1);
                        lemma_chunk_key_injective((ocx + 1) as i32, (ocz + 1) as i32, nk.0, nk.1);
                    }
                } else {
                    assert(all[i] == FeatureAction::Release { cx: nk.0, cz: nk.1 });
                }
            }
            lemma_complete_count(arrived, nk);
            assert forall|i: int| 0 <= i < all.len() implies (#[trigger] all[i] matches FeatureAction::Release { cx, cz }
                ==> !complete(arrived, (cx, cz)) && complete(a2, (cx, cz))) by {
                if i < acts.len() {
                    assert(all[i] == acts[i]);
                } else if i < acts.len() + d.len() {
                    assert(all[i] == d[i - acts.len()]);
                } else {
                    assert(all[i] == FeatureAction::Release { cx: nk.0, cz: nk.1 });
                }
            }
            assert forall|i: int, j: int| 0 <= i < j < all.len() implies !same_quad(#[trigger] all[i], #[trigger] all[j]) by {
                if j < acts.len() {
                    assert(all[i] == acts[i] && all[j] == acts[j]);
                } else if i < acts.len() && j < acts.len() + d.len() {
                    assert(all[i] == acts[i] && all[j] == d[j - acts.len()]);
                } else if j < acts.len() + d.len() {
                    assert(all[i] == d[i - acts.len()] && all[j] == d[j - acts.len()]);
                } else {
                    assert(all[j] == FeatureAction::Release { cx: nk.0, cz: nk.1 });
                }
            }
            assert forall|i: int| 0 <= i < all.len() implies (#[trigger] all[i] matches FeatureAction::Release { cx: rx, cz: rz }
                ==> -1 <= rx - cx <= 1 && -1 <= rz - cz <= 1 && (rx - cx + 1) * 3 + (rz - cz + 1) < k) by {
                if i < acts.len() {
                    assert(all[i] == acts[i]);
                } else if i < acts.len() + d.len() {
                    assert(all[i] == d[i - acts.len()]);
                } else {
                    assert(all[i] == FeatureAction::Release { cx: nk.0, cz: nk.1 });
                }
            }
            assert forall|i: int, j: int| 0 <= i < j < all.len() implies !same_release(#[trigger] all[i], #[trigger] all[j]) by {
                if j < acts.len() {
                    assert(all[i] == acts[i] && all[j] == acts[j]);
                } else if j < acts.len() + d.len() {
                    assert(all[j] == d[j - acts.len()]);
                } else if i < acts.len() {
                    assert(all[i] == acts[i]);
                    assert(all[j] == FeatureAction::Release { cx: nk.0, cz: nk.1 });
                } else {
                    assert(all[i] == d[i - acts.len()]);
                }
            }
        } else {
            assert(all == acts);
        }
    }
}

/// A quad is decorated, and a chunk released, at most once over a run of arrivals: an
/// arrival decorates, each once and at the middle of its first chunk, only quads of which
/// no chunk had all the chunks around it arrived before it and some chunk has after it,
/// and releases only chunks whose surrounding chunks all arrived with it; and such chunks
/// stay so as more chunks arrive (`completion_stays`).
pub proof fn arrival_decorates_each_quad_once(counters: Map<u64, u8>, loaded: Set<u64>, arrived: Set<(i32, i32)>, cx: i32, cz: i32)
    requires
        tracks(counters, loaded, arrived),
        !arrived.contains((cx, cz)),
        chunk_coord_ok(cx),
        chunk_coord_ok(cz),
    ensures
        ({
            let (c2, l2, acts) = arrival(counters, loaded, cx, cz);
            decorated_once(acts, arrived, arrived.insert((cx, cz)), l2)
        }),
{
    lemma_arrival_steps_decorate(counters, loaded, arrived, cx, cz, 9);
}

/// A chunk whose surrounding chunks all arrived stays so as more arrive, and so does a
/// quad holding one.
pub proof fn completion_stays(arrived: Set<(i32, i32)>, more: Set<(i32, i32)>, n: (i32, i32), ocx: i32, ocz: i32)
    requires
        arrived.subset_of(more),
    ensures
        complete(arrived, n) ==> complete(more, n),
        quad_complete(arrived, ocx, ocz) ==> quad_complete(more, ocx, ocz),
{
}

// A whole run of the scheduler //

/// The scheduler's counters, loaded chunks and actions, in order, after the terrain
/// chunks `arrivals` arrived one after the other at an empty scheduler.
pub open spec fn run_arrivals(arrivals: Seq<(i32, i32)>) -> (Map<u64, u8>, Set<u64>, Seq<FeatureAction>)
    decreases arrivals.len(),
{
    if arrivals.len() == 0 {
        (Map::empty(), Set::empty(), Seq::empty())
    } else {
        let (c, l, acts) = run_arrivals(arrivals.drop_last());
        let (c2, l2, acts2) = arrival(c, l, arrivals.last().0, arrivals.last().1);
        (c2, l2, acts + acts2)
    }
}

/// `a` and `b` release the same chunk.
pub open spec fn same_release(a: FeatureAction, b: FeatureAction) -> bool {
    &&& a matches FeatureAction::Release { cx: ax, cz: az }
    &&& b matches FeatureAction::Release { cx: bx, cz: bz }
    &&& ax == bx && az == bz
}

/// The chunks arrive at most once each, at coordinates the scheduler accepts.
pub open spec fn arrivals_ok(arrivals: Seq<(i32, i32)>) -> bool {
    &&& arrivals.no_duplicates()
    &&& forall|i: int| 0 <= i < arrivals.len() ==> chunk_coord_ok(#[trigger] arrivals[i].0) && chunk_coord_ok(arrivals[i].1)
}

/// Over a whole run in which each terrain chunk arrives at most once: the scheduler tracks
/// the arrived chunks (so each arrival can be handled), no two of all its actions decorate
/// the same quad or release the same chunk, each decoration is at the middle of its quad's
/// first chunk, of a quad holding a chunk whose 9 surrounding chunks arrived, and each
/// release is of a chunk whose 9 surrounding chunks arrived.
pub proof fn run_decorates_each_quad_once(arrivals: Seq<(i32, i32)>)
    requires
        arrivals_ok(arrivals),
    ensures
        ({
            let (c, l, acts) = run_arrivals(arrivals);
            let arrived = arrivals.to_set();
            &&& tracks(c, l, arrived)
            &&& forall|i: int, j: int| 0 <= i < j < acts.len()
                ==> !same_quad(#[trigger] acts[i], #[trigger] acts[j]) && !same_release(acts[i], acts[j])
            &&& forall|i: int| 0 <= i < acts.len() ==> (#[trigger] acts[i] matches FeatureAction::Decorate { ocx, ocz, x, z }
                ==> quad_complete(arrived, ocx, ocz) && x == ocx * 16 + 8 && z == ocz * 16 + 8)
            &&& forall|i: int| 0 <= i < acts.len() ==> (#[trigger] acts[i] matches FeatureAction::Release { cx, cz }
                ==> complete(arrived, (cx, cz)))
        }),
    decreases arrivals.len(),
{
    let (c, l, acts) = run_arrivals(arrivals);
    if arrivals.len() == 0 {
        assert(arrivals.to_set() =~= Set::<(i32, i32)>::empty());
        empty_scheduler_tracks_nothing();
    } else {
        let prev = arrivals.drop_last();
        let last = arrivals.last();
        assert(arrivals_ok(prev)) by {
            assert forall|i: int, j: int| 0 <= i < prev.len() && 0 <= j < prev.len() && i != j implies prev[i] != prev[j] by {
                assert(prev[i] == arrivals[i] && prev[j] == arrivals[j]);
            }
            assert forall|i: int| 0 <= i < prev.len() implies chunk_coord_ok(#[trigger] prev[i].0) && chunk_coord_ok(prev[i].1) by {
                assert(prev[i] == arrivals[i]);
            }
        }
        run_decorates_each_quad_once(prev);
        let (c0, l0, acts0) = run_arrivals(prev);
        let before = prev.to_set();
        let after = arrivals.to_set();
        assert(!before.contains(last)) by {
            if before.contains(last) {
                let i = choose|i: int| 0 <= i < prev.len() && prev[i] == last;
                assert(arrivals[i] == arrivals[arrivals.len() - 1]);
            }
        }
        assert(after =~= before.insert(last)) by {
            assert forall|q: (i32, i32)| after.contains(q) <==> before.insert(last).contains(q) by {
                if after.contains(q) {
                    let i = choose|i: int| 0 <= i < arrivals.len() && arrivals[i] == q;
                    if i < arrivals.len() - 1 {
                        assert(prev[i] == q);
                    }
                }
                if before.contains(q) {
                    let i = choose|i: int| 0 <= i < prev.len() && prev[i] == q;
                    assert(arrivals[i] == q);
                }
                if q == last {
                    assert(arrivals[arrivals.len() - 1] == q);
                }
            }
        }
        assert(chunk_coord_ok(last.0) && chunk_coord_ok(last.1)) by {
            assert(arrivals[arrivals.len() - 1] == last);
        }
        arrival_keeps_tracking(c0, l0, before, last.0, last.1);
        arrival_decorates_each_quad_once(c0, l0, before, last.0, last.1);
        let (c2, l2, acts2) = arrival(c0, l0, last.0, last.1);
        assert(acts == acts0 + acts2);
        assert(before.subset_of(after));
        assert forall|i: int| 0 <= i < acts.len() implies (#[trigger] acts[i] matches FeatureAction::Decorate { ocx, ocz, x, z }
            ==> quad_complete(after, ocx, ocz) && x == ocx * 16 + 8 && z == ocz * 16 + 8) by {
            if i < acts0.len() {
                assert(acts[i] == acts0[i]);
                if let FeatureAction::Decorate { ocx, ocz, x, z } = acts0[i] {
                    completion_stays(before, after, (ocx, ocz), ocx, ocz);
                }
            } else {
                assert(acts[i] == acts2[i - acts0.len()]);
            }
        }
        assert forall|i: int| 0 <= i < acts.len() implies (#[trigger] acts[i] matches FeatureAction::Release { cx, cz }
            ==> complete(after, (cx, cz))) by {
            if i < acts0.len() {
                assert(acts[i] == acts0[i]);
                if let FeatureAction::Release { cx, cz } = acts0[i] {
                    completion_stays(before, after, (cx, cz), cx, cz);
                }
            } else {
                assert(acts[i] == acts2[i - acts0.len()]);
            }
        }
        assert forall|i: int, j: int| 0 <= i < j < acts.len()
            implies !same_quad(#[trigger] acts[i], #[trigger] acts[j]) && !same_release(acts[i], acts[j]) by {
            if j < acts0.len() {
                assert(acts[i] == acts0[i] && acts[j] == acts0[j]);
            } else if i >= acts0.len() {
                assert(acts[i] == acts2[i - acts0.len()] && acts[j] == acts2[j - acts0.len()]);
                assert(!same_release(acts2[i - acts0.len()], acts2[j - acts0.len()]));
            } else {
                assert(acts[i] == acts0[i] && acts[j] == acts2[j - acts0.len()]);
            }
        }
    }
}

} // verus!
