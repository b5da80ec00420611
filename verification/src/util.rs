//! Plain containers shared by the generators.

use vstd::prelude::*;

verus! {

/// A generic rectangle of values, stored X then Z: the value at `x`/`z` is at
/// index `x + z * x_size`.
pub struct Rect<T> {
    pub data: Vec<T>,
    pub x_size: usize,
    pub z_size: usize,
}

impl<T> Rect<T> {

    /// The rectangle holds exactly `x_size * z_size` values.
    pub open spec fn wf(&self) -> bool {
        self.data@.len() == self.x_size * self.z_size
    }

    /// The value at `x`/`z`.
    pub open spec fn at(&self, x: int, z: int) -> T {
        self.data@[x + z * self.x_size]
    }

    /// Builds a rectangle from its raw data, which must hold `x_size * z_size` values.
    pub fn from_raw(data: Vec<T>, x_size: usize, z_size: usize) -> (r: Rect<T>)
        requires
            data@.len() == x_size * z_size,
        ensures
            r.data@ == data@,
            r.x_size == x_size,
            r.z_size == z_size,
            r.wf(),
    {
        Rect { data, x_size, z_size }
    }

    /// Builds a rectangle filled with the given value.
    pub fn new(x_size: usize, z_size: usize, def: T) -> (r: Rect<T>)
        where
            T: Copy,
        requires
            x_size * z_size <= usize::MAX,
        ensures
            r.x_size == x_size,
            r.z_size == z_size,
            r.wf(),
            forall|i: int| 0 <= i < r.data@.len() ==> r.data@[i] == def,
    {
        let n = x_size * z_size;
        let mut data: Vec<T> = Vec::with_capacity(n);
        let mut i: usize = 0;
        while i < n
            invariant
                i <= n,
                data@.len() == i,
                forall|j: int| 0 <= j < i ==> data@[j] == def,
            decreases n - i,
        {
            data.push(def);
            i = i + 1;
        }
        Rect { data, x_size, z_size }
    }

    /// The value at `x`/`z`.
    pub fn get(&self, x: usize, z: usize) -> (r: &T)
        requires
            self.wf(),
            x < self.x_size,
            z < self.z_size,
        ensures
            *r == self.at(x as int, z as int),
    {
        let _n = self.data.len();
        proof {
            lemma_rect_index(x as int, z as int, self.x_size as int, self.z_size as int);
            assert(z * self.x_size <= x + z * self.x_size) by (nonlinear_arith)
                requires x >= 0, z >= 0, self.x_size >= 0;
        }
        &self.data[x + z * self.x_size]
    }

    /// Replaces the value at `x`/`z`.
    pub fn set(&mut self, x: usize, z: usize, value: T)
        requires
            old(self).wf(),
            x < old(self).x_size,
            z < old(self).z_size,
        ensures
            final(self).wf(),
            final(self).x_size == old(self).x_size,
            final(self).z_size == old(self).z_size,
            final(self).data@ == old(self).data@.update(x + z * old(self).x_size, value),
    {
        let _n = self.data.len();
        proof {
            lemma_rect_index(x as int, z as int, self.x_size as int, self.z_size as int);
            assert(z * self.x_size <= x + z * self.x_size) by (nonlinear_arith)
                requires x >= 0, z >= 0, self.x_size >= 0;
        }
        let idx = x + z * self.x_size;
        self.data.set(idx, value);
    }

}

/// The index of a cell of a rectangle is in range and determines the cell.
pub proof fn lemma_rect_index(x: int, z: int, x_size: int, z_size: int)
    requires
        0 <= x < x_size,
        0 <= z < z_size,
    ensures
        0 <= x + z * x_size < x_size * z_size,
{
    assert(0 <= x + z * x_size < x_size * z_size) by (nonlinear_arith)
        requires
            0 <= x < x_size,
            0 <= z < z_size,
    ;
}

} // verus!
