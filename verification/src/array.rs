//! A flat array addressed by an inclusive range of locations.
//!
//! Every table of the core (the arena, the equivalence table, the save
//! stack) is such an array, and every "pointer" between them is a plain
//! integer index.  Keeping pointers as indices into one flat store is what
//! gives the allocator and the save stack their address stability.

use vstd::prelude::*;

verus! {

/// A fixed-size array whose valid indices run from `min` to `max`
/// inclusive.
pub struct Array<T> {
    min: usize,
    max: usize,
    data: Vec<T>,
}

impl<T: Copy> Array<T> {
    /// The lowest valid index.
    pub closed spec fn spec_min(&self) -> usize {
        self.min
    }

    /// The highest valid index.
    pub closed spec fn spec_max(&self) -> usize {
        self.max
    }

    /// The contents, from index `min` up to index `max`.
    pub closed spec fn contents(&self) -> Seq<T> {
        self.data@
    }

    /// The element at location `i` of the index space.
    pub open spec fn spec_index(&self, i: int) -> T {
        self.contents()[i - self.spec_min()]
    }

    pub open spec fn wf(&self) -> bool {
        &&& self.spec_min() <= self.spec_max()
        &&& self.contents().len() == self.spec_max() - self.spec_min() + 1
    }

    /// A new array covering `min..=max`, every element set to `fill`.
    pub fn new(min: usize, max: usize, fill: T) -> (r: Array<T>)
        requires
            min <= max,
            max - min < usize::MAX,
        ensures
            r.wf(),
            r.spec_min() == min,
            r.spec_max() == max,
            forall|i: int| min <= i <= max ==> r.spec_index(i) == fill,
    {
        let len = max - min + 1;
        let mut data: Vec<T> = Vec::new();
        let mut k: usize = 0;
        while k < len
            invariant
                k <= len,
                data@.len() == k,
                forall|j: int| 0 <= j < k ==> data@[j] == fill,
            decreases len - k,
        {
            data.push(fill);
            k = k + 1;
        }
        Array { min, max, data }
    }

    pub fn min(&self) -> (r: usize)
        ensures
            r == self.spec_min(),
    {
        self.min
    }

    pub fn max(&self) -> (r: usize)
        ensures
            r == self.spec_max(),
    {
        self.max
    }

    /// Wraps existing storage as an array over `min..=max`.
    pub fn from_vec(min: usize, max: usize, data: Vec<T>) -> (r: Array<T>)
        requires
            min <= max,
            data@.len() == max - min + 1,
        ensures
            r.wf(),
            r.spec_min() == min,
            r.spec_max() == max,
            r.contents() == data@,
    {
        Array { min, max, data }
    }

    /// Copies the contents out, lowest location first.
    pub fn to_vec(&self) -> (r: Vec<T>)
        requires
            self.wf(),
        ensures
            r@ == self.contents(),
    {
        let n = self.data.len();
        let mut out: Vec<T> = Vec::new();
        let mut i: usize = 0;
        while i < n
            invariant
                n == self.contents().len(),
                i <= n,
                out@ == self.contents().take(i as int),
            decreases n - i,
        {
            out.push(self.data[i]);
            proof {
                assert(out@ =~= self.contents().take(i + 1));
            }
            i = i + 1;
        }
        proof {
            assert(out@ =~= self.contents());
        }
        out
    }

    /// Reads the element at location `i`.
    pub fn get(&self, i: usize) -> (r: T)
        requires
            self.wf(),
            self.spec_min() <= i <= self.spec_max(),
        ensures
            r == self.spec_index(i as int),
    {
        self.data[i - self.min]
    }

    /// Writes the element at location `i`.
    pub fn set(&mut self, i: usize, value: T)
        requires
            old(self).wf(),
            old(self).spec_min() <= i <= old(self).spec_max(),
        ensures
            final(self).wf(),
            final(self).spec_min() == old(self).spec_min(),
            final(self).spec_max() == old(self).spec_max(),
            final(self).spec_index(i as int) == value,
            forall|j: int|
                old(self).spec_min() <= j <= old(self).spec_max() && j != i
                    ==> final(self).spec_index(j) == old(self).spec_index(j),
            final(self).contents() == old(self).contents().update(
                i - old(self).spec_min(),
                value,
            ),
    {
        let idx = i - self.min;
        self.data[idx] = value;
    }
}

} // verus!
