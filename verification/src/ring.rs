//! One channel's ring of sample words.

use crate::arith::{cell_of, lemma_mask_is_cell};
use vstd::arithmetic::power2::is_pow2;
use vstd::prelude::*;

verus! {

/// `capacity` cells that hold silence.
pub open spec fn silent_cells(capacity: nat) -> Seq<u32> {
    Seq::new(capacity, |k: int| 0u32)
}

/// A ring of sample words. Frame `index` lies in cell `index % capacity`, so a
/// frame overwrites the one that was stored `capacity` frames before it.
pub struct Ring {
    buf: Vec<u32>,
}

impl View for Ring {
    type V = Seq<u32>;

    /// The cells, in the order of their numbers.
    closed spec fn view(&self) -> Seq<u32> {
        self.buf@
    }
}

impl Ring {
    /// The number of cells is a power of two.
    pub open spec fn wf(&self) -> bool {
        is_pow2(self@.len() as int)
    }

    /// A silent ring of `capacity_pow2` cells.
    pub fn new(capacity_pow2: usize) -> (ring: Ring)
        requires
            is_pow2(capacity_pow2 as int),
        ensures
            ring.wf(),
            ring@ == silent_cells(capacity_pow2 as nat),
    {
        let mut v: Vec<u32> = Vec::with_capacity(capacity_pow2);
        let mut n: usize = 0;
        while n < capacity_pow2
            invariant
                n <= capacity_pow2,
                v@ == silent_cells(n as nat),
            decreases capacity_pow2 - n,
        {
            v.push(0);
            n = n + 1;
            assert(v@ =~= silent_cells(n as nat));
        }
        Ring { buf: v }
    }

    /// The number of cells.
    pub fn capacity(&self) -> (capacity: usize)
        ensures
            capacity == self@.len(),
    {
        self.buf.len()
    }

    /// Stores `sample` in the cell of frame `idx`; the other cells keep what they hold.
    pub fn store_at(&mut self, idx: usize, sample: u32)
        requires
            old(self).wf(),
        ensures
            final(self).wf(),
            final(self)@ == old(self)@.update(cell_of(idx as int, old(self)@.len() as int), sample),
    {
        proof {
            lemma_mask_is_cell(idx, self.buf.len());
        }
        let i: usize = idx & (self.buf.len() - 1);
        self.buf[i] = sample;
    }

    /// The sample in the cell of frame `idx`.
    pub fn load_at(&self, idx: usize) -> (sample: u32)
        requires
            self.wf(),
        ensures
            sample == self@[cell_of(idx as int, self@.len() as int)],
    {
        proof {
            lemma_mask_is_cell(idx, self.buf.len());
        }
        let i: usize = idx & (self.buf.len() - 1);
        self.buf[i]
    }
}

} // verus!
