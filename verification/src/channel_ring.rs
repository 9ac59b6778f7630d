//! The rings of one routing key and the write cursor that they share.

use crate::arith::{cell_of, lemma_pow2_at_least_one, lemma_wrapped_index_cell};
use crate::block::{frames_of, Block};
use crate::ring::{silent_cells, Ring};
use vstd::arithmetic::div_mod::lemma_mod_pos_bound;
use vstd::arithmetic::power2::is_pow2;
use vstd::prelude::*;

verus! {

/// What a ring that held `cells` holds once `samples` were stored in it one
/// after the other, the first as frame `base`.
pub open spec fn stored(cells: Seq<u32>, base: int, samples: Seq<u32>) -> Seq<u32>
    decreases samples.len(),
{
    if samples.len() == 0 {
        cells
    } else {
        stored(cells, base, samples.drop_last()).update(
            cell_of(base + samples.len() - 1, cells.len() as int),
            samples.last(),
        )
    }
}

/// The `frames` samples that a ring holding `cells` gives for the frames from `from` on.
pub open spec fn loaded(cells: Seq<u32>, from: int, frames: nat) -> Seq<u32> {
    Seq::new(frames, |i: int| cells[cell_of(from + i, cells.len() as int)])
}

/// What a `ChannelRing` is: a count of the frames written so far, and for
/// each physical channel the cells of its ring.
pub struct ChannelRingView {
    /// The frames written so far, counted round the word size.
    pub write_pos: usize,
    /// The cells of every ring.
    pub capacity: nat,
    /// The cells of each physical channel's ring.
    pub rings: Seq<Seq<u32>>,
}

impl ChannelRingView {
    /// The capacity is a power of two that fits a `usize`, and every ring
    /// has that many cells.
    pub open spec fn wf(self) -> bool {
        &&& is_pow2(self.capacity as int)
        &&& self.capacity <= usize::MAX
        &&& forall|c: int| 0 <= c < self.rings.len() ==> (#[trigger] self.rings[c]).len() == self.capacity
    }

    /// The bundle on which nothing was written yet.
    pub open spec fn fresh(channels: nat, capacity: nat) -> ChannelRingView {
        ChannelRingView {
            write_pos: 0,
            capacity,
            rings: Seq::new(channels, |c: int| silent_cells(capacity)),
        }
    }

    /// The bundle after the writer's call on `block`: the cursor has moved on
    /// by the block's frames, and each channel of the block lies in its ring
    /// from the old cursor on.
    pub open spec fn after_write(self, block: Seq<Seq<u32>>) -> ChannelRingView {
        ChannelRingView {
            write_pos: self.write_pos.wrapping_add(frames_of(block) as usize),
            capacity: self.capacity,
            rings: Seq::new(
                self.rings.len(),
                |c: int| stored(self.rings[c], self.write_pos as int, block[c]),
            ),
        }
    }

    /// The block of `frames` frames that the rings give from frame `from` on.
    pub open spec fn frames_at(self, from: int, frames: nat) -> Seq<Seq<u32>> {
        Seq::new(self.rings.len(), |c: int| loaded(self.rings[c], from, frames))
    }
}

/// The rings of one routing key, one for each physical channel, with the
/// cursor that counts the frames written. All rings are indexed by the same
/// frame number, so the samples of one frame stay together.
pub struct ChannelRing {
    write_pos: usize,
    capacity: usize,
    rings: Vec<Ring>,
}

impl View for ChannelRing {
    type V = ChannelRingView;

    closed spec fn view(&self) -> ChannelRingView {
        ChannelRingView {
            write_pos: self.write_pos,
            capacity: self.capacity as nat,
            rings: Seq::new(self.rings@.len(), |c: int| self.rings@[c]@),
        }
    }
}

impl ChannelRing {
    /// Every ring has the bundle's capacity, a power of two.
    pub open spec fn wf(&self) -> bool {
        self@.wf()
    }

    /// A bundle of `num_channels` silent rings of `capacity_pow2` cells, its cursor at 0.
    pub fn new(num_channels: usize, capacity_pow2: usize) -> (bundle: ChannelRing)
        requires
            is_pow2(capacity_pow2 as int),
        ensures
            bundle.wf(),
            bundle@ == ChannelRingView::fresh(num_channels as nat, capacity_pow2 as nat),
    {
        let mut vec_rings: Vec<Ring> = Vec::with_capacity(num_channels);
        let mut n: usize = 0;
        while n < num_channels
            invariant
                n <= num_channels,
                is_pow2(capacity_pow2 as int),
                vec_rings@.len() == n,
                forall|c: int| 0 <= c < n ==> (#[trigger] vec_rings@[c])@ == silent_cells(capacity_pow2 as nat),
            decreases num_channels - n,
        {
            vec_rings.push(Ring::new(capacity_pow2));
            n = n + 1;
        }
        let bundle = ChannelRing { write_pos: 0, capacity: capacity_pow2, rings: vec_rings };
        proof {
            assert(bundle@.rings =~= ChannelRingView::fresh(
                num_channels as nat,
                capacity_pow2 as nat,
            ).rings);
        }
        bundle
    }

    /// The frames written so far.
    pub fn write_pos(&self) -> (w: usize)
        ensures
            w == self@.write_pos,
    {
        self.write_pos
    }

    /// The number of rings.
    pub fn channels(&self) -> (n: usize)
        ensures
            n == self@.rings.len(),
    {
        self.rings.len()
    }

    /// The cells of every ring.
    pub fn capacity(&self) -> (capacity: usize)
        ensures
            capacity == self@.capacity,
    {
        self.capacity
    }

    /// The sample that the ring of channel `channel` holds for frame `idx`.
    pub fn load_at(&self, channel: usize, idx: usize) -> (sample: u32)
        requires
            self.wf(),
            channel < self@.rings.len(),
        ensures
            sample == self@.rings[channel as int][cell_of(idx as int, self@.capacity as int)],
    {
        assert(self@.rings[channel as int] == self.rings@[channel as int]@);
        self.rings[channel].load_at(idx)
    }

    /// Reserves the next `frames` frames for one writer: moves the cursor on
    /// by `frames`, round the word size, and returns where it stood.
    pub fn reserve(&mut self, frames: usize) -> (base: usize)
        ensures
            base == old(self)@.write_pos,
            final(self)@ == (ChannelRingView {
                write_pos: base.wrapping_add(frames),
                ..old(self)@
            }),
    {
        let base = self.write_pos;
        self.write_pos = base.wrapping_add(frames);
        base
    }

    /// The writer's call: reserves the block's frames and stores each
    /// channel of `block` in its ring, from the old cursor on.
    pub fn write_block(&mut self, block: &Block) -> (base: usize)
        requires
            old(self).wf(),
            block.wf(),
            block@.len() == old(self)@.rings.len(),
        ensures
            final(self).wf(),
            base == old(self)@.write_pos,
            final(self)@ == old(self)@.after_write(block@),
    {
        let frame_count = block.samples();
        let base_frame = self.reserve(frame_count);
        let num_physical = self.rings.len();
        let mut phys_idx: usize = 0;
        while phys_idx < num_physical
            invariant
                phys_idx <= num_physical,
                num_physical == self.rings@.len(),
                num_physical == old(self)@.rings.len(),
                num_physical == block@.len(),
                block.wf(),
                frame_count == frames_of(block@),
                base_frame == old(self)@.write_pos,
                self.write_pos == base_frame.wrapping_add(frame_count),
                self.capacity == old(self).capacity,
                old(self).wf(),
                forall|c: int| 0 <= c < phys_idx ==> (#[trigger] self.rings@[c])@ == stored(
                    old(self)@.rings[c],
                    base_frame as int,
                    block@[c],
                ),
                forall|c: int| phys_idx <= c < num_physical ==> (#[trigger] self.rings@[c])@ == old(self)@.rings[c],
            decreases num_physical - phys_idx,
        {
            let ghost before = old(self)@.rings[phys_idx as int];
            let ghost samples = block@[phys_idx as int];
            let mut i: usize = 0;
            assert(samples.take(0) =~= Seq::<u32>::empty());
            while i < frame_count
                invariant
                    i <= frame_count,
                    phys_idx < num_physical,
                    num_physical == self.rings@.len(),
                    num_physical == old(self)@.rings.len(),
                    num_physical == block@.len(),
                    block.wf(),
                    frame_count == frames_of(block@),
                    samples == block@[phys_idx as int],
                    samples.len() == frame_count,
                    before == old(self)@.rings[phys_idx as int],
                    before.len() == self.capacity,
                    is_pow2(self.capacity as int),
                    base_frame == old(self)@.write_pos,
                    self.write_pos == base_frame.wrapping_add(frame_count),
                    self.capacity == old(self).capacity,
                    old(self).wf(),
                    self.rings@[phys_idx as int]@ == stored(before, base_frame as int, samples.take(i as int)),
                    forall|c: int| 0 <= c < phys_idx ==> (#[trigger] self.rings@[c])@ == stored(
                        old(self)@.rings[c],
                        base_frame as int,
                        block@[c],
                    ),
                    forall|c: int| phys_idx < c < num_physical ==> (#[trigger] self.rings@[c])@ == old(self)@.rings[c],
                decreases frame_count - i,
            {
                let s = block.sample(phys_idx, i);
                let idx = base_frame.wrapping_add(i);
                proof {
                    lemma_wrapped_index_cell(base_frame, i, self.capacity);
                    lemma_pow2_at_least_one(self.capacity as int);
                    lemma_stored_len(before, base_frame as int, samples.take(i as int));
                    assert(samples.take(i + 1).drop_last() =~= samples.take(i as int));
                }
                self.rings[phys_idx].store_at(idx, s);
                i = i + 1;
            }
            assert(samples.take(frame_count as int) =~= samples);
            phys_idx = phys_idx + 1;
        }
        proof {
            assert(self@.rings =~= old(self)@.after_write(block@).rings);
            assert forall|c: int| 0 <= c < self@.rings.len() implies (#[trigger] self@.rings[c]).len()
                == self@.capacity by {
                lemma_pow2_at_least_one(self.capacity as int);
                lemma_stored_len(old(self)@.rings[c], base_frame as int, block@[c]);
            }
        }
        base_frame
    }

    /// The reader's copy: fills `block` with the frames that the rings give
    /// from frame `from` on.
    pub fn read_block(&self, from: usize, block: &mut Block)
        requires
            self.wf(),
            old(block).wf(),
            old(block)@.len() == self@.rings.len(),
        ensures
            final(block).wf(),
            final(block)@ == self@.frames_at(from as int, frames_of(old(block)@)),
    {
        let frame_count = block.samples();
        let num_physical = self.rings.len();
        let mut phys_idx: usize = 0;
        while phys_idx < num_physical
            invariant
                phys_idx <= num_physical,
                num_physical == self.rings@.len(),
                num_physical == block@.len(),
                self.wf(),
                forall|c: int| 0 <= c < num_physical ==> (#[trigger] block@[c]).len() == frame_count,
                frame_count == frames_of(old(block)@),
                forall|c: int| 0 <= c < phys_idx ==> (#[trigger] block@[c]) == loaded(
                    self@.rings[c],
                    from as int,
                    frame_count as nat,
                ),
            decreases num_physical - phys_idx,
        {
            let mut i: usize = 0;
            while i < frame_count
                invariant
                    i <= frame_count,
                    phys_idx < num_physical,
                    num_physical == self.rings@.len(),
                    num_physical == block@.len(),
                    self.wf(),
                    forall|c: int| 0 <= c < num_physical ==> (#[trigger] block@[c]).len() == frame_count,
                    forall|c: int| 0 <= c < phys_idx ==> (#[trigger] block@[c]) == loaded(
                        self@.rings[c],
                        from as int,
                        frame_count as nat,
                    ),
                    forall|j: int| 0 <= j < i ==> (#[trigger] block@[phys_idx as int][j]) == loaded(
                        self@.rings[phys_idx as int],
                        from as int,
                        frame_count as nat,
                    )[j],
                decreases frame_count - i,
            {
                proof {
                    lemma_wrapped_index_cell(from, i, self.capacity);
                }
                let val = self.load_at(phys_idx, from.wrapping_add(i));
                block.set_sample(phys_idx, i, val);
                i = i + 1;
            }
            assert(block@[phys_idx as int] =~= loaded(
                self@.rings[phys_idx as int],
                from as int,
                frame_count as nat,
            ));
            phys_idx = phys_idx + 1;
        }
        proof {
            assert(block@ =~= self@.frames_at(from as int, frames_of(old(block)@)));
        }
    }
}

/// Storing samples leaves the number of cells as it was.
pub proof fn lemma_stored_len(cells: Seq<u32>, base: int, samples: Seq<u32>)
    requires
        cells.len() > 0,
        base >= 0,
    ensures
        stored(cells, base, samples).len() == cells.len(),
    decreases samples.len(),
{
    if samples.len() > 0 {
        lemma_stored_len(cells, base, samples.drop_last());
        lemma_mod_pos_bound(base + samples.len() - 1, cells.len() as int);
    }
}

} // verus!
