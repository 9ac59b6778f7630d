//! The block of audio that one call works on.

use vstd::prelude::*;

verus! {

/// Every channel has as many frames as the first.
pub open spec fn rectangular(channels: Seq<Seq<u32>>) -> bool {
    forall|c: int| 0 <= c < channels.len() ==> (#[trigger] channels[c]).len() == channels[0].len()
}

/// The frames of each channel; none where there is no channel.
pub open spec fn frames_of(channels: Seq<Seq<u32>>) -> nat {
    if channels.len() == 0 {
        0
    } else {
        channels[0].len()
    }
}

/// Every sample is the zero word, which is the sample 0.0.
pub open spec fn is_silent(channels: Seq<Seq<u32>>) -> bool {
    forall|c: int, i: int|
        0 <= c < channels.len() && 0 <= i < channels[c].len() ==> (#[trigger] channels[c][i]) == 0u32
}

/// The silent block of `channels` channels and `frames` frames.
pub open spec fn silence(channels: nat, frames: nat) -> Seq<Seq<u32>> {
    Seq::new(channels, |c: int| Seq::new(frames, |i: int| 0u32))
}

/// The deep view of nested vectors of words lists the views of the inner vectors.
pub proof fn lemma_deep_view_rows(rows: Vec<Vec<u32>>)
    ensures
        rows.deep_view() == Seq::new(rows@.len(), |c: int| rows@[c]@),
{
    assert forall|c: int| 0 <= c < rows@.len() implies (#[trigger] rows@[c]).deep_view() == rows@[c]@ by {
        assert(rows@[c].deep_view() =~= rows@[c]@);
    }
    assert(rows.deep_view() =~= Seq::new(rows@.len(), |c: int| rows@[c]@));
}

/// A block of audio: for each physical channel the same number of frames,
/// each sample as the 32 bits of its value.
#[derive(Debug)]
pub struct Block {
    channels: Vec<Vec<u32>>,
}

impl View for Block {
    type V = Seq<Seq<u32>>;

    /// The samples, by channel and then by frame.
    closed spec fn view(&self) -> Seq<Seq<u32>> {
        Seq::new(self.channels@.len(), |c: int| self.channels@[c]@)
    }
}

impl Block {
    /// All channels are of one length.
    pub open spec fn wf(&self) -> bool {
        rectangular(self@)
    }

    /// The block that holds `channels`, if they are all of one length.
    pub fn new(channels: Vec<Vec<u32>>) -> (block: Option<Block>)
        ensures
            block is Some <==> rectangular(channels.deep_view()),
            block matches Some(b) ==> b.wf() && b@ == channels.deep_view(),
    {
        let n = channels.len();
        let mut c: usize = 1;
        while c < n
            invariant
                n == channels.len(),
                1 <= c,
                forall|k: int| 0 <= k < c && k < n ==> (#[trigger] channels@[k]).len() == channels@[0].len(),
            decreases n - c,
        {
            if channels[c].len() != channels[0].len() {
                proof {
                    lemma_deep_view_rows(channels);
                    assert(channels.deep_view()[c as int].len() != channels.deep_view()[0].len());
                }
                return None;
            }
            c = c + 1;
        }
        let block = Block { channels };
        proof {
            lemma_deep_view_rows(block.channels);
            assert forall|k: int| 0 <= k < block@.len() implies (#[trigger] block@[k]).len()
                == block@[0].len() by {
                assert(block.channels@[k].len() == block.channels@[0].len());
            }
        }
        Some(block)
    }

    /// The silent block of `channels` channels and `frames` frames.
    pub fn silent(channels: usize, frames: usize) -> (block: Block)
        ensures
            block.wf(),
            block@ == silence(channels as nat, frames as nat),
    {
        let mut rows: Vec<Vec<u32>> = Vec::with_capacity(channels);
        let mut c: usize = 0;
        while c < channels
            invariant
                c <= channels,
                rows@.len() == c,
                forall|k: int| 0 <= k < c ==> (#[trigger] rows@[k])@ == Seq::new(frames as nat, |i: int| 0u32),
            decreases channels - c,
        {
            let mut row: Vec<u32> = Vec::with_capacity(frames);
            let mut i: usize = 0;
            while i < frames
                invariant
                    i <= frames,
                    row@ == Seq::new(i as nat, |j: int| 0u32),
                decreases frames - i,
            {
                row.push(0);
                i = i + 1;
                assert(row@ =~= Seq::new(i as nat, |j: int| 0u32));
            }
            rows.push(row);
            c = c + 1;
        }
        let block = Block { channels: rows };
        proof {
            assert(block@ =~= silence(channels as nat, frames as nat));
        }
        block
    }

    /// The number of physical channels.
    pub fn channels(&self) -> (n: usize)
        ensures
            n == self@.len(),
    {
        self.channels.len()
    }

    /// The number of frames.
    pub fn samples(&self) -> (f: usize)
        ensures
            f == frames_of(self@),
    {
        if self.channels.len() == 0 {
            0
        } else {
            self.channels[0].len()
        }
    }

    /// The sample of channel `channel` at frame `frame`.
    pub fn sample(&self, channel: usize, frame: usize) -> (word: u32)
        requires
            channel < self@.len(),
            frame < self@[channel as int].len(),
        ensures
            word == self@[channel as int][frame as int],
    {
        self.channels[channel][frame]
    }

    /// Replaces the sample of channel `channel` at frame `frame` by `word`.
    pub fn set_sample(&mut self, channel: usize, frame: usize, word: u32)
        requires
            channel < old(self)@.len(),
            frame < old(self)@[channel as int].len(),
        ensures
            final(self)@ == old(self)@.update(
                channel as int,
                old(self)@[channel as int].update(frame as int, word),
            ),
            old(self).wf() ==> final(self).wf(),
    {
        self.channels[channel][frame] = word;
        proof {
            assert(self@ =~= old(self)@.update(
                channel as int,
                old(self)@[channel as int].update(frame as int, word),
            ));
        }
    }

    /// Replaces every sample by silence.
    pub fn silence(&mut self)
        requires
            old(self).wf(),
        ensures
            final(self).wf(),
            final(self)@ == silence(old(self)@.len(), frames_of(old(self)@)),
    {
        let n = self.channels.len();
        let f = self.samples();
        let mut c: usize = 0;
        while c < n
            invariant
                c <= n,
                n == self@.len(),
                n == old(self)@.len(),
                f == frames_of(old(self)@),
                forall|k: int| 0 <= k < n ==> (#[trigger] self@[k]).len() == f,
                forall|k: int| 0 <= k < c ==> (#[trigger] self@[k]) == Seq::new(f as nat, |i: int| 0u32),
            decreases n - c,
        {
            let mut i: usize = 0;
            while i < f
                invariant
                    i <= f,
                    c < n,
                    n == self@.len(),
                    forall|k: int| 0 <= k < n ==> (#[trigger] self@[k]).len() == f,
                    forall|k: int| 0 <= k < c ==> (#[trigger] self@[k]) == Seq::new(f as nat, |i: int| 0u32),
                    forall|j: int| 0 <= j < i ==> (#[trigger] self@[c as int][j]) == 0u32,
                decreases f - i,
            {
                self.set_sample(c, i, 0);
                i = i + 1;
            }
            assert(self@[c as int] =~= Seq::new(f as nat, |i: int| 0u32));
            c = c + 1;
        }
        proof {
            assert(self@ =~= silence(old(self)@.len(), frames_of(old(self)@)));
        }
    }

    /// The samples, by channel and then by frame.
    pub fn into_channels(self) -> (channels: Vec<Vec<u32>>)
        ensures
            channels.deep_view() == self@,
    {
        proof {
            lemma_deep_view_rows(self.channels);
        }
        self.channels
    }
}

} // verus!
