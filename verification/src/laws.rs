//! What holds of sending and returning together.

use crate::arith::{
    cell_of, lemma_cell_round_word, lemma_cells_differ, lemma_cursor_counts_on,
    lemma_pow2_at_least_one,
};
use crate::block::{frames_of, rectangular, silence};
use crate::channel_ring::{lemma_stored_len, stored, ChannelRingView};
use crate::processor::{returned_block, ReaderState};
use crate::registry::resolved;
use vstd::arithmetic::div_mod::{
    lemma_div_pos_is_pos, lemma_fundamental_div_mod, lemma_mod_bound, lemma_mod_pos_bound,
    lemma_small_mod,
};
use vstd::arithmetic::power2::is_pow2;
use vstd::prelude::*;

verus! {

/// Of the samples stored in one call a ring keeps the latest `capacity`,
/// each in the cell of its frame.
pub proof fn lemma_stored_retains(cells: Seq<u32>, base: int, samples: Seq<u32>, i: int)
    requires
        cells.len() > 0,
        base >= 0,
        0 <= i < samples.len(),
        samples.len() - i <= cells.len(),
    ensures
        stored(cells, base, samples)[cell_of(base + i, cells.len() as int)] == samples[i],
    decreases samples.len(),
{
    let capacity = cells.len() as int;
    let last = samples.len() - 1;
    let before = stored(cells, base, samples.drop_last());
    lemma_stored_len(cells, base, samples.drop_last());
    lemma_mod_pos_bound(base + last, capacity);
    lemma_mod_pos_bound(base + i, capacity);
    if i < last {
        lemma_cells_differ(base + i, last - i, capacity);
        lemma_stored_retains(cells, base, samples.drop_last(), i);
    }
}

/// A cell that none of the samples of a call reaches holds after the call
/// what it held before: the cell of any frame that would lie before `base`
/// and less than `capacity` frames before the end of the samples.
pub proof fn lemma_stored_keeps(cells: Seq<u32>, base: int, samples: Seq<u32>, j: int)
    requires
        cells.len() > 0,
        base >= 0,
        base + samples.len() - cells.len() <= j < base,
    ensures
        stored(cells, base, samples)[cell_of(j, cells.len() as int)] == cells[cell_of(
            j,
            cells.len() as int,
        )],
    decreases samples.len(),
{
    if samples.len() > 0 {
        let capacity = cells.len() as int;
        let last = samples.len() - 1;
        lemma_stored_len(cells, base, samples.drop_last());
        lemma_mod_bound(base + last, capacity);
        lemma_mod_bound(j, capacity);
        lemma_cells_differ(j, base + last - j, capacity);
        lemma_stored_keeps(cells, base, samples.drop_last(), j);
    }
}

/// `bundle` has recorded `stream`, which lists for each channel every sample
/// written so far: the cursor counts the frames of `stream`, round the word
/// size, and the rings hold its latest `capacity` frames, each in the cell
/// of its number.
pub open spec fn records(bundle: ChannelRingView, stream: Seq<Seq<u32>>) -> bool {
    &&& bundle.wf()
    &&& stream.len() == bundle.rings.len()
    &&& rectangular(stream)
    &&& frames_of(stream) % ((usize::MAX + 1) as nat) == bundle.write_pos
    &&& forall|c: int, j: int|
        0 <= c < stream.len() && 0 <= j < frames_of(stream) && frames_of(stream) - j
            <= bundle.capacity ==> bundle.rings[c][cell_of(j, bundle.capacity as int)]
            == #[trigger] stream[c][j]
}

/// `stream` with the channels of `block` appended, each to its channel.
pub open spec fn extended(stream: Seq<Seq<u32>>, block: Seq<Seq<u32>>) -> Seq<Seq<u32>> {
    Seq::new(stream.len(), |c: int| stream[c] + block[c])
}

/// The `frames` frames of `stream` from frame `from` on.
pub open spec fn window(stream: Seq<Seq<u32>>, from: int, frames: nat) -> Seq<Seq<u32>> {
    Seq::new(stream.len(), |c: int| stream[c].subrange(from, from + frames))
}

/// A new bundle has recorded the stream in which nothing was written.
pub proof fn lemma_fresh_records_nothing(channels: nat, capacity: nat)
    requires
        is_pow2(capacity as int),
        capacity <= usize::MAX,
    ensures
        records(
            ChannelRingView::fresh(channels, capacity),
            Seq::new(channels, |c: int| Seq::<u32>::empty()),
        ),
{
    lemma_small_mod(0, (usize::MAX + 1) as nat);
}

/// A write appends its block to the stream that the bundle has recorded.
pub proof fn lemma_write_extends_stream(
    bundle: ChannelRingView,
    stream: Seq<Seq<u32>>,
    block: Seq<Seq<u32>>,
)
    requires
        records(bundle, stream),
        rectangular(block),
        block.len() == bundle.rings.len(),
        frames_of(block) <= usize::MAX,
    ensures
        records(bundle.after_write(block), extended(stream, block)),
{
    let after = bundle.after_write(block);
    let longer = extended(stream, block);
    let w = bundle.write_pos;
    let total = frames_of(stream) as int;
    let f = frames_of(block) as int;
    let capacity = bundle.capacity as int;
    lemma_pow2_at_least_one(capacity);
    lemma_cursor_counts_on(total, w, f as usize);
    assert forall|c: int| 0 <= c < after.rings.len() implies (#[trigger] after.rings[c]).len()
        == after.capacity by {
        lemma_stored_len(bundle.rings[c], w as int, block[c]);
    }
    assert forall|c: int| 0 <= c < longer.len() implies (#[trigger] longer[c]).len() == total
        + f by {
        assert(block[c].len() == f);
        assert(stream[c].len() == total);
    }
    assert(frames_of(longer) == total + f);
    assert forall|c: int, j: int|
        0 <= c < longer.len() && 0 <= j < frames_of(longer) && frames_of(longer) - j
            <= after.capacity implies after.rings[c][cell_of(j, after.capacity as int)]
        == #[trigger] longer[c][j] by {
        let cells = bundle.rings[c];
        assert(block[c].len() == f);
        assert(stream[c].len() == total);
        assert(cells.len() == capacity);
        lemma_cell_round_word(total, w, j - total, capacity as usize);
        if j < total {
            lemma_stored_keeps(cells, w as int, block[c], w + (j - total));
            assert(cells[cell_of(j, capacity)] == stream[c][j]);
        } else {
            lemma_stored_retains(cells, w as int, block[c], j - total);
        }
    }
}

/// Frames that the bundle has recorded and still holds come back as they
/// were written. A read of `frames` frames from `from`, which ends at or
/// before the cursor and starts no more than `capacity` frames behind it,
/// gives the window of the stream that starts as far before the stream's
/// end as `from` lies behind the cursor.
pub proof fn lemma_read_reproduces_stream(
    bundle: ChannelRingView,
    stream: Seq<Seq<u32>>,
    from: usize,
    frames: nat,
)
    requires
        records(bundle, stream),
        from + frames <= bundle.write_pos,
        bundle.write_pos - from <= bundle.capacity,
    ensures
        bundle.write_pos - from <= frames_of(stream),
        bundle.frames_at(from as int, frames) == window(
            stream,
            frames_of(stream) - (bundle.write_pos - from),
            frames,
        ),
{
    let w = bundle.write_pos;
    let total = frames_of(stream) as int;
    let start = total - (w - from);
    let got = bundle.frames_at(from as int, frames);
    let want = window(stream, start, frames);
    lemma_fundamental_div_mod(total, usize::MAX + 1);
    assert(total / (usize::MAX + 1) >= 0) by {
        lemma_div_pos_is_pos(total, usize::MAX + 1);
    }
    assert(total >= w) by (nonlinear_arith)
        requires
            total == (usize::MAX + 1) * (total / (usize::MAX + 1)) + w,
            total / (usize::MAX + 1) >= 0,
    ;
    assert forall|c: int| 0 <= c < got.len() implies got[c] == want[c] by {
        assert(stream[c].len() == total);
        assert forall|i: int| 0 <= i < frames implies got[c][i] == want[c][i] by {
            lemma_cell_round_word(total, w, from + i - w, bundle.capacity as usize);
            assert(bundle.rings[c][cell_of(start + i, bundle.capacity as int)] == stream[c][start
                + i]);
        }
        assert(got[c] =~= want[c]);
    }
    assert(got =~= want);
}

/// A returning instance gives back what was sent. Let the bundle have
/// recorded `stream`, and let the reader track, on this call at the latest,
/// with a full block between its read position and the cursor and no more
/// than `capacity` frames behind the cursor. Then the block handed out is
/// the window of the stream that starts as far before the stream's end as
/// the read position lies behind the cursor, and the read position moves on
/// by the block's frames. A reader that starts to track on this call reads
/// from `delay` frames behind the cursor.
pub proof fn lemma_return_reproduces_send(
    state: ReaderState,
    bundle: ChannelRingView,
    stream: Seq<Seq<u32>>,
    frames: nat,
)
    requires
        records(bundle, stream),
        state.synced(bundle.write_pos).read_initialized,
        state.synced(bundle.write_pos).read_pos + frames <= bundle.write_pos,
        bundle.write_pos - state.synced(bundle.write_pos).read_pos <= bundle.capacity,
    ensures
        ({
            let from = state.synced(bundle.write_pos).read_pos;
            let after = state.returned(bundle.write_pos, frames);
            &&& returned_block(state, bundle, bundle.rings.len(), frames) == window(
                stream,
                frames_of(stream) - (bundle.write_pos - from),
                frames,
            )
            &&& after.read_initialized
            &&& after.read_pos == from + frames
            &&& !state.read_initialized ==> bundle.write_pos - from == state.delay
        }),
{
    let from = state.synced(bundle.write_pos).read_pos;
    lemma_read_reproduces_stream(bundle, stream, from, frames);
}

/// Before `delay` frames were written, a returning instance that does not
/// track hands out silence, keeps its read position and does not start to
/// track.
pub proof fn lemma_no_lead_in_is_silence(
    state: ReaderState,
    bundle: ChannelRingView,
    channels: nat,
    frames: nat,
)
    requires
        !state.read_initialized,
        bundle.write_pos < state.delay,
    ensures
        returned_block(state, bundle, channels, frames) == silence(channels, frames),
        state.returned(bundle.write_pos, frames) == state,
{
}

/// A reader that lacks a full block hands out silence and keeps its read
/// position.
pub proof fn lemma_underrun_is_silence(
    state: ReaderState,
    bundle: ChannelRingView,
    channels: nat,
    frames: nat,
)
    requires
        state.read_initialized,
        state.available(bundle.write_pos) < frames,
    ensures
        returned_block(state, bundle, channels, frames) == silence(channels, frames),
        state.returned(bundle.write_pos, frames) == state,
{
}

/// On the call that changes the routing key a returning instance behaves
/// as one fresh from `reset` would: what it hands out, whether it tracks
/// afterwards, and from where, do not depend on the read position or the
/// tracking it had. What it reads, it reads from `delay` frames behind the
/// cursor of the new key's bundle.
pub proof fn lemma_key_change_restarts(
    state: ReaderState,
    channel: usize,
    num_channels: usize,
    bundle: ChannelRingView,
    frames: nat,
)
    requires
        state.key_changed(channel, num_channels),
    ensures
        ({
            let noted = state.noted(channel, num_channels);
            let fresh = ReaderState::cleared(state.delay);
            let after = noted.returned(bundle.write_pos, frames);
            let fresh_after = fresh.returned(bundle.write_pos, frames);
            &&& returned_block(noted, bundle, num_channels as nat, frames) == returned_block(
                fresh,
                bundle,
                num_channels as nat,
                frames,
            )
            &&& after.read_initialized == fresh_after.read_initialized
            &&& after.read_initialized ==> after.read_pos == fresh_after.read_pos
            &&& after.last_channel == channel && after.last_num_channels == num_channels
            &&& returned_block(noted, bundle, num_channels as nat, frames) == (if bundle.write_pos
                >= state.delay && state.delay >= frames {
                bundle.frames_at(bundle.write_pos - state.delay, frames)
            } else {
                silence(num_channels as nat, frames)
            })
        }),
{
}

/// Resolving a routing key again gives the bundle that the first
/// resolution left in the registry, and leaves the registry as it is; the
/// bundles of other keys are not touched by either.
pub proof fn lemma_resolve_again(
    bundles: Map<(usize, usize), ChannelRingView>,
    capacity: nat,
    channel: usize,
    num_channels: usize,
    left: ChannelRingView,
)
    ensures
        ({
            let after = bundles.insert((channel, num_channels), left);
            &&& resolved(after, capacity, channel, num_channels) == left
            &&& after.insert((channel, num_channels), resolved(after, capacity, channel, num_channels))
                == after
            &&& forall|other: (usize, usize)|
                other != (channel, num_channels) ==> (#[trigger] after.contains_key(other)
                    == bundles.contains_key(other)) && after[other] == bundles[other]
        }),
{
    let after = bundles.insert((channel, num_channels), left);
    assert(after.insert((channel, num_channels), left) =~= after);
}

} // verus!
