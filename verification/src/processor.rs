//! The processor: one instance sends its block into the bundle of its
//! routing key, or returns what was sent there a fixed delay ago.

use crate::block::{frames_of, is_silent, silence, Block};
use crate::channel_ring::ChannelRingView;
use crate::registry::{resolved, Registry};
use vstd::prelude::*;

verus! {

/// The channel selector runs from 0 to `MAX_CHANNELS - 1`.
pub const MAX_CHANNELS: usize = 64;

/// The frames by which a returning instance of `EasySend::default` lags behind the cursor.
pub const DESIRED_DELAY_SAMPLES: usize = 16;

/// Whether an instance writes to its bundle or reads from it.
#[derive(Clone, Copy, Debug, PartialEq, Eq)]
pub enum Mode {
    Send,
    Return,
}

/// What a sending instance leaves in its own block.
#[derive(Clone, Copy, Debug, PartialEq, Eq)]
pub enum OutputMode {
    /// The block stays as it came.
    PassThrough,
    /// The block is silenced: the audio goes to the bundle only.
    Redirect,
}

/// How a call ended. Nothing on the audio path fails.
#[derive(Clone, Copy, Debug, PartialEq, Eq)]
pub enum ProcessStatus {
    Normal,
}

/// The values of an instance's parameters at one call. The send level is
/// not among them: it reaches `EasySend::process` as the block `sent`, to
/// which the caller has applied it.
#[derive(Clone, Copy, Debug)]
pub struct EasySendParams {
    /// The channel selector. A value outside 0..=63 counts as the nearest end of that range.
    pub channel: i32,
    pub mode: Mode,
    pub output: OutputMode,
}

/// The selector as the routing key takes it: held to 0..=63.
pub open spec fn clamped_channel(channel: i32) -> usize {
    if channel < 0 {
        0
    } else if channel >= MAX_CHANNELS {
        (MAX_CHANNELS - 1) as usize
    } else {
        channel as usize
    }
}

/// The selector held to 0..=63.
pub fn clamp_channel(channel: i32) -> (idx: usize)
    ensures
        idx == clamped_channel(channel),
        idx < MAX_CHANNELS,
{
    if channel < 0 {
        0
    } else if channel >= 64 {
        MAX_CHANNELS - 1
    } else {
        channel as usize
    }
}

/// What an instance remembers between calls.
pub struct ReaderState {
    /// The frames by which the reader starts behind the cursor.
    pub delay: usize,
    /// The next frame to read; it counts only while `read_initialized`.
    pub read_pos: usize,
    /// Whether the reader tracks the cursor.
    pub read_initialized: bool,
    /// The routing key of the last call.
    pub last_channel: usize,
    pub last_num_channels: usize,
}

impl ReaderState {
    /// The state of a new instance, and the state after `reset`.
    pub open spec fn cleared(delay: usize) -> ReaderState {
        ReaderState {
            delay,
            read_pos: 0,
            read_initialized: false,
            last_channel: 0,
            last_num_channels: 0,
        }
    }

    /// Whether a call on this routing key is a change of key.
    pub open spec fn key_changed(self, channel: usize, num_channels: usize) -> bool {
        channel != self.last_channel || num_channels != self.last_num_channels
    }

    /// The state once the routing key of a call is noted: a change of key
    /// ends the tracking.
    pub open spec fn noted(self, channel: usize, num_channels: usize) -> ReaderState {
        if self.key_changed(channel, num_channels) {
            ReaderState {
                read_initialized: false,
                last_channel: channel,
                last_num_channels: num_channels,
                ..self
            }
        } else {
            self
        }
    }

    /// The state once a reader has seen the cursor at `write_pos`: one that
    /// does not track starts to, `delay` frames behind, as soon as that many
    /// frames were written.
    pub open spec fn synced(self, write_pos: usize) -> ReaderState {
        if !self.read_initialized && write_pos >= self.delay {
            ReaderState { read_pos: (write_pos - self.delay) as usize, read_initialized: true, ..self }
        } else {
            self
        }
    }

    /// The frames written and not yet read.
    pub open spec fn available(self, write_pos: usize) -> nat {
        if write_pos >= self.read_pos {
            (write_pos - self.read_pos) as nat
        } else {
            0
        }
    }

    /// Whether a reader in this state reads a block of `frames` frames with
    /// the cursor at `write_pos`.
    pub open spec fn reads(self, write_pos: usize, frames: nat) -> bool {
        self.read_initialized && self.available(write_pos) >= frames
    }

    /// The state of a returning instance after a call with the cursor at
    /// `write_pos` on a block of `frames` frames.
    pub open spec fn returned(self, write_pos: usize, frames: nat) -> ReaderState {
        let synced = self.synced(write_pos);
        if synced.reads(write_pos, frames) {
            ReaderState { read_pos: (synced.read_pos + frames) as usize, ..synced }
        } else {
            synced
        }
    }
}

/// The block that a returning instance in state `state` hands out for a
/// block of `channels` channels and `frames` frames: the frames of `bundle`
/// from its read position on, or silence while it does not read.
pub open spec fn returned_block(
    state: ReaderState,
    bundle: ChannelRingView,
    channels: nat,
    frames: nat,
) -> Seq<Seq<u32>> {
    let synced = state.synced(bundle.write_pos);
    if synced.reads(bundle.write_pos, frames) {
        bundle.frames_at(synced.read_pos as int, frames)
    } else {
        silence(channels, frames)
    }
}

/// The block that a sending instance leaves to its host.
pub open spec fn sent_block(output: OutputMode, block: Seq<Seq<u32>>) -> Seq<Seq<u32>> {
    match output {
        OutputMode::PassThrough => block,
        OutputMode::Redirect => silence(block.len(), frames_of(block)),
    }
}

/// Two blocks have as many channels and as many frames.
pub open spec fn same_shape(a: Seq<Seq<u32>>, b: Seq<Seq<u32>>) -> bool {
    a.len() == b.len() && frames_of(a) == frames_of(b)
}

/// One processor instance.
pub struct EasySend {
    delay: usize,
    read_pos: usize,
    read_initialized: bool,
    last_channel: usize,
    last_num_channels: usize,
}

impl View for EasySend {
    type V = ReaderState;

    closed spec fn view(&self) -> ReaderState {
        ReaderState {
            delay: self.delay,
            read_pos: self.read_pos,
            read_initialized: self.read_initialized,
            last_channel: self.last_channel,
            last_num_channels: self.last_num_channels,
        }
    }
}

impl Default for EasySend {
    /// An instance that has seen no call, with the delay `DESIRED_DELAY_SAMPLES`.
    fn default() -> (instance: EasySend)
        ensures
            instance@ == ReaderState::cleared(DESIRED_DELAY_SAMPLES),
    {
        EasySend {
            delay: DESIRED_DELAY_SAMPLES,
            read_pos: 0,
            read_initialized: false,
            last_channel: 0,
            last_num_channels: 0,
        }
    }
}

impl EasySend {
    /// An instance that has seen no call, whose reader starts `delay` frames behind the cursor.
    pub fn with_delay(delay: usize) -> (instance: EasySend)
        ensures
            instance@ == ReaderState::cleared(delay),
    {
        EasySend { delay, read_pos: 0, read_initialized: false, last_channel: 0, last_num_channels: 0 }
    }

    /// The host has settled the audio format: the reader stops tracking and
    /// the routing key is forgotten. Returns `true`: the instance is ready.
    pub fn initialize(&mut self) -> (ready: bool)
        ensures
            ready,
            final(self)@ == (ReaderState {
                read_pos: old(self)@.read_pos,
                ..ReaderState::cleared(old(self)@.delay)
            }),
    {
        self.read_initialized = false;
        self.last_channel = 0;
        self.last_num_channels = 0;
        true
    }

    /// Back to the state of an instance that has seen no call.
    pub fn reset(&mut self)
        ensures
            final(self)@ == ReaderState::cleared(old(self)@.delay),
    {
        self.read_pos = 0;
        self.read_initialized = false;
        self.last_channel = 0;
        self.last_num_channels = 0;
    }

    /// The host has switched the instance off. Nothing changes.
    pub fn deactivate(&mut self)
        ensures
            final(self)@ == old(self)@,
    {
    }

    /// The frames by which the reader starts behind the cursor.
    pub fn delay(&self) -> (delay: usize)
        ensures
            delay == self@.delay,
    {
        self.delay
    }

    /// The next frame to read; it counts only while the reader tracks.
    pub fn read_pos(&self) -> (read_pos: usize)
        ensures
            read_pos == self@.read_pos,
    {
        self.read_pos
    }

    /// Whether the reader tracks the cursor.
    pub fn read_initialized(&self) -> (tracking: bool)
        ensures
            tracking == self@.read_initialized,
    {
        self.read_initialized
    }

    /// One call of the host on one block.
    ///
    /// `buffer` is the host's block. `sent` is that block with the send
    /// level applied to every sample: what a sending instance stores. A
    /// returning instance does not look at `sent`.
    ///
    /// A block without channels changes nothing. Else the instance notes the
    /// routing key (the selector held to 0..=63, and the block's channels),
    /// resolves it in `registry`, and then
    /// - sending: writes `sent` to the bundle, and silences `buffer` if the
    ///   output is redirected;
    /// - returning: fills `buffer` with the next frames of the bundle, or
    ///   with silence while it lacks the lead of `delay` frames or a full
    ///   block to read.
    pub fn process(
        &mut self,
        registry: &mut Registry,
        params: &EasySendParams,
        buffer: &mut Block,
        sent: &Block,
    ) -> (status: ProcessStatus)
        requires
            old(registry).wf(),
            old(buffer).wf(),
            params.mode == Mode::Send ==> sent.wf() && same_shape(sent@, old(buffer)@),
        ensures
            status == ProcessStatus::Normal,
            final(registry).wf(),
            final(registry).spec_capacity() == old(registry).spec_capacity(),
            final(buffer).wf(),
            same_shape(final(buffer)@, old(buffer)@),
            params.mode == Mode::Send && params.output == OutputMode::Redirect ==> is_silent(
                final(buffer)@,
            ),
            params.mode == Mode::Send && params.output == OutputMode::PassThrough ==> final(buffer)@
                == old(buffer)@,
            old(buffer)@.len() == 0 ==> ({
                &&& final(self)@ == old(self)@
                &&& final(registry)@ == old(registry)@
                &&& final(buffer)@ == old(buffer)@
            }),
            old(buffer)@.len() > 0 ==> ({
                let channel = clamped_channel(params.channel);
                let num_channels = old(buffer)@.len() as usize;
                let frames = frames_of(old(buffer)@);
                let noted = old(self)@.noted(channel, num_channels);
                let bundle = resolved(
                    old(registry)@,
                    old(registry).spec_capacity(),
                    channel,
                    num_channels,
                );
                match params.mode {
                    Mode::Send => {
                        &&& final(self)@ == noted
                        &&& final(registry)@ == old(registry)@.insert(
                            (channel, num_channels),
                            bundle.after_write(sent@),
                        )
                        &&& final(buffer)@ == sent_block(params.output, old(buffer)@)
                    },
                    Mode::Return => {
                        &&& final(self)@ == noted.returned(bundle.write_pos, frames)
                        &&& final(registry)@ == old(registry)@.insert((channel, num_channels), bundle)
                        &&& final(buffer)@ == returned_block(noted, bundle, num_channels as nat, frames)
                    },
                }
            }),
    {
        let channel_idx = clamp_channel(params.channel);
        let num_physical = buffer.channels();
        if num_physical == 0 {
            return ProcessStatus::Normal;
        }
        let frame_count = buffer.samples();

        let channel_changed = channel_idx != self.last_channel || num_physical
            != self.last_num_channels;
        if channel_changed {
            self.read_initialized = false;
            self.last_channel = channel_idx;
            self.last_num_channels = num_physical;
        }

        let ch_ring = registry.resolve(channel_idx, num_physical);

        match params.mode {
            Mode::Send => {
                ch_ring.write_block(sent);
                match params.output {
                    OutputMode::Redirect => {
                        buffer.silence();
                    },
                    OutputMode::PassThrough => {},
                }
            },
            Mode::Return => {
                let write_pos = ch_ring.write_pos();
                if !self.read_initialized {
                    if write_pos >= self.delay {
                        self.read_pos = write_pos - self.delay;
                        self.read_initialized = true;
                    } else {
                        buffer.silence();
                        return ProcessStatus::Normal;
                    }
                }
                let available = write_pos.saturating_sub(self.read_pos);
                if available < frame_count {
                    buffer.silence();
                    return ProcessStatus::Normal;
                }
                ch_ring.read_block(self.read_pos, buffer);
                self.read_pos = self.read_pos.wrapping_add(frame_count);
            },
        }
        ProcessStatus::Normal
    }
}

} // verus!
