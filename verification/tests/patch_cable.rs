use easy_send::block::Block;
use easy_send::processor::{
    clamp_channel, EasySend, EasySendParams, Mode, OutputMode, ProcessStatus,
    DESIRED_DELAY_SAMPLES, MAX_CHANNELS,
};
use easy_send::registry::{Registry, RING_CAP_POW2};

fn words(samples: &[f32]) -> Vec<u32> {
    samples.iter().map(|s| s.to_bits()).collect()
}

fn floats(words: &[u32]) -> Vec<f32> {
    words.iter().map(|w| f32::from_bits(*w)).collect()
}

fn block(channels: &[&[f32]]) -> Block {
    Block::new(channels.iter().map(|c| words(c)).collect()).unwrap()
}

fn scaled(channels: &[&[f32]], amount: f32) -> Block {
    Block::new(
        channels
            .iter()
            .map(|c| c.iter().map(|s| (s * amount).to_bits()).collect())
            .collect(),
    )
    .unwrap()
}

fn contents(block: Block) -> Vec<Vec<f32>> {
    block.into_channels().iter().map(|c| floats(c)).collect()
}

fn params(channel: i32, mode: Mode, output: OutputMode) -> EasySendParams {
    EasySendParams { channel, mode, output }
}

fn send(
    instance: &mut EasySend,
    registry: &mut Registry,
    channel: i32,
    output: OutputMode,
    channels: &[&[f32]],
    amount: f32,
) -> Vec<Vec<f32>> {
    let mut buffer = block(channels);
    let sent = scaled(channels, amount);
    let status = instance.process(registry, &params(channel, Mode::Send, output), &mut buffer, &sent);
    assert_eq!(status, ProcessStatus::Normal);
    contents(buffer)
}

fn receive(
    instance: &mut EasySend,
    registry: &mut Registry,
    channel: i32,
    channels: &[&[f32]],
) -> Vec<Vec<f32>> {
    let mut buffer = block(channels);
    let unused = Block::silent(0, 0);
    let status = instance.process(
        registry,
        &params(channel, Mode::Return, OutputMode::PassThrough),
        &mut buffer,
        &unused,
    );
    assert_eq!(status, ProcessStatus::Normal);
    contents(buffer)
}

#[test]
fn send_then_return_with_small_ring() {
    let mut registry = Registry::with_capacity(8).unwrap();
    let mut sender = EasySend::with_delay(2);
    let mut reader = EasySend::with_delay(2);

    // Nothing written yet: silence, and the reader does not start to track.
    let out = receive(&mut reader, &mut registry, 3, &[&[9.0, 9.0]]);
    assert_eq!(out, vec![vec![0.0, 0.0]]);
    assert!(!reader.read_initialized());

    send(&mut sender, &mut registry, 3, OutputMode::PassThrough, &[&[1.0, 2.0]], 1.0);
    assert_eq!(registry.get(3, 1).unwrap().write_pos(), 2);

    // The cursor is at 2: the reader starts at 0 and reads frames 0 and 1.
    let out = receive(&mut reader, &mut registry, 3, &[&[9.0, 9.0]]);
    assert_eq!(out, vec![vec![1.0, 2.0]]);
    assert!(reader.read_initialized());
    assert_eq!(reader.read_pos(), 2);

    send(&mut sender, &mut registry, 3, OutputMode::PassThrough, &[&[3.0, 4.0]], 1.0);
    assert_eq!(registry.get(3, 1).unwrap().write_pos(), 4);

    let out = receive(&mut reader, &mut registry, 3, &[&[9.0, 9.0]]);
    assert_eq!(out, vec![vec![3.0, 4.0]]);
    assert_eq!(reader.read_pos(), 4);
}

#[test]
fn half_amount_halves_what_is_stored() {
    let mut registry = Registry::with_capacity(8).unwrap();
    let mut sender = EasySend::with_delay(2);
    let mut reader = EasySend::with_delay(2);

    let out = send(&mut sender, &mut registry, 0, OutputMode::PassThrough, &[&[1.0, -3.0]], 0.5);
    // The sender's own block keeps the full level.
    assert_eq!(out, vec![vec![1.0, -3.0]]);

    let bundle = registry.get(0, 1).unwrap();
    assert_eq!(f32::from_bits(bundle.load_at(0, 0)), 0.5);
    assert_eq!(f32::from_bits(bundle.load_at(0, 1)), -1.5);

    let out = receive(&mut reader, &mut registry, 0, &[&[9.0, 9.0]]);
    assert_eq!(out, vec![vec![0.5, -1.5]]);
}

#[test]
fn redirect_silences_the_block_and_still_sends() {
    let mut registry = Registry::with_capacity(8).unwrap();
    let mut sender = EasySend::with_delay(2);
    let mut reader = EasySend::with_delay(2);

    let out = send(
        &mut sender,
        &mut registry,
        5,
        OutputMode::Redirect,
        &[&[1.0, 2.0], &[3.0, 4.0]],
        1.0,
    );
    assert_eq!(out, vec![vec![0.0, 0.0], vec![0.0, 0.0]]);

    let out = receive(&mut reader, &mut registry, 5, &[&[9.0, 9.0], &[9.0, 9.0]]);
    assert_eq!(out, vec![vec![1.0, 2.0], vec![3.0, 4.0]]);
}

#[test]
fn pass_through_leaves_the_block() {
    let mut registry = Registry::with_capacity(8).unwrap();
    let mut sender = EasySend::with_delay(2);
    let out = send(
        &mut sender,
        &mut registry,
        5,
        OutputMode::PassThrough,
        &[&[1.0, 2.0, 3.0], &[4.0, 5.0, 6.0]],
        0.25,
    );
    assert_eq!(out, vec![vec![1.0, 2.0, 3.0], vec![4.0, 5.0, 6.0]]);
    let bundle = registry.get(5, 2).unwrap();
    assert_eq!(bundle.write_pos(), 3);
    assert_eq!(f32::from_bits(bundle.load_at(1, 2)), 1.5);
}

#[test]
fn no_lead_in_means_silence_and_no_advance() {
    let mut registry = Registry::with_capacity(8).unwrap();
    let mut sender = EasySend::with_delay(4);
    let mut reader = EasySend::with_delay(4);

    send(&mut sender, &mut registry, 1, OutputMode::PassThrough, &[&[1.0, 2.0, 3.0]], 1.0);
    for _ in 0..3 {
        let out = receive(&mut reader, &mut registry, 1, &[&[9.0, 9.0]]);
        assert_eq!(out, vec![vec![0.0, 0.0]]);
        assert!(!reader.read_initialized());
        assert_eq!(reader.read_pos(), 0);
    }
}

#[test]
fn underrun_means_silence_and_no_advance() {
    let mut registry = Registry::with_capacity(8).unwrap();
    let mut sender = EasySend::with_delay(1);
    let mut reader = EasySend::with_delay(1);

    send(&mut sender, &mut registry, 1, OutputMode::PassThrough, &[&[1.0, 2.0, 3.0]], 1.0);
    // The reader starts at frame 2 and has one frame, not two.
    let out = receive(&mut reader, &mut registry, 1, &[&[9.0, 9.0]]);
    assert_eq!(out, vec![vec![0.0, 0.0]]);
    assert!(reader.read_initialized());
    assert_eq!(reader.read_pos(), 2);

    // Still one frame short of nothing: no change.
    let out = receive(&mut reader, &mut registry, 1, &[&[9.0, 9.0]]);
    assert_eq!(out, vec![vec![0.0, 0.0]]);
    assert_eq!(reader.read_pos(), 2);

    send(&mut sender, &mut registry, 1, OutputMode::PassThrough, &[&[4.0]], 1.0);
    let out = receive(&mut reader, &mut registry, 1, &[&[9.0, 9.0]]);
    assert_eq!(out, vec![vec![3.0, 4.0]]);
    assert_eq!(reader.read_pos(), 4);
}

#[test]
fn key_change_restarts_the_reader() {
    let mut registry = Registry::with_capacity(8).unwrap();
    let mut sender_a = EasySend::with_delay(2);
    let mut sender_b = EasySend::with_delay(2);
    let mut reader = EasySend::with_delay(2);

    send(&mut sender_a, &mut registry, 1, OutputMode::PassThrough, &[&[1.0, 2.0, 3.0, 4.0]], 1.0);
    send(&mut sender_b, &mut registry, 2, OutputMode::PassThrough, &[&[5.0, 6.0]], 1.0);

    let out = receive(&mut reader, &mut registry, 1, &[&[9.0, 9.0]]);
    assert_eq!(out, vec![vec![3.0, 4.0]]);
    assert_eq!(reader.read_pos(), 4);

    // On channel 2 the cursor is at 2: the reader starts again, at frame 0.
    let out = receive(&mut reader, &mut registry, 2, &[&[9.0, 9.0]]);
    assert_eq!(out, vec![vec![5.0, 6.0]]);
    assert_eq!(reader.read_pos(), 2);

    // On a channel where nothing was written it stops tracking.
    let out = receive(&mut reader, &mut registry, 7, &[&[9.0, 9.0]]);
    assert_eq!(out, vec![vec![0.0, 0.0]]);
    assert!(!reader.read_initialized());
}

#[test]
fn channel_count_change_restarts_the_reader() {
    let mut registry = Registry::with_capacity(8).unwrap();
    let mut sender = EasySend::with_delay(2);
    let mut reader = EasySend::with_delay(2);

    send(&mut sender, &mut registry, 1, OutputMode::PassThrough, &[&[1.0, 2.0]], 1.0);
    let out = receive(&mut reader, &mut registry, 1, &[&[9.0, 9.0]]);
    assert_eq!(out, vec![vec![1.0, 2.0]]);

    // Two channels on the same selector are another key, with a bundle of its own.
    let out = receive(&mut reader, &mut registry, 1, &[&[9.0, 9.0], &[9.0, 9.0]]);
    assert_eq!(out, vec![vec![0.0, 0.0], vec![0.0, 0.0]]);
    assert!(!reader.read_initialized());
    assert_eq!(registry.get(1, 2).unwrap().write_pos(), 0);
    assert_eq!(registry.get(1, 1).unwrap().write_pos(), 2);
}

#[test]
fn resolving_twice_gives_the_same_bundle() {
    let mut registry = Registry::with_capacity(4).unwrap();
    assert!(registry.get(9, 2).is_none());
    {
        let bundle = registry.resolve(9, 2);
        assert_eq!(bundle.channels(), 2);
        assert_eq!(bundle.capacity(), 4);
        assert_eq!(bundle.write_pos(), 0);
        let b = block(&[&[1.0], &[2.0]]);
        assert_eq!(bundle.write_block(&b), 0);
    }
    {
        let bundle = registry.resolve(9, 2);
        assert_eq!(bundle.write_pos(), 1);
        assert_eq!(f32::from_bits(bundle.load_at(0, 0)), 1.0);
        assert_eq!(f32::from_bits(bundle.load_at(1, 0)), 2.0);
    }
    assert!(registry.get(9, 2).is_some());
    assert!(registry.get(2, 9).is_none());
    assert!(registry.get(9, 1).is_none());
}

#[test]
fn zero_channels_is_a_no_op() {
    let mut registry = Registry::with_capacity(8).unwrap();
    let mut instance = EasySend::with_delay(2);
    let mut buffer = Block::new(Vec::new()).unwrap();
    let sent = Block::new(Vec::new()).unwrap();
    let status = instance.process(
        &mut registry,
        &params(3, Mode::Send, OutputMode::Redirect),
        &mut buffer,
        &sent,
    );
    assert_eq!(status, ProcessStatus::Normal);
    assert_eq!(buffer.channels(), 0);
    assert!(registry.get(3, 0).is_none());
    assert!(!instance.read_initialized());
}

#[test]
fn selector_is_held_to_its_range() {
    assert_eq!(clamp_channel(0), 0);
    assert_eq!(clamp_channel(63), 63);
    assert_eq!(clamp_channel(64), 63);
    assert_eq!(clamp_channel(i32::MAX), 63);
    assert_eq!(clamp_channel(-1), 0);
    assert_eq!(clamp_channel(i32::MIN), 0);
    assert_eq!(MAX_CHANNELS, 64);

    let mut registry = Registry::with_capacity(8).unwrap();
    let mut sender = EasySend::with_delay(1);
    let mut reader = EasySend::with_delay(1);
    send(&mut sender, &mut registry, 1000, OutputMode::PassThrough, &[&[7.0]], 1.0);
    assert!(registry.get(63, 1).is_some());
    let out = receive(&mut reader, &mut registry, 63, &[&[9.0]]);
    assert_eq!(out, vec![vec![7.0]]);
}

#[test]
fn reader_that_is_lapped_reads_what_lies_in_the_cells() {
    let mut registry = Registry::with_capacity(4).unwrap();
    let mut sender = EasySend::with_delay(2);
    let mut reader = EasySend::with_delay(2);

    send(&mut sender, &mut registry, 0, OutputMode::PassThrough, &[&[1.0, 2.0]], 1.0);
    let out = receive(&mut reader, &mut registry, 0, &[&[9.0]]);
    assert_eq!(out, vec![vec![1.0]]);
    assert_eq!(reader.read_pos(), 1);

    // Five more frames: frame 1 is overwritten by frame 5.
    send(
        &mut sender,
        &mut registry,
        0,
        OutputMode::PassThrough,
        &[&[3.0, 4.0, 5.0, 6.0, 7.0]],
        1.0,
    );
    let out = receive(&mut reader, &mut registry, 0, &[&[9.0]]);
    assert_eq!(out, vec![vec![6.0]]);
    assert_eq!(reader.read_pos(), 2);
}

#[test]
fn block_longer_than_the_ring_keeps_its_last_frames() {
    let mut registry = Registry::with_capacity(2).unwrap();
    let bundle = registry.resolve(0, 1);
    let b = block(&[&[1.0, 2.0, 3.0, 4.0, 5.0]]);
    assert_eq!(bundle.write_block(&b), 0);
    assert_eq!(bundle.write_pos(), 5);
    // Frames 3 and 4 remain, in cells 1 and 0.
    assert_eq!(f32::from_bits(bundle.load_at(0, 3)), 4.0);
    assert_eq!(f32::from_bits(bundle.load_at(0, 4)), 5.0);
    assert_eq!(f32::from_bits(bundle.load_at(0, 0)), 5.0);
    assert_eq!(f32::from_bits(bundle.load_at(0, 1)), 4.0);
}

#[test]
fn initialize_and_reset_stop_the_tracking() {
    let mut registry = Registry::with_capacity(8).unwrap();
    let mut sender = EasySend::with_delay(2);
    let mut reader = EasySend::with_delay(2);
    send(&mut sender, &mut registry, 0, OutputMode::PassThrough, &[&[1.0, 2.0, 3.0]], 1.0);
    receive(&mut reader, &mut registry, 0, &[&[9.0]]);
    assert!(reader.read_initialized());
    assert_eq!(reader.read_pos(), 2);

    assert!(reader.initialize());
    assert!(!reader.read_initialized());
    assert_eq!(reader.read_pos(), 2);

    receive(&mut reader, &mut registry, 0, &[&[9.0]]);
    assert!(reader.read_initialized());
    reader.reset();
    assert!(!reader.read_initialized());
    assert_eq!(reader.read_pos(), 0);
    assert_eq!(reader.delay(), 2);

    reader.deactivate();
    assert!(!reader.read_initialized());
}

#[test]
fn defaults() {
    let instance = EasySend::default();
    assert_eq!(instance.delay(), 16);
    assert_eq!(DESIRED_DELAY_SAMPLES, 16);
    assert_eq!(instance.read_pos(), 0);
    assert!(!instance.read_initialized());
    let registry = Registry::new();
    assert_eq!(registry.capacity(), 65536);
    assert_eq!(RING_CAP_POW2, 65536);
}

#[test]
fn default_delay_of_sixteen_frames() {
    let mut registry = Registry::new();
    let mut sender = EasySend::default();
    let mut reader = EasySend::default();
    let ramp: Vec<f32> = (0..32).map(|i| i as f32).collect();

    send(&mut sender, &mut registry, 0, OutputMode::PassThrough, &[&ramp[0..8]], 1.0);
    let out = receive(&mut reader, &mut registry, 0, &[&[9.0; 8]]);
    assert_eq!(out, vec![vec![0.0; 8]]);
    assert!(!reader.read_initialized());

    send(&mut sender, &mut registry, 0, OutputMode::PassThrough, &[&ramp[8..16]], 1.0);
    // Sixteen frames written: the reader starts at frame 0.
    let out = receive(&mut reader, &mut registry, 0, &[&[9.0; 8]]);
    assert_eq!(out, vec![ramp[0..8].to_vec()]);

    send(&mut sender, &mut registry, 0, OutputMode::PassThrough, &[&ramp[16..24]], 1.0);
    let out = receive(&mut reader, &mut registry, 0, &[&[9.0; 8]]);
    assert_eq!(out, vec![ramp[8..16].to_vec()]);
    assert_eq!(reader.read_pos(), 16);
    assert_eq!(registry.get(0, 1).unwrap().write_pos(), 24);
}

#[test]
fn reader_reproduces_a_long_stream() {
    let mut registry = Registry::with_capacity(8).unwrap();
    let mut sender = EasySend::with_delay(4);
    let mut reader = EasySend::with_delay(4);

    // Blocks of two frames on two channels; the reader lags by two blocks,
    // and the stream runs five times round the ring.
    for call in 0..20 {
        let left = [(4 * call) as f32, (4 * call + 1) as f32];
        let right = [(4 * call + 2) as f32, (4 * call + 3) as f32];
        send(&mut sender, &mut registry, 2, OutputMode::Redirect, &[&left, &right], 1.0);
        let out = receive(&mut reader, &mut registry, 2, &[&[9.0, 9.0], &[9.0, 9.0]]);
        if call == 0 {
            assert_eq!(out, vec![vec![0.0, 0.0], vec![0.0, 0.0]]);
            assert!(!reader.read_initialized());
        } else {
            let then = call - 1;
            assert_eq!(
                out,
                vec![
                    vec![(4 * then) as f32, (4 * then + 1) as f32],
                    vec![(4 * then + 2) as f32, (4 * then + 3) as f32],
                ]
            );
            assert_eq!(reader.read_pos(), 2 * call);
        }
    }
    assert_eq!(registry.get(2, 2).unwrap().write_pos(), 40);
}

#[test]
fn two_senders_on_one_key_take_turns() {
    let mut registry = Registry::with_capacity(8).unwrap();
    let mut first = EasySend::with_delay(4);
    let mut second = EasySend::with_delay(4);
    let mut reader = EasySend::with_delay(4);

    send(&mut first, &mut registry, 0, OutputMode::PassThrough, &[&[1.0, 2.0]], 1.0);
    send(&mut second, &mut registry, 0, OutputMode::PassThrough, &[&[3.0, 4.0]], 1.0);
    let out = receive(&mut reader, &mut registry, 0, &[&[9.0, 9.0, 9.0, 9.0]]);
    assert_eq!(out, vec![vec![1.0, 2.0, 3.0, 4.0]]);
}

#[test]
fn reader_with_a_delay_shorter_than_its_block_waits() {
    let mut registry = Registry::with_capacity(8).unwrap();
    let mut sender = EasySend::with_delay(1);
    let mut reader = EasySend::with_delay(1);

    send(&mut sender, &mut registry, 0, OutputMode::PassThrough, &[&[1.0, 2.0]], 1.0);
    // The reader starts one frame behind the cursor, and a block of two is not there yet.
    let out = receive(&mut reader, &mut registry, 0, &[&[9.0, 9.0]]);
    assert_eq!(out, vec![vec![0.0, 0.0]]);
    assert!(reader.read_initialized());
    assert_eq!(reader.read_pos(), 1);

    send(&mut sender, &mut registry, 0, OutputMode::PassThrough, &[&[3.0, 4.0]], 1.0);
    let out = receive(&mut reader, &mut registry, 0, &[&[9.0, 9.0]]);
    assert_eq!(out, vec![vec![2.0, 3.0]]);
    assert_eq!(reader.read_pos(), 3);
}
