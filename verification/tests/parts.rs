use easy_send::arith::is_power_of_two;
use easy_send::block::Block;
use easy_send::channel_ring::ChannelRing;
use easy_send::registry::Registry;
use easy_send::ring::Ring;

#[test]
fn powers_of_two() {
    assert!(!is_power_of_two(0));
    assert!(is_power_of_two(1));
    assert!(is_power_of_two(2));
    assert!(!is_power_of_two(3));
    assert!(is_power_of_two(65536));
    assert!(!is_power_of_two(65535));
    assert!(!is_power_of_two(usize::MAX));
    assert!(is_power_of_two(usize::MAX / 2 + 1));
}

#[test]
fn ring_starts_silent() {
    let ring = Ring::new(4);
    assert_eq!(ring.capacity(), 4);
    for idx in 0..9 {
        assert_eq!(ring.load_at(idx), 0);
    }
}

#[test]
fn ring_index_wraps_at_capacity() {
    let mut ring = Ring::new(8);
    ring.store_at(1, 11);
    assert_eq!(ring.load_at(1), 11);
    assert_eq!(ring.load_at(9), 11);
    assert_eq!(ring.load_at(8 * 1000 + 1), 11);
    assert_eq!(ring.load_at(0), 0);
    ring.store_at(9, 22);
    assert_eq!(ring.load_at(1), 22);
    ring.store_at(usize::MAX, 33);
    assert_eq!(ring.load_at(7), 33);
}

#[test]
fn ring_of_one_cell() {
    let mut ring = Ring::new(1);
    ring.store_at(5, 1);
    ring.store_at(6, 2);
    assert_eq!(ring.load_at(0), 2);
}

#[test]
fn block_must_be_rectangular() {
    assert!(Block::new(vec![vec![1, 2], vec![3]]).is_none());
    assert!(Block::new(vec![vec![], vec![3]]).is_none());
    let block = Block::new(vec![vec![1, 2], vec![3, 4]]).unwrap();
    assert_eq!(block.channels(), 2);
    assert_eq!(block.samples(), 2);
    assert_eq!(block.sample(1, 0), 3);
    assert_eq!(block.into_channels(), vec![vec![1, 2], vec![3, 4]]);
    let empty = Block::new(Vec::new()).unwrap();
    assert_eq!(empty.channels(), 0);
    assert_eq!(empty.samples(), 0);
}

#[test]
fn block_silence_and_samples() {
    let mut block = Block::silent(2, 3);
    assert_eq!(block.channels(), 2);
    assert_eq!(block.samples(), 3);
    block.set_sample(1, 2, 7);
    assert_eq!(block.sample(1, 2), 7);
    assert_eq!(block.sample(0, 2), 0);
    block.silence();
    assert_eq!(block.into_channels(), vec![vec![0, 0, 0], vec![0, 0, 0]]);
}

#[test]
fn cursor_counts_round_the_word_size() {
    let mut bundle = ChannelRing::new(1, 4);
    assert_eq!(bundle.reserve(usize::MAX), 0);
    assert_eq!(bundle.write_pos(), usize::MAX);
    let block = Block::new(vec![vec![1, 2, 3]]).unwrap();
    assert_eq!(bundle.write_block(&block), usize::MAX);
    assert_eq!(bundle.write_pos(), 2);
    // Frame usize::MAX lies in cell 3, the next two in cells 0 and 1.
    assert_eq!(bundle.load_at(0, 3), 1);
    assert_eq!(bundle.load_at(0, 0), 2);
    assert_eq!(bundle.load_at(0, 1), 3);
    assert_eq!(bundle.load_at(0, 2), 0);
}

#[test]
fn read_block_copies_every_channel() {
    let mut bundle = ChannelRing::new(2, 4);
    let block = Block::new(vec![vec![1, 2, 3], vec![4, 5, 6]]).unwrap();
    bundle.write_block(&block);
    let mut out = Block::silent(2, 2);
    bundle.read_block(1, &mut out);
    assert_eq!(out.into_channels(), vec![vec![2, 3], vec![5, 6]]);
}

#[test]
fn registry_capacity_must_be_a_power_of_two() {
    assert!(Registry::with_capacity(0).is_none());
    assert!(Registry::with_capacity(6).is_none());
    let registry = Registry::with_capacity(16).unwrap();
    assert_eq!(registry.capacity(), 16);
}

#[test]
fn keys_with_swapped_parts_are_different() {
    let mut registry = Registry::with_capacity(2).unwrap();
    registry.resolve(1, 2).reserve(5);
    registry.resolve(2, 1).reserve(7);
    assert_eq!(registry.get(1, 2).unwrap().write_pos(), 5);
    assert_eq!(registry.get(2, 1).unwrap().write_pos(), 7);
    assert_eq!(registry.get(1, 2).unwrap().channels(), 2);
    assert_eq!(registry.get(2, 1).unwrap().channels(), 1);
}
