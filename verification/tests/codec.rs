use cache_padded::CachePadded;
use uchan::{Block, Slot, BLOCK_ALIGN, BLOCK_SIZE, DISCONNECT_BIT, INDEX_SHIFT};

#[test]
fn constants_fit_together() {
    assert_eq!(BLOCK_ALIGN, 4096);
    assert_eq!(BLOCK_SIZE, 256);
    assert_eq!(INDEX_SHIFT, 1);
    assert_eq!(DISCONNECT_BIT, 1);
}

#[test]
fn encode_packs_address_index_and_bit() {
    assert_eq!(Block::<u8>::encode(0, 0, false), 0);
    assert_eq!(Block::<u8>::encode(8192, 1, false), 8194);
    assert_eq!(Block::<u8>::encode(8192, 3, true), 8199);
    assert_eq!(Block::<u8>::encode(4096, 2047, true), 8191);
}

#[test]
fn decode_unpacks_what_was_packed() {
    assert_eq!(Block::<u8>::decode(8199), (8192, 3, true));
    assert_eq!(Block::<u8>::decode(0), (0, 0, false));
    assert_eq!(Block::<u8>::decode(8191), (4096, 2047, true));
    for index in [0usize, 1, 255, 256, 2047] {
        for bit in [false, true] {
            let word = Block::<u8>::encode(12288, index, bit);
            assert_eq!(Block::<u8>::decode(word), (12288, index, bit));
        }
    }
}

#[test]
fn decode_then_encode_gives_the_word() {
    for word in [0usize, 1, 2, 4095, 4096, 123457] {
        let (block, index, bit) = Block::<u8>::decode(word);
        assert_eq!(Block::<u8>::encode(block, index, bit), word);
    }
}

#[test]
#[allow(deprecated)]
fn fetch_add_returns_the_previous_word() {
    let mut word = CachePadded::new(4098usize);
    assert_eq!(Block::<u8>::fetch_add(&mut word, 2), 4098);
    assert_eq!(*word, 4100);
    let mut last = CachePadded::new(usize::MAX);
    assert_eq!(Block::<u8>::fetch_add(&mut last, 2), usize::MAX);
    assert_eq!(*last, 1);
}

#[test]
fn drop_counts_and_tells_when_nobody_is_left() {
    let mut block = Block::<u8>::new();
    assert_eq!(block.slots.len(), 256);
    assert!(!block.drop(3));
    assert_eq!(block.pending, 3);
    assert!(!block.drop(-2));
    assert!(block.drop(-1));
    assert_eq!(block.pending, 0);
    block.pending = isize::MAX;
    assert!(!block.drop(1));
    assert_eq!(block.pending, isize::MIN);
}

#[test]
fn a_slot_gives_its_message_once_it_is_written() {
    let mut slot = Slot::<u8>::new();
    assert_eq!(slot.read(), None);
    assert!(!slot.ready);
    slot.write(7);
    assert!(slot.ready);
    assert_eq!(slot.read(), Some(7));
    assert!(slot.ready);
    assert!(slot.value.is_none());
}
