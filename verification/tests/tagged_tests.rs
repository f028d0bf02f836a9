use lockfree_cell::tagged::{read_acquire, read_release, write_acquire, write_release};
use lockfree_cell::SpinCell;

#[test]
fn spin_cell_reads_back_writes() {
    let mut cell = SpinCell::new(42u32);
    assert_eq!(cell.read(|x| *x), 42);
    cell.write_discard(|x| x + 100);
    assert_eq!(cell.read(|x| *x), 142);
}

#[test]
fn pack_and_unpack_are_inverse() {
    let word = SpinCell::<u32>::pack(0x40, 3);
    assert_eq!(word, 0x43);
    let (addr, count) = SpinCell::<u32>::unpack(word);
    assert_eq!(addr, 0x40);
    assert_eq!(count, 3);
    let (addr, count) = SpinCell::<u32>::unpack(0x1000);
    assert_eq!(addr, 0x1000);
    assert_eq!(count, 0);
}

#[test]
fn seven_readers_fit_and_the_eighth_waits() {
    // An aligned address with no readers inside.
    let mut word: usize = 0x50;
    // Seven readers enter, one after the other.
    for expected in 1..=7usize {
        word = read_acquire(word).expect("a place is free");
        assert_eq!(word & 0b111, expected);
        assert_eq!(word & !0b111, 0x50);
    }
    // The eighth finds the cell saturated.
    assert!(read_acquire(word).is_none());
    // One holder leaves; a reader fits again.
    word = read_release(word);
    assert_eq!(word & 0b111, 6);
    assert!(read_acquire(word).is_some());
}

#[test]
fn a_writer_excludes_readers_and_other_writers() {
    let empty: usize = 0x88;
    // A writer takes the sentinel only on an empty cell.
    let locked = write_acquire(empty).expect("no reader is inside");
    assert_eq!(locked & 0b111, 7);
    assert_eq!(locked & !0b111, 0x88);
    // While it holds the cell, neither readers nor writers enter.
    assert!(read_acquire(locked).is_none());
    assert!(write_acquire(locked).is_none());
    // Releasing restores the empty word.
    assert_eq!(write_release(locked), 0x88);
    // With one reader inside, a writer is refused.
    let one_reader = read_acquire(empty).unwrap();
    assert!(write_acquire(one_reader).is_none());
}
