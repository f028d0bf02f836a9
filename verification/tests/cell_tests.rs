use std::sync::{Arc, Mutex};
use std::time::Instant;

use lockfree_cell::LockFreeCell;

const ITERS: usize = 1_000_000;

#[test]
fn mutex_bench() {
    let ac = Mutex::new(42u32);
    let start = Instant::now();
    let mut res = 0;
    for _ in 0..ITERS {
        res += *ac.lock().unwrap();
    }
    println!("mutex_bench: {:?} res: {res}", start.elapsed());
}

#[test]
fn my_lock_free_cell_bench() {
    let ac: LockFreeCell<u32> = LockFreeCell::new(42u32);
    let start = Instant::now();
    let mut res = 0;
    for _ in 0..ITERS {
        ac.read(|x| res += *x);
    }
    println!("my_lock_free_cell_bench: {:?}, res: {res}", start.elapsed());
}

#[test]
fn my_lock_free_cell_update() {
    let mut ac: LockFreeCell<u32> = LockFreeCell::new(42u32);
    let start = Instant::now();
    for _ in 0..ITERS {
        ac.write_discard(|x| x + 43)
    }
    println!("my_lock_free_cell_update: {:?}", start.elapsed());
}

#[test]
fn basic_read() {
    let lock_free = LockFreeCell::new(42);
    let result = lock_free.read(|x| *x);
    assert_eq!(result, 42);
}

#[test]
fn basic_drop() {
    let lock_free = Arc::new(LockFreeCell::new(42));
    let lock_free_c = lock_free.clone();
    let result = lock_free_c.read(|x| *x);
    assert_eq!(result, 42);
    let result = lock_free.read(|x| *x);
    assert_eq!(result, 42);
    drop(lock_free);
    let result = lock_free_c.read(|x| *x);
    assert_eq!(result, 42);
    drop(lock_free_c);
}

#[test]
fn basic_read_write() {
    let mut lock_free = LockFreeCell::new(42);

    let result = lock_free.read(|x| *x);
    assert_eq!(result, 42);

    lock_free.write_discard(|x| x + 100);

    let result = lock_free.read(|x| *x);
    assert_eq!(result, 142);
}

#[test]
fn thirty_writes_reach_3042() {
    // Three writers, ten increments of 100 each, all completed before the
    // final read: 42 + 100 * 30.
    let mut cell = LockFreeCell::new(42u32);
    for _writer in 0..3 {
        for _ in 0..10 {
            cell.write_discard(|x| *x + 100);
        }
    }
    assert_eq!(cell.read(|x| *x), 3042);
}

#[test]
fn read_sees_latest_write_only() {
    let mut cell = LockFreeCell::new(1u64);
    cell.write_discard(|x| x * 10);
    cell.write_discard(|x| x + 5);
    assert_eq!(cell.read(|x| *x), 15);
}
