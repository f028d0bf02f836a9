use lockfree_cell::node::Node;
use lockfree_cell::pool::{NodeRef, PreAlloc};
use lockfree_cell::{sz2, sz3};

#[test]
fn shared_pool_cell_reads_back_writes() {
    let mut cell = sz2::LockFreeCell::new(42u32);
    assert_eq!(cell.read(|x| *x), 42);
    cell.write_discard(|x| x + 100);
    assert_eq!(cell.read(|x| *x), 142);
}

#[test]
fn shared_pool_cell_never_heap_allocates_single_threaded() {
    // The pool has sixteen slots and at most eight are ever occupied with a
    // single writer, so even many more writes than slots stay inside the
    // pool.
    let mut cell = sz2::LockFreeCell::new(0u64);
    for i in 0..100 {
        cell.write_discard(move |_| i);
    }
    assert_eq!(cell.heap_allocations(), 0);
    assert_eq!(cell.read(|x| *x), 99);
}

#[test]
fn local_pool_cell_reads_back_writes() {
    let mut cell = sz3::LockFreeCell::new(42u32);
    assert_eq!(cell.read(|x| *x), 42);
    cell.write_discard(|x| x + 100);
    assert_eq!(cell.read(|x| *x), 142);
}

#[test]
fn local_pool_cell_never_heap_allocates_single_threaded() {
    let mut cell = sz3::LockFreeCell::new(0u64);
    for i in 0..100 {
        cell.write_discard(move |_| i);
    }
    assert_eq!(cell.heap_allocations(), 0);
    assert_eq!(cell.read(|x| *x), 99);
}

#[test]
fn pool_claims_slots_before_falling_back() {
    let mut pool: PreAlloc<u32> = PreAlloc::new();
    // Sixteen claims fill the sixteen slots.
    for n in 0..16u32 {
        match pool.set(n) {
            NodeRef::Pooled(i) => assert_eq!(i, n as usize),
            NodeRef::Heaped(_) => panic!("slot expected while the pool has room"),
        }
    }
    // The seventeenth claim falls back to the heap.
    match pool.set(16) {
        NodeRef::Pooled(_) => panic!("the pool is full"),
        NodeRef::Heaped(node) => assert_eq!(*node.get(), 16),
    }
}

#[test]
fn fresh_nodes_carry_their_values() {
    let boxed: Box<Node<u8>> = Node::new_boxed(7);
    assert_eq!(*boxed.get(), 7);
    let raw: Box<Node<u8>> = Node::new_raw(9);
    assert_eq!(*raw.get(), 9);
}
