use vstd::prelude::*;
use crate::node::{LockState, Node, WriteLock};

verus! {

/// Number of pre-allocated slots in a pool.
pub const PRE_ALLOC_SIZE: usize = 16;

/// A handle to a published node: either an index into the owning cell's
/// pre-allocated pool, or a heap node owned outright.
pub enum NodeRef<T> {
    Pooled(usize),
    Heaped(Box<Node<T>>),
}

/// A fixed array of pre-allocated node slots shared by all writers of one
/// cell. A writer claims a slot by moving it from `Available` to `Writing`;
/// the claim is the only point of contention, and a claimed slot belongs to
/// its writer alone until it is published.
pub struct PreAlloc<T> {
    pub slots: Vec<Node<T>>,
}

impl<T> PreAlloc<T> {
    /// Every slot is pool-owned and the pool has its fixed size.
    pub open spec fn wf(self) -> bool {
        &&& self.slots@.len() == PRE_ALLOC_SIZE
        &&& forall|i: int| 0 <= i < self.slots@.len() ==> self.slots@[i].write_locked is Local
    }

    /// The slot at `i` is free for a writer to claim.
    pub open spec fn available(self, i: int) -> bool {
        self.slots@[i].write_locked == WriteLock::Local(LockState::Available)
    }

    /// The slot at `i` holds a published node.
    pub open spec fn published(self, i: int) -> bool {
        &&& self.slots@[i].write_locked == WriteLock::Local(LockState::ReadLocked)
        &&& self.slots@[i].value is Some
    }

    /// A pool whose slots are all free and hold no value yet.
    pub fn new() -> (r: Self)
        ensures
            r.wf(),
            forall|i: int| 0 <= i < PRE_ALLOC_SIZE ==> r.available(i),
    {
        let mut slots: Vec<Node<T>> = Vec::new();
        while slots.len() < PRE_ALLOC_SIZE
            invariant
                slots@.len() <= PRE_ALLOC_SIZE,
                forall|i: int| 0 <= i < slots@.len() ==> slots@[i].write_locked
                    == WriteLock::Local(LockState::Available),
            decreases PRE_ALLOC_SIZE - slots@.len(),
        {
            slots.push(Node::new_uninit());
        }
        PreAlloc { slots }
    }

    /// Claim the first free slot, fill it with `value` and publish it; when
    /// every slot is taken, fall back to a fresh heap node. Exactly the
    /// claimed slot changes.
    pub fn set(&mut self, value: T) -> (r: NodeRef<T>)
        requires
            old(self).wf(),
        ensures
            final(self).wf(),
            match r {
                NodeRef::Pooled(i) => {
                    &&& i < PRE_ALLOC_SIZE
                    &&& old(self).available(i as int)
                    &&& forall|j: int| 0 <= j < i ==> !old(self).available(j)
                    &&& final(self).slots@ == old(self).slots@.update(
                        i as int,
                        (Node { write_locked: WriteLock::Local(LockState::ReadLocked), value: Some(value) }),
                    )
                },
                NodeRef::Heaped(n) => {
                    &&& (forall|j: int| 0 <= j < PRE_ALLOC_SIZE ==> !old(self).available(j))
                    &&& final(self).slots@ == old(self).slots@
                    &&& n.is_heap_node()
                    &&& n.value == Some(value)
                },
            },
            (exists|j: int| 0 <= j < PRE_ALLOC_SIZE && old(self).available(j)) <==> r is Pooled,
    {
        let n = self.slots.len();
        let mut i: usize = 0;
        while i < n
            invariant
                n == PRE_ALLOC_SIZE,
                i <= n,
                self.wf(),
                self.slots@ == old(self).slots@,
                forall|j: int| 0 <= j < i ==> !old(self).available(j),
            decreases n - i,
        {
            let claimed = self.slots[i].write_locked.try_write();
            if claimed {
                self.slots[i].set(value);
                proof {
                    assert(self.slots@ =~= old(self).slots@.update(
                        i as int,
                        (Node {
                            write_locked: WriteLock::Local(LockState::ReadLocked),
                            value: Some(value),
                        }),
                    ));
                    assert(exists|j: int| 0 <= j < PRE_ALLOC_SIZE && old(self).available(j)) by {
                        assert(old(self).available(i as int));
                    }
                }
                return NodeRef::Pooled(i);
            }
            proof {
                assert(self.slots@ =~= old(self).slots@);
            }
            i = i + 1;
        }
        NodeRef::Heaped(Node::new_boxed(value))
    }
}

} // verus!
