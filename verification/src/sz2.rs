use vstd::prelude::*;
use vstd::set_lib::{lemma_int_range, lemma_len_subset, set_int_range};
use vstd::seq_lib::seq_to_set_is_finite;
use crate::node::{LockState, WriteLock};
use crate::pool::{NodeRef, PreAlloc, PRE_ALLOC_SIZE};

verus! {

/// How many retired nodes gather before the reclamation queue recycles or
/// frees them all at once. A tuning knob, not a correctness parameter.
pub const BATCH: usize = 8;

/// A single-value cell whose writers obtain node storage from a shared
/// pre-allocated pool and fall back to the heap only when every slot is
/// taken.
///
/// A write computes the next value once and installs it with one
/// unconditional swap: when writers race, the last swap wins and the values
/// computed by the losers are discarded. The displaced node goes to the
/// retirement queue, whose reclamation either returns a pool slot to
/// `Available` or frees a heap fallback node, by the node's storage tag.
pub struct LockFreeCell<T> {
    pre_alloc: PreAlloc<T>,
    head: NodeRef<T>,
    retired: Vec<NodeRef<T>>,
    heap_allocs: usize,
}

impl<T> LockFreeCell<T> {
    /// The pool slot index a handle occupies; heap handles occupy none.
    spec fn ref_idx(r: NodeRef<T>) -> int {
        match r {
            NodeRef::Pooled(i) => i as int,
            NodeRef::Heaped(_) => -1,
        }
    }

    /// A handle points at a published node: a `ReadLocked`, initialized pool
    /// slot, or an initialized heap node.
    spec fn ref_ok(self, r: NodeRef<T>) -> bool {
        match r {
            NodeRef::Pooled(i) => i < PRE_ALLOC_SIZE && self.pre_alloc.published(i as int),
            NodeRef::Heaped(n) => n.is_heap_node(),
        }
    }

    /// Slot `i` is occupied by the current node or by a retired one.
    spec fn references(self, i: int) -> bool {
        Self::ref_idx(self.head) == i || exists|k: int|
            0 <= k < self.retired@.len() && Self::ref_idx(#[trigger] self.retired@[k]) == i
    }

    /// Everything except the retirement queue's room for one more node: the
    /// pool is intact, the current and every retired handle point at
    /// published nodes, no slot is occupied twice, and every unoccupied slot
    /// is free for a writer to claim.
    spec fn wf_core(self) -> bool {
        &&& self.pre_alloc.wf()
        &&& self.ref_ok(self.head)
        &&& forall|k: int| 0 <= k < self.retired@.len() ==> self.ref_ok(#[trigger] self.retired@[k])
        &&& forall|k: int|
            0 <= k < self.retired@.len() && self.retired@[k] is Pooled ==> Self::ref_idx(
                #[trigger] self.retired@[k],
            ) != Self::ref_idx(self.head)
        &&& forall|k1: int, k2: int|
            0 <= k1 < k2 < self.retired@.len() && self.retired@[k1] is Pooled
                ==> Self::ref_idx(#[trigger] self.retired@[k1]) != Self::ref_idx(
                #[trigger] self.retired@[k2],
            )
        &&& forall|i: int|
            0 <= i < PRE_ALLOC_SIZE && !self.references(i) ==> self.pre_alloc.available(i)
    }

    /// The cell invariant: every constructor establishes it and every
    /// operation preserves it.
    pub closed spec fn wf(self) -> bool {
        &&& self.wf_core()
        &&& self.retired@.len() < BATCH
    }

    /// The one logical value the cell holds.
    pub closed spec fn current(self) -> T {
        match self.head {
            NodeRef::Pooled(i) => self.pre_alloc.slots@[i as int].value.unwrap(),
            NodeRef::Heaped(n) => n.value.unwrap(),
        }
    }

    /// How many heap fallback nodes the cell has ever allocated beyond its
    /// pre-allocated pool.
    pub closed spec fn heap_alloc_count(self) -> nat {
        self.heap_allocs as nat
    }

    /// The state just before a displaced node enters the retirement queue:
    /// the invariant holds of everything else, and the node itself points at
    /// a published slot that nothing in the cell occupies.
    spec fn retire_pre(self, node: NodeRef<T>) -> bool {
        &&& self.pre_alloc.wf()
        &&& self.ref_ok(self.head)
        &&& self.ref_ok(node)
        &&& forall|k: int| 0 <= k < self.retired@.len() ==> self.ref_ok(#[trigger] self.retired@[k])
        &&& forall|k: int|
            0 <= k < self.retired@.len() && self.retired@[k] is Pooled ==> Self::ref_idx(
                #[trigger] self.retired@[k],
            ) != Self::ref_idx(self.head)
        &&& forall|k1: int, k2: int|
            0 <= k1 < k2 < self.retired@.len() && self.retired@[k1] is Pooled
                ==> Self::ref_idx(#[trigger] self.retired@[k1]) != Self::ref_idx(
                #[trigger] self.retired@[k2],
            )
        &&& node is Pooled ==> Self::ref_idx(node) != Self::ref_idx(self.head)
        &&& node is Pooled ==> forall|k: int|
            0 <= k < self.retired@.len() ==> Self::ref_idx(node) != Self::ref_idx(
                #[trigger] self.retired@[k],
            )
        &&& forall|i: int|
            0 <= i < PRE_ALLOC_SIZE && !self.references(i) && Self::ref_idx(node) != i
                ==> self.pre_alloc.available(i)
        &&& self.retired@.len() < BATCH
    }

    /// With one writer at a time, at most `BATCH` slots are occupied — the
    /// current node and the retired ones — so the pool always has a free
    /// slot.
    proof fn lemma_free_slot(self)
        requires
            self.wf(),
        ensures
            exists|i: int| 0 <= i < PRE_ALLOC_SIZE && self.pre_alloc.available(i),
    {
        let idxs = self.retired@.map_values(|r: NodeRef<T>| Self::ref_idx(r)).push(
            Self::ref_idx(self.head),
        );
        let occupied = idxs.to_set();
        seq_to_set_is_finite(idxs);
        idxs.lemma_cardinality_of_set();
        assert(occupied.len() <= idxs.len() == self.retired@.len() + 1);
        if forall|i: int| 0 <= i < PRE_ALLOC_SIZE ==> !self.pre_alloc.available(i) {
            assert forall|i: int| 0 <= i < PRE_ALLOC_SIZE implies occupied.contains(i) by {
                assert(self.references(i));
                if Self::ref_idx(self.head) == i {
                    assert(idxs[idxs.len() - 1] == i);
                } else {
                    let k = choose|k: int|
                        0 <= k < self.retired@.len() && Self::ref_idx(
                            #[trigger] self.retired@[k],
                        ) == i;
                    assert(idxs[k] == i);
                }
                assert(idxs.contains(i));
            }
            assert(set_int_range(0, PRE_ALLOC_SIZE as int).subset_of(occupied));
            lemma_int_range(0, PRE_ALLOC_SIZE as int);
            lemma_len_subset(set_int_range(0, PRE_ALLOC_SIZE as int), occupied);
            assert(false);
        }
    }

    /// A cell holding `value` in the first pool slot, with nothing retired
    /// and nothing heap-allocated.
    pub fn new(value: T) -> (r: Self)
        ensures
            r.wf(),
            r.current() == value,
            r.heap_alloc_count() == 0,
    {
        let mut pre_alloc = PreAlloc::new();
        let ghost p0 = pre_alloc;
        let head = pre_alloc.set(value);
        let r = LockFreeCell { pre_alloc, head, retired: Vec::new(), heap_allocs: 0 };
        proof {
            assert(p0.available(0));
            assert(head is Pooled);
            assert forall|j: int|
                0 <= j < PRE_ALLOC_SIZE && !r.references(j)
                    implies r.pre_alloc.available(j) by {
                assert(j != Self::ref_idx(r.head));
                assert(p0.available(j));
                assert(r.pre_alloc.slots@[j] == p0.slots@[j]);
            }
            assert(r.wf_core());
        }
        r
    }

    /// Run `f` on the current value and hand its result back. The callback
    /// sees exactly the value most recently published, never a partial value
    /// and never a recycled slot.
    pub fn read<R, F: FnOnce(&T) -> R>(&self, f: F) -> (r: R)
        requires
            self.wf(),
            call_requires(f, (&self.current(),)),
        ensures
            call_ensures(f, (&self.current(),), r),
    {
        match &self.head {
            NodeRef::Pooled(i) => f(self.pre_alloc.slots[*i].get()),
            NodeRef::Heaped(n) => f(n.get()),
        }
    }

    /// Replace the current value with `f` of it: compute the next value
    /// once, obtain storage from the pool, install it with a single swap,
    /// and retire the displaced node. With one writer at a time the pool
    /// always has a free slot, so the heap allocation count never grows.
    pub fn write_discard<F: FnOnce(&T) -> T>(&mut self, f: F)
        requires
            old(self).wf(),
            call_requires(f, (&old(self).current(),)),
        ensures
            final(self).wf(),
            call_ensures(f, (&old(self).current(),), final(self).current()),
            final(self).heap_alloc_count() == old(self).heap_alloc_count(),
    {
        proof {
            self.lemma_free_slot();
        }
        let ghost s0 = *self;
        let new_value = match &self.head {
            NodeRef::Pooled(i) => f(self.pre_alloc.slots[*i].get()),
            NodeRef::Heaped(n) => f(n.get()),
        };
        let mut new_head = self.pre_alloc.set(new_value);
        if let NodeRef::Heaped(_) = &new_head {
            self.heap_allocs = self.heap_allocs + 1;
        }
        core::mem::swap(&mut self.head, &mut new_head);
        proof {
            let i = Self::ref_idx(self.head);
            assert(s0.pre_alloc.available(i));
            assert(Self::ref_idx(s0.head) != i);
            assert forall|k: int|
                0 <= k < self.retired@.len() implies Self::ref_idx(#[trigger] self.retired@[k])
                != i by {
                assert(s0.ref_ok(s0.retired@[k]));
            }
            assert forall|j: int|
                0 <= j < PRE_ALLOC_SIZE && !self.references(j) && Self::ref_idx(new_head) != j
                    implies self.pre_alloc.available(j) by {
                if j != i {
                    assert(!s0.references(j)) by {
                        if s0.references(j) {
                            if Self::ref_idx(s0.head) != j {
                                let k = choose|k: int|
                                    0 <= k < s0.retired@.len() && Self::ref_idx(
                                        #[trigger] s0.retired@[k],
                                    ) == j;
                                assert(Self::ref_idx(self.retired@[k]) == j);
                            }
                        }
                    }
                    assert(s0.pre_alloc.available(j));
                }
            }
            assert(self.retire_pre(new_head));
        }
        self.retire(new_head);
    }

    /// How many heap fallback nodes this cell has allocated so far.
    pub fn heap_allocations(&self) -> (r: usize)
        ensures
            r as nat == self.heap_alloc_count(),
    {
        self.heap_allocs
    }

    /// Hand a displaced node to the retirement queue; once a full batch has
    /// gathered, recycle or free the whole batch.
    fn retire(&mut self, node: NodeRef<T>)
        requires
            old(self).retire_pre(node),
        ensures
            final(self).wf(),
            final(self).current() == old(self).current(),
            final(self).heap_alloc_count() == old(self).heap_alloc_count(),
    {
        let ghost s0 = *self;
        self.retired.push(node);
        proof {
            assert(self.retired@ == s0.retired@.push(node));
            assert(self.retired@[self.retired@.len() - 1] == node);
            assert forall|j: int|
                0 <= j < PRE_ALLOC_SIZE && !self.references(j)
                    implies self.pre_alloc.available(j) by {
                assert(Self::ref_idx(node) != j);
                assert(!s0.references(j)) by {
                    if s0.references(j) {
                        if Self::ref_idx(s0.head) != j {
                            let k = choose|k: int|
                                0 <= k < s0.retired@.len() && Self::ref_idx(
                                    #[trigger] s0.retired@[k],
                                ) == j;
                            assert(Self::ref_idx(self.retired@[k]) == j);
                        }
                    }
                }
            }
            assert(self.wf_core());
        }
        if self.retired.len() == BATCH {
            self.reclaim();
        }
    }

    /// Free a full batch: every retired pool slot returns to `Available` and
    /// every retired heap node is dropped. Only retired slots are touched —
    /// the current node is never among them.
    fn reclaim(&mut self)
        requires
            old(self).wf_core(),
        ensures
            final(self).wf_core(),
            final(self).retired@.len() == 0,
            final(self).current() == old(self).current(),
            final(self).head == old(self).head,
            final(self).heap_alloc_count() == old(self).heap_alloc_count(),
    {
        while self.retired.len() > 0
            invariant
                self.wf_core(),
                self.head == old(self).head,
                self.current() == old(self).current(),
                self.heap_allocs == old(self).heap_allocs,
            decreases self.retired@.len(),
        {
            let ghost pre = *self;
            let node = match self.retired.pop() {
                Some(n) => n,
                None => unreached(),
            };
            proof {
                assert(node == pre.retired@[pre.retired@.len() - 1]);
                assert(pre.ref_ok(node));
            }
            match node {
                NodeRef::Pooled(i) => {
                    self.pre_alloc.slots[i].write_locked = WriteLock::Local(
                        LockState::Available,
                    );
                    proof {
                        assert(Self::ref_idx(pre.head) != i as int);
                        assert(self.current() == pre.current());
                        assert forall|j: int|
                            0 <= j < PRE_ALLOC_SIZE && !self.references(j)
                                implies self.pre_alloc.available(j) by {
                            if j != i as int {
                                assert(!pre.references(j)) by {
                                    if pre.references(j) {
                                        if Self::ref_idx(pre.head) != j {
                                            let k = choose|k: int|
                                                0 <= k < pre.retired@.len() && Self::ref_idx(
                                                    #[trigger] pre.retired@[k],
                                                ) == j;
                                            if k < pre.retired@.len() - 1 {
                                                assert(Self::ref_idx(self.retired@[k]) == j);
                                            } else {
                                                assert(j == i as int);
                                            }
                                        }
                                    }
                                }
                                assert(pre.pre_alloc.available(j));
                            }
                        }
                        assert(self.wf_core());
                    }
                },
                NodeRef::Heaped(_) => {
                    proof {
                        assert forall|j: int|
                            0 <= j < PRE_ALLOC_SIZE && !self.references(j)
                                implies self.pre_alloc.available(j) by {
                            assert(!pre.references(j)) by {
                                if pre.references(j) {
                                    if Self::ref_idx(pre.head) != j {
                                        let k = choose|k: int|
                                            0 <= k < pre.retired@.len() && Self::ref_idx(
                                                #[trigger] pre.retired@[k],
                                            ) == j;
                                        if k < pre.retired@.len() - 1 {
                                            assert(Self::ref_idx(self.retired@[k]) == j);
                                        } else {
                                            assert(Self::ref_idx(node) == -1);
                                        }
                                    }
                                }
                            }
                        }
                        assert(self.wf_core());
                    }
                },
            }
        }
    }
}

} // verus!
