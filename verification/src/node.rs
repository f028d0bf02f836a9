use vstd::prelude::*;

verus! {

/// Lifecycle of a reusable pool slot. A writer claims an `Available` slot,
/// fills it while it is `Writing`, and publishes it as `ReadLocked`; when the
/// node it holds is retired, the slot returns to `Available`.
pub enum LockState {
    Available,
    Writing,
    ReadLocked,
}

/// Tags a node's storage. `Local` nodes live in a pre-allocated slot and
/// cycle through `LockState`; `Boxed` nodes are one-off heap allocations,
/// freed outright on retirement and never recycled. A node carries exactly
/// one of the two tags for its whole life.
pub enum WriteLock {
    Local(LockState),
    Boxed,
}

impl WriteLock {
    /// Attempt to claim a slot for writing. Succeeds exactly when the slot
    /// is `Available`, moving it to `Writing`; any other state is left
    /// untouched and the claim is refused.
    pub fn try_write(&mut self) -> (r: bool)
        requires
            *old(self) is Local,
        ensures
            *final(self) is Local,
            r == (old(self)->Local_0 is Available),
            r ==> final(self)->Local_0 is Writing,
            !r ==> *final(self) == *old(self),
    {
        match self {
            WriteLock::Local(state) => match state {
                LockState::Available => {
                    *state = LockState::Writing;
                    true
                },
                _ => false,
            },
            WriteLock::Boxed => false,
        }
    }

    /// Publish a claimed slot: once its value is fully written, the slot
    /// moves to `ReadLocked` and stays there until retirement recycles it.
    pub fn read_lock(&mut self)
        requires
            *old(self) is Local,
        ensures
            *final(self) == WriteLock::Local(LockState::ReadLocked),
    {
        match self {
            WriteLock::Local(state) => {
                *state = LockState::ReadLocked;
            },
            WriteLock::Boxed => {},
        }
    }
}

/// One cell node: a storage tag plus the value it holds. `None` stands for
/// storage whose value has not been initialized yet (a freshly created or
/// recycled slot).
pub struct Node<T> {
    pub write_locked: WriteLock,
    pub value: Option<T>,
}

impl<T> Node<T> {
    /// A node holding an initialized value, valid to publish and to read.
    pub open spec fn inited(self) -> bool {
        self.value is Some
    }

    /// A published heap node: freed outright when it is retired.
    pub open spec fn is_heap_node(self) -> bool {
        self.write_locked is Boxed && self.value is Some
    }

    /// Heap-allocate a node that the retirement path will free rather than
    /// recycle.
    pub fn new_boxed(value: T) -> (r: Box<Node<T>>)
        ensures
            r.is_heap_node(),
            r.value == Some(value),
    {
        Box::new(Node { write_locked: WriteLock::Boxed, value: Some(value) })
    }

    /// A fresh pool slot: available to writers, holding no value yet.
    pub fn new_uninit() -> (r: Node<T>)
        ensures
            r.write_locked == WriteLock::Local(LockState::Available),
            r.value is None,
    {
        Node { write_locked: WriteLock::Local(LockState::Available), value: None }
    }

    /// A fresh pool slot allocated on the heap, for pools built lazily.
    pub fn new_uninit_local() -> (r: Box<Node<T>>)
        ensures
            r.write_locked == WriteLock::Local(LockState::Available),
            r.value is None,
    {
        Box::new(Node { write_locked: WriteLock::Local(LockState::Available), value: None })
    }

    /// Heap-allocate a published node; the fallback when no pool slot is
    /// free.
    pub fn new_raw(value: T) -> (r: Box<Node<T>>)
        ensures
            r.is_heap_node(),
            r.value == Some(value),
    {
        Box::new(Node { write_locked: WriteLock::Boxed, value: Some(value) })
    }

    /// Borrow the value of an initialized node.
    pub fn get(&self) -> (r: &T)
        requires
            self.inited(),
        ensures
            *r == self.value.unwrap(),
    {
        match &self.value {
            Some(v) => v,
            None => unreached(),
        }
    }

    /// Fill a claimed slot and publish it: the value is written first, and
    /// only then does the slot become `ReadLocked`.
    pub fn set(&mut self, value: T)
        requires
            old(self).write_locked == WriteLock::Local(LockState::Writing),
        ensures
            final(self).value == Some(value),
            final(self).write_locked == WriteLock::Local(LockState::ReadLocked),
    {
        self.value = Some(value);
        self.write_locked.read_lock();
    }
}

} // verus!
