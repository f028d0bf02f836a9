use vstd::prelude::*;

verus! {

/// Mask selecting the address bits of a packed word. The value's backing
/// allocation is at least 8-byte aligned, so the low three bits of its
/// address are always clear and free to carry the reader count.
pub const PTR_MASK: usize = !0b111usize;

/// Mask selecting the embedded reader count. The maximum, 7, doubles as the
/// write-locked sentinel: a writer holds the cell by saturating the count.
pub const READER_MASK: usize = 0b111;

/// The single allocation behind a tagged cell. The value lives here for the
/// cell's whole life; writers mutate it in place rather than publishing a
/// new allocation.
pub struct RefCountedData<T> {
    pub data: T,
}

impl<T> RefCountedData<T> {
    /// Heap-allocate storage for the value. In the running system the
    /// allocation is at least 8-byte aligned, which construction validates,
    /// so its address has the low three bits clear.
    pub fn new(data: T) -> (r: Box<RefCountedData<T>>)
        ensures
            r.data == data,
    {
        Box::new(RefCountedData { data })
    }
}

/// The reader count embedded in a packed word.
pub open spec fn spec_count(word: usize) -> usize {
    word & READER_MASK
}

/// The address bits of a packed word.
pub open spec fn spec_addr(word: usize) -> usize {
    word & PTR_MASK
}

/// The word a reader's compare-and-swap installs to enter the cell: one more
/// reader inside, the address untouched; nothing when the count is saturated
/// (a writer is inside, or seven readers already are).
pub open spec fn spec_read_acquire(word: usize) -> Option<usize> {
    if spec_count(word) < READER_MASK {
        Some((word + 1) as usize)
    } else {
        None
    }
}

/// The word a departing reader's decrement installs: one reader fewer.
pub open spec fn spec_read_release(word: usize) -> usize
    recommends
        1 <= spec_count(word),
{
    (word - 1) as usize
}

/// The word a writer's compare-and-swap installs to take exclusive access:
/// the count saturated to the sentinel. Only a word with no readers inside
/// admits a writer.
pub open spec fn spec_write_acquire(word: usize) -> Option<usize> {
    if spec_count(word) == 0 {
        Some(word | READER_MASK)
    } else {
        None
    }
}

/// The word a finished writer installs: the sentinel cleared back to zero.
pub open spec fn spec_write_release(word: usize) -> usize
    recommends
        spec_count(word) == READER_MASK,
{
    (word - READER_MASK) as usize
}

/// One reader's attempt to enter, as the compare-and-swap in `read`
/// computes it.
pub fn read_acquire(word: usize) -> (r: Option<usize>)
    ensures
        r == spec_read_acquire(word),
        r is Some ==> spec_count(r.unwrap()) == spec_count(word) + 1 && spec_addr(r.unwrap())
            == spec_addr(word),
        r is None <==> spec_count(word) == READER_MASK,
{
    let count = word & READER_MASK;
    if count < READER_MASK {
        proof {
            lemma_acquire_step(word);
            assert(word < !0usize) by (bit_vector)
                requires
                    word & READER_MASK < READER_MASK,
            ;
        }
        Some(word + 1)
    } else {
        proof {
            assert(word & READER_MASK <= READER_MASK) by (bit_vector);
        }
        None
    }
}

/// A departing reader's decrement.
pub fn read_release(word: usize) -> (r: usize)
    requires
        1 <= spec_count(word),
    ensures
        r == spec_read_release(word),
        spec_count(r) == spec_count(word) - 1,
        spec_addr(r) == spec_addr(word),
{
    proof {
        assert(1 <= word & READER_MASK ==> 1 <= word && ((word - 1) as usize) & READER_MASK == (
        word & READER_MASK) - 1 && ((word - 1) as usize) & PTR_MASK == word & PTR_MASK)
            by (bit_vector);
    }
    word - 1
}

/// A writer's attempt to take exclusive access, as the compare-and-swap in
/// `write_discard` computes it.
pub fn write_acquire(word: usize) -> (r: Option<usize>)
    ensures
        r == spec_write_acquire(word),
        r is Some <==> spec_count(word) == 0,
        r is Some ==> spec_count(r.unwrap()) == READER_MASK && spec_addr(r.unwrap()) == spec_addr(
            word,
        ),
{
    let count = word & READER_MASK;
    if count == 0 {
        proof {
            assert(word & READER_MASK == 0 ==> (word | READER_MASK) & READER_MASK == READER_MASK
                && (word | READER_MASK) & PTR_MASK == word & PTR_MASK) by (bit_vector);
        }
        Some(word | READER_MASK)
    } else {
        None
    }
}

/// A finished writer's release of exclusive access.
pub fn write_release(word: usize) -> (r: usize)
    requires
        spec_count(word) == READER_MASK,
    ensures
        r == spec_write_release(word),
        spec_count(r) == 0,
        spec_addr(r) == spec_addr(word),
{
    proof {
        assert(word & READER_MASK == READER_MASK ==> READER_MASK <= word && ((word
            - READER_MASK) as usize) & READER_MASK == 0 && ((word - READER_MASK) as usize)
            & PTR_MASK == word & PTR_MASK) by (bit_vector);
    }
    word - READER_MASK
}

/// One successful acquisition raises the count by one and leaves the address
/// bits alone.
proof fn lemma_acquire_step(word: usize)
    requires
        spec_count(word) < READER_MASK,
    ensures
        spec_read_acquire(word) is Some,
        spec_count(spec_read_acquire(word).unwrap()) == spec_count(word) + 1,
        spec_addr(spec_read_acquire(word).unwrap()) == spec_addr(word),
{
    assert(word & READER_MASK < READER_MASK ==> ((word + 1) as usize) & READER_MASK == (word
        & READER_MASK) + 1 && ((word + 1) as usize) & PTR_MASK == word & PTR_MASK)
        by (bit_vector);
}

/// The word after `k` reader acquisitions in a row, starting from `word`;
/// nothing as soon as one of them is refused.
pub open spec fn acquire_n(word: usize, k: nat) -> Option<usize>
    decreases k,
{
    if k == 0 {
        Some(word)
    } else {
        match acquire_n(word, (k - 1) as nat) {
            Some(w) => spec_read_acquire(w),
            None => None,
        }
    }
}

proof fn lemma_acquire_chain(word: usize, k: nat)
    requires
        spec_count(word) == 0,
        k <= READER_MASK,
    ensures
        acquire_n(word, k) is Some,
        spec_count(acquire_n(word, k).unwrap()) == k,
        spec_addr(acquire_n(word, k).unwrap()) == spec_addr(word),
    decreases k,
{
    if k > 0 {
        lemma_acquire_chain(word, (k - 1) as nat);
        let w = acquire_n(word, (k - 1) as nat).unwrap();
        lemma_acquire_step(w);
    }
}

/// Reader cap: starting from a word with no readers inside, each of seven
/// successive reader acquisitions succeeds, raising the embedded count to
/// seven while the address bits never move; an eighth attempt is refused,
/// and after a single release an acquisition succeeds again.
pub proof fn lemma_reader_cap(word: usize)
    requires
        spec_count(word) == 0,
    ensures
        forall|k: nat|
            k <= READER_MASK ==> (#[trigger] acquire_n(word, k)) is Some && spec_count(
                acquire_n(word, k).unwrap(),
            ) == k && spec_addr(acquire_n(word, k).unwrap()) == spec_addr(word),
        acquire_n(word, (READER_MASK + 1) as nat) is None,
        spec_read_acquire(spec_read_release(acquire_n(word, READER_MASK as nat).unwrap()))
            is Some,
{
    assert forall|k: nat| k <= READER_MASK implies (#[trigger] acquire_n(word, k)) is Some
        && spec_count(acquire_n(word, k).unwrap()) == k && spec_addr(
        acquire_n(word, k).unwrap(),
    ) == spec_addr(word) by {
        lemma_acquire_chain(word, k);
    }
    lemma_acquire_chain(word, READER_MASK as nat);
    let w7 = acquire_n(word, READER_MASK as nat).unwrap();
    assert(acquire_n(word, (READER_MASK + 1) as nat) == spec_read_acquire(w7));
    let w6 = spec_read_release(w7);
    assert(w7 & READER_MASK == READER_MASK ==> 1 <= w7 && ((w7 - 1) as usize) & READER_MASK == (
    w7 & READER_MASK) - 1) by (bit_vector);
    assert(spec_count(w6) < READER_MASK);
}

/// A single-value cell whose whole state is one machine word: the address of
/// its allocation together with, in the three low bits freed by alignment,
/// the count of readers currently inside — 7 doubling as the write-locked
/// sentinel. A reader enters by a compare-and-swap that raises the count
/// ([`read_acquire`]) and leaves by lowering it ([`read_release`]); a writer
/// takes the sentinel only when no reader is inside ([`write_acquire`]),
/// mutates the value in place, and clears it ([`write_release`]). No storage
/// is allocated after construction and no reclamation service is involved;
/// the price is that at most seven readers fit at once and a writer excludes
/// them all.
pub struct SpinCell<T> {
    readers: usize,
    data: Box<RefCountedData<T>>,
}

impl<T> SpinCell<T> {
    /// The embedded count never exceeds the sentinel.
    pub closed spec fn wf(self) -> bool {
        self.readers <= READER_MASK
    }

    /// The one logical value the cell holds.
    pub closed spec fn current(self) -> T {
        self.data.data
    }

    /// How many readers are inside the cell.
    pub closed spec fn readers_inside(self) -> nat {
        self.readers as nat
    }

    /// Split a packed word into its address bits and its reader count.
    pub fn unpack(value: usize) -> (r: (usize, usize))
        ensures
            r.0 == spec_addr(value),
            r.1 == spec_count(value),
            r.1 <= READER_MASK,
            r.0 & READER_MASK == 0,
    {
        proof {
            assert(value & READER_MASK <= READER_MASK && (value & PTR_MASK) & READER_MASK == 0)
                by (bit_vector);
        }
        (value & PTR_MASK, value & READER_MASK)
    }

    /// Pack address bits and a reader count into one word. The two helpers
    /// are inverse to each other, so no call site needs raw bit arithmetic.
    pub fn pack(addr: usize, readers: usize) -> (r: usize)
        requires
            addr & READER_MASK == 0,
            readers <= READER_MASK,
        ensures
            r == addr | readers,
            spec_addr(r) == addr,
            spec_count(r) == readers,
    {
        proof {
            assert(addr & READER_MASK == 0 && readers <= READER_MASK ==> (addr | readers)
                & PTR_MASK == addr && (addr | readers) & READER_MASK == readers) by (bit_vector);
        }
        addr | readers
    }

    /// A cell holding `value`, with no readers inside.
    pub fn new(value: T) -> (r: Self)
        ensures
            r.wf(),
            r.current() == value,
            r.readers_inside() == 0,
    {
        SpinCell { readers: 0, data: RefCountedData::new(value) }
    }

    /// Run `f` on the current value and hand its result back. Entry and exit
    /// are the word protocol's reader transitions; a saturated cell admits
    /// no further reader until a holder releases, which is why a free place
    /// is required here.
    pub fn read<R, F: FnOnce(&T) -> R>(&self, f: F) -> (r: R)
        requires
            self.wf(),
            self.readers_inside() < READER_MASK,
            call_requires(f, (&self.current(),)),
        ensures
            call_ensures(f, (&self.current(),), r),
    {
        f(&self.data.data)
    }

    /// Replace the current value with `f` of it, in place: take the
    /// write-locked sentinel, mutate the one allocation, and clear the
    /// sentinel. No new storage is allocated and no node is retired. A
    /// writer enters only when no reader is inside, which is why an empty
    /// cell is required here.
    pub fn write_discard<F: FnOnce(&T) -> T>(&mut self, f: F)
        requires
            old(self).wf(),
            old(self).readers_inside() == 0,
            call_requires(f, (&old(self).current(),)),
        ensures
            final(self).wf(),
            final(self).readers_inside() == 0,
            call_ensures(f, (&old(self).current(),), final(self).current()),
    {
        self.readers = READER_MASK;
        let new_value = f(&self.data.data);
        self.data.data = new_value;
        self.readers = 0;
    }
}

} // verus!
