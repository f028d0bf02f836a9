//! A concurrent single-value cell, modeled and verified.
//!
//! One logical value of type `T` is read through a callback and replaced by
//! writers with a transformation of the previous value. Four variants share
//! the contract and differ in how storage for the value is obtained and
//! reclaimed: a heap allocation per write ([`sz`]), a shared pre-allocated
//! pool ([`sz2`]), a thread-local pre-allocated pool ([`sz3`]), and a single
//! tagged word carrying the address and a bounded reader count ([`tagged`]).
//!
//! What is verified here is the sequential core of each variant: the slot
//! state machine, the pool claim and retirement discipline, the tagged-word
//! bit layout, and the value each operation publishes or observes. The
//! atomics, spin loops and deferred reclamation that let many threads run
//! these protocols at once live in the unverified shell around this library.

pub mod node;
pub mod pool;
pub mod sz;
pub mod sz2;
pub mod sz3;
pub mod tagged;

pub use sz::LockFreeCell;
pub use tagged::SpinCell;
