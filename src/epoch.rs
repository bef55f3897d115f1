//! A process-wide generation counter, kept as a hook for detecting
//! invalidated iterators. Nothing in the allocation pipeline reads it.
use vstd::prelude::*;
use std::sync::atomic::{AtomicU64, Ordering};

verus! {

/// A monotonic 64-bit generation stamp shared between threads.
pub struct Epoch {
    generation: AtomicU64,
}

impl Epoch {
    /// A counter at generation zero.
    pub fn new() -> (r: Epoch) {
        Epoch { generation: AtomicU64::new(0) }
    }

    /// The current generation.
    pub fn get(&self) -> (r: u64) {
        self.generation.load(Ordering::Acquire)
    }

    /// Advances the generation and returns the one before.
    pub fn bump(&self) -> (r: u64) {
        self.generation.fetch_add(1, Ordering::AcqRel)
    }
}

} // verus!
