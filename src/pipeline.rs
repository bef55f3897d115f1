//! The sanitized allocation pipeline: the decisions taken on allocate, free
//! and reallocate. The caller owns the raw memory; it hands each block in as
//! a byte slice (prefix band, user region, suffix band) and carries out what
//! the functions here return: write a report and abort, or give a base
//! address back to the platform allocator.
use vstd::prelude::*;
use crate::diagnostic::{
    double_free, double_free_text, invalid_free, invalid_free_text, mismatched_dealloc,
    mismatched_dealloc_text, overflow_detected, overflow_text,
};
use crate::quarantine::{holds_addr, pushed, Quarantine, QuarantineEntry};
use crate::redzone::{
    band_intact, block_size, canaries_intact, check_canaries, fill_canaries, poison, suffix_start,
    CANARY_BYTE, POISON_BYTE, REDZONE_SIZE,
};
use crate::tracker::{AllocKind, Tracker, CAPACITY};

verus! {

/// A misuse that ends the process.
#[derive(Clone, Copy, PartialEq, Eq, Structural, Debug)]
pub enum Fault {
    /// Free of an address that is still quarantined.
    DoubleFree { addr: usize },
    /// Free of an address that is neither live nor quarantined.
    InvalidFree { addr: usize },
    /// Free of a block by another kind than the one it was allocated with.
    MismatchedDealloc { addr: usize, allocated_with: AllocKind, freed_with: AllocKind },
    /// Red zone corruption found when the block was freed.
    Overflow { addr: usize, size: usize, prefix_corrupt: bool, suffix_corrupt: bool },
}

/// The report written for a fault.
pub open spec fn fault_text(f: Fault) -> Seq<u8> {
    match f {
        Fault::DoubleFree { addr } => double_free_text(addr),
        Fault::InvalidFree { addr } => invalid_free_text(addr),
        Fault::MismatchedDealloc { addr, allocated_with, freed_with } =>
            mismatched_dealloc_text(addr, allocated_with, freed_with),
        Fault::Overflow { addr, size, prefix_corrupt, suffix_corrupt } =>
            overflow_text(addr, size, prefix_corrupt, suffix_corrupt),
    }
}

impl Fault {
    /// The bytes to write to standard error before aborting.
    pub fn report(&self) -> (r: Vec<u8>)
        ensures
            r@ == fault_text(*self),
    {
        match *self {
            Fault::DoubleFree { addr } => double_free(addr),
            Fault::InvalidFree { addr } => invalid_free(addr),
            Fault::MismatchedDealloc { addr, allocated_with, freed_with } =>
                mismatched_dealloc(addr, allocated_with, freed_with),
            Fault::Overflow { addr, size, prefix_corrupt, suffix_corrupt } =>
                overflow_detected(addr, size, prefix_corrupt, suffix_corrupt),
        }
    }
}

/// Whether a block allocated with `allocated` may be freed with `freed`: only
/// when the two kinds are equal.
pub fn kind_compatible(allocated: AllocKind, freed: AllocKind) -> (r: bool)
    ensures
        r == (allocated == freed),
{
    match (allocated, freed) {
        (AllocKind::Rust, AllocKind::Rust) => true,
        (AllocKind::ScalarNew, AllocKind::ScalarNew) => true,
        (AllocKind::ArrayNew, AllocKind::ArrayNew) => true,
        _ => false,
    }
}

/// Prepares a fresh raw block of `block_size(user_size)` bytes at
/// `base_addr`: fills both red zones, records the user address with kind
/// `Rust`, and returns the user address. The user region is left as it was.
/// When the table is full the block is not recorded.
pub fn record_alloc(tracker: &mut Tracker, block: &mut [u8], base_addr: usize, user_size: usize) -> (user_addr: usize)
    requires
        old(tracker).wf(),
        old(block)@.len() == block_size(user_size),
        base_addr + REDZONE_SIZE <= usize::MAX,
        !old(tracker)@.contains_key((base_addr + REDZONE_SIZE) as usize),
    ensures
        user_addr == base_addr + REDZONE_SIZE,
        final(tracker).wf(),
        old(tracker)@.len() < CAPACITY ==> final(tracker)@ == old(tracker)@.insert(user_addr, (user_size, AllocKind::Rust)),
        old(tracker)@.len() >= CAPACITY ==> final(tracker)@ == old(tracker)@,
        final(block)@.len() == old(block)@.len(),
        canaries_intact(final(block)@, user_size),
        final(block)@.subrange(REDZONE_SIZE as int, suffix_start(user_size))
            == old(block)@.subrange(REDZONE_SIZE as int, suffix_start(user_size)),
{
    fill_canaries(block, user_size);
    let user_addr = base_addr + REDZONE_SIZE;
    tracker.insert(user_addr, user_size, AllocKind::Rust);
    user_addr
}

/// What the first step of a free asks the caller to do next.
#[derive(Clone, Copy, PartialEq, Eq, Structural, Debug)]
pub enum FreeStep {
    /// The pointer was null: nothing to do.
    Ignore,
    /// The address is not live: ask the quarantine why (`untracked_fault`).
    Untracked,
    /// The block was live and is no longer: check and quarantine it
    /// (`finish_dealloc`).
    Inspect { user_size: usize },
    /// Report and abort.
    Fatal(Fault),
}

/// First step of a free of `user_addr` with kind `expected_kind`, taken on
/// the tracker alone: a live address leaves the table.
pub fn begin_dealloc(tracker: &mut Tracker, user_addr: usize, expected_kind: AllocKind) -> (r: FreeStep)
    requires
        old(tracker).wf(),
    ensures
        final(tracker).wf(),
        user_addr == 0 ==> r == FreeStep::Ignore && final(tracker)@ == old(tracker)@,
        user_addr != 0 ==> final(tracker)@ == old(tracker)@.remove(user_addr),
        user_addr != 0 && !old(tracker)@.contains_key(user_addr) ==> r == FreeStep::Untracked,
        user_addr != 0 && old(tracker)@.contains_key(user_addr) ==> {
            let (size, kind) = old(tracker)@[user_addr];
            if kind == expected_kind {
                r == (FreeStep::Inspect { user_size: size })
            } else {
                r == FreeStep::Fatal(
                    Fault::MismatchedDealloc { addr: user_addr, allocated_with: kind, freed_with: expected_kind },
                )
            }
        },
{
    if user_addr == 0 {
        return FreeStep::Ignore;
    }
    match tracker.remove(user_addr) {
        Some((live_size, live_kind)) => {
            if !kind_compatible(live_kind, expected_kind) {
                FreeStep::Fatal(
                    Fault::MismatchedDealloc { addr: user_addr, allocated_with: live_kind, freed_with: expected_kind },
                )
            } else {
                FreeStep::Inspect { user_size: live_size }
            }
        },
        None => FreeStep::Untracked,
    }
}

/// The fault of freeing an address that is not live: a double free when it
/// is still quarantined, an invalid free otherwise.
pub fn untracked_fault(quarantine: &Quarantine, user_addr: usize) -> (r: Fault)
    requires
        quarantine.wf(),
    ensures
        holds_addr(quarantine@, user_addr) ==> r == (Fault::DoubleFree { addr: user_addr }),
        !holds_addr(quarantine@, user_addr) ==> r == (Fault::InvalidFree { addr: user_addr }),
{
    if quarantine.contains(user_addr) {
        Fault::DoubleFree { addr: user_addr }
    } else {
        Fault::InvalidFree { addr: user_addr }
    }
}

/// Last step of a free of the live block at `user_addr`, whose raw bytes are
/// `block`. Corrupt red zones are a fault and leave everything as it was.
/// Otherwise the user region is poisoned, the block is quarantined, and the
/// base address that the quarantine evicted, if any, is returned: the caller
/// gives it back to the platform allocator.
pub fn finish_dealloc(quarantine: &mut Quarantine, user_addr: usize, user_size: usize, block: &mut [u8]) -> (r: Result<Option<usize>, Fault>)
    requires
        old(quarantine).wf(),
        REDZONE_SIZE <= user_addr,
        old(block)@.len() == block_size(user_size),
    ensures
        final(quarantine).wf(),
        final(block)@.len() == old(block)@.len(),
        !canaries_intact(old(block)@, user_size) ==> {
            &&& r == Err::<Option<usize>, Fault>(Fault::Overflow {
                addr: user_addr,
                size: user_size,
                prefix_corrupt: !band_intact(old(block)@, 0),
                suffix_corrupt: !band_intact(old(block)@, suffix_start(user_size)),
            })
            &&& final(quarantine)@ == old(quarantine)@
            &&& final(block)@ == old(block)@
        },
        canaries_intact(old(block)@, user_size) ==> {
            let e = QuarantineEntry { user_addr, base_addr: (user_addr - REDZONE_SIZE) as usize, user_size };
            &&& final(quarantine)@ == pushed(old(quarantine)@, e)
            &&& r == Ok::<Option<usize>, Fault>(
                if old(quarantine)@.len() == crate::quarantine::QUARANTINE_CAPACITY {
                    Some(old(quarantine)@[0].base_addr)
                } else {
                    None
                },
            )
            &&& canaries_intact(final(block)@, user_size)
            &&& forall|j: int| REDZONE_SIZE <= j < suffix_start(user_size) ==> #[trigger] final(block)@[j] == POISON_BYTE
        },
{
    let (prefix_corrupt, suffix_corrupt) = check_canaries(block, user_size);
    if prefix_corrupt || suffix_corrupt {
        return Err(Fault::Overflow { addr: user_addr, size: user_size, prefix_corrupt, suffix_corrupt });
    }
    let ghost before = block@;
    poison(block, user_size);
    proof {
        assert forall|i: int| 0 <= i < REDZONE_SIZE implies #[trigger] block@[i] == CANARY_BYTE by {
            assert(block@[i] == before[i]);
        }
        assert forall|i: int| suffix_start(user_size) <= i < suffix_start(user_size) + REDZONE_SIZE
            implies #[trigger] block@[i] == CANARY_BYTE by {
            assert(block@[i] == before[i]);
        }
    }
    let base_addr = user_addr - REDZONE_SIZE;
    proof {
        quarantine.lemma_bounded();
    }
    let evicted = quarantine.push(user_addr, base_addr, user_size);
    Ok(evicted)
}

/// Number of user bytes a reallocation carries over: the smaller size.
pub fn realloc_copy_len(old_size: usize, new_size: usize) -> (r: usize)
    ensures
        r == if old_size < new_size { old_size } else { new_size },
{
    if old_size < new_size {
        old_size
    } else {
        new_size
    }
}

/// Copies the first `realloc_copy_len(old_size, new_size)` user bytes of the
/// old block into the new one and leaves the rest of the new block as it was.
pub fn copy_user_bytes(old_block: &[u8], old_size: usize, new_block: &mut [u8], new_size: usize)
    requires
        old_block@.len() == block_size(old_size),
        old(new_block)@.len() == block_size(new_size),
    ensures
        final(new_block)@.len() == old(new_block)@.len(),
        forall|j: int|
            REDZONE_SIZE <= j < REDZONE_SIZE + (if old_size < new_size { old_size } else { new_size })
                ==> #[trigger] final(new_block)@[j] == old_block@[j],
        forall|j: int|
            0 <= j < final(new_block)@.len() && !(REDZONE_SIZE <= j < REDZONE_SIZE + (if old_size < new_size { old_size } else { new_size }))
                ==> #[trigger] final(new_block)@[j] == old(new_block)@[j],
{
    let n: usize = realloc_copy_len(old_size, new_size);
    let len: usize = new_block.len();
    let mut i: usize = 0;
    while i < n
        invariant
            0 <= i <= n,
            n <= old_size && n <= new_size,
            n == (if old_size < new_size { old_size } else { new_size }),
            len == new_block@.len(),
            new_block@.len() == old(new_block)@.len(),
            new_block@.len() == block_size(new_size),
            old_block@.len() == block_size(old_size),
            forall|j: int| REDZONE_SIZE <= j < REDZONE_SIZE + i ==> #[trigger] new_block@[j] == old_block@[j],
            forall|j: int| 0 <= j < new_block@.len() && !(REDZONE_SIZE <= j < REDZONE_SIZE + i)
                ==> #[trigger] new_block@[j] == old(new_block)@[j],
        decreases n - i,
    {
        new_block[REDZONE_SIZE + i] = old_block[REDZONE_SIZE + i];
        i = i + 1;
    }
}

} // verus!
