use heap_sanitizer::diagnostic::{
    double_free, format_dec, format_hex, invalid_free, leak_detected, mismatched_dealloc,
    overflow_detected,
};
use heap_sanitizer::epoch::Epoch;
use heap_sanitizer::pipeline::{
    begin_dealloc, copy_user_bytes, finish_dealloc, kind_compatible, realloc_copy_len,
    record_alloc, untracked_fault, Fault, FreeStep,
};
use heap_sanitizer::quarantine::{Quarantine, QUARANTINE_CAPACITY};
use heap_sanitizer::redzone::{
    check_canaries, fill_canaries, poison, total_size, CANARY_BYTE, POISON_BYTE, REDZONE_SIZE,
};
use heap_sanitizer::tracker::{hash, report_leaks, AllocKind, SlotState, Tracker, CAPACITY};

fn contains(hay: &[u8], needle: &str) -> bool {
    let n = needle.as_bytes();
    hay.windows(n.len()).any(|w| w == n)
}

fn text(bytes: &[u8]) -> String {
    String::from_utf8(bytes.to_vec()).unwrap()
}

/// A simulated heap: one raw block per allocation, with a made-up base address.
struct Heap {
    tracker: Box<Tracker>,
    quarantine: Box<Quarantine>,
    blocks: Vec<(usize, Vec<u8>)>,
    next_base: usize,
    released: Vec<usize>,
}

impl Heap {
    fn new() -> Heap {
        Heap {
            tracker: Box::new(Tracker::new()),
            quarantine: Box::new(Quarantine::new()),
            blocks: Vec::new(),
            next_base: 0x10000,
            released: Vec::new(),
        }
    }

    fn allocate(&mut self, size: usize) -> usize {
        let base = self.next_base;
        self.next_base += total_size(size) + 64;
        let mut block = vec![0u8; total_size(size)];
        let user = record_alloc(&mut self.tracker, block.as_mut_slice(), base, size);
        self.blocks.push((base, block));
        user
    }

    fn block_mut(&mut self, user: usize) -> &mut Vec<u8> {
        let base = user - REDZONE_SIZE;
        &mut self.blocks.iter_mut().find(|(b, _)| *b == base).unwrap().1
    }

    fn free(&mut self, user: usize) -> Result<(), Fault> {
        match begin_dealloc(&mut self.tracker, user, AllocKind::Rust) {
            FreeStep::Ignore => Ok(()),
            FreeStep::Untracked => Err(untracked_fault(&self.quarantine, user)),
            FreeStep::Fatal(f) => Err(f),
            FreeStep::Inspect { user_size } => {
                let base = user - REDZONE_SIZE;
                let idx = self.blocks.iter().position(|(b, _)| *b == base).unwrap();
                let block = &mut self.blocks[idx].1;
                assert_eq!(block.len(), total_size(user_size));
                let evicted = finish_dealloc(&mut self.quarantine, user, user_size, block.as_mut_slice())?;
                if let Some(b) = evicted {
                    self.released.push(b);
                }
                Ok(())
            }
        }
    }
}

#[test]
fn format_hex_pads_to_sixteen_digits() {
    let mut buf = [0u8; 18];
    assert_eq!(format_hex(0xDEADBEEF, &mut buf), b"0x00000000deadbeef");
    assert_eq!(format_hex(0, &mut buf), b"0x0000000000000000");
    assert_eq!(format_hex(usize::MAX, &mut buf), b"0xffffffffffffffff");
    assert_eq!(format_hex(0x0123456789abcdef, &mut buf), b"0x0123456789abcdef");
}

#[test]
fn format_hex_shape_holds_for_many_values() {
    let mut v: usize = 1;
    for _ in 0..200 {
        let mut buf = [0u8; 18];
        let r = format_hex(v, &mut buf);
        assert_eq!(r.len(), 18);
        assert_eq!(&r[..2], b"0x");
        assert!(r[2..].iter().all(|c| c.is_ascii_digit() || (b'a'..=b'f').contains(c)));
        assert_eq!(usize::from_str_radix(&text(&r[2..]), 16).unwrap(), v);
        v = v.wrapping_mul(6364136223846793005).wrapping_add(1442695040888963407);
    }
}

#[test]
fn format_dec_has_no_leading_zeros() {
    let mut buf = [0u8; 20];
    assert_eq!(format_dec(0, &mut buf), b"0");
    assert_eq!(format_dec(7, &mut buf), b"7");
    assert_eq!(format_dec(10, &mut buf), b"10");
    assert_eq!(format_dec(1234567890, &mut buf), b"1234567890");
    assert_eq!(format_dec(usize::MAX, &mut buf), b"18446744073709551615");
}

#[test]
fn format_dec_round_trips() {
    let mut v: usize = 0;
    for _ in 0..200 {
        let mut buf = [0u8; 20];
        let r = format_dec(v, &mut buf);
        assert_eq!(text(r).parse::<usize>().unwrap(), v);
        v = v.wrapping_mul(2862933555777941757).wrapping_add(3037000493);
    }
}

#[test]
fn total_size_adds_both_red_zones() {
    assert_eq!(total_size(0), 32);
    assert_eq!(total_size(64), 96);
}

#[test]
fn fill_and_check_canaries() {
    let mut block = vec![7u8; total_size(5)];
    fill_canaries(block.as_mut_slice(), 5);
    assert!(block[..16].iter().all(|b| *b == CANARY_BYTE));
    assert!(block[21..].iter().all(|b| *b == CANARY_BYTE));
    assert!(block[16..21].iter().all(|b| *b == 7));
    assert_eq!(check_canaries(&block, 5), (false, false));
    block[3] = 0;
    assert_eq!(check_canaries(&block, 5), (true, false));
    block[36] = 0;
    assert_eq!(check_canaries(&block, 5), (true, true));
}

#[test]
fn poison_covers_the_user_region_only() {
    let mut block = vec![0u8; total_size(4)];
    fill_canaries(block.as_mut_slice(), 4);
    poison(block.as_mut_slice(), 4);
    assert!(block[16..20].iter().all(|b| *b == POISON_BYTE));
    assert_eq!(check_canaries(&block, 4), (false, false));
}

#[test]
fn hash_stays_in_the_table() {
    for a in [0usize, 16, 0x1000, 0xDEADBEEF, usize::MAX] {
        assert!(hash(a) < CAPACITY);
    }
    assert_eq!(hash(0), 0);
    assert_eq!(hash(1), (0x9E3779B97F4A7C15u64 >> 50) as usize);
}

#[test]
fn tracker_insert_lookup_remove() {
    let mut t = Box::new(Tracker::new());
    assert_eq!(t.count(), 0);
    for i in [0usize, 1, 5000, CAPACITY - 1] {
        let e = t.slot(i);
        assert_eq!((e.addr, e.size, e.state, e.kind), (0, 0, SlotState::Empty, AllocKind::Rust));
    }
    t.insert(0x1010, 8, AllocKind::Rust);
    t.insert(0x2010, 16, AllocKind::ArrayNew);
    assert_eq!(t.count(), 2);
    assert_eq!(t.lookup(0x1010), Some((8, AllocKind::Rust)));
    assert_eq!(t.lookup(0x2010), Some((16, AllocKind::ArrayNew)));
    assert_eq!(t.lookup(0x3010), None);
    let home = hash(0x1010) % CAPACITY;
    assert_eq!(t.slot(home).state, SlotState::Occupied);
    assert_eq!(t.slot(home).addr, 0x1010);
    assert_eq!(t.remove(0x1010), Some((8, AllocKind::Rust)));
    assert_eq!(t.slot(home).state, SlotState::Tombstone);
    assert_eq!(t.remove(0x1010), None);
    assert_eq!(t.count(), 1);
    t.insert(0x1010, 4, AllocKind::ScalarNew);
    assert_eq!(t.lookup(0x1010), Some((4, AllocKind::ScalarNew)));
    assert_eq!(t.count(), 2);
}

#[test]
fn tracker_count_follows_outstanding_allocations() {
    let mut heap = Heap::new();
    let mut live = Vec::new();
    for i in 0..40 {
        live.push(heap.allocate(i));
        assert_eq!(heap.tracker.count(), live.len());
    }
    while let Some(p) = live.pop() {
        heap.free(p).unwrap();
        assert_eq!(heap.tracker.count(), live.len());
    }
}

#[test]
fn tracker_saturates_and_drops_silently() {
    let mut t = Box::new(Tracker::new());
    for i in 0..CAPACITY {
        t.insert(16 + 48 * i, i, AllocKind::Rust);
    }
    assert_eq!(t.count(), CAPACITY);
    let extra = 16 + 48 * CAPACITY;
    t.insert(extra, 1, AllocKind::Rust);
    assert_eq!(t.count(), CAPACITY);
    assert_eq!(t.lookup(extra), None);
    assert_eq!(begin_dealloc(&mut t, extra, AllocKind::Rust), FreeStep::Untracked);
    let q = Box::new(Quarantine::new());
    assert_eq!(untracked_fault(&q, extra), Fault::InvalidFree { addr: extra });
    assert_eq!(t.remove(16 + 48 * 77), Some((77, AllocKind::Rust)));
    assert_eq!(t.count(), CAPACITY - 1);
}

#[test]
fn quarantine_keeps_a_freed_address_for_capacity_pushes() {
    let mut q = Box::new(Quarantine::new());
    assert_eq!(q.push(0x5010, 0x5000, 8), None);
    for i in 0..QUARANTINE_CAPACITY - 1 {
        assert_eq!(q.push(0x9010 + 64 * i, 0x9000 + 64 * i, 8), None);
        assert!(q.contains(0x5010));
    }
    assert_eq!(q.push(0x1, 0x2, 3), Some(0x5000));
    assert!(!q.contains(0x5010));
}

#[test]
fn quarantine_evicts_oldest_first() {
    let mut q = Box::new(Quarantine::new());
    for i in 0..QUARANTINE_CAPACITY {
        assert_eq!(q.push(1000 + i, 2000 + i, i), None);
    }
    for i in 0..10 {
        assert_eq!(q.push(5000 + i, 6000 + i, 1), Some(2000 + i));
    }
    assert!(q.contains(1000 + 10));
    assert!(!q.contains(1000 + 9));
    assert!(q.contains(5009));
}

#[test]
fn clean_round_trip_reports_nothing() {
    let mut heap = Heap::new();
    let p = heap.allocate(64);
    {
        let block = heap.block_mut(p);
        for b in &mut block[16..80] {
            *b = 0x11;
        }
        assert!(block[16..80].iter().all(|b| *b == 0x11));
    }
    assert_eq!(heap.free(p), Ok(()));
    let mut report = Vec::new();
    report_leaks(&heap.tracker, &mut report);
    assert!(report.is_empty());
}

#[test]
fn allocation_is_framed_by_canaries() {
    let mut heap = Heap::new();
    for size in [0usize, 1, 8, 100] {
        let p = heap.allocate(size);
        assert_ne!(p, 0);
        let block = heap.block_mut(p);
        assert_eq!(block.len(), size + 32);
        assert!(block[..16].iter().all(|b| *b == CANARY_BYTE));
        assert!(block[16 + size..].iter().all(|b| *b == CANARY_BYTE));
    }
}

#[test]
fn zero_size_allocation_is_accepted() {
    let mut heap = Heap::new();
    let p = heap.allocate(0);
    assert_ne!(p, 0);
    assert_eq!(heap.block_mut(p).len(), 32);
    assert_eq!(heap.free(p), Ok(()));
}

#[test]
fn written_bytes_survive_until_free_then_poisoned() {
    let mut heap = Heap::new();
    let p = heap.allocate(16);
    {
        let block = heap.block_mut(p);
        for i in 0..16 {
            block[16 + i] = i as u8 * 3;
        }
        for i in 0..16 {
            assert_eq!(block[16 + i], i as u8 * 3);
        }
    }
    assert_eq!(heap.free(p), Ok(()));
    assert!(heap.block_mut(p)[16..32].iter().all(|b| *b == POISON_BYTE));
}

#[test]
fn overflow_is_reported() {
    let mut heap = Heap::new();
    let p = heap.allocate(8);
    heap.block_mut(p)[16 + 8] = 0x00;
    let fault = heap.free(p).unwrap_err();
    assert_eq!(
        fault,
        Fault::Overflow { addr: p, size: 8, prefix_corrupt: false, suffix_corrupt: true }
    );
    let report = fault.report();
    assert!(report.starts_with(b"\n\x1b[1;31m=== libcplusplus sanitizer ===\x1b[0m\n"));
    assert!(contains(&report, "ERROR: buffer overflow detected (red zone corruption)\n"));
    assert!(contains(&report, "  size:    8 bytes\n"));
    assert!(contains(&report, "  -> overflow: suffix red zone corrupted\n"));
    assert!(!contains(&report, "underflow"));
    assert!(report.ends_with(b"aborting.\n\n"));
}

#[test]
fn underflow_is_reported() {
    let mut heap = Heap::new();
    let p = heap.allocate(8);
    heap.block_mut(p)[15] = 0x00;
    let fault = heap.free(p).unwrap_err();
    assert_eq!(
        fault,
        Fault::Overflow { addr: p, size: 8, prefix_corrupt: true, suffix_corrupt: false }
    );
    assert!(contains(&fault.report(), "  -> underflow: prefix red zone corrupted\n"));
}

#[test]
fn double_free_is_reported() {
    let mut heap = Heap::new();
    let p = heap.allocate(16);
    assert_eq!(heap.free(p), Ok(()));
    let fault = heap.free(p).unwrap_err();
    assert_eq!(fault, Fault::DoubleFree { addr: p });
    let report = fault.report();
    assert!(contains(&report, "\x1b[1;31m=== libcplusplus sanitizer ===\x1b[0m"));
    assert!(contains(&report, "ERROR: double-free\n"));
    let mut buf = [0u8; 18];
    assert!(contains(&report, &text(format_hex(p, &mut buf))));
}

#[test]
fn invalid_free_is_reported() {
    let mut heap = Heap::new();
    let fault = heap.free(0xDEADBEEF).unwrap_err();
    assert_eq!(fault, Fault::InvalidFree { addr: 0xDEADBEEF });
    let report = fault.report();
    assert!(contains(&report, "ERROR: invalid free\n"));
    assert!(contains(&report, "  address: 0x00000000deadbeef\n"));
    assert!(report.ends_with(b"aborting.\n\n"));
}

#[test]
fn null_free_is_ignored() {
    let mut t = Box::new(Tracker::new());
    assert_eq!(begin_dealloc(&mut t, 0, AllocKind::Rust), FreeStep::Ignore);
}

#[test]
fn mismatched_kind_is_reported() {
    let mut t = Box::new(Tracker::new());
    t.insert(0x4010, 24, AllocKind::ScalarNew);
    let step = begin_dealloc(&mut t, 0x4010, AllocKind::ArrayNew);
    let fault = Fault::MismatchedDealloc {
        addr: 0x4010,
        allocated_with: AllocKind::ScalarNew,
        freed_with: AllocKind::ArrayNew,
    };
    assert_eq!(step, FreeStep::Fatal(fault));
    assert_eq!(t.lookup(0x4010), None);
    let report = fault.report();
    assert!(contains(&report, "ERROR: mismatched deallocation\n"));
    assert!(contains(&report, "  allocated with: operator new\n"));
    assert!(contains(&report, "  freed with:     operator new[]\n"));
}

#[test]
fn kinds_are_compatible_only_when_equal() {
    let kinds = [AllocKind::Rust, AllocKind::ScalarNew, AllocKind::ArrayNew];
    for a in kinds {
        for b in kinds {
            assert_eq!(kind_compatible(a, b), a == b);
        }
    }
}

#[test]
fn leak_report_lists_live_blocks() {
    let mut heap = Heap::new();
    let a = heap.allocate(32);
    let b = heap.allocate(128);
    let mut report = b"kept".to_vec();
    report_leaks(&heap.tracker, &mut report);
    assert!(report.starts_with(b"kept"));
    let report = report[4..].to_vec();
    assert!(report.starts_with(b"\n\x1b[1;33m=== libcplusplus sanitizer: leak report ===\x1b[0m\n"));
    assert_eq!(text(&report).matches("  LEAK: ").count(), 2);
    assert!(contains(&report, "  size=32  via=rust alloc\n"));
    assert!(contains(&report, "  size=128  via=rust alloc\n"));
    let mut buf = [0u8; 18];
    assert!(contains(&report, &text(format_hex(a, &mut buf))));
    assert!(contains(&report, &text(format_hex(b, &mut buf))));
    assert!(report.ends_with(b"  total leaks: 2\n\n"));
}

#[test]
fn leak_line_format() {
    assert_eq!(
        text(&leak_detected(0x1234, 99, AllocKind::ArrayNew)),
        "  LEAK: 0x0000000000001234  size=99  via=operator new[]\n"
    );
}

#[test]
fn fatal_report_texts() {
    assert_eq!(
        text(&double_free(0x10)),
        "\n\x1b[1;31m=== libcplusplus sanitizer ===\x1b[0m\nERROR: double-free\n  address: 0x0000000000000010\n  This address was already freed and is still in quarantine.\naborting.\n\n"
    );
    assert_eq!(
        text(&invalid_free(0x20)),
        "\n\x1b[1;31m=== libcplusplus sanitizer ===\x1b[0m\nERROR: invalid free\n  address: 0x0000000000000020\n  This address was not returned by any tracked allocation.\naborting.\n\n"
    );
    assert_eq!(
        text(&mismatched_dealloc(0x30, AllocKind::Rust, AllocKind::ScalarNew)),
        "\n\x1b[1;31m=== libcplusplus sanitizer ===\x1b[0m\nERROR: mismatched deallocation\n  address:        0x0000000000000030\n  allocated with: rust alloc\n  freed with:     operator new\naborting.\n\n"
    );
    assert_eq!(
        text(&overflow_detected(0x40, 5, true, true)),
        "\n\x1b[1;31m=== libcplusplus sanitizer ===\x1b[0m\nERROR: buffer overflow detected (red zone corruption)\n  address: 0x0000000000000040\n  size:    5 bytes\n  -> underflow: prefix red zone corrupted\n  -> overflow: suffix red zone corrupted\naborting.\n\n"
    );
}

#[test]
fn reallocate_preserves_content() {
    let mut heap = Heap::new();
    let p = heap.allocate(4);
    heap.block_mut(p)[16..20].copy_from_slice(&[1, 2, 3, 4]);
    let q = heap.allocate(8);
    assert_eq!(realloc_copy_len(4, 8), 4);
    let old_block = heap.block_mut(p).clone();
    copy_user_bytes(&old_block, 4, heap.block_mut(q).as_mut_slice(), 8);
    assert_eq!(heap.free(p), Ok(()));
    assert_eq!(&heap.block_mut(q)[16..20], &[1, 2, 3, 4]);
    assert_eq!(heap.free(q), Ok(()));
}

#[test]
fn shrinking_reallocation_copies_the_new_size() {
    assert_eq!(realloc_copy_len(10, 3), 3);
    let mut old_block = vec![0u8; total_size(10)];
    for i in 0..10 {
        old_block[16 + i] = 100 + i as u8;
    }
    let mut new_block = vec![9u8; total_size(3)];
    copy_user_bytes(&old_block, 10, new_block.as_mut_slice(), 3);
    assert_eq!(&new_block[16..19], &[100, 101, 102]);
    assert!(new_block[..16].iter().all(|b| *b == 9));
    assert!(new_block[19..].iter().all(|b| *b == 9));
}

#[test]
fn quarantine_returns_evicted_base_to_the_platform() {
    let mut heap = Heap::new();
    let first = heap.allocate(8);
    heap.free(first).unwrap();
    for _ in 0..QUARANTINE_CAPACITY - 1 {
        let p = heap.allocate(8);
        heap.free(p).unwrap();
    }
    assert!(heap.released.is_empty());
    let p = heap.allocate(8);
    heap.free(p).unwrap();
    assert_eq!(heap.released, vec![first - REDZONE_SIZE]);
    assert_eq!(heap.free(first), Err(Fault::InvalidFree { addr: first }));
}

#[test]
fn epoch_counts_up() {
    let e = Epoch::new();
    assert_eq!(e.get(), 0);
    assert_eq!(e.bump(), 0);
    assert_eq!(e.bump(), 1);
    assert_eq!(e.get(), 2);
}

#[test]
fn colliding_addresses_probe_to_the_next_slot() {
    let mut t = Box::new(Tracker::new());
    let a: usize = 16;
    let home = hash(a) % CAPACITY;
    let mut b: usize = 32;
    while hash(b) != home {
        b += 16;
    }
    t.insert(a, 1, AllocKind::Rust);
    t.insert(b, 2, AllocKind::Rust);
    assert_eq!(t.slot((home + 1) % CAPACITY).addr, b);
    assert_eq!(t.remove(a), Some((1, AllocKind::Rust)));
    assert_eq!(t.slot(home).state, SlotState::Tombstone);
    assert_eq!(t.lookup(b), Some((2, AllocKind::Rust)));
    t.insert(a + 0x100000, 3, AllocKind::Rust);
    if hash(a + 0x100000) == home {
        assert_eq!(t.slot(home).addr, a + 0x100000);
        assert_eq!(t.slot(home).state, SlotState::Occupied);
    }
}
