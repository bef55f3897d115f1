//! Live-allocation table: a fixed-capacity open-addressed hash map from a
//! user address to the size and kind of its allocation, with linear probing
//! and tombstones.
use vstd::prelude::*;
use vstd::string::StringSliceAdditionalSpecFns;
use crate::diagnostic::{dec_text, kind_name, leak_text, push_dec, push_hex, push_text};

verus! {

/// Number of slots in the table.
pub const CAPACITY: usize = 16384;

/// Fibonacci hashing multiplier: 2^64 divided by the golden ratio.
pub const HASH_MULTIPLIER: u64 = 0x9E3779B97F4A7C15;

/// Shift that keeps the top 14 bits of the 64-bit product.
pub const HASH_SHIFT: u64 = 50;

/// How a block was allocated; a block must be freed the same way.
#[derive(Clone, Copy, PartialEq, Eq, Structural, Debug)]
pub enum AllocKind {
    Rust,
    ScalarNew,
    ArrayNew,
}

/// State of one slot of the table.
#[derive(Clone, Copy, PartialEq, Eq, Structural, Debug)]
pub enum SlotState {
    Empty,
    Occupied,
    Tombstone,
}

/// One slot of the table.
#[derive(Clone, Copy, Debug)]
pub struct Entry {
    pub addr: usize,
    pub size: usize,
    pub state: SlotState,
    pub kind: AllocKind,
}

impl Entry {
    /// The never-used slot.
    pub fn empty() -> (r: Entry)
        ensures
            r == (Entry { addr: 0, size: 0, state: SlotState::Empty, kind: AllocKind::Rust }),
    {
        Entry { addr: 0, size: 0, state: SlotState::Empty, kind: AllocKind::Rust }
    }
}

/// The table. Its view maps each live user address to `(size, kind)`.
pub struct Tracker {
    entries: [Entry; CAPACITY],
    count: usize,
    live: Ghost<Map<usize, (usize, AllocKind)>>,
    /// For each live address, how many probe steps from its home slot it sits.
    dist: Ghost<Map<usize, int>>,
}

/// The home slot of an address: the top 14 bits of its Fibonacci product.
pub open spec fn home_slot(addr: usize) -> int {
    ((addr as u64).wrapping_mul(HASH_MULTIPLIER) >> HASH_SHIFT) as int
}

/// The slot visited at step `k` of the probe for `addr`.
pub open spec fn probe_index(addr: usize, k: int) -> int {
    (home_slot(addr) + k) % (CAPACITY as int)
}

pub open spec fn is_occupied(e: Entry) -> bool {
    e.state == SlotState::Occupied
}

/// Number of occupied slots in `s`.
pub open spec fn occupied_count(s: Seq<Entry>) -> nat
    decreases s.len(),
{
    if s.len() == 0 {
        0
    } else {
        occupied_count(s.drop_last()) + if is_occupied(s.last()) { 1nat } else { 0nat }
    }
}

proof fn lemma_occupied_count_update(s: Seq<Entry>, i: int, e: Entry)
    requires
        0 <= i < s.len(),
    ensures
        occupied_count(s.update(i, e)) + (if is_occupied(s[i]) { 1int } else { 0int })
            == occupied_count(s) + (if is_occupied(e) { 1int } else { 0int }),
    decreases s.len(),
{
    let t = s.update(i, e);
    if i == s.len() - 1 {
        assert(t.drop_last() =~= s.drop_last());
    } else {
        assert(t.drop_last() =~= s.drop_last().update(i, e));
        lemma_occupied_count_update(s.drop_last(), i, e);
    }
}

proof fn lemma_occupied_count_bound(s: Seq<Entry>)
    ensures
        occupied_count(s) <= s.len(),
        occupied_count(s) == s.len() ==> forall|i: int| 0 <= i < s.len() ==> is_occupied(#[trigger] s[i]),
    decreases s.len(),
{
    if s.len() > 0 {
        lemma_occupied_count_bound(s.drop_last());
        if occupied_count(s) == s.len() {
            assert forall|i: int| 0 <= i < s.len() implies is_occupied(#[trigger] s[i]) by {
                if i < s.len() - 1 {
                    assert(s[i] == s.drop_last()[i]);
                }
            }
        }
    }
}

proof fn lemma_occupied_count_none(s: Seq<Entry>)
    requires
        forall|i: int| 0 <= i < s.len() ==> !is_occupied(#[trigger] s[i]),
    ensures
        occupied_count(s) == 0,
    decreases s.len(),
{
    if s.len() > 0 {
        assert forall|i: int| 0 <= i < s.drop_last().len() implies !is_occupied(#[trigger] s.drop_last()[i]) by {
            assert(s.drop_last()[i] == s[i]);
        }
        lemma_occupied_count_none(s.drop_last());
    }
}

/// Every slot is visited by the first `CAPACITY` steps of any probe.
proof fn lemma_probe_covers(addr: usize, i: int)
    requires
        0 <= home_slot(addr) < CAPACITY,
        0 <= i < CAPACITY,
    ensures
        probe_index(addr, (i - home_slot(addr) + CAPACITY) % (CAPACITY as int)) == i,
{
    let h = home_slot(addr);
    let c = CAPACITY as int;
    if i >= h {
        assert((i - h + c) % c == i - h);
    } else {
        assert((i - h + c) % c == i - h + c);
    }
}

/// Home slot of `addr`.
pub fn hash(addr: usize) -> (r: usize)
    ensures
        r as int == home_slot(addr),
        r < CAPACITY,
{
    let m: u64 = (addr as u64).wrapping_mul(HASH_MULTIPLIER);
    let h: u64 = m >> HASH_SHIFT;
    assert(m >> 50u64 < 16384u64) by (bit_vector);
    h as usize
}

impl View for Tracker {
    type V = Map<usize, (usize, AllocKind)>;

    closed spec fn view(&self) -> Map<usize, (usize, AllocKind)> {
        self.live@
    }
}

impl Tracker {
    /// The slots, in index order.
    pub closed spec fn slots(&self) -> Seq<Entry> {
        self.entries@
    }

    /// The table's invariant: one occupied slot per live address, reachable
    /// from its home slot without crossing an empty slot, and `count` equal to
    /// the number of occupied slots.
    pub closed spec fn wf(&self) -> bool {
        let e = self.entries@;
        &&& self.live@.dom() == self.dist@.dom()
        &&& self.live@.dom().finite()
        &&& self.count as nat == self.live@.len()
        &&& self.count as nat == occupied_count(e)
        &&& forall|a: usize| #[trigger] self.live@.contains_key(a) ==> {
            let d = self.dist@[a];
            let i = probe_index(a, d);
            &&& 0 <= d < CAPACITY
            &&& is_occupied(e[i])
            &&& e[i].addr == a
            &&& self.live@[a] == (e[i].size, e[i].kind)
        }
        &&& forall|a: usize, k: int|
            #![trigger self.live@.contains_key(a), probe_index(a, k)]
            self.live@.contains_key(a) && 0 <= k < self.dist@[a]
                ==> e[probe_index(a, k)].state != SlotState::Empty
        &&& forall|i: int| 0 <= i < CAPACITY && is_occupied(#[trigger] e[i])
            ==> self.live@.contains_key(e[i].addr) && probe_index(e[i].addr, self.dist@[e[i].addr]) == i
    }

    /// An empty table.
    pub fn new() -> (r: Tracker)
        ensures
            r.wf(),
            r@ == Map::<usize, (usize, AllocKind)>::empty(),
            r.slots().len() == CAPACITY,
            forall|i: int| 0 <= i < CAPACITY
                ==> #[trigger] r.slots()[i] == (Entry { addr: 0, size: 0, state: SlotState::Empty, kind: AllocKind::Rust }),
    {
        let empty = Entry::empty();
        let r = Tracker {
            entries: [empty; CAPACITY],
            count: 0,
            live: Ghost(Map::empty()),
            dist: Ghost(Map::empty()),
        };
        proof {
            lemma_occupied_count_none(r.entries@);
        }
        r
    }

    /// Number of live allocations.
    pub fn count(&self) -> (r: usize)
        requires
            self.wf(),
        ensures
            r == self@.len(),
            r <= CAPACITY,
    {
        proof {
            lemma_occupied_count_bound(self.entries@);
        }
        self.count
    }

    /// The slot at index `i`.
    pub fn slot(&self, i: usize) -> (r: Entry)
        requires
            i < CAPACITY,
        ensures
            r == self.slots()[i as int],
    {
        self.entries[i]
    }

    /// The occupied slots are the live allocations: each occupied slot holds
    /// a live address with its size and kind, and each live address sits in
    /// exactly one occupied slot.
    pub proof fn lemma_slots_are_live(&self)
        requires
            self.wf(),
        ensures
            self.slots().len() == CAPACITY,
            forall|i: int| 0 <= i < CAPACITY && is_occupied(#[trigger] self.slots()[i]) ==> {
                &&& self@.contains_key(self.slots()[i].addr)
                &&& self@[self.slots()[i].addr] == (self.slots()[i].size, self.slots()[i].kind)
            },
            forall|a: usize| #[trigger] self@.contains_key(a) ==> exists|i: int|
                0 <= i < CAPACITY && is_occupied(#[trigger] self.slots()[i]) && self.slots()[i].addr == a,
            forall|i: int, j: int|
                0 <= i < CAPACITY && 0 <= j < CAPACITY && is_occupied(#[trigger] self.slots()[i])
                    && is_occupied(#[trigger] self.slots()[j]) && self.slots()[i].addr == self.slots()[j].addr
                    ==> i == j,
    {
        assert forall|i: int| 0 <= i < CAPACITY && is_occupied(#[trigger] self.slots()[i]) implies {
            &&& self@.contains_key(self.slots()[i].addr)
            &&& self@[self.slots()[i].addr] == (self.slots()[i].size, self.slots()[i].kind)
        } by {
            lemma_wf_live(self, self.slots()[i].addr);
        }
        assert forall|a: usize| #[trigger] self@.contains_key(a) implies exists|i: int|
            0 <= i < CAPACITY && is_occupied(#[trigger] self.slots()[i]) && self.slots()[i].addr == a by {
            lemma_wf_live(self, a);
            let i = probe_index(a, self.dist@[a]);
            assert(is_occupied(self.slots()[i]));
        }
    }

    /// Records a live allocation. When every slot is occupied the record is
    /// dropped and the table is left as it was.
    #[verifier::rlimit(40)]
    pub fn insert(&mut self, addr: usize, size: usize, kind: AllocKind)
        requires
            old(self).wf(),
            !old(self)@.contains_key(addr),
        ensures
            final(self).wf(),
            old(self)@.len() < CAPACITY ==> final(self)@ == old(self)@.insert(addr, (size, kind)),
            old(self)@.len() >= CAPACITY ==> final(self)@ == old(self)@,
            old(self)@.len() < CAPACITY ==> exists|k: int| {
                &&& 0 <= k < CAPACITY
                &&& forall|m: int| 0 <= m < k ==> is_occupied(#[trigger] old(self).slots()[probe_index(addr, m)])
                &&& !is_occupied(old(self).slots()[probe_index(addr, k)])
                &&& final(self).slots() == old(self).slots().update(
                    probe_index(addr, k),
                    Entry { addr, size, state: SlotState::Occupied, kind },
                )
            },
            old(self)@.len() >= CAPACITY ==> final(self).slots() == old(self).slots(),
    {
        let mut idx: usize = hash(addr) % CAPACITY;
        let mut k: usize = 0;
        while k < CAPACITY
            invariant
                self.wf(),
                self@ == old(self)@,
                self.entries@ == old(self).entries@,
                !self@.contains_key(addr),
                0 <= k <= CAPACITY,
                idx as int == probe_index(addr, k as int),
                0 <= home_slot(addr) < CAPACITY,
                forall|j: int| 0 <= j < k ==> is_occupied(#[trigger] self.entries@[probe_index(addr, j)]),
            decreases CAPACITY - k,
        {
            proof {
                lemma_probe_step(addr, k as int);
            }
            match self.entries[idx].state {
                SlotState::Occupied => {
                    idx = (idx + 1) % CAPACITY;
                },
                _ => {
                    let ghost old_entries = self.entries@;
                    let e = Entry { addr, size, state: SlotState::Occupied, kind };
                    proof {
                        lemma_occupied_count_update(old_entries, idx as int, e);
                        lemma_occupied_count_bound(old_entries.update(idx as int, e));
                    }
                    self.entries[idx] = e;
                    self.count = self.count + 1;
                    self.live = Ghost(self.live@.insert(addr, (size, kind)));
                    self.dist = Ghost(self.dist@.insert(addr, k as int));
                    proof {
                        assert(self.entries@ == old_entries.update(idx as int, e));
                        assert(!is_occupied(old_entries[probe_index(addr, k as int)]));
                        assert forall|a: usize, j: int|
                            #![trigger self.live@.contains_key(a), probe_index(a, j)]
                            self.live@.contains_key(a) && 0 <= j < self.dist@[a]
                            implies self.entries@[probe_index(a, j)].state != SlotState::Empty by {
                            if a != addr {
                                assert(old(self)@.contains_key(a));
                            } else {
                                assert(is_occupied(old_entries[probe_index(addr, j)]));
                            }
                        }
                        assert forall|i: int| 0 <= i < CAPACITY && is_occupied(#[trigger] self.entries@[i])
                            implies self.live@.contains_key(self.entries@[i].addr)
                                && probe_index(self.entries@[i].addr, self.dist@[self.entries@[i].addr]) == i by {
                            if i != idx {
                                assert(old_entries[i] == self.entries@[i]);
                            }
                        }
                    }
                    return;
                },
            }
            k = k + 1;
        }
        proof {
            assert forall|i: int| 0 <= i < self.entries@.len() implies is_occupied(#[trigger] self.entries@[i]) by {
                lemma_probe_covers(addr, i);
                let j = (i - home_slot(addr) + CAPACITY) % (CAPACITY as int);
                assert(is_occupied(self.entries@[probe_index(addr, j)]));
            }
            lemma_occupied_count_all(self.entries@);
        }
    }

    /// Index of the slot that holds `addr`, if `addr` is live.
    fn find(&self, addr: usize) -> (r: Option<usize>)
        requires
            self.wf(),
        ensures
            r is None <==> !self@.contains_key(addr),
            r is Some ==> {
                let i = r->Some_0 as int;
                &&& 0 <= i < CAPACITY
                &&& is_occupied(self.entries@[i])
                &&& self.entries@[i].addr == addr
                &&& self@[addr] == (self.entries@[i].size, self.entries@[i].kind)
            },
    {
        let mut idx: usize = hash(addr) % CAPACITY;
        let mut k: usize = 0;
        while k < CAPACITY
            invariant
                self.wf(),
                0 <= k <= CAPACITY,
                idx as int == probe_index(addr, k as int),
                0 <= home_slot(addr) < CAPACITY,
                self@.contains_key(addr) ==> self.dist@[addr] >= k,
            decreases CAPACITY - k,
        {
            let e = self.entries[idx];
            proof {
                lemma_probe_step(addr, k as int);
            }
            if e.state == SlotState::Occupied && e.addr == addr {
                return Some(idx);
            }
            if e.state == SlotState::Empty {
                proof {
                    if self@.contains_key(addr) {
                        lemma_wf_live(self, addr);
                        lemma_wf_chain(self, addr, k as int);
                    }
                }
                return None;
            }
            proof {
                if self@.contains_key(addr) {
                    lemma_wf_live(self, addr);
                }
            }
            idx = (idx + 1) % CAPACITY;
            k = k + 1;
        }
        None
    }

    /// Size and kind recorded for `addr`, if it is live.
    pub fn lookup(&self, addr: usize) -> (r: Option<(usize, AllocKind)>)
        requires
            self.wf(),
        ensures
            r == self@.get(addr),
    {
        match self.find(addr) {
            Some(i) => Some((self.entries[i].size, self.entries[i].kind)),
            None => None,
        }
    }

    /// Forgets `addr` and returns its size and kind, if it was live.
    pub fn remove(&mut self, addr: usize) -> (r: Option<(usize, AllocKind)>)
        requires
            old(self).wf(),
        ensures
            final(self).wf(),
            r == old(self)@.get(addr),
            final(self)@ == old(self)@.remove(addr),
            r is Some ==> exists|i: int| {
                &&& 0 <= i < CAPACITY
                &&& is_occupied(#[trigger] old(self).slots()[i])
                &&& old(self).slots()[i].addr == addr
                &&& final(self).slots() == old(self).slots().update(
                    i,
                    Entry {
                        addr: old(self).slots()[i].addr,
                        size: old(self).slots()[i].size,
                        state: SlotState::Tombstone,
                        kind: old(self).slots()[i].kind,
                    },
                )
            },
            r is None ==> final(self).slots() == old(self).slots(),
    {
        match self.find(addr) {
            Some(idx) => {
                let size = self.entries[idx].size;
                let kind = self.entries[idx].kind;
                let ghost old_entries = self.entries@;
                let e = Entry { addr: self.entries[idx].addr, size, state: SlotState::Tombstone, kind };
                proof {
                    lemma_occupied_count_update(old_entries, idx as int, e);
                    assert(self.live@.remove(addr).len() == self.live@.len() - 1);
                }
                self.entries[idx] = e;
                self.count = self.count - 1;
                self.live = Ghost(self.live@.remove(addr));
                self.dist = Ghost(self.dist@.remove(addr));
                proof {
                    assert(self.entries@ == old_entries.update(idx as int, e));
                    assert forall|a: usize| #[trigger] self.live@.contains_key(a) implies {
                        let d = self.dist@[a];
                        let i = probe_index(a, d);
                        &&& 0 <= d < CAPACITY
                        &&& is_occupied(self.entries@[i])
                        &&& self.entries@[i].addr == a
                        &&& self.live@[a] == (self.entries@[i].size, self.entries@[i].kind)
                    } by {
                        assert(old(self)@.contains_key(a));
                    }
                    assert forall|a: usize, j: int|
                        #![trigger self.live@.contains_key(a), probe_index(a, j)]
                        self.live@.contains_key(a) && 0 <= j < self.dist@[a]
                        implies self.entries@[probe_index(a, j)].state != SlotState::Empty by {
                        assert(old(self)@.contains_key(a));
                    }
                    assert forall|i: int| 0 <= i < CAPACITY && is_occupied(#[trigger] self.entries@[i])
                        implies self.live@.contains_key(self.entries@[i].addr)
                            && probe_index(self.entries@[i].addr, self.dist@[self.entries@[i].addr]) == i by {
                        assert(old_entries[i] == self.entries@[i]);
                    }
                    assert(is_occupied(old(self).slots()[idx as int]));
                    assert(self.slots() == old(self).slots().update(idx as int, e));
                }
                Some((size, kind))
            },
            None => {
                proof {
                    assert(self.live@.remove(addr) =~= self.live@);
                }
                None
            },
        }
    }
}

/// An operation on the table, as a record of what a caller did.
#[derive(Clone, Copy, PartialEq, Eq, Structural, Debug)]
pub enum TableOp {
    Insert { addr: usize, size: usize, kind: AllocKind },
    Remove { addr: usize },
}

/// What one operation does to the table's view, as `insert` and `remove`
/// state it.
pub open spec fn apply_op(m: Map<usize, (usize, AllocKind)>, op: TableOp) -> Map<usize, (usize, AllocKind)> {
    match op {
        TableOp::Insert { addr, size, kind } => if m.len() < CAPACITY { m.insert(addr, (size, kind)) } else { m },
        TableOp::Remove { addr } => m.remove(addr),
    }
}

pub open spec fn apply_ops(m: Map<usize, (usize, AllocKind)>, ops: Seq<TableOp>) -> Map<usize, (usize, AllocKind)>
    decreases ops.len(),
{
    if ops.len() == 0 {
        m
    } else {
        apply_op(apply_ops(m, ops.drop_last()), ops.last())
    }
}

/// A well-behaved caller: it inserts only fresh addresses while fewer than
/// `CAPACITY` are live, and removes only live ones.
pub open spec fn ops_valid(m: Map<usize, (usize, AllocKind)>, ops: Seq<TableOp>) -> bool
    decreases ops.len(),
{
    if ops.len() == 0 {
        true
    } else {
        let before = apply_ops(m, ops.drop_last());
        &&& ops_valid(m, ops.drop_last())
        &&& match ops.last() {
            TableOp::Insert { addr, .. } => !before.contains_key(addr) && before.len() < CAPACITY,
            TableOp::Remove { addr } => before.contains_key(addr),
        }
    }
}

/// Allocations made minus allocations freed.
pub open spec fn outstanding(ops: Seq<TableOp>) -> int
    decreases ops.len(),
{
    if ops.len() == 0 {
        0
    } else {
        outstanding(ops.drop_last()) + match ops.last() {
            TableOp::Insert { .. } => 1int,
            TableOp::Remove { .. } => -1int,
        }
    }
}

/// Starting from an empty table, after any well-behaved sequence of inserts
/// and removes the number of live allocations (which `count` returns) is the
/// number of allocations made and not yet freed.
pub proof fn lemma_count_is_outstanding(ops: Seq<TableOp>)
    requires
        ops_valid(Map::empty(), ops),
    ensures
        apply_ops(Map::empty(), ops).dom().finite(),
        apply_ops(Map::empty(), ops).len() == outstanding(ops),
    decreases ops.len(),
{
    if ops.len() > 0 {
        lemma_count_is_outstanding(ops.drop_last());
    }
}

/// The leak lines of the occupied slots of `s`, in slot order.
pub open spec fn leak_lines(s: Seq<Entry>) -> Seq<u8>
    decreases s.len(),
{
    if s.len() == 0 {
        Seq::empty()
    } else {
        leak_lines(s.drop_last()) + if is_occupied(s.last()) {
            leak_text(s.last().addr, s.last().size, s.last().kind)
        } else {
            Seq::empty()
        }
    }
}

/// First line of the leak report: a yellow banner.
pub open spec fn leak_banner() -> Seq<u8> {
    "\n\x1b[1;33m=== libcplusplus sanitizer: leak report ===\x1b[0m\n".spec_bytes()
}

/// The leak report of a table: nothing when no allocation is live, else the
/// banner, one line per live allocation and the total.
pub open spec fn leak_report_text(t: &Tracker) -> Seq<u8> {
    if t@.len() == 0 {
        Seq::empty()
    } else {
        leak_banner() + leak_lines(t.slots()) + "  total leaks: ".spec_bytes() + dec_text(t@.len())
            + "\n\n".spec_bytes()
    }
}

/// Appends the leak report of every live allocation to `out`; an empty table
/// appends nothing. The bytes are pushed one by one, so a buffer reserved
/// beforehand with room for the report is never reallocated.
pub fn report_leaks(tracker: &Tracker, out: &mut Vec<u8>)
    requires
        tracker.wf(),
    ensures
        final(out)@ == old(out)@ + leak_report_text(tracker),
{
    let count = tracker.count();
    if count == 0 {
        assert(out@ =~= old(out)@ + leak_report_text(tracker));
        return;
    }
    push_text(out, "\n\x1b[1;33m=== libcplusplus sanitizer: leak report ===\x1b[0m\n");
    let ghost start = out@;
    let mut i: usize = 0;
    while i < CAPACITY
        invariant
            0 <= i <= CAPACITY,
            tracker.wf(),
            out@ == start + leak_lines(tracker.slots().subrange(0, i as int)),
        decreases CAPACITY - i,
    {
        let e = tracker.slot(i);
        if e.state == SlotState::Occupied {
            push_text(out, "  LEAK: ");
            push_hex(out, e.addr);
            push_text(out, "  size=");
            push_dec(out, e.size);
            push_text(out, "  via=");
            push_text(out, kind_name(e.kind));
            push_text(out, "\n");
        }
        proof {
            let s = tracker.slots().subrange(0, i + 1);
            assert(s.drop_last() =~= tracker.slots().subrange(0, i as int));
            assert(out@ =~= start + leak_lines(s));
        }
        i = i + 1;
    }
    assert(tracker.slots().subrange(0, CAPACITY as int) =~= tracker.slots());
    push_text(out, "  total leaks: ");
    push_dec(out, count);
    push_text(out, "\n\n");
    assert(out@ =~= old(out)@ + leak_report_text(tracker));
}

proof fn lemma_probe_step(addr: usize, k: int)
    ensures
        probe_index(addr, k + 1) == (probe_index(addr, k) + 1) % (CAPACITY as int),
{
    let c = CAPACITY as int;
    let h = home_slot(addr);
    vstd::arithmetic::div_mod::lemma_add_mod_noop(h + k, 1, c);
    vstd::arithmetic::div_mod::lemma_mod_twice(1, c);
}

proof fn lemma_wf_live(t: &Tracker, a: usize)
    requires
        t.wf(),
        t@.contains_key(a),
    ensures
        ({
            let d = t.dist@[a];
            let i = probe_index(a, d);
            &&& 0 <= d < CAPACITY
            &&& is_occupied(t.entries@[i])
            &&& t.entries@[i].addr == a
            &&& t@[a] == (t.entries@[i].size, t.entries@[i].kind)
        }),
{
}

proof fn lemma_wf_chain(t: &Tracker, a: usize, k: int)
    requires
        t.wf(),
        t@.contains_key(a),
        0 <= k < t.dist@[a],
    ensures
        t.entries@[probe_index(a, k)].state != SlotState::Empty,
{
}

proof fn lemma_occupied_count_all(s: Seq<Entry>)
    requires
        forall|i: int| 0 <= i < s.len() ==> is_occupied(#[trigger] s[i]),
    ensures
        occupied_count(s) == s.len(),
    decreases s.len(),
{
    if s.len() > 0 {
        assert forall|i: int| 0 <= i < s.drop_last().len() implies is_occupied(#[trigger] s.drop_last()[i]) by {
            assert(s.drop_last()[i] == s[i]);
        }
        lemma_occupied_count_all(s.drop_last());
    }
}

} // verus!
