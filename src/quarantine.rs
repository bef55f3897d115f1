//! Quarantine: a fixed-capacity ring of recently freed blocks, held back from
//! the platform allocator so that double frees can be told from invalid ones.
use vstd::prelude::*;

verus! {

/// Number of blocks the ring holds.
pub const QUARANTINE_CAPACITY: usize = 256;

/// One quarantined block.
#[derive(Clone, Copy, PartialEq, Eq, Structural, Debug)]
pub struct QuarantineEntry {
    pub user_addr: usize,
    pub base_addr: usize,
    pub user_size: usize,
}

impl QuarantineEntry {
    /// The never-used slot.
    pub fn empty() -> (r: QuarantineEntry)
        ensures
            r == (QuarantineEntry { user_addr: 0, base_addr: 0, user_size: 0 }),
    {
        QuarantineEntry { user_addr: 0, base_addr: 0, user_size: 0 }
    }
}

/// The ring. Its view lists the quarantined blocks, oldest first.
pub struct Quarantine {
    ring: [QuarantineEntry; QUARANTINE_CAPACITY],
    pos: usize,
    len: usize,
}

/// What a push does to the list of quarantined blocks.
pub open spec fn pushed(q: Seq<QuarantineEntry>, e: QuarantineEntry) -> Seq<QuarantineEntry> {
    if q.len() >= QUARANTINE_CAPACITY {
        q.drop_first().push(e)
    } else {
        q.push(e)
    }
}

/// The blocks left after pushing `es` in order.
pub open spec fn pushed_all(q: Seq<QuarantineEntry>, es: Seq<QuarantineEntry>) -> Seq<QuarantineEntry>
    decreases es.len(),
{
    if es.len() == 0 {
        q
    } else {
        pushed(pushed_all(q, es.drop_last()), es.last())
    }
}

/// Whether some block of `q` has user address `addr`.
pub open spec fn holds_addr(q: Seq<QuarantineEntry>, addr: usize) -> bool {
    exists|i: int| 0 <= i < q.len() && (#[trigger] q[i]).user_addr == addr
}

proof fn lemma_pushed_keeps(q: Seq<QuarantineEntry>, x: QuarantineEntry, e: QuarantineEntry, m: int)
    requires
        q.len() <= QUARANTINE_CAPACITY,
        0 <= m < q.len(),
        m + 1 < QUARANTINE_CAPACITY,
        q[q.len() - 1 - m] == e,
    ensures
        pushed(q, x).len() <= QUARANTINE_CAPACITY,
        m + 1 < pushed(q, x).len(),
        pushed(q, x)[pushed(q, x).len() - 1 - (m + 1)] == e,
{
}

proof fn lemma_pushed_all_keeps(q: Seq<QuarantineEntry>, e: QuarantineEntry, es: Seq<QuarantineEntry>)
    requires
        q.len() <= QUARANTINE_CAPACITY,
        q.len() > 0,
        q.last() == e,
        es.len() < QUARANTINE_CAPACITY,
    ensures
        pushed_all(q, es).len() <= QUARANTINE_CAPACITY,
        es.len() < pushed_all(q, es).len(),
        pushed_all(q, es)[pushed_all(q, es).len() - 1 - es.len()] == e,
    decreases es.len(),
{
    if es.len() > 0 {
        lemma_pushed_all_keeps(q, e, es.drop_last());
        lemma_pushed_keeps(pushed_all(q, es.drop_last()), es.last(), e, es.len() - 1);
    }
}

/// A freed block stays quarantined while fewer than `QUARANTINE_CAPACITY`
/// further blocks are pushed after it: its address is found by `contains`
/// through all of them.
pub proof fn lemma_recent_free_stays(q: Seq<QuarantineEntry>, e: QuarantineEntry, later: Seq<QuarantineEntry>)
    requires
        q.len() <= QUARANTINE_CAPACITY,
        later.len() < QUARANTINE_CAPACITY,
    ensures
        holds_addr(pushed_all(pushed(q, e), later), e.user_addr),
{
    let q1 = pushed(q, e);
    assert(q1.last() == e);
    lemma_pushed_all_keeps(q1, e, later);
    let r = pushed_all(q1, later);
    assert(r[r.len() - 1 - later.len()].user_addr == e.user_addr);
}

/// The base addresses handed back, in order, while pushing `es` in order.
pub open spec fn evictions(q: Seq<QuarantineEntry>, es: Seq<QuarantineEntry>) -> Seq<usize>
    decreases es.len(),
{
    if es.len() == 0 {
        Seq::empty()
    } else {
        let before = pushed_all(q, es.drop_last());
        evictions(q, es.drop_last()) + if before.len() >= QUARANTINE_CAPACITY {
            seq![before[0].base_addr]
        } else {
            Seq::empty()
        }
    }
}

/// Blocks leave in the order they came: after pushing `es`, the evicted bases
/// are those of the first `d` blocks of `q + es` and the rest are still held.
proof fn lemma_pushed_all_window(q: Seq<QuarantineEntry>, es: Seq<QuarantineEntry>)
    requires
        q.len() <= QUARANTINE_CAPACITY,
    ensures
        ({
            let h = q + es;
            let d = evictions(q, es).len() as int;
            &&& d <= h.len()
            &&& pushed_all(q, es) == h.subrange(d, h.len() as int)
            &&& pushed_all(q, es).len() <= QUARANTINE_CAPACITY
            &&& forall|i: int| 0 <= i < d ==> #[trigger] evictions(q, es)[i] == h[i].base_addr
        }),
    decreases es.len(),
{
    let h = q + es;
    if es.len() == 0 {
        assert(h =~= q);
        assert(h.subrange(0, h.len() as int) =~= q);
    } else {
        let es0 = es.drop_last();
        lemma_pushed_all_window(q, es0);
        let h0 = q + es0;
        assert(h0 =~= h.subrange(0, h.len() - 1));
        let d0 = evictions(q, es0).len() as int;
        let before = pushed_all(q, es0);
        let x = es.last();
        assert(h[h.len() - 1] == x);
        if before.len() >= QUARANTINE_CAPACITY {
            assert(pushed_all(q, es) =~= h.subrange(d0 + 1, h.len() as int));
            assert(before[0] == h[d0]);
        } else {
            assert(pushed_all(q, es) =~= h.subrange(d0, h.len() as int));
        }
    }
}

/// Each quarantined block is handed back at most once, oldest first: the
/// bases that pushes evict are those of the blocks pushed, in push order, so
/// when the blocks carry distinct base addresses no base is evicted twice.
pub proof fn lemma_evicted_once(q: Seq<QuarantineEntry>, es: Seq<QuarantineEntry>)
    requires
        q.len() <= QUARANTINE_CAPACITY,
        forall|i: int, j: int|
            0 <= i < j < (q + es).len() ==> (#[trigger] (q + es)[i]).base_addr != (#[trigger] (q + es)[j]).base_addr,
    ensures
        evictions(q, es).no_duplicates(),
        evictions(q, es).len() <= (q + es).len(),
        forall|i: int| 0 <= i < evictions(q, es).len() ==> #[trigger] evictions(q, es)[i] == (q + es)[i].base_addr,
{
    lemma_pushed_all_window(q, es);
    let h = q + es;
    let ev = evictions(q, es);
    assert forall|i: int, j: int| 0 <= i < ev.len() && 0 <= j < ev.len() && i != j implies ev[i] != ev[j] by {
        if i < j {
            assert(h[i].base_addr != h[j].base_addr);
        } else {
            assert(h[j].base_addr != h[i].base_addr);
        }
    }
}

impl View for Quarantine {
    type V = Seq<QuarantineEntry>;

    closed spec fn view(&self) -> Seq<QuarantineEntry> {
        Seq::new(
            self.len as nat,
            |i: int| self.ring@[(self.pos + QUARANTINE_CAPACITY - self.len + i) % (QUARANTINE_CAPACITY as int)],
        )
    }
}

impl Quarantine {
    /// The ring's invariant: `pos` is where the next block goes, and until the
    /// ring first fills, the blocks sit in slots `0 .. len`.
    pub closed spec fn wf(&self) -> bool {
        &&& self.len <= QUARANTINE_CAPACITY
        &&& self.pos < QUARANTINE_CAPACITY
        &&& self.len < QUARANTINE_CAPACITY ==> self.pos == self.len
    }

    /// A quarantine never holds more than its capacity.
    pub proof fn lemma_bounded(&self)
        requires
            self.wf(),
        ensures
            self@.len() <= QUARANTINE_CAPACITY,
    {
    }

    /// An empty quarantine.
    pub fn new() -> (r: Quarantine)
        ensures
            r.wf(),
            r@ == Seq::<QuarantineEntry>::empty(),
    {
        let empty = QuarantineEntry::empty();
        let r = Quarantine { ring: [empty; QUARANTINE_CAPACITY], pos: 0, len: 0 };
        assert(r@ =~= Seq::<QuarantineEntry>::empty());
        r
    }

    /// Quarantines a freed block. When the ring was full, the oldest block
    /// leaves it and its base address is returned, to be handed back to the
    /// platform allocator.
    #[verifier::rlimit(40)]
    pub fn push(&mut self, user_addr: usize, base_addr: usize, user_size: usize) -> (r: Option<usize>)
        requires
            old(self).wf(),
        ensures
            final(self).wf(),
            final(self)@ == pushed(old(self)@, QuarantineEntry { user_addr, base_addr, user_size }),
            old(self)@.len() == QUARANTINE_CAPACITY ==> r == Some(old(self)@[0].base_addr),
            old(self)@.len() < QUARANTINE_CAPACITY ==> r is None,
    {
        let ghost old_view = self@;
        let evicted = if self.len == QUARANTINE_CAPACITY {
            Some(self.ring[self.pos].base_addr)
        } else {
            self.len = self.len + 1;
            None
        };
        let e = QuarantineEntry { user_addr, base_addr, user_size };
        let ghost old_pos = self.pos;
        self.ring[self.pos] = e;
        self.pos = (self.pos + 1) % QUARANTINE_CAPACITY;
        proof {
            let c = QUARANTINE_CAPACITY as int;
            if old_view.len() == c {
                assert(old_view[0] == old(self).ring@[old_pos as int]);
                assert forall|i: int| 0 <= i < c implies #[trigger] self@[i] == pushed(old_view, e)[i] by {
                    if i < c - 1 {
                        assert(self@[i] == old_view[i + 1]);
                    }
                }
            } else {
                assert forall|i: int| 0 <= i < self.len implies #[trigger] self@[i] == pushed(old_view, e)[i] by {
                    if i < self.len - 1 {
                        assert(self@[i] == old_view[i]);
                    }
                }
            }
            assert(self@ =~= pushed(old_view, e));
        }
        evicted
    }

    /// Whether a block with user address `user_addr` is quarantined.
    pub fn contains(&self, user_addr: usize) -> (r: bool)
        requires
            self.wf(),
        ensures
            r == holds_addr(self@, user_addr),
    {
        let mut i: usize = 0;
        while i < self.len
            invariant
                self.wf(),
                0 <= i <= self.len,
                forall|j: int| 0 <= j < i ==> (#[trigger] self.ring@[j]).user_addr != user_addr,
            decreases self.len - i,
        {
            if self.ring[i].user_addr == user_addr {
                proof {
                    self.lemma_slot_in_view(i as int);
                }
                return true;
            }
            i = i + 1;
        }
        proof {
            if holds_addr(self@, user_addr) {
                let j = choose|j: int| 0 <= j < self@.len() && (#[trigger] self@[j]).user_addr == user_addr;
                self.lemma_view_in_slots(j);
            }
        }
        false
    }

    /// The `len` filled slots are exactly the slots `0 .. len`, in some order.
    proof fn lemma_slot_in_view(&self, i: int)
        requires
            self.wf(),
            0 <= i < self.len,
        ensures
            exists|j: int| 0 <= j < self@.len() && #[trigger] self@[j] == self.ring@[i],
    {
        let c = QUARANTINE_CAPACITY as int;
        if self.len == c {
            let j = (i - self.pos + c) % c;
            assert(self@[j] == self.ring@[i]);
        } else {
            assert(self@[i] == self.ring@[i]);
        }
    }

    proof fn lemma_view_in_slots(&self, j: int)
        requires
            self.wf(),
            0 <= j < self@.len(),
        ensures
            exists|i: int| 0 <= i < self.len && self.ring@[i] == #[trigger] self@[j],
    {
        let c = QUARANTINE_CAPACITY as int;
        let i = (self.pos + c - self.len + j) % c;
        assert(self.ring@[i] == self@[j]);
    }
}

} // verus!
