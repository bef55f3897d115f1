//! Red zones: the canary bands around each user region, their check, and the
//! poison written over a freed region. A block is the raw allocation as a
//! byte slice: prefix band, user region, suffix band.
use vstd::prelude::*;

verus! {

/// Size of each red zone, in bytes.
pub const REDZONE_SIZE: usize = 16;

/// Byte written into red zones.
pub const CANARY_BYTE: u8 = 0xAB;

/// Byte written over freed user data.
pub const POISON_BYTE: u8 = 0xFE;

/// Raw size of a block whose user region holds `user_size` bytes.
pub open spec fn block_size(user_size: usize) -> int {
    REDZONE_SIZE + user_size + REDZONE_SIZE
}

/// Offset of the suffix band in a block.
pub open spec fn suffix_start(user_size: usize) -> int {
    REDZONE_SIZE + user_size
}

/// Whether the `REDZONE_SIZE` bytes of `b` from `start` all hold the canary.
pub open spec fn band_intact(b: Seq<u8>, start: int) -> bool {
    forall|i: int| start <= i < start + REDZONE_SIZE ==> #[trigger] b[i] == CANARY_BYTE
}

/// Whether both bands of a block are intact.
pub open spec fn canaries_intact(b: Seq<u8>, user_size: usize) -> bool {
    band_intact(b, 0) && band_intact(b, suffix_start(user_size))
}

/// A block whose user region has been overwritten with `data`.
pub open spec fn with_user_bytes(b: Seq<u8>, data: Seq<u8>) -> Seq<u8> {
    b.subrange(0, REDZONE_SIZE as int) + data + b.subrange(REDZONE_SIZE + data.len(), b.len() as int)
}

/// Writes inside the user region cannot disturb the sanitizer: the red zones
/// stay intact, so the free that follows succeeds, and the region reads back
/// exactly the bytes written.
pub proof fn lemma_user_write_read(b: Seq<u8>, user_size: usize, data: Seq<u8>)
    requires
        b.len() == block_size(user_size),
        data.len() == user_size,
        canaries_intact(b, user_size),
    ensures
        with_user_bytes(b, data).len() == b.len(),
        canaries_intact(with_user_bytes(b, data), user_size),
        with_user_bytes(b, data).subrange(REDZONE_SIZE as int, suffix_start(user_size)) == data,
{
    let w = with_user_bytes(b, data);
    assert forall|i: int| 0 <= i < REDZONE_SIZE implies #[trigger] w[i] == CANARY_BYTE by {
        assert(w[i] == b[i]);
    }
    assert forall|i: int| suffix_start(user_size) <= i < suffix_start(user_size) + REDZONE_SIZE
        implies #[trigger] w[i] == CANARY_BYTE by {
        assert(w[i] == b[i]);
    }
    assert(w.subrange(REDZONE_SIZE as int, suffix_start(user_size)) =~= data);
}

/// Raw size for a user size: both red zones added.
pub fn total_size(user_size: usize) -> (r: usize)
    requires
        user_size + 2 * REDZONE_SIZE <= usize::MAX,
    ensures
        r == block_size(user_size),
{
    REDZONE_SIZE + user_size + REDZONE_SIZE
}

/// Writes the canary over both bands and leaves the user region as it was.
pub fn fill_canaries(block: &mut [u8], user_size: usize)
    requires
        old(block)@.len() == block_size(user_size),
    ensures
        final(block)@.len() == old(block)@.len(),
        canaries_intact(final(block)@, user_size),
        final(block)@.subrange(REDZONE_SIZE as int, suffix_start(user_size))
            == old(block)@.subrange(REDZONE_SIZE as int, suffix_start(user_size)),
{
    let n: usize = block.len();
    let mut i: usize = 0;
    while i < REDZONE_SIZE
        invariant
            0 <= i <= REDZONE_SIZE,
            block@.len() == old(block)@.len(),
            block@.len() == block_size(user_size),
            forall|j: int| 0 <= j < i ==> #[trigger] block@[j] == CANARY_BYTE,
            forall|j: int| REDZONE_SIZE <= j < block@.len() ==> #[trigger] block@[j] == old(block)@[j],
        decreases REDZONE_SIZE - i,
    {
        block[i] = CANARY_BYTE;
        i = i + 1;
    }
    let suffix: usize = REDZONE_SIZE + user_size;
    let mut k: usize = 0;
    while k < REDZONE_SIZE
        invariant
            0 <= k <= REDZONE_SIZE,
            suffix == suffix_start(user_size),
            n == block@.len(),
            block@.len() == old(block)@.len(),
            block@.len() == block_size(user_size),
            band_intact(block@, 0),
            forall|j: int| suffix <= j < suffix + k ==> #[trigger] block@[j] == CANARY_BYTE,
            forall|j: int| REDZONE_SIZE <= j < suffix ==> #[trigger] block@[j] == old(block)@[j],
        decreases REDZONE_SIZE - k,
    {
        block[suffix + k] = CANARY_BYTE;
        k = k + 1;
    }
    assert(final(block)@.subrange(REDZONE_SIZE as int, suffix_start(user_size))
        =~= old(block)@.subrange(REDZONE_SIZE as int, suffix_start(user_size)));
}

/// Scans one band; true when some byte of it is not the canary.
fn band_corrupt(block: &[u8], start: usize) -> (r: bool)
    requires
        start + REDZONE_SIZE <= block@.len(),
    ensures
        r == !band_intact(block@, start as int),
{
    let n: usize = block.len();
    let mut i: usize = 0;
    while i < REDZONE_SIZE
        invariant
            0 <= i <= REDZONE_SIZE,
            n == block@.len(),
            start + REDZONE_SIZE <= block@.len(),
            forall|j: int| start <= j < start + i ==> #[trigger] block@[j] == CANARY_BYTE,
        decreases REDZONE_SIZE - i,
    {
        if block[start + i] != CANARY_BYTE {
            return true;
        }
        i = i + 1;
    }
    false
}

/// Checks both bands of a block: `(prefix corrupt, suffix corrupt)`.
/// A corrupt prefix means a write before the user region, a corrupt suffix
/// one past its end.
pub fn check_canaries(block: &[u8], user_size: usize) -> (r: (bool, bool))
    requires
        block@.len() == block_size(user_size),
    ensures
        r.0 == !band_intact(block@, 0),
        r.1 == !band_intact(block@, suffix_start(user_size)),
{
    let n: usize = block.len();
    let prefix_corrupt = band_corrupt(block, 0);
    let suffix_corrupt = band_corrupt(block, REDZONE_SIZE + user_size);
    (prefix_corrupt, suffix_corrupt)
}

/// Writes the poison byte over the user region and leaves both bands as
/// they were.
pub fn poison(block: &mut [u8], user_size: usize)
    requires
        old(block)@.len() == block_size(user_size),
    ensures
        final(block)@.len() == old(block)@.len(),
        forall|j: int| REDZONE_SIZE <= j < suffix_start(user_size) ==> #[trigger] final(block)@[j] == POISON_BYTE,
        forall|j: int| 0 <= j < REDZONE_SIZE ==> #[trigger] final(block)@[j] == old(block)@[j],
        forall|j: int| suffix_start(user_size) <= j < block_size(user_size) ==> #[trigger] final(block)@[j] == old(block)@[j],
{
    let n: usize = block.len();
    let mut i: usize = 0;
    while i < user_size
        invariant
            0 <= i <= user_size,
            n == block@.len(),
            block@.len() == old(block)@.len(),
            block@.len() == block_size(user_size),
            forall|j: int| REDZONE_SIZE <= j < REDZONE_SIZE + i ==> #[trigger] block@[j] == POISON_BYTE,
            forall|j: int| 0 <= j < REDZONE_SIZE ==> #[trigger] block@[j] == old(block)@[j],
            forall|j: int| REDZONE_SIZE + i <= j < block_size(user_size) ==> #[trigger] block@[j] == old(block)@[j],
        decreases user_size - i,
    {
        block[REDZONE_SIZE + i] = POISON_BYTE;
        i = i + 1;
    }
}

} // verus!
