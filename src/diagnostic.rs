//! Diagnostic text: fixed-width hex and decimal numbers, and the reports the
//! sanitizer writes to standard error. Each reporter returns the exact bytes
//! to write; the caller writes them and, for the fatal ones, aborts.
use vstd::prelude::*;
use vstd::string::StringSliceAdditionalSpecFns;
use crate::tracker::AllocKind;

verus! {

/// The lowercase hex digit for `d`, which is below 16.
pub open spec fn hex_digit(d: nat) -> u8 {
    if d < 10 {
        (48 + d) as u8
    } else {
        (87 + d) as u8
    }
}

/// The lowest `n` hex digits of `v`, most significant first.
pub open spec fn hex_digits(v: nat, n: nat) -> Seq<u8>
    decreases n,
{
    if n == 0 {
        Seq::empty()
    } else {
        hex_digits(v / 16, (n - 1) as nat).push(hex_digit(v % 16))
    }
}

/// `0x` followed by 16 zero-padded lowercase hex digits.
pub open spec fn hex_text(v: usize) -> Seq<u8> {
    seq![48u8, 120u8] + hex_digits(v as nat, 16)
}

/// Whether `c` is one of `0-9a-f`.
pub open spec fn is_lower_hex(c: u8) -> bool {
    (48 <= c <= 57) || (97 <= c <= 102)
}

/// The decimal digits of `v`, with no leading zero; `0` is a single digit.
pub open spec fn dec_text(v: nat) -> Seq<u8>
    decreases v,
{
    if v < 10 {
        seq![(48 + v) as u8]
    } else {
        dec_text(v / 10).push((48 + v % 10) as u8)
    }
}

/// The number that a string of decimal digits spells.
pub open spec fn parse_dec(s: Seq<u8>) -> nat
    decreases s.len(),
{
    if s.len() == 0 {
        0
    } else {
        parse_dec(s.drop_last()) * 10 + (s.last() - 48) as nat
    }
}

pub open spec fn pow10(n: nat) -> nat
    decreases n,
{
    if n == 0 {
        1
    } else {
        10 * pow10((n - 1) as nat)
    }
}

pub open spec fn pow16(n: nat) -> nat
    decreases n,
{
    if n == 0 {
        1
    } else {
        16 * pow16((n - 1) as nat)
    }
}

/// Digit `j` of `hex_digits(v, n)` is hex digit `n - 1 - j` of `v`, counted
/// from the least significant.
proof fn lemma_hex_digits_index(v: nat, n: nat, j: int)
    requires
        0 <= j < n,
    ensures
        hex_digits(v, n)[j] == hex_digit((v / pow16((n - 1 - j) as nat)) % 16),
    decreases n,
{
    lemma_hex_digits_shape(v / 16, (n - 1) as nat);
    if j == n - 1 {
        assert(pow16(0) == 1);
        assert(v / 1 == v);
    } else {
        lemma_hex_digits_index(v / 16, (n - 1) as nat, j);
        let m = (n - 2 - j) as nat;
        assert(pow16(m + 1) == 16 * pow16(m));
        assert(pow16(m) > 0) by {
            lemma_pow16_positive(m);
        }
        vstd::arithmetic::div_mod::lemma_div_denominator(v as int, 16, pow16(m) as int);
        assert((n - 1 - j) as nat == m + 1);
    }
}

proof fn lemma_pow16_positive(n: nat)
    ensures
        pow16(n) > 0,
    decreases n,
{
    if n > 0 {
        lemma_pow16_positive((n - 1) as nat);
    }
}

proof fn lemma_hex_digits_shape(v: nat, n: nat)
    ensures
        hex_digits(v, n).len() == n,
        forall|i: int| 0 <= i < n ==> is_lower_hex(#[trigger] hex_digits(v, n)[i]),
    decreases n,
{
    if n > 0 {
        lemma_hex_digits_shape(v / 16, (n - 1) as nat);
    }
}

/// Writes `0x` and 16 lowercase hex digits of `value` into `buf`.
pub fn format_hex(value: usize, buf: &mut [u8; 18]) -> (r: &[u8])
    ensures
        r@ == hex_text(value),
        r@ == final(buf)@,
        r@.len() == 18,
        r@[0] == 48u8 && r@[1] == 120u8,
        forall|i: int| 2 <= i < 18 ==> is_lower_hex(#[trigger] r@[i]),
        forall|i: int| 2 <= i < 18 ==> #[trigger] r@[i] == hex_digit(((value as nat) / pow16((17 - i) as nat)) % 16),
{
    buf[0] = 48u8;
    buf[1] = 120u8;
    let mut v: usize = value;
    let mut i: usize = 18;
    while i > 2
        invariant
            2 <= i <= 18,
            buf@.len() == 18,
            buf@[0] == 48u8 && buf@[1] == 120u8,
            hex_digits(value as nat, 16) == hex_digits(v as nat, (i - 2) as nat) + buf@.subrange(i as int, 18),
        decreases i,
    {
        i = i - 1;
        let digit: u8 = (v & 0xF) as u8;
        assert(v & 0xF == v % 16) by (bit_vector);
        let ghost old_tail = buf@.subrange(i as int + 1, 18);
        let ghost old_v = v;
        buf[i] = if digit < 10 {
            48u8 + digit  // '0' + digit
        } else {
            87u8 + digit  // 'a' + digit - 10
        };
        assert(v >> 4 == v / 16) by (bit_vector);
        v = v >> 4;
        proof {
            assert(buf@.subrange(i as int, 18) =~= seq![hex_digit(old_v as nat % 16)] + old_tail);
            assert(hex_digits(old_v as nat, (i + 1 - 2) as nat)
                == hex_digits(v as nat, (i - 2) as nat).push(hex_digit(old_v as nat % 16)));
            assert(hex_digits(v as nat, (i - 2) as nat) + buf@.subrange(i as int, 18)
                =~= hex_digits(v as nat, (i - 2) as nat).push(hex_digit(old_v as nat % 16)) + old_tail);
        }
    }
    proof {
        assert(hex_digits(v as nat, 0) + buf@.subrange(2, 18) =~= buf@.subrange(2, 18));
        assert(buf@ =~= hex_text(value));
        lemma_hex_digits_shape(value as nat, 16);
        assert forall|i: int| 2 <= i < 18 implies #[trigger] buf@[i] == hex_digit(((value as nat) / pow16((17 - i) as nat)) % 16) by {
            lemma_hex_digits_index(value as nat, 16, i - 2);
        }
    }
    buf
}

proof fn lemma_dec_text_len(v: nat)
    ensures
        dec_text(v).len() >= 1,
    decreases v,
{
    if v >= 10 {
        lemma_dec_text_len(v / 10);
    }
}

/// Decimal text spells its number back: parsing `dec_text(v)` gives `v`.
pub proof fn lemma_dec_round_trip(v: nat)
    ensures
        parse_dec(dec_text(v)) == v,
    decreases v,
{
    let s = dec_text(v);
    if v < 10 {
        assert(s.drop_last() =~= Seq::<u8>::empty());
        assert(parse_dec(s.drop_last()) == 0);
        assert(s.last() == (48 + v) as u8);
        assert(parse_dec(s) == parse_dec(s.drop_last()) * 10 + (s.last() - 48) as nat);
    } else {
        lemma_dec_round_trip(v / 10);
        assert(s.drop_last() =~= dec_text(v / 10));
        assert(s.last() == (48 + v % 10) as u8);
        assert(parse_dec(s) == parse_dec(s.drop_last()) * 10 + (s.last() - 48) as nat);
        assert((v / 10) * 10 + v % 10 == v) by (nonlinear_arith);
    }
}

/// Writes the decimal digits of `value` at the end of `buf` and returns them.
pub fn format_dec(value: usize, buf: &mut [u8; 20]) -> (r: &[u8])
    ensures
        r@ == dec_text(value as nat),
        parse_dec(r@) == value,
        1 <= r@.len() <= 20,
        r@ == final(buf)@.subrange(20 - r@.len(), 20),
{
    proof {
        lemma_dec_round_trip(value as nat);
    }
    if value == 0 {
        buf[19] = 48u8;
        let r = vstd::slice::slice_subrange(buf.as_slice(), 19, 20);
        assert(r@ =~= dec_text(0));
        return r;
    }
    let mut v: usize = value;
    let mut i: usize = 20;
    proof {
        reveal_with_fuel(pow10, 21);
        assert(pow10(20) == 100000000000000000000nat);
    }
    while v > 0
        invariant
            0 <= i <= 20,
            buf@.len() == 20,
            (v as nat) < pow10(i as nat),
            v > 0 ==> dec_text(value as nat) == dec_text(v as nat) + buf@.subrange(i as int, 20),
            v == 0 ==> dec_text(value as nat) == buf@.subrange(i as int, 20),
        decreases v,
    {
        assert(i > 0);
        let ghost old_v = v;
        let ghost old_tail = buf@.subrange(i as int, 20);
        i = i - 1;
        buf[i] = 48u8 + (v % 10) as u8;
        v = v / 10;
        proof {
            assert(pow10(i as nat + 1) == 10 * pow10(i as nat));
            assert((v as nat) < pow10(i as nat)) by (nonlinear_arith)
                requires
                    v == old_v / 10,
                    (old_v as nat) < 10 * pow10(i as nat),
            ;
            assert(buf@.subrange(i as int, 20) =~= seq![(48 + old_v as nat % 10) as u8] + old_tail);
            if v > 0 {
                assert(dec_text(old_v as nat) == dec_text(v as nat).push((48 + old_v as nat % 10) as u8));
                assert(dec_text(v as nat) + buf@.subrange(i as int, 20)
                    =~= dec_text(v as nat).push((48 + old_v as nat % 10) as u8) + old_tail);
            } else {
                assert(dec_text(old_v as nat) == seq![(48 + old_v as nat % 10) as u8]);
            }
        }
    }
    vstd::slice::slice_subrange(buf.as_slice(), i, 20)
}

/// Appends `s` to `out`.
pub(crate) fn push_bytes(out: &mut Vec<u8>, s: &[u8])
    ensures
        final(out)@ == old(out)@ + s@,
{
    let mut i: usize = 0;
    while i < s.len()
        invariant
            0 <= i <= s@.len(),
            out@ == old(out)@ + s@.subrange(0, i as int),
        decreases s@.len() - i,
    {
        out.push(s[i]);
        i = i + 1;
        assert(out@ =~= old(out)@ + s@.subrange(0, i as int));
    }
    assert(s@.subrange(0, s@.len() as int) =~= s@);
}

/// Appends the UTF-8 bytes of `s` to `out`.
pub(crate) fn push_text(out: &mut Vec<u8>, s: &str)
    ensures
        final(out)@ == old(out)@ + s.spec_bytes(),
{
    push_bytes(out, s.as_bytes());
}

/// Appends the hex text of `v`.
pub(crate) fn push_hex(out: &mut Vec<u8>, v: usize)
    ensures
        final(out)@ == old(out)@ + hex_text(v),
{
    let mut buf: [u8; 18] = [0u8; 18];
    let h = format_hex(v, &mut buf);
    push_bytes(out, h);
}

/// Appends the decimal text of `v`.
pub(crate) fn push_dec(out: &mut Vec<u8>, v: usize)
    ensures
        final(out)@ == old(out)@ + dec_text(v as nat),
{
    let mut buf: [u8; 20] = [0u8; 20];
    let d = format_dec(v, &mut buf);
    push_bytes(out, d);
}

/// The name under which a kind of allocation is reported.
pub open spec fn kind_label(kind: AllocKind) -> Seq<u8> {
    match kind {
        AllocKind::Rust => "rust alloc".spec_bytes(),
        AllocKind::ScalarNew => "operator new".spec_bytes(),
        AllocKind::ArrayNew => "operator new[]".spec_bytes(),
    }
}

pub fn kind_name(kind: AllocKind) -> (r: &'static str)
    ensures
        r.spec_bytes() == kind_label(kind),
{
    match kind {
        AllocKind::Rust => "rust alloc",
        AllocKind::ScalarNew => "operator new",
        AllocKind::ArrayNew => "operator new[]",
    }
}

/// First line of every fatal report: a red banner.
pub open spec fn fatal_header() -> Seq<u8> {
    "\n\x1b[1;31m=== libcplusplus sanitizer ===\x1b[0m\n".spec_bytes()
}

/// Last line of every fatal report.
pub open spec fn abort_trailer() -> Seq<u8> {
    "aborting.\n\n".spec_bytes()
}

pub open spec fn double_free_text(addr: usize) -> Seq<u8> {
    fatal_header() + "ERROR: double-free\n".spec_bytes() + "  address: ".spec_bytes() + hex_text(addr)
        + "\n  This address was already freed and is still in quarantine.\n".spec_bytes()
        + abort_trailer()
}

pub open spec fn invalid_free_text(addr: usize) -> Seq<u8> {
    fatal_header() + "ERROR: invalid free\n".spec_bytes() + "  address: ".spec_bytes() + hex_text(addr)
        + "\n  This address was not returned by any tracked allocation.\n".spec_bytes()
        + abort_trailer()
}

pub open spec fn mismatched_dealloc_text(addr: usize, allocated_with: AllocKind, freed_with: AllocKind) -> Seq<u8> {
    fatal_header() + "ERROR: mismatched deallocation\n".spec_bytes() + "  address:        ".spec_bytes()
        + hex_text(addr) + "\n  allocated with: ".spec_bytes() + kind_label(allocated_with)
        + "\n  freed with:     ".spec_bytes() + kind_label(freed_with) + "\n".spec_bytes()
        + abort_trailer()
}

pub open spec fn overflow_text(addr: usize, size: usize, prefix_corrupt: bool, suffix_corrupt: bool) -> Seq<u8> {
    fatal_header() + "ERROR: buffer overflow detected (red zone corruption)\n".spec_bytes()
        + "  address: ".spec_bytes() + hex_text(addr) + "\n  size:    ".spec_bytes()
        + dec_text(size as nat) + " bytes\n".spec_bytes()
        + (if prefix_corrupt { "  -> underflow: prefix red zone corrupted\n".spec_bytes() } else { Seq::empty() })
        + (if suffix_corrupt { "  -> overflow: suffix red zone corrupted\n".spec_bytes() } else { Seq::empty() })
        + abort_trailer()
}

pub open spec fn leak_text(addr: usize, size: usize, kind: AllocKind) -> Seq<u8> {
    "  LEAK: ".spec_bytes() + hex_text(addr) + "  size=".spec_bytes() + dec_text(size as nat)
        + "  via=".spec_bytes() + kind_label(kind) + "\n".spec_bytes()
}

/// Report of a free of an address that is still quarantined.
pub fn double_free(addr: usize) -> (r: Vec<u8>)
    ensures
        r@ == double_free_text(addr),
{
    let mut out: Vec<u8> = Vec::new();
    push_text(&mut out, "\n\x1b[1;31m=== libcplusplus sanitizer ===\x1b[0m\n");
    push_text(&mut out, "ERROR: double-free\n");
    push_text(&mut out, "  address: ");
    push_hex(&mut out, addr);
    push_text(&mut out, "\n  This address was already freed and is still in quarantine.\n");
    push_text(&mut out, "aborting.\n\n");
    assert(out@ =~= double_free_text(addr));
    out
}

/// Report of a free of an address that was never handed out.
pub fn invalid_free(addr: usize) -> (r: Vec<u8>)
    ensures
        r@ == invalid_free_text(addr),
{
    let mut out: Vec<u8> = Vec::new();
    push_text(&mut out, "\n\x1b[1;31m=== libcplusplus sanitizer ===\x1b[0m\n");
    push_text(&mut out, "ERROR: invalid free\n");
    push_text(&mut out, "  address: ");
    push_hex(&mut out, addr);
    push_text(&mut out, "\n  This address was not returned by any tracked allocation.\n");
    push_text(&mut out, "aborting.\n\n");
    assert(out@ =~= invalid_free_text(addr));
    out
}

/// Report of a block freed otherwise than it was allocated.
pub fn mismatched_dealloc(addr: usize, allocated_with: AllocKind, freed_with: AllocKind) -> (r: Vec<u8>)
    ensures
        r@ == mismatched_dealloc_text(addr, allocated_with, freed_with),
{
    let mut out: Vec<u8> = Vec::new();
    push_text(&mut out, "\n\x1b[1;31m=== libcplusplus sanitizer ===\x1b[0m\n");
    push_text(&mut out, "ERROR: mismatched deallocation\n");
    push_text(&mut out, "  address:        ");
    push_hex(&mut out, addr);
    push_text(&mut out, "\n  allocated with: ");
    push_text(&mut out, kind_name(allocated_with));
    push_text(&mut out, "\n  freed with:     ");
    push_text(&mut out, kind_name(freed_with));
    push_text(&mut out, "\n");
    push_text(&mut out, "aborting.\n\n");
    assert(out@ =~= mismatched_dealloc_text(addr, allocated_with, freed_with));
    out
}

/// Report of corrupted red zones around the block at `addr`.
pub fn overflow_detected(addr: usize, size: usize, prefix_corrupt: bool, suffix_corrupt: bool) -> (r: Vec<u8>)
    ensures
        r@ == overflow_text(addr, size, prefix_corrupt, suffix_corrupt),
{
    let mut out: Vec<u8> = Vec::new();
    push_text(&mut out, "\n\x1b[1;31m=== libcplusplus sanitizer ===\x1b[0m\n");
    push_text(&mut out, "ERROR: buffer overflow detected (red zone corruption)\n");
    push_text(&mut out, "  address: ");
    push_hex(&mut out, addr);
    push_text(&mut out, "\n  size:    ");
    push_dec(&mut out, size);
    push_text(&mut out, " bytes\n");
    let ghost before_flags = out@;
    if prefix_corrupt {
        push_text(&mut out, "  -> underflow: prefix red zone corrupted\n");
    }
    let ghost after_prefix = out@;
    if suffix_corrupt {
        push_text(&mut out, "  -> overflow: suffix red zone corrupted\n");
    }
    let ghost after_suffix = out@;
    push_text(&mut out, "aborting.\n\n");
    proof {
        let p: Seq<u8> = if prefix_corrupt { "  -> underflow: prefix red zone corrupted\n".spec_bytes() } else { Seq::empty() };
        let q: Seq<u8> = if suffix_corrupt { "  -> overflow: suffix red zone corrupted\n".spec_bytes() } else { Seq::empty() };
        assert(after_prefix =~= before_flags + p);
        assert(after_suffix =~= before_flags + p + q);
    }
    assert(out@ =~= overflow_text(addr, size, prefix_corrupt, suffix_corrupt));
    out
}

/// One line of the leak report, as a buffer of its own; `report_leaks`
/// writes the same text in place.
pub fn leak_detected(addr: usize, size: usize, kind: AllocKind) -> (r: Vec<u8>)
    ensures
        r@ == leak_text(addr, size, kind),
{
    let mut out: Vec<u8> = Vec::new();
    push_text(&mut out, "  LEAK: ");
    push_hex(&mut out, addr);
    push_text(&mut out, "  size=");
    push_dec(&mut out, size);
    push_text(&mut out, "  via=");
    push_text(&mut out, kind_name(kind));
    push_text(&mut out, "\n");
    assert(out@ =~= leak_text(addr, size, kind));
    out
}

} // verus!
