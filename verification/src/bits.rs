//! Single-bit reasoning over 64-bit boards.
//!
//! A bitboard is a `u64` whose bit `i` stands for square `i`.  Everything the
//! rest of the crate states about bitboards goes through the spec function
//! `bit`; the lemmas here connect it to the machine operations `|`, `&`, `^`
//! and `<<`.

use vstd::prelude::*;

verus! {

/// Bit `i` of the 64-bit board `bb`.
pub open spec fn bit(bb: u64, i: int) -> bool {
    (bb >> (i as u64)) & 1u64 == 1u64
}

/// Population count of the bits of `bb` below position `n`.
pub open spec fn popcnt_upto(bb: u64, n: int) -> int
    decreases n,
{
    if n <= 0 {
        0
    } else {
        popcnt_upto(bb, n - 1) + if bit(bb, n - 1) {
            1int
        } else {
            0int
        }
    }
}

/// Number of set bits of `bb`.
pub open spec fn popcnt(bb: u64) -> int {
    popcnt_upto(bb, 64)
}

pub proof fn lemma_bit_zero(i: u64)
    by (bit_vector)
    requires
        i < 64,
    ensures
        !bit(0u64, i as int),
{
}

pub proof fn lemma_bit_or(x: u64, y: u64, i: u64)
    by (bit_vector)
    requires
        i < 64,
    ensures
        bit(x | y, i as int) == (bit(x, i as int) || bit(y, i as int)),
{
}

pub proof fn lemma_bit_and(x: u64, y: u64, i: u64)
    by (bit_vector)
    requires
        i < 64,
    ensures
        bit(x & y, i as int) == (bit(x, i as int) && bit(y, i as int)),
{
}

pub proof fn lemma_bit_xor(x: u64, y: u64, i: u64)
    by (bit_vector)
    requires
        i < 64,
    ensures
        bit(x ^ y, i as int) == (bit(x, i as int) != bit(y, i as int)),
{
}

pub proof fn lemma_bit_single(t: u64, i: u64)
    by (bit_vector)
    requires
        t < 64,
        i < 64,
    ensures
        bit(1u64 << t, i as int) == (i == t),
{
}

pub proof fn lemma_or_zero(x: u64)
    by (bit_vector)
    ensures
        x | 0u64 == x,
        0u64 | x == x,
{
}

pub proof fn lemma_or_assoc(a: u64, b: u64, c: u64)
    by (bit_vector)
    ensures
        (a | b) | c == a | (b | c),
{
}

/// Exclusive or agrees with union on disjoint words.
pub proof fn lemma_xor_disjoint(x: u64, y: u64)
    by (bit_vector)
    requires
        x & y == 0,
    ensures
        x ^ y == x | y,
{
}

/// A multiply-shift hash lands in a 12-bit table.
pub proof fn lemma_shr_52(x: u64)
    by (bit_vector)
    ensures
        (x >> 52u64) < 4096,
{
}

/// A multiply-shift hash lands in a 9-bit table.
pub proof fn lemma_shr_55(x: u64)
    by (bit_vector)
    ensures
        (x >> 55u64) < 512,
{
}

/// A word with no set bit below `n` has zero low `n` bits.
proof fn lemma_no_low_bits(d: u64, n: u64)
    requires
        n <= 63,
        forall|i: int| 0 <= i < n ==> !bit(d, i),
    ensures
        d & (((1u64 << n) - 1) as u64) == 0,
    decreases n,
{
    if n == 0 {
        assert(d & (((1u64 << 0u64) - 1) as u64) == 0) by (bit_vector);
    } else {
        let m = (n - 1) as u64;
        lemma_no_low_bits(d, m);
        assert(!bit(d, m as int));
        assert(d & (((1u64 << ((m + 1) as u64)) - 1) as u64) == 0) by (bit_vector)
            requires
                m < 63,
                d & (((1u64 << m) - 1) as u64) == 0,
                !((d >> m) & 1u64 == 1u64),
        ;
    }
}

/// Two boards with the same bits are the same word.
pub proof fn lemma_bit_ext(x: u64, y: u64)
    requires
        forall|i: int| 0 <= i < 64 ==> bit(x, i) == bit(y, i),
    ensures
        x == y,
{
    let d = x ^ y;
    assert forall|i: int| 0 <= i < 64 implies !bit(d, i) by {
        lemma_bit_xor(x, y, i as u64);
    }
    lemma_no_low_bits(d, 63);
    assert(d == 0) by (bit_vector)
        requires
            d & (((1u64 << 63u64) - 1) as u64) == 0,
            !bit(d, 63),
    ;
    assert(x == y) by (bit_vector)
        requires
            x ^ y == 0,
    ;
}

/// A stretch of positions adds at most its width to the count.
pub proof fn lemma_popcnt_upto_mono(bb: u64, m: int, n: int)
    requires
        0 <= m <= n <= 64,
    ensures
        popcnt_upto(bb, m) <= popcnt_upto(bb, n),
        popcnt_upto(bb, n) - popcnt_upto(bb, m) <= n - m,
    decreases n,
{
    if n > m {
        lemma_popcnt_upto_mono(bb, m, n - 1);
    }
}

/// A stretch with no set bit adds nothing to the count.
pub proof fn lemma_popcnt_range_zero(bb: u64, m: int, n: int)
    requires
        0 <= m <= n <= 64,
        forall|t: int| m <= t < n ==> !bit(bb, t),
    ensures
        popcnt_upto(bb, n) == popcnt_upto(bb, m),
    decreases n,
{
    if n > m {
        lemma_popcnt_range_zero(bb, m, n - 1);
    }
}

/// A stretch whose only possible set bit is `pos` adds at most one.
pub proof fn lemma_popcnt_range_single(bb: u64, m: int, n: int, pos: int)
    requires
        0 <= m <= n <= 64,
        forall|t: int| m <= t < n && #[trigger] bit(bb, t) ==> t == pos,
    ensures
        popcnt_upto(bb, n) - popcnt_upto(bb, m) <= 1,
        popcnt_upto(bb, n) >= popcnt_upto(bb, m),
{
    if pos < m || pos >= n {
        lemma_popcnt_range_zero(bb, m, n);
    } else {
        lemma_popcnt_range_zero(bb, m, pos);
        lemma_popcnt_range_zero(bb, pos + 1, n);
    }
}

/// A stretch with at most two possible set bits adds at most two.
pub proof fn lemma_popcnt_range_two(bb: u64, m: int, n: int, p1: int, p2: int)
    requires
        0 <= m <= n <= 64,
        forall|t: int| m <= t < n && #[trigger] bit(bb, t) ==> t == p1 || t == p2,
    ensures
        popcnt_upto(bb, n) - popcnt_upto(bb, m) <= 2,
        popcnt_upto(bb, n) >= popcnt_upto(bb, m),
{
    let lo = if p1 <= p2 {
        p1
    } else {
        p2
    };
    let hi = if p1 <= p2 {
        p2
    } else {
        p1
    };
    if lo == hi || hi < m || hi >= n {
        lemma_popcnt_range_single(bb, m, n, lo);
    } else {
        lemma_popcnt_range_single(bb, m, hi, lo);
        lemma_popcnt_range_single(bb, hi, n, hi);
    }
}

} // verus!
