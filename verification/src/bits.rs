//! Bit-level helpers for 8x8 bitboards.
//!
//! Square 0 is the top-left corner of the board and square 63 the bottom
//! right; square `i` is carried by bit `63 - i`, so the most significant
//! bit of a bitboard represents square 0.

use vstd::prelude::*;
use vstd::std_specs::bits::u64_trailing_zeros;

verus! {

/// The single-bit mask of square `pos`.
pub open spec fn pos2bit_spec(pos: int) -> u64 {
    1u64 << ((63 - pos) as u64)
}

/// True when bitboard `bb` holds a stone on square `pos`.
pub open spec fn bit_at(bb: u64, pos: int) -> bool {
    bb & pos2bit_spec(pos) != 0
}

/// Number of set bits among the low `n` bits of `x`.
pub open spec fn poprec(x: u64, n: nat) -> nat
    decreases n,
{
    if n == 0 {
        0
    } else {
        poprec(x, (n - 1) as nat) + (((x >> ((n - 1) as u64)) & 1) as nat)
    }
}

/// Number of set bits of `x`: the stone count of a bitboard.
pub open spec fn pop64(x: u64) -> nat {
    poprec(x, 64)
}

/// The single-bit mask of square `pos`; the bit of square 0 is the most
/// significant one.
pub fn pos2bit(pos: usize) -> (r: u64)
    requires
        pos < 64,
    ensures
        r == pos2bit_spec(pos as int),
        r != 0,
{
    proof {
        assert(1u64 << ((63 - pos) as u64) != 0) by (bit_vector)
            requires
                pos < 64,
        ;
    }
    1u64 << ((63 - pos) as u64)
}

/// True when bitboard `bb` holds a stone on square `pos`.
pub fn get_bit(bb: u64, pos: usize) -> (r: bool)
    requires
        pos < 64,
    ensures
        r == bit_at(bb, pos as int),
{
    bb & (1u64 << ((63 - pos) as u64)) != 0
}

/// Bit `k` of `x`, as an integer that is 0 or 1.
pub fn nth_bit(x: u64, k: u64) -> (r: u64)
    requires
        k < 64,
    ensures
        r == (x >> k) & 1,
        r <= 1,
{
    proof {
        assert((x >> k) & 1 <= 1) by (bit_vector);
    }
    (x >> k) & 1
}

/// Counting the bits of a disjoint union adds the two counts.
pub proof fn lemma_poprec_or(a: u64, b: u64, n: nat)
    requires
        n <= 64,
        a & b == 0,
    ensures
        poprec(a | b, n) == poprec(a, n) + poprec(b, n),
    decreases n,
{
    if n > 0 {
        lemma_poprec_or(a, b, (n - 1) as nat);
        let k = (n - 1) as u64;
        assert(((a | b) >> k) & 1 == ((a >> k) & 1) + ((b >> k) & 1)) by (bit_vector)
            requires
                a & b == 0,
        ;
    }
}

/// Removing a subset of the bits subtracts its count.
pub proof fn lemma_poprec_xor_subset(a: u64, b: u64, n: nat)
    requires
        n <= 64,
        b & a == b,
    ensures
        poprec(a ^ b, n) + poprec(b, n) == poprec(a, n),
    decreases n,
{
    if n > 0 {
        lemma_poprec_xor_subset(a, b, (n - 1) as nat);
        let k = (n - 1) as u64;
        assert((((a ^ b) >> k) & 1) + ((b >> k) & 1) == (a >> k) & 1) by (bit_vector)
            requires
                b & a == b,
        ;
    }
}

/// A single-bit mask has exactly one set bit among the low `n` bits
/// whenever its bit lies below `n`.
pub proof fn lemma_poprec_single(j: u64, n: nat)
    requires
        n <= 64,
        j < 64,
    ensures
        poprec(1u64 << j, n) == if j < n { 1nat } else { 0nat },
    decreases n,
{
    if n > 0 {
        lemma_poprec_single(j, (n - 1) as nat);
        let k = (n - 1) as u64;
        assert(((1u64 << j) >> k) & 1 == if j == k { 1u64 } else { 0u64 }) by (bit_vector)
            requires
                j < 64 && k < 64,
        ;
    }
}

/// A stone count is the popcount of the bitboard.
pub fn popcount(x: u64) -> (r: u32)
    ensures
        r == pop64(x),
        r <= 64,
{
    let mut i: usize = 0;
    let mut c: u32 = 0;
    while i < 64
        invariant
            i <= 64,
            c == poprec(x, i as nat),
            c <= i,
        decreases 64 - i,
    {
        let b = nth_bit(x, i as u64);
        assert(poprec(x, (i + 1) as nat) == poprec(x, i as nat) + (((x >> (i as u64)) & 1)
            as nat));
        c = c + (b as u32);
        i = i + 1;
    }
    c
}

/// Setting one fresh bit leaves every other square unchanged.
pub proof fn lemma_bit_or_single(x: u64, i: int, j: int)
    requires
        0 <= i < 64,
        0 <= j < 64,
    ensures
        bit_at(x | pos2bit_spec(i), j) == (i == j || bit_at(x, j)),
{
    let iu = (63 - i) as u64;
    let ju = (63 - j) as u64;
    assert(((x | (1u64 << iu)) & (1u64 << ju) != 0) == (iu == ju || x & (1u64 << ju) != 0))
        by (bit_vector)
        requires
            iu < 64 && ju < 64,
    ;
}

/// The empty bitboard holds no stone.
pub proof fn lemma_bit_empty(j: int)
    requires
        0 <= j < 64,
    ensures
        !bit_at(0u64, j),
{
    let ju = (63 - j) as u64;
    assert(0u64 & (1u64 << ju) == 0) by (bit_vector);
}

/// The single-bit mask of square `pos` has its set bit at index `63 - pos`:
/// `pos2bit(pos).trailing_zeros() == 63 - pos` for every square.
pub proof fn lemma_pos2bit_trailing_zeros(pos: int)
    requires
        0 <= pos < 64,
    ensures
        u64_trailing_zeros(pos2bit_spec(pos)) == 63 - pos,
{
    let j = (63 - pos) as u64;
    let x = 1u64 << j;
    vstd::std_specs::bits::axiom_u64_trailing_zeros(x);
    let tz = u64_trailing_zeros(x) as u64;
    assert(x != 0) by (bit_vector)
        requires
            j < 64 && x == 1u64 << j,
    ;
    assert(tz < 64);
    if tz < j {
        assert((x >> tz) & 1u64 == 0u64) by (bit_vector)
            requires
                tz < j && j < 64 && x == 1u64 << j,
        ;
    }
    if tz > j {
        assert((x >> j) & 1u64 == 1u64) by (bit_vector)
            requires
                j < 64 && x == 1u64 << j,
        ;
    }
}

} // verus!
