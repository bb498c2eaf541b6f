//! Bit-level facts about 64-bit masks, each settled by the bit-vector solver.
//!
//! Bit `i` of a mask stands for the square with index `i`, so `i % 8` is the
//! square's file and `i / 8` its rank.

use vstd::prelude::*;

verus! {

/// Whether bit `i` of `mask` is set.
pub open spec fn bit(mask: u64, i: u64) -> bool {
    (mask >> i) & 1 == 1
}

/// The mask of the squares that stay on the board when stepping `n` files
/// east: those on the first `8 - n` files.
pub open spec fn keep_east(n: u64) -> u64 {
    ((0xFFu64 >> n) * 0x0101010101010101u64) as u64
}

/// The mask of the squares that stay on the board when stepping `n` files
/// west: those on the last `8 - n` files.
pub open spec fn keep_west(n: u64) -> u64 {
    (((0xFFu64 << n) & 0xFF) * 0x0101010101010101u64) as u64
}

/// Bitwise operators act on each bit by itself.
pub proof fn lemma_bit_algebra(x: u64, y: u64, i: u64)
    by (bit_vector)
    requires
        i < 64,
    ensures
        bit(x & y, i) == (bit(x, i) && bit(y, i)),
        bit(x | y, i) == (bit(x, i) || bit(y, i)),
        bit(x ^ y, i) == (bit(x, i) != bit(y, i)),
        bit(!x, i) == !bit(x, i),
        !bit(0, i),
        bit(0xFFFF_FFFF_FFFF_FFFF, i),
{
}

/// A one shifted left by `j` has bit `j` set and no other.
pub proof fn lemma_bit_single(j: u64, i: u64)
    by (bit_vector)
    requires
        i < 64,
        j < 64,
    ensures
        bit(1u64 << j, i) == (i == j),
{
}

/// The file masks give what their formulas compute, without overflow, and a
/// step of no file keeps every square.
pub proof fn lemma_keep_masks(n: u64)
    by (bit_vector)
    requires
        n < 8,
    ensures
        (0xFFu64 >> n) * 0x0101010101010101u64 <= 0xFFFF_FFFF_FFFF_FFFFu64,
        ((0xFFu64 << n) & 0xFF) * 0x0101010101010101u64 <= 0xFFFF_FFFF_FFFF_FFFFu64,
        keep_east(0) == 0xFFFF_FFFF_FFFF_FFFFu64,
        keep_west(0) == 0xFFFF_FFFF_FFFF_FFFFu64,
        keep_east(1) == 0x7F7F_7F7F_7F7F_7F7Fu64,
        keep_west(1) == 0xFEFE_FEFE_FEFE_FEFEu64,
{
}

/// A bit is set after `n` steps east where its file is at least `n` and the
/// bit `n` places below it was set.
pub proof fn lemma_bit_east(x: u64, n: u64, i: u64)
    by (bit_vector)
    requires
        i < 64,
        n < 8,
    ensures
        bit((x & keep_east(n)) << n, i) == (i % 8 >= n && bit(x, (i - n) as u64)),
{
}

/// A bit is set after `n` steps north-east where its file and its rank are at
/// least `n` and the bit `9 * n` places below it was set.
pub proof fn lemma_bit_northeast(x: u64, n: u64, i: u64)
    by (bit_vector)
    requires
        i < 64,
        n < 8,
    ensures
        bit((x & keep_east(n)) << ((9 * n) as u64), i) == (i % 8 >= n && i / 8 >= n && bit(
            x,
            (i - 9 * n) as u64,
        )),
{
}

/// A bit is set after `n` steps north where its rank is at least `n` and the
/// bit `8 * n` places below it was set.
pub proof fn lemma_bit_north(x: u64, n: u64, i: u64)
    by (bit_vector)
    requires
        i < 64,
        n < 8,
    ensures
        bit(x << ((8 * n) as u64), i) == (i / 8 >= n && bit(x, (i - 8 * n) as u64)),
{
}

/// A bit is set after `n` steps north-west where its file is `n` below the
/// last at most, its rank is at least `n`, and the bit `7 * n` places below it
/// was set.
pub proof fn lemma_bit_northwest(x: u64, n: u64, i: u64)
    by (bit_vector)
    requires
        i < 64,
        n < 8,
    ensures
        bit((x & keep_west(n)) << ((7 * n) as u64), i) == (i % 8 + n < 8 && i / 8 >= n && bit(
            x,
            (i - 7 * n) as u64,
        )),
{
}

/// A bit is set after `n` steps west where its file is `n` below the last at
/// most and the bit `n` places above it was set.
pub proof fn lemma_bit_west(x: u64, n: u64, i: u64)
    by (bit_vector)
    requires
        i < 64,
        n < 8,
    ensures
        bit((x & keep_west(n)) >> n, i) == (i % 8 + n < 8 && bit(x, (i + n) as u64)),
{
}

/// A bit is set after `n` steps south-west where its file and its rank are
/// `n` below the last at most and the bit `9 * n` places above it was set.
pub proof fn lemma_bit_southwest(x: u64, n: u64, i: u64)
    by (bit_vector)
    requires
        i < 64,
        n < 8,
    ensures
        bit((x & keep_west(n)) >> ((9 * n) as u64), i) == (i % 8 + n < 8 && i / 8 + n < 8 && bit(
            x,
            (i + 9 * n) as u64,
        )),
{
}

/// A bit is set after `n` steps south where its rank is `n` below the last at
/// most and the bit `8 * n` places above it was set.
pub proof fn lemma_bit_south(x: u64, n: u64, i: u64)
    by (bit_vector)
    requires
        i < 64,
        n < 8,
    ensures
        bit(x >> ((8 * n) as u64), i) == (i / 8 + n < 8 && bit(x, (i + 8 * n) as u64)),
{
}

/// A bit is set after `n` steps south-east where its file is at least `n`,
/// its rank is `n` below the last at most, and the bit `7 * n` places above it
/// was set.
pub proof fn lemma_bit_southeast(x: u64, n: u64, i: u64)
    by (bit_vector)
    requires
        i < 64,
        n < 8,
    ensures
        bit((x & keep_east(n)) >> ((7 * n) as u64), i) == (i % 8 >= n && i / 8 + n < 8 && bit(
            x,
            (i + 7 * n) as u64,
        )),
{
}

/// Two different masks differ in some bit at or above `n`, if they differ
/// above bit `n` at all.
pub proof fn lemma_differing_bit(x: u64, y: u64, n: u64) -> (i: u64)
    requires
        n < 64,
        (x >> n) != (y >> n),
    ensures
        n <= i < 64,
        bit(x, i) != bit(y, i),
    decreases 64 - n,
{
    if bit(x, n) != bit(y, n) {
        n
    } else {
        let m = (n + 1) as u64;
        assert(n < 63 && (x >> m) != (y >> m)) by (bit_vector)
            requires
                n < 64,
                m == (n + 1) as u64,
                (x >> n) != (y >> n),
                ((x >> n) & 1 == 1) == ((y >> n) & 1 == 1),
        ;
        lemma_differing_bit(x, y, m)
    }
}

/// Two masks with the same bits are the same mask.
pub proof fn lemma_same_bits(x: u64, y: u64)
    requires
        forall|i: u64| i < 64 ==> bit(x, i) == bit(y, i),
    ensures
        x == y,
{
    if x != y {
        assert((x >> 0) != (y >> 0)) by (bit_vector)
            requires
                x != y,
        ;
        let i = lemma_differing_bit(x, y, 0);
    }
}

} // verus!
