//! Bitboard primitives: single-bit tests, bit counting, and the lemmas
//! relating the u64 operations used by the move generator to their
//! per-bit meaning.

use vstd::prelude::*;

verus! {

/// Bit `i` of `b`, as a boolean.
pub open spec fn nth_bit(b: u64, i: u64) -> bool {
    (b >> i) & 1u64 == 1u64
}

/// Number of set bits among bits `0 .. n` of `b`.
pub open spec fn count_bits(b: u64, n: int) -> nat
    decreases n,
{
    if n <= 0 {
        0
    } else {
        count_bits(b, n - 1) + if nth_bit(b, (n - 1) as u64) {
            1nat
        } else {
            0nat
        }
    }
}

/// Number of set bits of `b`.
pub open spec fn popcount(b: u64) -> nat {
    count_bits(b, 64)
}

/// Setting bit `j` leaves every other bit alone and turns bit `j` on.
pub proof fn lemma_bit_or_single(b: u64, j: u64, t: u64)
    by (bit_vector)
    requires
        j < 64,
        t < 64,
    ensures
        nth_bit(b | (1u64 << j), t) == (nth_bit(b, t) || t == j),
{
}

/// A bit of a union is set exactly when it is set on either side.
pub proof fn lemma_bit_or(a: u64, b: u64, t: u64)
    by (bit_vector)
    requires
        t < 64,
    ensures
        nth_bit(a | b, t) == (nth_bit(a, t) || nth_bit(b, t)),
{
}

/// Clearing bit `j` leaves every other bit alone and turns bit `j` off.
pub proof fn lemma_bit_clear_single(b: u64, j: u64, t: u64)
    by (bit_vector)
    requires
        j < 64,
        t < 64,
    ensures
        nth_bit(b & !(1u64 << j), t) == (nth_bit(b, t) && t != j),
{
}

/// The mask test used by executable code agrees with `nth_bit`.
pub proof fn lemma_bit_test(b: u64, j: u64)
    by (bit_vector)
    requires
        j < 64,
    ensures
        (b & (1u64 << j) != 0) == nth_bit(b, j),
{
}

/// Zero has no set bits.
pub proof fn lemma_bit_zero(t: u64)
    by (bit_vector)
    ensures
        !nth_bit(0u64, t),
{
}

/// Mask selecting the low `n` bits, for `n < 64`.
spec fn low_mask(n: u64) -> u64 {
    ((1u64 << n) - 1) as u64
}

proof fn lemma_equal_lower_step(a: u64, b: u64, n: u64)
    by (bit_vector)
    requires
        n < 63,
        a & low_mask(n) == b & low_mask(n),
        nth_bit(a, n) == nth_bit(b, n),
    ensures
        a & low_mask((n + 1) as u64) == b & low_mask((n + 1) as u64),
{
}

proof fn lemma_equal_lower_full(a: u64, b: u64)
    by (bit_vector)
    requires
        a & low_mask(63) == b & low_mask(63),
        nth_bit(a, 63) == nth_bit(b, 63),
    ensures
        a == b,
{
}

proof fn lemma_equal_lower_n(a: u64, b: u64, n: u64)
    requires
        n < 64,
        forall|i: u64| i < n ==> nth_bit(a, i) == nth_bit(b, i),
    ensures
        a & low_mask(n) == b & low_mask(n),
    decreases n,
{
    if n == 0 {
        assert(a & low_mask(0) == b & low_mask(0)) by (bit_vector);
    } else {
        let m = (n - 1) as u64;
        lemma_equal_lower_n(a, b, m);
        lemma_equal_lower_step(a, b, m);
    }
}

/// Two 64-bit values with the same bits are equal.
pub proof fn lemma_bits_extensional(a: u64, b: u64)
    requires
        forall|i: u64| i < 64 ==> nth_bit(a, i) == nth_bit(b, i),
    ensures
        a == b,
{
    lemma_equal_lower_n(a, b, 63);
    assert(nth_bit(a, 63) == nth_bit(b, 63));
    lemma_equal_lower_full(a, b);
}

/// A value with no set bits is zero.
pub proof fn lemma_no_bits_zero(a: u64)
    requires
        forall|i: u64| i < 64 ==> !nth_bit(a, i),
    ensures
        a == 0,
{
    assert forall|i: u64| i < 64 implies nth_bit(a, i) == nth_bit(0u64, i) by {
        lemma_bit_zero(i);
    }
    lemma_bits_extensional(a, 0);
}

/// Counting is unchanged on a range where the bits agree.
pub proof fn lemma_count_bits_agree(a: u64, b: u64, n: int)
    requires
        n <= 64,
        forall|i: u64| i < n ==> nth_bit(a, i) == nth_bit(b, i),
    ensures
        count_bits(a, n) == count_bits(b, n),
    decreases n,
{
    if n > 0 {
        lemma_count_bits_agree(a, b, n - 1);
    }
}

/// Setting one clear bit raises the count on any range containing it by one.
pub proof fn lemma_count_bits_set(b: u64, j: u64, n: int)
    requires
        j < 64,
        !nth_bit(b, j),
        n <= 64,
    ensures
        count_bits(b | (1u64 << j), n) == count_bits(b, n) + if j < n {
            1nat
        } else {
            0nat
        },
    decreases n,
{
    if n > 0 {
        lemma_count_bits_set(b, j, n - 1);
        lemma_bit_or_single(b, j, (n - 1) as u64);
    }
}

/// At most `n` bits are set among the low `n` bits.
pub proof fn lemma_count_bits_le(b: u64, n: int)
    requires
        0 <= n <= 64,
    ensures
        count_bits(b, n) <= n,
    decreases n,
{
    if n > 0 {
        lemma_count_bits_le(b, n - 1);
    }
}

/// A board with no set bits counts zero, and conversely.
pub proof fn lemma_popcount_zero(b: u64)
    ensures
        (popcount(b) == 0) <==> (b == 0),
{
    if popcount(b) == 0 {
        assert forall|i: u64| i < 64 implies !nth_bit(b, i) by {
            if nth_bit(b, i) {
                lemma_count_bits_positive(b, i as int, 64);
            }
        }
        lemma_no_bits_zero(b);
    } else {
        if b == 0 {
            assert forall|i: u64| i < 64 implies nth_bit(b, i) == nth_bit(0u64, i) by {}
            lemma_count_bits_agree(b, 0, 64);
            lemma_count_zero_is_zero(64);
        }
    }
}

proof fn lemma_count_zero_is_zero(n: int)
    requires
        n <= 64,
    ensures
        count_bits(0u64, n) == 0,
    decreases n,
{
    if n > 0 {
        lemma_count_zero_is_zero(n - 1);
        lemma_bit_zero((n - 1) as u64);
    }
}

/// A set bit below `n` makes the count over `0 .. n` positive.
pub proof fn lemma_count_bits_positive(b: u64, i: int, n: int)
    requires
        0 <= i < n <= 64,
        nth_bit(b, i as u64),
    ensures
        count_bits(b, n) >= 1,
    decreases n,
{
    if i < n - 1 {
        lemma_count_bits_positive(b, i, n - 1);
    }
}

/// Union with zero changes nothing.
pub proof fn lemma_or_zero(x: u64)
    by (bit_vector)
    ensures
        x | 0u64 == x,
{
}

/// The board whose bits `0 .. n` are set exactly where `f` holds.
pub open spec fn mask_upto(f: spec_fn(int) -> bool, n: int) -> u64
    decreases n,
{
    if n <= 0 {
        0u64
    } else {
        mask_upto(f, n - 1) | (if f(n - 1) {
            1u64 << ((n - 1) as u64)
        } else {
            0u64
        })
    }
}

/// Bit `t` of `mask_upto(f, n)` is set exactly when `t < n` and `f(t)`.
pub proof fn lemma_mask_upto_bits(f: spec_fn(int) -> bool, n: int, t: u64)
    requires
        0 <= n <= 64,
        t < 64,
    ensures
        nth_bit(mask_upto(f, n), t) == (t < n && f(t as int)),
    decreases n,
{
    if n <= 0 {
        lemma_bit_zero(t);
    } else {
        lemma_mask_upto_bits(f, n - 1, t);
        if f(n - 1) {
            lemma_bit_or_single(mask_upto(f, n - 1), (n - 1) as u64, t);
        } else {
            lemma_or_zero(mask_upto(f, n - 1));
        }
    }
}

/// Testing against a two-square mask sees exactly those two bits.
pub proof fn lemma_bit_test_two(b: u64, i: u64, j: u64)
    by (bit_vector)
    requires
        i < 64,
        j < 64,
    ensures
        (b & ((1u64 << i) | (1u64 << j)) != 0) == (nth_bit(b, i) || nth_bit(b, j)),
{
}

/// A clear bit below `n` keeps the count under `n`.
pub proof fn lemma_count_bits_missing(b: u64, i: int, n: int)
    requires
        0 <= i < n <= 64,
        !nth_bit(b, i as u64),
    ensures
        count_bits(b, n) < n,
    decreases n,
{
    lemma_count_bits_le(b, n - 1);
    if i < n - 1 {
        lemma_count_bits_missing(b, i, n - 1);
    }
}

/// Count the set bits of `b`.
pub fn count_set_bits(b: u64) -> (r: u32)
    ensures
        r == popcount(b),
{
    let mut r: u32 = 0;
    let mut i: u64 = 0;
    while i < 64
        invariant
            i <= 64,
            r == count_bits(b, i as int),
            r <= i,
        decreases 64 - i,
    {
        if b & (1u64 << i) != 0 {
            proof {
                lemma_bit_test(b, i);
            }
            r = r + 1;
        } else {
            proof {
                lemma_bit_test(b, i);
            }
        }
        i = i + 1;
    }
    r
}

} // verus!
