//! Bit-level helpers on machine integers.

use vstd::prelude::*;
use vstd::std_specs::bits::u64_leading_zeros;

verus! {

/// Two to the power `e`.
pub open spec fn pow2(e: nat) -> nat
    decreases e,
{
    if e == 0 {
        1
    } else {
        2 * pow2((e - 1) as nat)
    }
}

/// The number of binary digits of `n`: the least `k` with `n < 2^k`.
pub open spec fn bit_length(n: nat) -> nat
    decreases n,
{
    if n == 0 {
        0
    } else {
        1 + bit_length(n / 2)
    }
}

/// `bit_length(n)` is the one `k` with `2^(k-1) <= n < 2^k`.
pub proof fn lemma_bit_length_bounds(n: nat)
    ensures
        n < pow2(bit_length(n)),
        n > 0 ==> pow2((bit_length(n) - 1) as nat) <= n,
    decreases n,
{
    if n > 0 {
        lemma_bit_length_bounds(n / 2);
    }
}

/// Returns the number of bits needed to write `n` in binary, and 0 for every
/// `n` that is zero or negative.
pub fn bit_count_for_number(n: i32) -> (count: u32)
    ensures
        n <= 0 ==> count == 0,
        n > 0 ==> count == bit_length(n as nat),
{
    if n <= 0 {
        return 0;
    }
    let m: u64 = n as u64;
    proof {
        lemma_leading_zeros_u64(m);
    }
    64 - m.leading_zeros()
}

/// Returns the value of the most significant set bit of `n`, and 0 for 0.
pub fn highest_one_bit(n: u64) -> (bit: u64)
    ensures
        n == 0 ==> bit == 0,
        n > 0 ==> bit == pow2((bit_length(n as nat) - 1) as nat),
        n > 0 ==> bit <= n < 2 * bit,
{
    if n == 0 {
        return 0;
    }
    proof {
        lemma_leading_zeros_u64(n);
        lemma_bit_length_bounds(n as nat);
        lemma_shift_is_pow2((bit_length(n as nat) - 1) as nat);
    }
    1u64 << (63 - n.leading_zeros())
}

/// Ties the leading-zero count of a 64-bit word to its bit length.
pub proof fn lemma_leading_zeros_u64(m: u64)
    ensures
        u64_leading_zeros(m) == 64 - bit_length(m as nat),
    decreases m,
{
    reveal(u64_leading_zeros);
    if m != 0 {
        lemma_leading_zeros_u64(m / 2);
    }
}

/// A left shift of 1 by fewer than 64 places is a power of two.
pub proof fn lemma_shift_is_pow2(e: nat)
    requires
        e < 64,
    ensures
        (1u64 << (e as u64)) == pow2(e),
    decreases e,
{
    if e == 0 {
        assert((1u64 << 0u64) == 1) by (bit_vector);
    } else {
        lemma_shift_is_pow2((e - 1) as nat);
        let s = e as u64;
        assert(0 < s < 64 ==> (1u64 << s) == 2 * (1u64 << ((s - 1) as u64))) by (bit_vector);
    }
}

/// A 64-bit word has at most 64 binary digits.
pub proof fn lemma_bit_length_u64(n: u64)
    ensures
        bit_length(n as nat) <= 64,
{
    lemma_leading_zeros_u64(n);
    vstd::std_specs::bits::axiom_u64_leading_zeros(n);
}

} // verus!
