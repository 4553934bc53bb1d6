//! Powers of two as machine integers.

use vstd::prelude::*;
use vstd::arithmetic::power2::{
    lemma2_to64, lemma_pow2_pos, lemma_pow2_strictly_increases, lemma_pow2_unfold, pow2,
};

verus! {

/// A one shifted left by `k` is the `k`-th power of two.
pub proof fn lemma_shift_one_u128(k: u32)
    requires
        k < 128,
    ensures
        (1u128 << k) == pow2(k as nat),
        0 < pow2(k as nat) <= 0x8000_0000_0000_0000_0000_0000_0000_0000,
    decreases k,
{
    lemma_pow2_pos(k as nat);
    if k == 0 {
        lemma2_to64();
        assert(1u128 << 0u32 == 1u128) by (bit_vector);
    } else {
        let j = (k - 1) as u32;
        lemma_shift_one_u128(j);
        lemma_pow2_unfold(k as nat);
        assert(1u128 << k == 2 * (1u128 << j)) by (bit_vector)
            requires
                0 < k < 128,
                j == k - 1,
        ;
        if k < 127 {
            lemma_pow2_strictly_increases(k as nat, 127);
        }
        lemma_pow2_127();
    }
}

proof fn lemma_pow2_127()
    ensures
        pow2(127) == 0x8000_0000_0000_0000_0000_0000_0000_0000,
{
    lemma2_to64();
    vstd::arithmetic::power2::lemma_pow2_adds(63, 64);
    vstd::arithmetic::power2::lemma2_to64_rest();
}

/// The `k`-th power of two.
pub fn power_of_two(k: u32) -> (r: u128)
    requires
        k < 128,
    ensures
        r == pow2(k as nat),
        r > 0,
{
    proof {
        lemma_shift_one_u128(k);
    }
    1u128 << k
}

/// `2^n`, for a number of ports.
pub fn small_power_of_two(n: u32) -> (r: u32)
    requires
        n <= 16,
    ensures
        r == pow2(n as nat),
        0 < r <= 65536,
{
    proof {
        lemma2_to64();
        if n < 16 {
            lemma_pow2_strictly_increases(n as nat, 16);
        }
        lemma_pow2_pos(n as nat);
        vstd::bits::lemma_u32_shl_is_mul(1, n);
    }
    1u32 << n
}

} // verus!
