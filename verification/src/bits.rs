use vstd::prelude::*;

verus! {

use vstd::arithmetic::power2::{
    pow2,
    lemma_pow2_unfold,
    lemma_pow2_adds,
    lemma2_to64,
};
use vstd::arithmetic::div_mod::lemma_fundamental_div_mod;
use vstd::bits::lemma_u128_shr_is_div;

/// Number of bits needed to represent `n`: zero for zero, otherwise one more
/// than the index of the highest set bit.
pub open spec fn bit_len(n: nat) -> nat
    decreases n,
{
    if n == 0 {
        0
    } else {
        1 + bit_len(n / 2)
    }
}

/// A positive integer lies between the two powers of two that its bit length names.
pub proof fn lemma_bit_len_bounds(n: nat)
    requires
        n >= 1,
    ensures
        bit_len(n) >= 1,
        pow2((bit_len(n) - 1) as nat) <= n < pow2(bit_len(n)),
    decreases n,
{
    lemma2_to64();
    if n == 1 {
        assert(bit_len(1) == 1 + bit_len(0));
    } else {
        lemma_bit_len_bounds(n / 2);
        let b = bit_len(n);
        assert(b == 1 + bit_len(n / 2));
        lemma_pow2_unfold(b);
        lemma_pow2_unfold((b - 1) as nat);
        lemma_fundamental_div_mod(n as int, 2);
    }
}

/// Any integer below `pow2(k)` has bit length at most `k`.
pub proof fn lemma_bit_len_le(n: nat, k: nat)
    requires
        n < pow2(k),
    ensures
        bit_len(n) <= k,
    decreases n,
{
    lemma2_to64();
    if n > 0 {
        if k == 0 {
            assert(false);
        } else {
            lemma_pow2_unfold(k);
            lemma_fundamental_div_mod(n as int, 2);
            lemma_bit_len_le(n / 2, (k - 1) as nat);
        }
    }
}

/// Every `u128` value has bit length at most 128.
pub proof fn lemma_u128_bit_len(n: u128)
    ensures
        bit_len(n as nat) <= 128,
{
    lemma2_to64();
    lemma_pow2_adds(64, 64);
    assert(pow2(128) == 0x100000000000000000000000000000000);
    lemma_bit_len_le(n as nat, 128);
}

/// Shifting one left by `h` produces `pow2(h)`, for shifts that fit in `u128`.
pub proof fn lemma_shl1_is_pow2(h: u128)
    requires
        h <= 127,
    ensures
        (1u128 << h) == pow2(h as nat),
    decreases h,
{
    if h == 0 {
        assert(1u128 << 0u128 == 1) by (bit_vector);
        lemma2_to64();
    } else {
        lemma_shl1_is_pow2((h - 1) as u128);
        assert(1u128 << h == 2 * (1u128 << ((h - 1) as u128))) by (bit_vector)
            requires
                1 <= h <= 127,
        ;
        lemma_pow2_unfold(h as nat);
    }
}

/// Bit length of an integer: how many right shifts by one reduce it to zero.
/// Zero has no bit length, so it yields `None`.
pub fn integer_log2(input: u128) -> (r: Option<u128>)
    ensures
        r matches Some(b) ==> input > 0 && b == bit_len(input as nat),
        r is None <==> input == 0,
{
    if input == 0 {
        return None;
    }
    proof {
        lemma_u128_bit_len(input);
    }
    let mut result: u128 = 0;
    let mut input_copy: u128 = input;
    while input_copy > 0
        invariant
            bit_len(input as nat) == result + bit_len(input_copy as nat),
            bit_len(input as nat) <= 128,
        decreases input_copy,
    {
        proof {
            lemma_u128_shr_is_div(input_copy, 1);
            lemma2_to64();
            assert(bit_len(input_copy as nat) == 1 + bit_len((input_copy as nat) / 2));
        }
        input_copy >>= 1u128;
        result += 1;
    }
    Some(result)
}

} // verus!
