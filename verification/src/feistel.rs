use vstd::prelude::*;

verus! {

use vstd::arithmetic::power2::{
    pow2,
    lemma_pow2_adds,
    lemma_pow2_pos,
    lemma_pow2_strictly_increases,
    lemma2_to64,
};
use crate::bits::{bit_len, integer_log2, lemma_bit_len_bounds, lemma_u128_bit_len,
    lemma_shl1_is_pow2};
use crate::codec::{spec_u64_be, u64_to_8slice, u8_to_1slice};
use crate::hash::{wyhash_keyed, wyhash_keyed_digest, random_key_bytes};

/// The total bit width of the network built for an upper bound: the bound's
/// bit length, rounded up to the next even number.
pub open spec fn spec_width(max: u128) -> nat {
    let b = bit_len(max as nat);
    if b % 2 == 0 {
        b
    } else {
        b + 1
    }
}

/// Half the network's total bit width.
pub open spec fn spec_half_width(max: u128) -> nat {
    spec_width(max) / 2
}

/// A balanced Feistel network over `[0, 2^(2 * half_width))`: a fixed number of
/// rounds of a keyed round function, applied to the two halves of the input.
/// Whatever the round function returns, each round is invertible, so the whole
/// network is a bijection on its domain for a fixed key.
pub struct FeistelNetwork {
    /// Half the network's total bit width.
    pub half_width: u128,
    /// Mask with the low `half_width` bits set: covers the right half.
    pub right_mask: u128,
    /// The right mask shifted up by `half_width`: covers the left half.
    pub left_mask: u128,
    /// Private key, some random seed. 256 bits as 32 bytes.
    pub key: [u8; 32],
    /// Fixed round count; a simplicity choice, not a tuned security parameter.
    pub rounds: u8,
}

/// The exclusive-or of a value with itself cancels.
proof fn lemma_xor_cancel(a: u128, b: u128)
    by (bit_vector)
    ensures
        (a ^ b) ^ b == a,
{
}

/// Bit-level facts about a half-width mask `m` and the masks derived from it:
/// masking bounds a value by `m`; values bounded by `m` are closed under
/// exclusive-or; splitting a domain value into halves and recombining the
/// halves are mutually inverse.
pub(crate) proof fn lemma_feistel_bits(h: u128, m: u128, x: u128, y: u128)
    by (bit_vector)
    requires
        1 <= h <= 64,
        m == (1u128 << h) - 1,
    ensures
        m <= 0xffff_ffff_ffff_ffff,
        x & m <= m,
        x <= m && y <= m ==> (x ^ y) <= m,
        x <= ((m << h) | m) ==> ((x & (m << h)) >> h) <= m && x & m <= m && ((((x & (m
            << h)) >> h) << h) | (x & m)) == x,
        x <= m && y <= m ==> ((x << h) | y) <= ((m << h) | m) && ((((x << h) | y) & (m << h))
            >> h) == x && (((x << h) | y) & m) == y && (((x << h) | y) & ((m << h) | m)) == ((x
            << h) | y),
{
}

impl FeistelNetwork {
    /// Well-formedness: the masks cover two adjacent spans of `half_width` bits,
    /// and the round count is the fixed design constant.
    pub open spec fn wf(self) -> bool {
        &&& 1 <= self.half_width <= 64
        &&& self.right_mask == (1u128 << self.half_width) - 1
        &&& self.left_mask == self.right_mask << self.half_width
        &&& self.rounds == 32
    }

    /// Mask covering the whole domain.
    pub open spec fn full_mask(self) -> u128 {
        self.left_mask | self.right_mask
    }

    /// Whether a value lies in the network's domain.
    pub open spec fn in_domain(self, x: u128) -> bool {
        x <= self.full_mask()
    }

    /// The number of values in the domain, `2^(2 * half_width)`.
    pub open spec fn domain_size(self) -> nat {
        pow2((2 * self.half_width) as nat)
    }

    /// The keyed round function: the wyhash digest of the right half and the
    /// round index, masked down to the right half's width.
    pub open spec fn round_f(self, right: u128, round: u8) -> u128 {
        (wyhash_keyed(self.key@, spec_u64_be(right as u64), seq![round]) as u128)
            & self.right_mask
    }

    /// The state after `n` forward rounds applied to the halves `(l, r)`.
    pub open spec fn fwd(self, l: u128, r: u128, n: nat) -> (u128, u128)
        decreases n,
    {
        if n == 0 {
            (l, r)
        } else {
            let prev = self.fwd(l, r, (n - 1) as nat);
            (prev.1, prev.0 ^ self.round_f(prev.1, (n - 1) as u8))
        }
    }

    /// The state before `n` forward rounds: undoes round `n - 1` first, then the rest.
    pub open spec fn bwd(self, l: u128, r: u128, n: nat) -> (u128, u128)
        decreases n,
    {
        if n == 0 {
            (l, r)
        } else {
            self.bwd(r ^ self.round_f(l, (n - 1) as u8), l, (n - 1) as nat)
        }
    }

    /// The left half of a domain value.
    pub open spec fn split_left(self, x: u128) -> u128 {
        (x & self.left_mask) >> self.half_width
    }

    /// The right half of a domain value.
    pub open spec fn split_right(self, x: u128) -> u128 {
        x & self.right_mask
    }

    /// Two halves recombined into one domain value.
    pub open spec fn combine(self, l: u128, r: u128) -> u128 {
        (l << self.half_width) | r
    }

    /// What `permute` returns: split, run the rounds forward, recombine.
    pub open spec fn permute_spec(self, x: u128) -> u128 {
        let res = self.fwd(self.split_left(x), self.split_right(x), self.rounds as nat);
        self.combine(res.0, res.1)
    }

    /// The inverse mapping: split, run the rounds backward, recombine.
    pub open spec fn unpermute_spec(self, y: u128) -> u128 {
        let res = self.bwd(self.split_left(y), self.split_right(y), self.rounds as nat);
        self.combine(res.0, res.1)
    }

    /// The domain holds exactly one more value than the full mask.
    pub proof fn lemma_domain_size(self)
        requires
            self.wf(),
        ensures
            self.full_mask() as nat + 1 == self.domain_size(),
            self.right_mask < pow2(64),
    {
        let h = self.half_width;
        let m = self.right_mask;
        assert(((m << h) | m) + 1 == (1u128 << h) * (1u128 << h)) by (bit_vector)
            requires
                1 <= h <= 64 && m == (1u128 << h) - 1,
        ;
        lemma_shl1_is_pow2(h);
        lemma_pow2_adds(h as nat, h as nat);
        lemma2_to64();
        if h < 64 {
            lemma_pow2_strictly_increases(h as nat, 64);
        }
    }

    /// Forward rounds keep both halves within the right mask.
    proof fn lemma_fwd_bounds(self, l: u128, r: u128, n: nat)
        requires
            self.wf(),
            l <= self.right_mask,
            r <= self.right_mask,
        ensures
            self.fwd(l, r, n).0 <= self.right_mask,
            self.fwd(l, r, n).1 <= self.right_mask,
        decreases n,
    {
        if n > 0 {
            self.lemma_fwd_bounds(l, r, (n - 1) as nat);
            let prev = self.fwd(l, r, (n - 1) as nat);
            let hv = (wyhash_keyed(
                self.key@,
                spec_u64_be(prev.1 as u64),
                seq![(n - 1) as u8],
            ) as u128);
            lemma_feistel_bits(self.half_width, self.right_mask, hv, prev.0);
            lemma_feistel_bits(
                self.half_width,
                self.right_mask,
                prev.0,
                self.round_f(prev.1, (n - 1) as u8),
            );
        }
    }

    /// Backward rounds keep both halves within the right mask.
    proof fn lemma_bwd_bounds(self, l: u128, r: u128, n: nat)
        requires
            self.wf(),
            l <= self.right_mask,
            r <= self.right_mask,
        ensures
            self.bwd(l, r, n).0 <= self.right_mask,
            self.bwd(l, r, n).1 <= self.right_mask,
        decreases n,
    {
        if n > 0 {
            let hv = (wyhash_keyed(self.key@, spec_u64_be(l as u64), seq![(n - 1) as u8])
                as u128);
            lemma_feistel_bits(self.half_width, self.right_mask, hv, r);
            lemma_feistel_bits(
                self.half_width,
                self.right_mask,
                r,
                self.round_f(l, (n - 1) as u8),
            );
            self.lemma_bwd_bounds(r ^ self.round_f(l, (n - 1) as u8), l, (n - 1) as nat);
        }
    }

    /// Running the rounds backward undoes running them forward.
    proof fn lemma_bwd_fwd(self, l: u128, r: u128, n: nat)
        ensures
            self.bwd(self.fwd(l, r, n).0, self.fwd(l, r, n).1, n) == (l, r),
        decreases n,
    {
        if n > 0 {
            let prev = self.fwd(l, r, (n - 1) as nat);
            let f = self.round_f(prev.1, (n - 1) as u8);
            lemma_xor_cancel(prev.0, f);
            self.lemma_bwd_fwd(l, r, (n - 1) as nat);
        }
    }

    /// Running the rounds forward undoes running them backward.
    proof fn lemma_fwd_bwd(self, l: u128, r: u128, n: nat)
        ensures
            self.fwd(self.bwd(l, r, n).0, self.bwd(l, r, n).1, n) == (l, r),
        decreases n,
    {
        if n > 0 {
            let f = self.round_f(l, (n - 1) as u8);
            lemma_xor_cancel(r, f);
            self.lemma_fwd_bwd(r ^ f, l, (n - 1) as nat);
        }
    }

    /// The permutation maps the domain into the domain, and the backward rounds
    /// recover every input: `permute_spec` is injective.
    pub proof fn lemma_permute_inverse(self, x: u128)
        requires
            self.wf(),
            self.in_domain(x),
        ensures
            self.in_domain(self.permute_spec(x)),
            self.unpermute_spec(self.permute_spec(x)) == x,
    {
        let h = self.half_width;
        let m = self.right_mask;
        let l0 = self.split_left(x);
        let r0 = self.split_right(x);
        lemma_feistel_bits(h, m, x, x);
        self.lemma_fwd_bounds(l0, r0, self.rounds as nat);
        let res = self.fwd(l0, r0, self.rounds as nat);
        lemma_feistel_bits(h, m, res.0, res.1);
        self.lemma_bwd_fwd(l0, r0, self.rounds as nat);
    }

    /// Every domain value is reached: `unpermute_spec` names the input that
    /// `permute_spec` carries onto a given output.
    pub proof fn lemma_unpermute_inverse(self, y: u128)
        requires
            self.wf(),
            self.in_domain(y),
        ensures
            self.in_domain(self.unpermute_spec(y)),
            self.permute_spec(self.unpermute_spec(y)) == y,
    {
        let h = self.half_width;
        let m = self.right_mask;
        let l0 = self.split_left(y);
        let r0 = self.split_right(y);
        lemma_feistel_bits(h, m, y, y);
        self.lemma_bwd_bounds(l0, r0, self.rounds as nat);
        let res = self.bwd(l0, r0, self.rounds as nat);
        lemma_feistel_bits(h, m, res.0, res.1);
        self.lemma_fwd_bwd(l0, r0, self.rounds as nat);
    }

    /// Distinct domain values map to distinct outputs.
    pub proof fn lemma_permute_injective(self, x1: u128, x2: u128)
        requires
            self.wf(),
            self.in_domain(x1),
            self.in_domain(x2),
            self.permute_spec(x1) == self.permute_spec(x2),
        ensures
            x1 == x2,
    {
        self.lemma_permute_inverse(x1);
        self.lemma_permute_inverse(x2);
    }

    /// The forward rounds depend only on the key and the right mask.
    proof fn lemma_fwd_congruent(a: FeistelNetwork, b: FeistelNetwork, l: u128, r: u128, n: nat)
        requires
            a.key == b.key,
            a.right_mask == b.right_mask,
        ensures
            a.fwd(l, r, n) == b.fwd(l, r, n),
        decreases n,
    {
        if n > 0 {
            Self::lemma_fwd_congruent(a, b, l, r, (n - 1) as nat);
        }
    }

    /// Two well-formed networks with the same width and the same key compute
    /// the same permutation.
    pub proof fn lemma_permute_deterministic(a: FeistelNetwork, b: FeistelNetwork, x: u128)
        requires
            a.wf(),
            b.wf(),
            a.half_width == b.half_width,
            a.key == b.key,
        ensures
            a.permute_spec(x) == b.permute_spec(x),
    {
        Self::lemma_fwd_congruent(a, b, a.split_left(x), a.split_right(x), 32);
    }

    /// Create a new FeistelNetwork instance that can give you a random
    /// permutation of integers. The key is made up of securely gathered
    /// 32 bytes.
    ///
    /// The width is the upper bound's bit length rounded up to the nearest even
    /// number, so the domain may be larger than the bound; clients wanting a
    /// permutation of `[0, max)` discard outputs at or above `max`.
    pub fn new(max: u128) -> (r: FeistelNetwork)
        requires
            max >= 1,
        ensures
            r.wf(),
            r.half_width == spec_half_width(max),
            max as nat <= r.domain_size(),
    {
        let key = random_key_bytes();
        FeistelNetwork::new_with_slice_key(max, key)
    }

    /// Create a new FeistelNetwork instance with a caller-supplied 256-bit key,
    /// for reproducible permutations.
    ///
    /// The width is the upper bound's bit length rounded up to the nearest even
    /// number, so the domain may be larger than the bound; clients wanting a
    /// permutation of `[0, max_value)` discard outputs at or above `max_value`.
    pub fn new_with_slice_key(max_value: u128, key: [u8; 32]) -> (r: FeistelNetwork)
        requires
            max_value >= 1,
        ensures
            r.wf(),
            r.half_width == spec_half_width(max_value),
            r.key == key,
            max_value as nat <= r.domain_size(),
    {
        proof {
            lemma_u128_bit_len(max_value);
            lemma_bit_len_bounds(max_value as nat);
        }
        let width_opt = integer_log2(max_value);
        let mut width = width_opt.unwrap();
        if width % 2 != 0 {
            width += 1;
        }
        let half_width = width / 2;
        proof {
            lemma_shl1_is_pow2(half_width);
            lemma_pow2_pos(half_width as nat);
        }
        let right_mask = (1u128 << half_width) - 1;
        let left_mask = right_mask << half_width;
        let r = FeistelNetwork { half_width, right_mask, left_mask, key, rounds: 32 };
        proof {
            let b = bit_len(max_value as nat);
            assert(2 * r.half_width as nat == spec_width(max_value));
            if b < spec_width(max_value) {
                lemma_pow2_strictly_increases(b, spec_width(max_value));
            }
        }
        r
    }

    /// Apply the permutation to a domain value. For a fixed instance this is a
    /// bijection on the domain, whatever the round function's quality.
    pub fn permute(&self, input: u128) -> (r: u128)
        requires
            self.wf(),
            self.in_domain(input),
        ensures
            r == self.permute_spec(input),
            self.in_domain(r),
    {
        proof {
            lemma_feistel_bits(self.half_width, self.right_mask, input, input);
        }
        let mut left = (input & self.left_mask) >> self.half_width;
        let mut right = input & self.right_mask;
        let ghost l0 = left;
        let ghost r0 = right;
        let mut i: u8 = 0;
        while i < self.rounds
            invariant
                self.wf(),
                i <= 32,
                left == self.fwd(l0, r0, i as nat).0,
                right == self.fwd(l0, r0, i as nat).1,
                left <= self.right_mask,
                right <= self.right_mask,
            decreases 32 - i,
        {
            proof {
                lemma_feistel_bits(self.half_width, self.right_mask, right, left);
            }
            let new_left = right;
            let f = self.round_function(right, i, self.key, self.right_mask);
            proof {
                lemma_feistel_bits(self.half_width, self.right_mask, left, f);
                assert(self.round_f(right, i) == f);
                assert(self.fwd(l0, r0, (i + 1) as nat).0 == right);
                assert(self.fwd(l0, r0, (i + 1) as nat).1 == left ^ f);
            }
            right = left ^ f;
            left = new_left;
            i += 1;
        }
        let result = (left << self.half_width) | right;
        proof {
            lemma_feistel_bits(self.half_width, self.right_mask, left, right);
        }
        result & (self.left_mask | self.right_mask)
    }

    /// One round's mixing value: the wyhash digest of the key, the right half's
    /// big-endian bytes, the round index, and the key again, masked to the
    /// right half's width.
    fn round_function(&self, right: u128, round: u8, key: [u8; 32], mask: u128) -> (r: u128)
        requires
            right <= 0xffff_ffff_ffff_ffff,
        ensures
            r == (wyhash_keyed(key@, spec_u64_be(right as u64), seq![round]) as u128) & mask,
            r <= mask,
    {
        let right_bytes = u64_to_8slice(right as u64);
        let round_bytes = u8_to_1slice(round);
        let digest = wyhash_keyed_digest(&key, &right_bytes, &round_bytes);
        let result = (digest as u128) & mask;
        proof {
            assert((digest as u128) & mask <= mask) by (bit_vector);
        }
        result
    }
}

} // verus!
