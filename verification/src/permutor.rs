use vstd::prelude::*;

verus! {

use vstd::arithmetic::power2::{pow2, lemma_pow2_adds, lemma2_to64, lemma2_to64_rest};
use vstd::set_lib::{set_int_range, lemma_int_range, lemma_len_subset};
use vstd::seq_lib::seq_to_set_is_finite;
use crate::bits::bit_len;
use crate::codec::{spec_u64_be_32, u64_to_32slice};
use crate::feistel::{FeistelNetwork, spec_half_width};

/// The in-range outputs produced while the cursor sweeps `[0, c)`: the network's
/// outputs below `max`, in cursor order.
pub open spec fn kept_prefix(net: FeistelNetwork, max: u128, c: nat) -> Seq<u128>
    decreases c,
{
    if c == 0 {
        Seq::empty()
    } else {
        let rest = kept_prefix(net, max, (c - 1) as nat);
        let v = net.permute_spec(((c - 1) as nat) as u128);
        if v < max {
            rest.push(v)
        } else {
            rest
        }
    }
}

/// The full bounded permutation: every in-range output of one sweep over the
/// whole domain.
pub open spec fn permutation_seq(net: FeistelNetwork, max: u128) -> Seq<u128> {
    kept_prefix(net, max, net.domain_size())
}

/// Everything a kept prefix holds is an in-range network output of a cursor
/// value already passed, each such output appears, and none appears twice.
proof fn lemma_kept_prefix_props(net: FeistelNetwork, max: u128, c: nat)
    requires
        net.wf(),
        c <= net.domain_size(),
        max as nat <= net.domain_size(),
    ensures
        forall|i: int|
            0 <= i < kept_prefix(net, max, c).len() ==> #[trigger] kept_prefix(net, max, c)[i]
                < max,
        kept_prefix(net, max, c).no_duplicates(),
        forall|v: u128|
            kept_prefix(net, max, c).contains(v) ==> exists|x: u128|
                x < c && #[trigger] net.permute_spec(x) == v,
        forall|x: u128|
            x < c && #[trigger] net.permute_spec(x) < max ==> kept_prefix(net, max, c).contains(
                net.permute_spec(x),
            ),
    decreases c,
{
    net.lemma_domain_size();
    if c > 0 {
        lemma_kept_prefix_props(net, max, (c - 1) as nat);
        let rest = kept_prefix(net, max, (c - 1) as nat);
        let w = ((c - 1) as nat) as u128;
        let v = net.permute_spec(w);
        if v < max {
            let s = kept_prefix(net, max, c);
            assert(s == rest.push(v));
            if rest.contains(v) {
                let x = choose|x: u128| x < c - 1 && #[trigger] net.permute_spec(x) == v;
                net.lemma_permute_injective(x, w);
                assert(false);
            }
            assert forall|u: u128| s.contains(u) implies exists|x: u128|
                x < c && #[trigger] net.permute_spec(x) == u by {
                let i = choose|i: int| 0 <= i < s.len() && s[i] == u;
                if i < rest.len() {
                    assert(rest.contains(u));
                } else {
                    assert(u == v);
                    assert(w < c && net.permute_spec(w) == u);
                }
            }
            assert forall|x: u128|
                x < c && #[trigger] net.permute_spec(x) < max implies s.contains(
                net.permute_spec(x),
            ) by {
                if x < c - 1 {
                    assert(rest.contains(net.permute_spec(x)));
                    let i = choose|i: int| 0 <= i < rest.len() && rest[i] == net.permute_spec(x);
                    assert(s[i] == net.permute_spec(x));
                } else {
                    assert(s[s.len() - 1] == v);
                }
            }
        } else {
            let s = kept_prefix(net, max, c);
            assert(s == rest);
            assert forall|x: u128|
                x < c && #[trigger] net.permute_spec(x) < max implies s.contains(
                net.permute_spec(x),
            ) by {
                if x == w {
                    assert(false);
                } else {
                    assert(x < c - 1);
                }
            }
        }
    }
}

/// A longer sweep keeps at least as many outputs.
proof fn lemma_kept_prefix_monotone(net: FeistelNetwork, max: u128, c1: nat, c2: nat)
    requires
        c1 <= c2,
    ensures
        kept_prefix(net, max, c1).len() <= kept_prefix(net, max, c2).len(),
    decreases c2,
{
    if c1 < c2 {
        lemma_kept_prefix_monotone(net, max, c1, (c2 - 1) as nat);
    }
}

/// Bounded coverage: one full sweep of a well-formed network's domain emits
/// exactly `max` values, all below `max`, none twice, and every value below
/// `max` among them.
pub proof fn lemma_bounded_coverage(net: FeistelNetwork, max: u128)
    requires
        net.wf(),
        1 <= max,
        max as nat <= net.domain_size(),
    ensures
        permutation_seq(net, max).len() == max,
        permutation_seq(net, max).no_duplicates(),
        forall|i: int|
            0 <= i < permutation_seq(net, max).len() ==> #[trigger] permutation_seq(net, max)[i]
                < max,
        forall|y: u128| y < max ==> permutation_seq(net, max).contains(y),
{
    net.lemma_domain_size();
    let d = net.domain_size();
    lemma_kept_prefix_props(net, max, d);
    let s = permutation_seq(net, max);
    assert forall|y: u128| y < max implies s.contains(y) by {
        net.lemma_unpermute_inverse(y);
        let x = net.unpermute_spec(y);
        assert(x < d && net.permute_spec(x) == y);
    }
    let s_int = s.map_values(|v: u128| v as int);
    assert forall|i: int, j: int|
        0 <= i < s_int.len() && 0 <= j < s_int.len() && i != j implies s_int[i] != s_int[j] by {
        assert(s[i] != s[j]);
    }
    s_int.unique_seq_to_set();
    seq_to_set_is_finite(s_int);
    let range = set_int_range(0, max as int);
    lemma_int_range(0, max as int);
    assert forall|e: int| s_int.to_set().contains(e) implies range.contains(e) by {
        let i = choose|i: int| 0 <= i < s_int.len() && s_int[i] == e;
        assert(s[i] < max);
    }
    assert(s_int.to_set().subset_of(range));
    lemma_len_subset(s_int.to_set(), range);
    assert forall|e: int| range.contains(e) implies s_int.to_set().contains(e) by {
        let y = e as u128;
        assert(s.contains(y));
        let i = choose|i: int| 0 <= i < s.len() && s[i] == y;
        assert(s_int[i] == e);
        assert(s_int.contains(e));
    }
    assert(range.subset_of(s_int.to_set()));
    lemma_len_subset(range, s_int.to_set());
}

/// Two sweeps agree pointwise when the networks share a width and a key.
proof fn lemma_kept_prefix_congruent(
    na: FeistelNetwork,
    nb: FeistelNetwork,
    max: u128,
    c: nat,
)
    requires
        na.wf(),
        nb.wf(),
        na.half_width == nb.half_width,
        na.key == nb.key,
    ensures
        kept_prefix(na, max, c) == kept_prefix(nb, max, c),
    decreases c,
{
    if c > 0 {
        lemma_kept_prefix_congruent(na, nb, max, (c - 1) as nat);
        FeistelNetwork::lemma_permute_deterministic(na, nb, ((c - 1) as nat) as u128);
    }
}

/// Determinism under a fixed key: two permutors over the same bound whose
/// networks carry the same key emit the same sequence, in the same order.
pub proof fn lemma_deterministic_sequences(a: Permutor, b: Permutor)
    requires
        a.wf(),
        b.wf(),
        a.spec_max() == b.spec_max(),
        a.net().key == b.net().key,
    ensures
        permutation_seq(a.net(), a.spec_max()) == permutation_seq(b.net(), b.spec_max()),
        a.cursor() == b.cursor() ==> a.emitted() == b.emitted(),
{
    lemma_kept_prefix_congruent(a.net(), b.net(), a.spec_max(), a.net().domain_size());
    lemma_kept_prefix_congruent(a.net(), b.net(), a.spec_max(), a.cursor());
}

/// Permutor gives you back a permutation iterator that returns a random
/// permutation over [0, max) (0 inclusive to max exclusive): call `next`
/// until it signals exhaustion.
pub struct Permutor {
    feistel: FeistelNetwork,
    max: u128,
    current: u128,
    values_returned: u128,
}

impl Permutor {
    /// The owned Feistel network.
    pub closed spec fn net(self) -> FeistelNetwork {
        self.feistel
    }

    /// The requested upper bound.
    pub closed spec fn spec_max(self) -> u128 {
        self.max
    }

    /// How far the cursor has swept the network's domain.
    pub closed spec fn cursor(self) -> nat {
        self.current as nat
    }

    /// How many in-range values have been returned.
    pub closed spec fn returned(self) -> u128 {
        self.values_returned
    }

    /// The values returned so far, in order.
    pub open spec fn emitted(self) -> Seq<u128> {
        kept_prefix(self.net(), self.spec_max(), self.cursor())
    }

    /// Validity of the iteration state: the network fits the bound, the cursor
    /// stays within the domain, and the returned count matches the sweep.
    pub open spec fn wf(self) -> bool {
        &&& self.net().wf()
        &&& 1 <= self.spec_max()
        &&& self.net().half_width == spec_half_width(self.spec_max())
        &&& bit_len(self.spec_max() as nat) <= 126
        &&& self.spec_max() as nat <= self.net().domain_size()
        &&& self.cursor() <= self.net().domain_size()
        &&& self.returned() == self.emitted().len()
        &&& self.returned() <= self.spec_max()
    }

    /// A permutor over `[0, max)` keyed by a 64-bit seed embedded in an
    /// otherwise zero key buffer. The other 24 key bytes stay zero, so the
    /// effective keyspace is 64 bits, narrower than the slice-key path.
    pub fn new_with_u64_key(max: u128, key: u64) -> (r: Permutor)
        requires
            1 <= max,
            max < 0x40000000000000000000000000000000,
        ensures
            r.wf(),
            r.spec_max() == max,
            r.net().key@ == spec_u64_be_32(key),
            r.cursor() == 0,
            r.emitted() == Seq::<u128>::empty(),
    {
        proof {
            lemma_bound_bit_len(max);
        }
        let key = u64_to_32slice(key);
        Permutor {
            feistel: FeistelNetwork::new_with_slice_key(max, key),
            max,
            current: 0,
            values_returned: 0,
        }
    }

    /// A permutor over `[0, max)` with a caller-supplied 256-bit key, for
    /// reproducible permutations.
    pub fn new_with_slice_key(max: u128, key: [u8; 32]) -> (r: Permutor)
        requires
            1 <= max,
            max < 0x40000000000000000000000000000000,
        ensures
            r.wf(),
            r.spec_max() == max,
            r.net().key == key,
            r.cursor() == 0,
            r.emitted() == Seq::<u128>::empty(),
    {
        proof {
            lemma_bound_bit_len(max);
        }
        Permutor {
            feistel: FeistelNetwork::new_with_slice_key(max, key),
            max,
            current: 0,
            values_returned: 0,
        }
    }

    /// A permutor over `[0, max)` with a freshly drawn random key.
    pub fn new(max: u128) -> (r: Permutor)
        requires
            1 <= max,
            max < 0x40000000000000000000000000000000,
        ensures
            r.wf(),
            r.spec_max() == max,
            r.cursor() == 0,
            r.emitted() == Seq::<u128>::empty(),
    {
        proof {
            lemma_bound_bit_len(max);
        }
        Permutor {
            feistel: FeistelNetwork::new(max),
            max,
            current: 0,
            values_returned: 0,
        }
    }

    /// Produce the next unused value in `[0, max)`, or signal exhaustion after
    /// exactly `max` values have been produced: the cursor walks the oversized
    /// domain and out-of-range outputs are rejected.
    pub fn next(&mut self) -> (r: Option<u128>)
        requires
            old(self).wf(),
        ensures
            final(self).wf(),
            final(self).net() == old(self).net(),
            final(self).spec_max() == old(self).spec_max(),
            r matches Some(v) ==> v < old(self).spec_max() && final(self).emitted() == old(
                self,
            ).emitted().push(v) && final(self).returned() == old(self).returned() + 1,
            r is None <==> old(self).returned() == old(self).spec_max(),
            r is None ==> *final(self) == *old(self),
    {
        if self.values_returned >= self.max {
            return None;
        }
        while self.values_returned < self.max
            invariant
                self.wf(),
                self.feistel == old(self).feistel,
                self.max == old(self).max,
                self.values_returned == old(self).values_returned,
                self.values_returned < self.max,
                self.emitted() == old(self).emitted(),
            decreases self.net().domain_size() - self.cursor(),
        {
            proof {
                self.feistel.lemma_domain_size();
                lemma_bounded_coverage(self.feistel, self.max);
                lemma_kept_prefix_monotone(
                    self.feistel,
                    self.max,
                    self.cursor(),
                    self.feistel.domain_size(),
                );
                lemma_pow2_le_u128_max(2 * self.feistel.half_width as nat);
            }
            let next_val = self.feistel.permute(self.current);
            self.current += 1;
            if next_val >= self.max {
                continue;
            }
            self.values_returned += 1;
            return Some(next_val);
        }
        None
    }
}

/// A bound below `2^126` has a bit length of at most 126.
proof fn lemma_bound_bit_len(max: u128)
    requires
        max < 0x40000000000000000000000000000000,
    ensures
        bit_len(max as nat) <= 126,
{
    lemma_pow2_126();
    crate::bits::lemma_bit_len_le(max as nat, 126);
}

/// The value of `pow2(126)`.
proof fn lemma_pow2_126()
    ensures
        pow2(126) == 0x40000000000000000000000000000000,
{
    lemma2_to64();
    lemma2_to64_rest();
    lemma_pow2_adds(63, 63);
    let p = pow2(63);
    assert(p * p == 0x40000000000000000000000000000000) by (nonlinear_arith)
        requires
            p == 0x8000000000000000,
    ;
}

/// The domain of a network whose width is at most 126 bits fits in a `u128`.
proof fn lemma_pow2_le_u128_max(w: nat)
    requires
        w <= 126,
    ensures
        pow2(w) <= u128::MAX,
{
    lemma_pow2_126();
    if w < 126 {
        vstd::arithmetic::power2::lemma_pow2_strictly_increases(w, 126);
    }
}

} // verus!
