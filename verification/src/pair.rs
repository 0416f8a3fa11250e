use vstd::prelude::*;

verus! {

use vstd::arithmetic::div_mod::{
    lemma_fundamental_div_mod,
    lemma_fundamental_div_mod_converse_div,
    lemma_fundamental_div_mod_converse_mod,
    lemma_div_multiples_vanish,
    lemma_mod_multiples_basic,
    lemma_mod_division_less_than_divisor,
};
use vstd::arithmetic::mul::lemma_mul_inequality;
use crate::permutor::{Permutor, permutation_seq, lemma_bounded_coverage};

/// Iterate over a random permutation of a pair of integer sequences: the
/// coordinate pairs `(i, j)` with `i` below the first bound and `j` below the
/// second, each pair exactly once, in pseudorandom order.
pub struct RandomPairPermutor {
    permutor: Permutor,
    max2: u64,
}

impl RandomPairPermutor {
    /// The inner permutor over the product of the two bounds.
    pub closed spec fn inner(self) -> Permutor {
        self.permutor
    }

    /// The second bound.
    pub closed spec fn spec_max2(self) -> u64 {
        self.max2
    }

    /// The first bound, recovered from the product.
    pub open spec fn spec_max1(self) -> u128 {
        self.inner().spec_max() / (self.spec_max2() as u128)
    }

    /// How a combined value decomposes into the two coordinates.
    pub open spec fn decode(self, v: u128) -> (u64, u64) {
        (((v as u64) / self.spec_max2()), ((v as u64) % self.spec_max2()))
    }

    /// Validity: the inner permutor is valid, its bound is the product of the
    /// two bounds, and every combined value fits in a `u64` for decoding.
    pub open spec fn wf(self) -> bool {
        &&& self.inner().wf()
        &&& 1 <= self.spec_max2()
        &&& self.inner().spec_max() % (self.spec_max2() as u128) == 0
        &&& self.inner().spec_max() <= u64::MAX as u128
    }

    /// The pairs emitted so far, in order.
    pub open spec fn emitted_pairs(self) -> Seq<(u64, u64)> {
        self.inner().emitted().map_values(|v: u128| self.decode(v))
    }

    /// The full output: the inner permutation of the product space, decoded.
    pub open spec fn pair_seq(self) -> Seq<(u64, u64)> {
        permutation_seq(self.inner().net(), self.inner().spec_max()).map_values(
            |v: u128| self.decode(v),
        )
    }

    /// A pair permutor over the cross product of `[0, max1)` and `[0, max2)`,
    /// with a freshly drawn random key. The product must fit the decoded width.
    pub fn new(max1: u64, max2: u64) -> (r: RandomPairPermutor)
        requires
            1 <= max1,
            1 <= max2,
            max1 as u128 * max2 as u128 <= u64::MAX as u128,
        ensures
            r.wf(),
            r.spec_max1() == max1,
            r.spec_max2() == max2,
            r.inner().spec_max() == max1 as u128 * max2 as u128,
            r.emitted_pairs() == Seq::<(u64, u64)>::empty(),
    {
        proof {
            assert(max1 as int * max2 as int >= 1) by (nonlinear_arith)
                requires
                    max1 >= 1 && max2 >= 1,
            ;
            lemma_mod_multiples_basic(max1 as int, max2 as int);
            lemma_div_multiples_vanish(max1 as int, max2 as int);
            assert(max1 as int * max2 as int == max2 as int * max1 as int);
        }
        let max: u128 = (max1 as u128) * (max2 as u128);
        let r = RandomPairPermutor { permutor: Permutor::new(max), max2 };
        proof {
            assert(r.emitted_pairs() =~= Seq::<(u64, u64)>::empty());
        }
        r
    }

    /// Produce the next unused coordinate pair, or signal exhaustion once every
    /// pair in the cross product has been produced.
    pub fn next(&mut self) -> (r: Option<(u64, u64)>)
        requires
            old(self).wf(),
        ensures
            final(self).wf(),
            final(self).inner().net() == old(self).inner().net(),
            final(self).spec_max1() == old(self).spec_max1(),
            final(self).spec_max2() == old(self).spec_max2(),
            r matches Some(p) ==> p.0 < old(self).spec_max1() && p.1 < old(self).spec_max2()
                && final(self).emitted_pairs() == old(self).emitted_pairs().push(p),
            r is None <==> old(self).inner().returned() == old(self).inner().spec_max(),
            r is None ==> *final(self) == *old(self),
    {
        let ghost pre = *self;
        match self.permutor.next() {
            Some(value) => {
                let value64 = value as u64;
                let first = value64 / self.max2;
                let second = value64 % self.max2;
                proof {
                    lemma_decode_bounds(value, self.permutor.spec_max(), self.max2);
                    assert(self.emitted_pairs() =~= pre.emitted_pairs().push(
                        ((first, second)),
                    ));
                }
                Some((first, second))
            },
            _ => None,
        }
    }
}

/// A combined value below the product of the bounds decodes to coordinates
/// below the respective bounds.
proof fn lemma_decode_bounds(v: u128, max: u128, max2: u64)
    requires
        v < max,
        max <= u64::MAX as u128,
        1 <= max2,
        max % (max2 as u128) == 0,
    ensures
        (v as u64) / max2 < max / (max2 as u128),
        (v as u64) % max2 < max2,
{
    let m1 = (max / (max2 as u128)) as int;
    let m2 = max2 as int;
    let w = (v as u64) as int;
    lemma_fundamental_div_mod(max as int, m2);
    lemma_fundamental_div_mod(w, m2);
    lemma_mod_division_less_than_divisor(w, m2);
    if w / m2 >= m1 {
        lemma_mul_inequality(m1, w / m2, m2);
        assert(max as int == m2 * m1);
        assert(m1 * m2 <= (w / m2) * m2);
        assert(m2 * (w / m2) <= w);
        assert(w < max as int);
        assert(false);
    }
}

/// Pair coverage: the full output of a valid pair permutor holds exactly
/// `max1 * max2` pairs, none twice, every coordinate in range, and every pair
/// of the cross product among them.
pub proof fn lemma_pair_coverage(rp: RandomPairPermutor)
    requires
        rp.wf(),
    ensures
        rp.pair_seq().len() == rp.spec_max1() * rp.spec_max2(),
        rp.pair_seq().no_duplicates(),
        forall|k: int|
            0 <= k < rp.pair_seq().len() ==> (#[trigger] rp.pair_seq()[k]).0 < rp.spec_max1()
                && rp.pair_seq()[k].1 < rp.spec_max2(),
        forall|i: u64, j: u64|
            i < rp.spec_max1() && j < rp.spec_max2() ==> rp.pair_seq().contains((i, j)),
{
    let net = rp.inner().net();
    let max = rp.inner().spec_max();
    let m2 = rp.spec_max2() as int;
    lemma_bounded_coverage(net, max);
    let s = permutation_seq(net, max);
    let ps = rp.pair_seq();
    lemma_fundamental_div_mod(max as int, m2);
    assert(max == rp.spec_max1() * rp.spec_max2());
    assert forall|k: int|
        0 <= k < ps.len() implies (#[trigger] ps[k]).0 < rp.spec_max1() && ps[k].1
        < rp.spec_max2() by {
        lemma_decode_bounds(s[k], max, rp.spec_max2());
    }
    assert forall|k1: int, k2: int|
        0 <= k1 < ps.len() && 0 <= k2 < ps.len() && k1 != k2 implies ps[k1] != ps[k2] by {
        let v1 = (s[k1] as u64) as int;
        let v2 = (s[k2] as u64) as int;
        lemma_fundamental_div_mod(v1, m2);
        lemma_fundamental_div_mod(v2, m2);
        assert(s[k1] != s[k2]);
        if ps[k1] == ps[k2] {
            assert(m2 * (v1 / m2) == m2 * (v2 / m2));
            assert(false);
        }
    }
    assert(ps.no_duplicates());
    assert forall|i: u64, j: u64|
        i < rp.spec_max1() && j < rp.spec_max2() implies ps.contains((i, j)) by {
        let v = i as int * m2 + j;
        assert(v < max) by (nonlinear_arith)
            requires
                v == i as int * m2 + j,
                max as int == (max as int / m2) * m2 + (max as int) % m2,
                (max as int) % m2 == 0,
                i < max as int / m2,
                0 <= j < m2,
        ;
        lemma_fundamental_div_mod_converse_div(v, m2, i as int, j as int);
        lemma_fundamental_div_mod_converse_mod(v, m2, i as int, j as int);
        let vu = v as u128;
        assert(s.contains(vu));
        let k = choose|k: int| 0 <= k < s.len() && s[k] == vu;
        assert(ps[k] == rp.decode(vu));
        assert((vu as u64) as int == v);
        assert(ps[k] == ((i, j)));
        assert(ps.contains((i, j)));
    }
}

} // verus!
