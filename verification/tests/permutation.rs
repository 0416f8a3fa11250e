use permutation_iterator::{FeistelNetwork, Permutor, RandomPairPermutor};
use permutation_iterator::{integer_log2, u64_to_32slice, u64_to_8slice};
use std::collections::HashSet;

fn collect_permutor(mut p: Permutor) -> Vec<u128> {
    let mut out = Vec::new();
    while let Some(v) = p.next() {
        out.push(v);
    }
    out
}

#[test]
fn feistel_is_a_bijection_on_its_domain() {
    // max 10 gives a 4-bit network: the domain is [0, 16).
    let network = FeistelNetwork::new_with_slice_key(10, [7u8; 32]);
    assert_eq!(network.half_width, 2);
    assert_eq!(network.right_mask, 0b11);
    assert_eq!(network.left_mask, 0b1100);
    let mut seen = HashSet::new();
    for x in 0u128..16 {
        let y = network.permute(x);
        assert!(y < 16, "output {} escapes the domain", y);
        assert!(seen.insert(y), "two inputs map to {}", y);
    }
    assert_eq!(seen.len(), 16);
}

#[test]
fn feistel_is_not_the_identity() {
    // Would fail if the round function ignored the hash: an all-zero mixing
    // value makes the even number of rounds collapse to the identity map.
    let network = FeistelNetwork::new_with_slice_key(1000, [7u8; 32]);
    let moved = (0u128..1024).any(|x| network.permute(x) != x);
    assert!(moved);
}

#[test]
fn bounded_coverage_small() {
    let permutor = Permutor::new_with_u64_key(10, 42);
    let values = collect_permutor(permutor);
    assert_eq!(values.len(), 10);
    let distinct: HashSet<u128> = values.iter().copied().collect();
    assert_eq!(distinct, (0u128..10).collect::<HashSet<u128>>());
}

#[test]
fn bounded_coverage_random_key() {
    let permutor = Permutor::new(100);
    let values = collect_permutor(permutor);
    assert_eq!(values.len(), 100);
    let distinct: HashSet<u128> = values.iter().copied().collect();
    assert_eq!(distinct, (0u128..100).collect::<HashSet<u128>>());
}

#[test]
fn bounded_coverage_bound_of_one() {
    let permutor = Permutor::new(1);
    let values = collect_permutor(permutor);
    assert_eq!(values, vec![0u128]);
}

#[test]
fn bounded_coverage_power_of_two_bound() {
    let permutor = Permutor::new(16);
    let values = collect_permutor(permutor);
    assert_eq!(values.len(), 16);
    let distinct: HashSet<u128> = values.iter().copied().collect();
    assert_eq!(distinct, (0u128..16).collect::<HashSet<u128>>());
}

#[test]
fn exhausted_permutor_stays_exhausted() {
    let mut permutor = Permutor::new_with_u64_key(5, 9);
    for _ in 0..5 {
        assert!(permutor.next().is_some());
    }
    assert!(permutor.next().is_none());
    assert!(permutor.next().is_none());
}

#[test]
fn same_key_same_sequence() {
    let a = collect_permutor(Permutor::new_with_u64_key(50, 1234));
    let b = collect_permutor(Permutor::new_with_u64_key(50, 1234));
    assert_eq!(a, b);
}

#[test]
fn same_slice_key_same_sequence() {
    let key = [33u8; 32];
    let a = collect_permutor(Permutor::new_with_slice_key(64, key));
    let b = collect_permutor(Permutor::new_with_slice_key(64, key));
    assert_eq!(a, b);
}

#[test]
fn u64_key_embeds_as_padded_slice_key() {
    let a = collect_permutor(Permutor::new_with_u64_key(20, 777));
    let b = collect_permutor(Permutor::new_with_slice_key(20, u64_to_32slice(777)));
    assert_eq!(a, b);
}

#[test]
fn distinct_random_keys_diverge() {
    // Two independently drawn 256-bit keys order 1000 values identically only
    // with negligible probability.
    let a = collect_permutor(Permutor::new(1000));
    let b = collect_permutor(Permutor::new(1000));
    assert_ne!(a, b);
}

#[test]
fn distinct_fixed_keys_diverge() {
    let a = collect_permutor(Permutor::new_with_u64_key(1000, 1));
    let b = collect_permutor(Permutor::new_with_u64_key(1000, 2));
    assert_ne!(a, b);
}

#[test]
fn pair_coverage() {
    let mut pairs = Vec::new();
    let mut permutor = RandomPairPermutor::new(3, 7);
    while let Some(p) = permutor.next() {
        pairs.push(p);
    }
    assert_eq!(pairs.len(), 21);
    let distinct: HashSet<(u64, u64)> = pairs.iter().copied().collect();
    let mut expected = HashSet::new();
    for i in 0u64..3 {
        for j in 0u64..7 {
            expected.insert((i, j));
        }
    }
    assert_eq!(distinct, expected);
}

#[test]
fn u64_to_8slice_is_big_endian() {
    assert_eq!(u64_to_8slice(42), [0, 0, 0, 0, 0, 0, 0, 0x2A]);
    assert_eq!(
        u64_to_8slice(0x0102_0304_0506_0708),
        [1, 2, 3, 4, 5, 6, 7, 8]
    );
    assert_eq!(u64_to_8slice(u64::MAX), [0xFF; 8]);
}

#[test]
fn u64_to_32slice_left_justifies() {
    let mut expected = [0u8; 32];
    expected[7] = 0x2A;
    assert_eq!(u64_to_32slice(42), expected);
}

#[test]
fn integer_log2_bit_lengths() {
    assert_eq!(None, integer_log2(0));
    assert_eq!(Some(1), integer_log2(1));
    assert_eq!(Some(2), integer_log2(2));
    assert_eq!(Some(2), integer_log2(3));
    assert_eq!(Some(3), integer_log2(4));
    assert_eq!(Some(3), integer_log2(5));
    assert_eq!(Some(3), integer_log2(6));
    assert_eq!(Some(3), integer_log2(7));
    assert_eq!(Some(4), integer_log2(8));
    assert_eq!(Some(4), integer_log2(9));
    assert_eq!(Some(4), integer_log2(10));
    assert_eq!(Some(64), integer_log2(u64::MAX as u128));
    assert_eq!(Some(128), integer_log2(u128::MAX));
}
