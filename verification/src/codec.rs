use vstd::prelude::*;

verus! {

/// The eight bytes of a 64-bit integer in big-endian order, most significant first.
pub open spec fn spec_u64_be(x: u64) -> Seq<u8> {
    seq![
        (x >> 56) as u8,
        (x >> 48) as u8,
        (x >> 40) as u8,
        (x >> 32) as u8,
        (x >> 24) as u8,
        (x >> 16) as u8,
        (x >> 8) as u8,
        x as u8,
    ]
}

/// The 32-byte key buffer derived from a 64-bit seed: the seed's big-endian
/// bytes left-justified into an otherwise zero buffer.
pub open spec fn spec_u64_be_32(x: u64) -> Seq<u8> {
    spec_u64_be(x) + Seq::new(24, |i: int| 0u8)
}

/// A single byte as a one-element slice.
pub(crate) fn u8_to_1slice(input: u8) -> (r: [u8; 1])
    ensures
        r@ == seq![input],
{
    let result: [u8; 1] = [input];
    proof {
        assert(result@ =~= seq![input]);
    }
    result
}

/// Convert an unsigned 64 bit number to a slice of 8 bytes in big-endian format
/// (most significant byte first).
pub fn u64_to_8slice(input: u64) -> (r: [u8; 8])
    ensures
        r@ == spec_u64_be(input),
{
    let result: [u8; 8] = [
        ((input & 0xFF00_0000_0000_0000) >> 56) as u8,
        ((input & 0x00FF_0000_0000_0000) >> 48) as u8,
        ((input & 0xFF00_0000_0000) >> 40) as u8,
        ((input & 0x00FF_0000_0000) >> 32) as u8,
        ((input & 0xFF00_0000) >> 24) as u8,
        ((input & 0x00FF_0000) >> 16) as u8,
        ((input & 0xFF00) >> 8) as u8,
        (input & 0xFF) as u8,
    ];
    proof {
        assert(((input & 0xFF00_0000_0000_0000) >> 56) as u8 == (input >> 56) as u8
            && ((input & 0x00FF_0000_0000_0000) >> 48) as u8 == (input >> 48) as u8
            && ((input & 0xFF00_0000_0000) >> 40) as u8 == (input >> 40) as u8
            && ((input & 0x00FF_0000_0000) >> 32) as u8 == (input >> 32) as u8
            && ((input & 0xFF00_0000) >> 24) as u8 == (input >> 24) as u8
            && ((input & 0x00FF_0000) >> 16) as u8 == (input >> 16) as u8
            && ((input & 0xFF00) >> 8) as u8 == (input >> 8) as u8
            && (input & 0xFF) as u8 == input as u8) by (bit_vector);
        assert(result@ =~= spec_u64_be(input));
    }
    result
}

/// Convert an unsigned 64 bit number to a slice of 32 bytes: its 8 big-endian
/// bytes followed by 24 zero bytes.
pub fn u64_to_32slice(input: u64) -> (r: [u8; 32])
    ensures
        r@ == spec_u64_be_32(input),
{
    let result8 = u64_to_8slice(input);
    let result: [u8; 32] = [
        result8[0], result8[1], result8[2], result8[3],
        result8[4], result8[5], result8[6], result8[7],
        0, 0, 0, 0, 0, 0, 0, 0,
        0, 0, 0, 0, 0, 0, 0, 0,
        0, 0, 0, 0, 0, 0, 0, 0,
    ];
    proof {
        assert(result@ =~= spec_u64_be_32(input));
    }
    result
}

} // verus!
