//! Iteration over pseudorandom permutations of `[0, max)` in constant space.
//!
//! A keyed Feistel network turns a keyed hash into a bijection over a
//! power-of-two domain; a cursor walks that domain and rejects out-of-range
//! outputs, so every value below the bound appears exactly once.
//!
//! The construction is a light format-preserving mapping, not a vetted cipher:
//! the fixed round count and the hash were chosen for simplicity, and only the
//! bijectivity of the result is guaranteed, not its strength.

pub mod bits;
pub mod codec;
pub mod feistel;
pub mod hash;
pub mod pair;
pub mod permutor;

pub use bits::integer_log2;
pub use feistel::FeistelNetwork;
pub use pair::RandomPairPermutor;
pub use permutor::Permutor;
pub use codec::u64_to_8slice;
pub use codec::u64_to_32slice;
