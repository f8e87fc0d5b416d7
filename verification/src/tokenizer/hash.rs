//! The hash that makes a token of a string.

use vstd::prelude::*;

verus! {

/// The multiplier of the hash.
pub const HASH_CONSTANT: u32 = 65599;

/// The weight of the byte at position `i`: the `i + 1`st power of the
/// multiplier, in 32-bit arithmetic.
pub open spec fn coefficient(i: nat) -> u32
    decreases i,
{
    if i == 0 {
        HASH_CONSTANT
    } else {
        ((coefficient((i - 1) as nat) * HASH_CONSTANT) % 0x1_0000_0000) as u32
    }
}

/// The hash of the first `n` bytes of `bytes`, as the first `n` bytes of a
/// string of the length of `bytes`: the length of the string, plus each byte
/// times the weight of its position, in 32-bit arithmetic.
pub open spec fn hash_of_prefix(bytes: Seq<u8>, n: nat) -> u32
    decreases n,
{
    if n == 0 {
        (bytes.len() % 0x1_0000_0000) as u32
    } else {
        ((hash_of_prefix(bytes, (n - 1) as nat) + coefficient((n - 1) as nat) * bytes[n - 1])
            % 0x1_0000_0000) as u32
    }
}

/// The token of a string with these bytes.
pub open spec fn hash_of(bytes: Seq<u8>) -> u32 {
    hash_of_prefix(bytes, bytes.len())
}

/// Computes the token of a string from its bytes.
pub fn hash_bytes(bytes: &[u8]) -> (hash: u32)
    ensures
        hash == hash_of(bytes@),
{
    let mut hash: u32 = (bytes.len() as u64 % 0x1_0000_0000u64) as u32;
    let mut weight: u32 = HASH_CONSTANT;
    let mut i: usize = 0;
    while i < bytes.len()
        invariant
            i <= bytes@.len(),
            hash == hash_of_prefix(bytes@, i as nat),
            weight == coefficient(i as nat),
        decreases bytes@.len() - i,
    {
        let byte: u8 = bytes[i];
        assert(weight * byte <= 0xffff_ffff * 0xff && weight * HASH_CONSTANT <= 0xffff_ffff
            * 65599) by (nonlinear_arith)
            requires
                weight <= 0xffff_ffff,
                byte <= 0xff,
                HASH_CONSTANT == 65599,
        ;
        let term: u64 = weight as u64 * byte as u64;
        hash = ((hash as u64 + term) % 0x1_0000_0000u64) as u32;
        weight = ((weight as u64 * HASH_CONSTANT as u64) % 0x1_0000_0000u64) as u32;
        i += 1;
    }
    hash
}

} // verus!
