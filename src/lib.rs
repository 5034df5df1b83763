use vstd::prelude::*;

/// The canonical 32-byte encoding of field elements.
pub mod codec;
/// The Merkle hash of the note commitment tree and its empty leaf.
pub mod merkle;
/// The store of zk-SNARK parameter sets.
pub mod params;

verus! {

/// Bitwise exclusive or of two words.
pub fn librustzcash_xor(a: u64, b: u64) -> (r: u64)
    ensures
        r == a ^ b,
{
    a ^ b
}

} // verus!
