use vstd::prelude::*;

use crate::codec::{byte_of, decode_spec, lemma_decoded_bit, stream_bit, encode_spec, le_limbs, le_word, rev8, limb_bit, read_le, repr_from_le_bytes, write_le, FieldRepr};

verus! {

/// The little-endian bytes of the u-coordinate of the Pedersen hash of `bits`
/// under the Merkle tree personalization of `depth`.
pub uninterp spec fn merkle_pedersen_u(depth: usize, bits: Seq<bool>) -> Seq<u8>;

/// The number of significant bits of a field element.
pub open spec fn field_bits() -> int {
    255
}

/// The input of the Pedersen hash for two children: the significant bits of
/// the left child, least significant first, then those of the right child.
pub open spec fn merkle_input(left: Seq<u64>, right: Seq<u64>) -> Seq<bool> {
    Seq::new(
        (2 * field_bits()) as nat,
        |t: int|
            if t < field_bits() {
                limb_bit(left, t)
            } else {
                limb_bit(right, t - field_bits())
            },
    )
}

/// The encoded parent of two encoded children at `depth`.
pub open spec fn merkle_hash_spec(depth: usize, left: Seq<u8>, right: Seq<u8>) -> Seq<u8> {
    encode_spec(
        le_limbs(merkle_pedersen_u(depth, merkle_input(decode_spec(left), decode_spec(right)))),
    )
}

/// Relies on pairing's `PrimeField::NUM_BITS` for the scalar field `Fr` of
/// BLS12-381, which is 255.
#[verifier::external_body]
fn fr_num_bits() -> (r: u32)
    ensures
        r == field_bits(),
{
    <pairing::bls12_381::Fr as pairing::PrimeField>::NUM_BITS
}

/// Relies on sapling_crypto's `pedersen_hash` with the personalization
/// `MerkleTree(depth)`, and on jubjub's affine u-coordinate of its result, as
/// little-endian bytes: a function of the depth and the bits alone. The
/// personalization panics at a depth of 63 or more, and the six generators
/// take at most 1134 bits, six of them the personalization's.
#[verifier::external_body]
fn pedersen_merkle_u(depth: usize, bits: &Vec<bool>) -> (r: [u8; 32])
    requires
        depth < 63,
        bits@.len() <= 1128,
    ensures
        r@ == merkle_pedersen_u(depth, bits@),
{
    let p = sapling_crypto::pedersen_hash::pedersen_hash(
        sapling_crypto::pedersen_hash::Personalization::MerkleTree(depth),
        bits.iter().copied(),
    );
    jubjub::AffinePoint::from(jubjub::ExtendedPoint::from(p)).get_u().to_bytes()
}

/// Appends the lowest `n` bits of `f`, least significant first.
fn push_low_bits(bits: &mut Vec<bool>, f: &FieldRepr, n: usize)
    requires
        n <= 256,
    ensures
        final(bits)@ == old(bits)@ + Seq::new(n as nat, |t: int| limb_bit(f.limbs@, t)),
{
    let ghost start = bits@;
    let mut t: usize = 0;
    while t < n
        invariant
            t <= n,
            n <= 256,
            bits@ == start + Seq::new(t as nat, |k: int| limb_bit(f.limbs@, k)),
        decreases n - t,
    {
        let bit = (f.limbs[t / 64] >> ((t % 64) as u64)) & 1u64 == 1u64;
        bits.push(bit);
        t += 1;
        assert(bits@ =~= start + Seq::new(t as nat, |k: int| limb_bit(f.limbs@, k)));
    }
}

/// Combines two encoded children at `depth` of the note commitment tree into
/// the encoded parent node.
///
/// Each child's significant bits, least significant first, left child first,
/// are hashed with the Pedersen hash under the Merkle tree personalization of
/// `depth`; the parent is the u-coordinate of the resulting point.
pub fn librustzcash_merkle_hash(depth: usize, a: &[u8; 32], b: &[u8; 32], result: &mut [u8; 32])
    requires
        depth < 63,
    ensures
        final(result)@ == merkle_hash_spec(depth, a@, b@),
{
    // A 32-byte buffer always decodes: neither early return is taken.
    let a_repr = match read_le(a.as_slice()) {
        Ok(f) => f,
        Err(_) => {
            return ;
        },
    };
    let b_repr = match read_le(b.as_slice()) {
        Ok(f) => f,
        Err(_) => {
            return ;
        },
    };
    let n = fr_num_bits() as usize;
    let mut bits: Vec<bool> = Vec::new();
    push_low_bits(&mut bits, &a_repr, n);
    push_low_bits(&mut bits, &b_repr, n);
    assert(bits@ =~= merkle_input(decode_spec(a@), decode_spec(b@)));
    let u = pedersen_merkle_u(depth, &bits);
    let tmp = repr_from_le_bytes(&u);
    write_le(tmp, result);
}

/// The bits hashed for two encoded children are the first 255 bits of each
/// child's byte stream, most significant bit of each byte first, the left
/// child's before the right child's; the last bit of each stream is left out.
pub proof fn lemma_merkle_input_from_streams(left: Seq<u8>, right: Seq<u8>)
    requires
        left.len() == 32,
        right.len() == 32,
    ensures
        merkle_input(decode_spec(left), decode_spec(right)) == Seq::new(
            (2 * field_bits()) as nat,
            |t: int|
                if t < field_bits() {
                    stream_bit(left, t)
                } else {
                    stream_bit(right, t - field_bits())
                },
        ),
{
    let m = merkle_input(decode_spec(left), decode_spec(right));
    let s = Seq::new(
        (2 * field_bits()) as nat,
        |t: int|
            if t < field_bits() {
                stream_bit(left, t)
            } else {
                stream_bit(right, t - field_bits())
            },
    );
    assert forall|t: int| 0 <= t < m.len() implies m[t] == s[t] by {
        if t < field_bits() {
            lemma_decoded_bit(left, t);
        } else {
            lemma_decoded_bit(right, t - field_bits());
        }
    }
    assert(m =~= s);
}

/// Combining the same two children at the same depth gives the same parent:
/// the result of `librustzcash_merkle_hash` is a function of its inputs.
pub proof fn lemma_merkle_hash_deterministic(
    depth: usize,
    left: Seq<u8>,
    right: Seq<u8>,
    first: Seq<u8>,
    second: Seq<u8>,
)
    requires
        first == merkle_hash_spec(depth, left, right),
        second == merkle_hash_spec(depth, left, right),
    ensures
        first == second,
{
}

/// The little-endian bytes of the field element one.
pub open spec fn one_le_bytes() -> Seq<u8> {
    Seq::new(32, |j: int| if j == 0 { 1u8 } else { 0u8 })
}

/// The canonical encoding of the empty leaf: only the first bit of the stream
/// is set.
pub open spec fn uncommitted_spec() -> Seq<u8> {
    Seq::new(32, |j: int| if j == 0 { 0x80u8 } else { 0u8 })
}

/// Relies on incrementalmerkletree's `Hashable::empty_leaf` for sapling_crypto's
/// `Node`, which is the scalar one, and on `Node::to_bytes`, its little-endian
/// bytes.
#[verifier::external_body]
fn empty_leaf_bytes() -> (r: [u8; 32])
    ensures
        r@ == one_le_bytes(),
{
    <sapling_crypto::Node as incrementalmerkletree::Hashable>::empty_leaf().to_bytes()
}

proof fn lemma_encode_one()
    ensures
        encode_spec(le_limbs(one_le_bytes())) == uncommitted_spec(),
{
    let b = one_le_bytes();
    let f = le_limbs(b);
    assert(le_word(1u8, 0u8, 0u8, 0u8, 0u8, 0u8, 0u8, 0u8) == 1u64) by (bit_vector);
    assert(le_word(0u8, 0u8, 0u8, 0u8, 0u8, 0u8, 0u8, 0u8) == 0u64) by (bit_vector);
    assert(f[0] == 1u64 && f[1] == 0u64 && f[2] == 0u64 && f[3] == 0u64);
    assert(rev8(byte_of(1u64, 0u64)) == 0x80u8) by (bit_vector);
    assert forall|q: u64| 0 < q < 8 implies rev8(#[trigger] byte_of(1u64, q)) == 0u8 by {
        assert(0 < q < 8 ==> rev8(byte_of(1u64, q)) == 0u8) by (bit_vector);
    }
    assert forall|q: u64| q < 8 implies rev8(#[trigger] byte_of(0u64, q)) == 0u8 by {
        assert(q < 8 ==> rev8(byte_of(0u64, q)) == 0u8) by (bit_vector);
    }
    let e = encode_spec(f);
    assert forall|j: int| 0 <= j < 32 implies e[j] == uncommitted_spec()[j] by {
        if j >= 8 {
            assert(f[j / 8] == 0u64);
        }
    }
    assert(e =~= uncommitted_spec());
}

/// Writes the encoded empty leaf of the note commitment tree.
///
/// The leaf is the field element one, a value with no known opening as a
/// note commitment.
pub fn librustzcash_tree_uncommitted(result: &mut [u8; 32])
    ensures
        final(result)@ == encode_spec(le_limbs(one_le_bytes())),
        final(result)@ == uncommitted_spec(),
{
    let tmp = repr_from_le_bytes(&empty_leaf_bytes());
    write_le(tmp, result);
    proof {
        lemma_encode_one();
    }
}

} // verus!
