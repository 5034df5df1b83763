use rustzcash::codec::{read_le, repr_from_le_bytes, swap_bits_u64, write_le, CodecError, FieldRepr};
use rustzcash::librustzcash_xor;
use rustzcash::merkle::{librustzcash_merkle_hash, librustzcash_tree_uncommitted};
use rustzcash::params::{librustzcash_init_zksnark_params, InitError, ParamRole, ParameterCache};

fn merkle(depth: usize, a: &[u8; 32], b: &[u8; 32]) -> [u8; 32] {
    let mut out = [0u8; 32];
    librustzcash_merkle_hash(depth, a, b, &mut out);
    out
}

fn uncommitted() -> [u8; 32] {
    let mut out = [0xffu8; 32];
    librustzcash_tree_uncommitted(&mut out);
    out
}

fn hex32(s: &str) -> [u8; 32] {
    let mut out = [0u8; 32];
    for i in 0..32 {
        out[i] = u8::from_str_radix(&s[2 * i..2 * i + 2], 16).unwrap();
    }
    out
}

#[test]
fn test_xor() {
    assert_eq!(
        librustzcash_xor(0x0f0f0f0f0f0f0f0f, 0x1111111111111111),
        0x1e1e1e1e1e1e1e1e
    );
}

#[test]
fn swap_bits_reverses_words() {
    assert_eq!(swap_bits_u64(1), 1u64 << 63);
    assert_eq!(swap_bits_u64(0), 0);
    assert_eq!(swap_bits_u64(u64::MAX), u64::MAX);
    assert_eq!(swap_bits_u64(0x0123_4567_89ab_cdef), 0xf7b3_d591_e6a2_c480);
}

#[test]
fn decode_reads_bits_most_significant_first() {
    let mut b = [0u8; 32];
    b[0] = 0x80;
    assert_eq!(read_le(&b).unwrap().limbs, [1, 0, 0, 0]);
    let mut b = [0u8; 32];
    b[0] = 0x01;
    assert_eq!(read_le(&b).unwrap().limbs, [0x80, 0, 0, 0]);
    let mut b = [0u8; 32];
    b[31] = 0x01;
    assert_eq!(read_le(&b).unwrap().limbs, [0, 0, 0, 1u64 << 63]);
    let mut b = [0u8; 32];
    b[8] = 0xc0;
    assert_eq!(read_le(&b).unwrap().limbs, [0, 3, 0, 0]);
}

#[test]
fn encode_writes_bits_most_significant_first() {
    let mut out = [0u8; 32];
    write_le(FieldRepr { limbs: [1, 0, 0, 0] }, &mut out);
    let mut expected = [0u8; 32];
    expected[0] = 0x80;
    assert_eq!(out, expected);
    write_le(FieldRepr { limbs: [0, 0, 0, 1u64 << 63] }, &mut out);
    let mut expected = [0u8; 32];
    expected[31] = 0x01;
    assert_eq!(out, expected);
}

#[test]
fn encode_after_decode_round_trips() {
    let mut b = [0u8; 32];
    for i in 0..32 {
        b[i] = (i as u8).wrapping_mul(37).wrapping_add(11);
    }
    let f = read_le(&b).unwrap();
    let mut out = [0u8; 32];
    write_le(f, &mut out);
    assert_eq!(out, b);
    assert_eq!(read_le(&out).unwrap(), f);
}

#[test]
fn decode_after_encode_round_trips() {
    let f = FieldRepr { limbs: [0x0123_4567_89ab_cdef, 7, u64::MAX, 0x1234] };
    let mut out = [0u8; 32];
    write_le(f, &mut out);
    assert_eq!(read_le(&out).unwrap(), f);
}

#[test]
fn decode_rejects_short_and_long_buffers() {
    assert_eq!(read_le(&[0u8; 31]), Err(CodecError::MalformedEncoding));
    assert_eq!(read_le(&[0u8; 33]), Err(CodecError::MalformedEncoding));
    assert_eq!(read_le(&[]), Err(CodecError::MalformedEncoding));
}

#[test]
fn little_endian_bytes_become_limbs() {
    let mut b = [0u8; 32];
    b[0] = 0x01;
    b[9] = 0x02;
    b[31] = 0x80;
    assert_eq!(repr_from_le_bytes(&b).limbs, [1, 0x200, 0, 1u64 << 63]);
}

#[test]
fn uncommitted_is_the_encoded_one() {
    let mut expected = [0u8; 32];
    expected[0] = 0x80;
    assert_eq!(uncommitted(), expected);
    assert_eq!(uncommitted(), uncommitted());
}

#[test]
fn merkle_hash_of_empty_leaves_matches_the_sapling_empty_root() {
    let leaf = uncommitted();
    let le = hex32("817de36ab2d57feb077634bca77819c8e0bd298c04f6fed0e6a83cc1356ca155");
    let mut expected = [0u8; 32];
    for i in 0..32 {
        expected[i] = le[i].reverse_bits();
    }
    assert_eq!(merkle(0, &leaf, &leaf), expected);
}

#[test]
fn merkle_hash_of_zero_children_is_stable() {
    let zero = [0u8; 32];
    let first = merkle(0, &zero, &zero);
    assert_eq!(first, merkle(0, &zero, &zero));
    assert_eq!(
        first,
        [
            58, 151, 85, 204, 184, 11, 172, 101, 109, 112, 3, 99, 73, 117, 141, 83, 100, 147, 96,
            96, 6, 200, 182, 116, 40, 18, 175, 205, 194, 20, 82, 96
        ]
    );
}

#[test]
fn merkle_hash_depends_on_depth() {
    let zero = [0u8; 32];
    assert_ne!(merkle(0, &zero, &zero), merkle(1, &zero, &zero));
    let leaf = uncommitted();
    assert_ne!(merkle(5, &leaf, &zero), merkle(6, &leaf, &zero));
}

#[test]
fn merkle_hash_depends_on_position() {
    let zero = [0u8; 32];
    let leaf = uncommitted();
    assert_ne!(merkle(0, &leaf, &zero), merkle(0, &zero, &leaf));
}

#[test]
fn merkle_hash_ignores_the_last_bit_of_each_child() {
    let zero = [0u8; 32];
    let mut high = [0u8; 32];
    high[31] = 0x01;
    assert_eq!(merkle(3, &high, &zero), merkle(3, &zero, &zero));
    assert_eq!(merkle(3, &zero, &high), merkle(3, &zero, &zero));
}

#[test]
fn init_with_missing_spend_file_leaves_cache_empty() {
    let mut cache = ParameterCache::new();
    let r = librustzcash_init_zksnark_params(
        &mut cache,
        None,
        Some(vec![0u8; 4]),
        Some(vec![0u8; 4]),
        String::from("sprout-groth16.params"),
    );
    assert_eq!(r, Err(InitError::IoFailure(ParamRole::SaplingSpend)));
    assert!(!cache.is_initialized());
}

#[test]
fn init_reports_missing_files_in_order() {
    let mut cache = ParameterCache::new();
    let r = librustzcash_init_zksnark_params(&mut cache, Some(vec![]), None, None, String::new());
    assert_eq!(r, Err(InitError::IoFailure(ParamRole::SaplingOutput)));
    let r = librustzcash_init_zksnark_params(&mut cache, Some(vec![]), Some(vec![]), None, String::new());
    assert_eq!(r, Err(InitError::IoFailure(ParamRole::SproutGroth16)));
    assert!(!cache.is_initialized());
}

#[test]
fn init_with_truncated_parameters_fails_to_deserialize() {
    let mut cache = ParameterCache::new();
    let r = librustzcash_init_zksnark_params(
        &mut cache,
        Some(vec![0u8; 10]),
        Some(vec![0u8; 10]),
        Some(vec![0u8; 10]),
        String::from("sprout-groth16.params"),
    );
    assert_eq!(r, Err(InitError::DeserializationFailure(ParamRole::SaplingSpend)));
    assert!(!cache.is_initialized());
}
