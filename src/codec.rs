use vstd::prelude::*;

verus! {

/// The internal form of a field element: a 256-bit integer held in four
/// 64-bit limbs, least significant limb first.
#[derive(Clone, Copy, Debug, PartialEq, Eq)]
pub struct FieldRepr {
    pub limbs: [u64; 4],
}

/// Why a byte buffer could not be read as a field element.
#[derive(Clone, Copy, Debug, PartialEq, Eq, Structural)]
pub enum CodecError {
    /// The buffer is not exactly 32 bytes long.
    MalformedEncoding,
}

/// The bits of a byte in the opposite order.
pub open spec fn rev8(x: u8) -> u8 {
    ((x & 0x01) << 7u8) | ((x & 0x02) << 5u8) | ((x & 0x04) << 3u8) | ((x & 0x08) << 1u8)
        | ((x & 0x10) >> 1u8) | ((x & 0x20) >> 3u8) | ((x & 0x40) >> 5u8) | ((x & 0x80) >> 7u8)
}

/// Byte `q` of a word, counted from the least significant end.
pub open spec fn byte_of(x: u64, q: u64) -> u8 {
    ((x >> (8 * q)) & 0xff) as u8
}

/// The bits of a word in the opposite order: the bytes swap ends and each
/// byte is itself reversed.
pub open spec fn rev64(x: u64) -> u64 {
    (rev8(byte_of(x, 7)) as u64) | ((rev8(byte_of(x, 6)) as u64) << 8u64) | ((rev8(
        byte_of(x, 5),
    ) as u64) << 16u64) | ((rev8(byte_of(x, 4)) as u64) << 24u64) | ((rev8(byte_of(x, 3))
        as u64) << 32u64) | ((rev8(byte_of(x, 2)) as u64) << 40u64) | ((rev8(byte_of(x, 1))
        as u64) << 48u64) | ((rev8(byte_of(x, 0)) as u64) << 56u64)
}

/// The word whose big-endian bytes are `b0` (most significant) to `b7`.
pub open spec fn be_word(b0: u8, b1: u8, b2: u8, b3: u8, b4: u8, b5: u8, b6: u8, b7: u8) -> u64 {
    ((b0 as u64) << 56u64) | ((b1 as u64) << 48u64) | ((b2 as u64) << 40u64) | ((b3 as u64)
        << 32u64) | ((b4 as u64) << 24u64) | ((b5 as u64) << 16u64) | ((b6 as u64) << 8u64) | (
    b7 as u64)
}

/// The word whose little-endian bytes are `b0` (least significant) to `b7`.
pub open spec fn le_word(b0: u8, b1: u8, b2: u8, b3: u8, b4: u8, b5: u8, b6: u8, b7: u8) -> u64 {
    be_word(b7, b6, b5, b4, b3, b2, b1, b0)
}

/// Limb `i` of the canonical decoding: eight bytes of the buffer, each with
/// its bits reversed, the first of them in the least significant place.
pub open spec fn decoded_limb(b: Seq<u8>, i: int) -> u64 {
    le_word(
        rev8(b[8 * i]),
        rev8(b[8 * i + 1]),
        rev8(b[8 * i + 2]),
        rev8(b[8 * i + 3]),
        rev8(b[8 * i + 4]),
        rev8(b[8 * i + 5]),
        rev8(b[8 * i + 6]),
        rev8(b[8 * i + 7]),
    )
}

/// The field representation that a 32-byte canonical encoding stands for.
/// Read as one stream of 256 bits, most significant bit of each byte first,
/// the buffer gives the integer's bits from the least significant up.
pub open spec fn decode_spec(b: Seq<u8>) -> Seq<u64> {
    Seq::new(4, |i: int| decoded_limb(b, i))
}

/// The canonical 32-byte encoding of a field representation.
pub open spec fn encode_spec(f: Seq<u64>) -> Seq<u8> {
    Seq::new(32, |j: int| rev8(byte_of(f[j / 8], (j % 8) as u64)))
}

/// The limbs of an integer given by its 32 little-endian bytes.
pub open spec fn le_limbs(b: Seq<u8>) -> Seq<u64> {
    Seq::new(
        4,
        |i: int|
            le_word(
                b[8 * i],
                b[8 * i + 1],
                b[8 * i + 2],
                b[8 * i + 3],
                b[8 * i + 4],
                b[8 * i + 5],
                b[8 * i + 6],
                b[8 * i + 7],
            ),
    )
}

/// Bit `n` of the integer held in the limbs `f`, least significant first.
pub open spec fn limb_bit(f: Seq<u64>, n: int) -> bool {
    (f[n / 64] >> ((n % 64) as u64)) & 1u64 == 1u64
}

/// Bit `n` of a byte string read as one stream of bits: the bytes in order,
/// each from its most significant bit down.
pub open spec fn stream_bit(b: Seq<u8>, n: int) -> bool {
    (b[n / 8] >> ((7 - n % 8) as u8)) & 1u8 == 1u8
}

proof fn lemma_rev8_bit(x: u8, r: u8)
    by (bit_vector)
    requires
        r < 8,
    ensures
        (rev8(x) >> r) & 1u8 == (x >> (7 - r) as u8) & 1u8,
{
}

proof fn lemma_le_word_bit(
    c0: u8,
    c1: u8,
    c2: u8,
    c3: u8,
    c4: u8,
    c5: u8,
    c6: u8,
    c7: u8,
    q: u64,
    r: u64,
)
    by (bit_vector)
    requires
        q < 8,
        r < 8,
    ensures
        q == 0 ==> (le_word(c0, c1, c2, c3, c4, c5, c6, c7) >> (8 * q + r)) & 1u64 == ((c0 >> (r as u8)) & 1u8) as u64,
        q == 1 ==> (le_word(c0, c1, c2, c3, c4, c5, c6, c7) >> (8 * q + r)) & 1u64 == ((c1 >> (r as u8)) & 1u8) as u64,
        q == 2 ==> (le_word(c0, c1, c2, c3, c4, c5, c6, c7) >> (8 * q + r)) & 1u64 == ((c2 >> (r as u8)) & 1u8) as u64,
        q == 3 ==> (le_word(c0, c1, c2, c3, c4, c5, c6, c7) >> (8 * q + r)) & 1u64 == ((c3 >> (r as u8)) & 1u8) as u64,
        q == 4 ==> (le_word(c0, c1, c2, c3, c4, c5, c6, c7) >> (8 * q + r)) & 1u64 == ((c4 >> (r as u8)) & 1u8) as u64,
        q == 5 ==> (le_word(c0, c1, c2, c3, c4, c5, c6, c7) >> (8 * q + r)) & 1u64 == ((c5 >> (r as u8)) & 1u8) as u64,
        q == 6 ==> (le_word(c0, c1, c2, c3, c4, c5, c6, c7) >> (8 * q + r)) & 1u64 == ((c6 >> (r as u8)) & 1u8) as u64,
        q == 7 ==> (le_word(c0, c1, c2, c3, c4, c5, c6, c7) >> (8 * q + r)) & 1u64 == ((c7 >> (r as u8)) & 1u8) as u64,
{
}

/// Bit `n` of the decoded integer, counted from the least significant end, is
/// bit `n` of the buffer read as a stream, most significant bit of each byte
/// first.
pub proof fn lemma_decoded_bit(b: Seq<u8>, n: int)
    requires
        b.len() == 32,
        0 <= n < 256,
    ensures
        limb_bit(decode_spec(b), n) == stream_bit(b, n),
{
    let i = n / 64;
    let k = n % 64;
    let q = k / 8;
    let r = k % 8;
    assert(n / 8 == 8 * i + q && n % 8 == r && k == 8 * q + r);
    lemma_le_word_bit(
        rev8(b[8 * i]),
        rev8(b[8 * i + 1]),
        rev8(b[8 * i + 2]),
        rev8(b[8 * i + 3]),
        rev8(b[8 * i + 4]),
        rev8(b[8 * i + 5]),
        rev8(b[8 * i + 6]),
        rev8(b[8 * i + 7]),
        q as u64,
        r as u64,
    );
    lemma_rev8_bit(b[n / 8], r as u8);
    assert(decode_spec(b)[i] == decoded_limb(b, i));
}

proof fn lemma_rev8_involutive(x: u8)
    by (bit_vector)
    ensures
        rev8(rev8(x)) == x,
{
}

proof fn lemma_rev64_of_be_word(b0: u8, b1: u8, b2: u8, b3: u8, b4: u8, b5: u8, b6: u8, b7: u8)
    by (bit_vector)
    ensures
        rev64(be_word(b0, b1, b2, b3, b4, b5, b6, b7)) == le_word(
            rev8(b0),
            rev8(b1),
            rev8(b2),
            rev8(b3),
            rev8(b4),
            rev8(b5),
            rev8(b6),
            rev8(b7),
        ),
{
}

proof fn lemma_be_byte_of_rev64(x: u64, q: u64)
    by (bit_vector)
    requires
        q < 8,
    ensures
        ((rev64(x) >> ((56 - 8 * q) as u64)) & 0xff) as u8 == rev8(byte_of(x, q)),
{
}

proof fn lemma_le_word_bytes(b0: u8, b1: u8, b2: u8, b3: u8, b4: u8, b5: u8, b6: u8, b7: u8)
    by (bit_vector)
    ensures
        byte_of(le_word(b0, b1, b2, b3, b4, b5, b6, b7), 0) == b0,
        byte_of(le_word(b0, b1, b2, b3, b4, b5, b6, b7), 1) == b1,
        byte_of(le_word(b0, b1, b2, b3, b4, b5, b6, b7), 2) == b2,
        byte_of(le_word(b0, b1, b2, b3, b4, b5, b6, b7), 3) == b3,
        byte_of(le_word(b0, b1, b2, b3, b4, b5, b6, b7), 4) == b4,
        byte_of(le_word(b0, b1, b2, b3, b4, b5, b6, b7), 5) == b5,
        byte_of(le_word(b0, b1, b2, b3, b4, b5, b6, b7), 6) == b6,
        byte_of(le_word(b0, b1, b2, b3, b4, b5, b6, b7), 7) == b7,
{
}

proof fn lemma_word_from_bytes(x: u64)
    by (bit_vector)
    ensures
        le_word(
            byte_of(x, 0),
            byte_of(x, 1),
            byte_of(x, 2),
            byte_of(x, 3),
            byte_of(x, 4),
            byte_of(x, 5),
            byte_of(x, 6),
            byte_of(x, 7),
        ) == x,
{
}

/// Encoding after decoding gives back every 32-byte buffer unchanged.
pub proof fn lemma_encode_decode(b: Seq<u8>)
    requires
        b.len() == 32,
    ensures
        encode_spec(decode_spec(b)) == b,
{
    let e = encode_spec(decode_spec(b));
    assert forall|j: int| 0 <= j < 32 implies e[j] == b[j] by {
        let i = j / 8;
        let q = j % 8;
        lemma_le_word_bytes(
            rev8(b[8 * i]),
            rev8(b[8 * i + 1]),
            rev8(b[8 * i + 2]),
            rev8(b[8 * i + 3]),
            rev8(b[8 * i + 4]),
            rev8(b[8 * i + 5]),
            rev8(b[8 * i + 6]),
            rev8(b[8 * i + 7]),
        );
        lemma_rev8_involutive(b[j]);
        assert(j == 8 * i + q);
    }
    assert(e =~= b);
}

/// Decoding after encoding gives back every field representation unchanged.
pub proof fn lemma_decode_encode(f: Seq<u64>)
    requires
        f.len() == 4,
    ensures
        decode_spec(encode_spec(f)) == f,
{
    let d = decode_spec(encode_spec(f));
    assert forall|i: int| 0 <= i < 4 implies d[i] == f[i] by {
        let e = encode_spec(f);
        assert forall|j: int| 8 * i <= j < 8 * i + 8 implies rev8(#[trigger] e[j]) == byte_of(
            f[i],
            (j - 8 * i) as u64,
        ) by {
            assert(j / 8 == i && j % 8 == j - 8 * i);
            lemma_rev8_involutive(byte_of(f[i], (j - 8 * i) as u64));
        }
        assert(rev8(e[8 * i]) == byte_of(f[i], 0));
        assert(rev8(e[8 * i + 1]) == byte_of(f[i], 1));
        assert(rev8(e[8 * i + 2]) == byte_of(f[i], 2));
        assert(rev8(e[8 * i + 3]) == byte_of(f[i], 3));
        assert(rev8(e[8 * i + 4]) == byte_of(f[i], 4));
        assert(rev8(e[8 * i + 5]) == byte_of(f[i], 5));
        assert(rev8(e[8 * i + 6]) == byte_of(f[i], 6));
        assert(rev8(e[8 * i + 7]) == byte_of(f[i], 7));
        lemma_word_from_bytes(f[i]);
    }
    assert(d =~= f);
}

proof fn lemma_swap_stages(x: u64, a: u64, b: u64, c: u64, d: u64, e: u64, r: u64)
    by (bit_vector)
    requires
        a == ((x >> 1u64) & 0x5555_5555_5555_5555u64) | ((x & 0x5555_5555_5555_5555u64) << 1u64),
        b == ((a >> 2u64) & 0x3333_3333_3333_3333u64) | ((a & 0x3333_3333_3333_3333u64) << 2u64),
        c == ((b >> 4u64) & 0x0f0f_0f0f_0f0f_0f0fu64) | ((b & 0x0f0f_0f0f_0f0f_0f0fu64) << 4u64),
        d == ((c >> 8u64) & 0x00ff_00ff_00ff_00ffu64) | ((c & 0x00ff_00ff_00ff_00ffu64) << 8u64),
        e == ((d >> 16u64) & 0x0000_ffff_0000_ffffu64) | ((d & 0x0000_ffff_0000_ffffu64)
            << 16u64),
        r == (e >> 32u64) | (e << 32u64),
    ensures
        r == rev64(x),
{
}

/// Reverses the order of the 64 bits of a word.
pub fn swap_bits_u64(x: u64) -> (r: u64)
    ensures
        r == rev64(x),
{
    let a = ((x >> 1u64) & 0x5555_5555_5555_5555u64) | ((x & 0x5555_5555_5555_5555u64) << 1u64);
    let b = ((a >> 2u64) & 0x3333_3333_3333_3333u64) | ((a & 0x3333_3333_3333_3333u64) << 2u64);
    let c = ((b >> 4u64) & 0x0f0f_0f0f_0f0f_0f0fu64) | ((b & 0x0f0f_0f0f_0f0f_0f0fu64) << 4u64);
    let d = ((c >> 8u64) & 0x00ff_00ff_00ff_00ffu64) | ((c & 0x00ff_00ff_00ff_00ffu64) << 8u64);
    let e = ((d >> 16u64) & 0x0000_ffff_0000_ffffu64) | ((d & 0x0000_ffff_0000_ffffu64) << 16u64);
    let r = (e >> 32u64) | (e << 32u64);
    proof {
        lemma_swap_stages(x, a, b, c, d, e, r);
    }
    r
}

/// The big-endian word held in the eight bytes of `b` from `s` on.
fn be_word_at(b: &[u8], s: usize) -> (r: u64)
    requires
        s + 8 <= b@.len(),
    ensures
        r == be_word(b@[s as int], b@[s + 1], b@[s + 2], b@[s + 3], b@[s + 4], b@[s + 5], b@[s + 6], b@[s + 7]),
{
    ((b[s] as u64) << 56u64) | ((b[s + 1] as u64) << 48u64) | ((b[s + 2] as u64) << 40u64) | ((
    b[s + 3] as u64) << 32u64) | ((b[s + 4] as u64) << 24u64) | ((b[s + 5] as u64) << 16u64) | ((
    b[s + 6] as u64) << 8u64) | (b[s + 7] as u64)
}

/// Reads a field representation from its canonical 32-byte encoding.
///
/// The bytes are read as four big-endian words, most significant limb first;
/// the limbs then swap ends and each limb has its bits reversed.
pub fn read_le(from: &[u8]) -> (r: Result<FieldRepr, CodecError>)
    ensures
        match r {
            Ok(f) => from@.len() == 32 && f.limbs@ == decode_spec(from@),
            Err(e) => from@.len() != 32 && e == CodecError::MalformedEncoding,
        },
{
    if from.len() != 32 {
        return Err(CodecError::MalformedEncoding);
    }
    let mut f = FieldRepr { limbs: [0u64; 4] };
    let mut i: usize = 0;
    while i < 4
        invariant
            from@.len() == 32,
            i <= 4,
            forall|k: int|
                0 <= k < i ==> #[trigger] f.limbs@[3 - k] == be_word(
                    from@[8 * k],
                    from@[8 * k + 1],
                    from@[8 * k + 2],
                    from@[8 * k + 3],
                    from@[8 * k + 4],
                    from@[8 * k + 5],
                    from@[8 * k + 6],
                    from@[8 * k + 7],
                ),
        decreases 4 - i,
    {
        f.limbs[3 - i] = be_word_at(from, 8 * i);
        i += 1;
    }
    let ghost read = f.limbs@;
    let top = f.limbs[3];
    f.limbs[3] = f.limbs[0];
    f.limbs[0] = top;
    let mid = f.limbs[2];
    f.limbs[2] = f.limbs[1];
    f.limbs[1] = mid;
    let ghost words = f.limbs@;
    assert(words =~= seq![read[3], read[2], read[1], read[0]]);
    assert forall|k: int| 0 <= k < 4 implies #[trigger] words[k] == be_word(
        from@[8 * k],
        from@[8 * k + 1],
        from@[8 * k + 2],
        from@[8 * k + 3],
        from@[8 * k + 4],
        from@[8 * k + 5],
        from@[8 * k + 6],
        from@[8 * k + 7],
    ) by {
        assert(words[k] == read[3 - k]);
    }
    let mut i: usize = 0;
    while i < 4
        invariant
            i <= 4,
            f.limbs@.len() == 4,
            words.len() == 4,
            from@.len() == 32,
            forall|k: int|
                0 <= k < 4 ==> #[trigger] words[k] == be_word(
                    from@[8 * k],
                    from@[8 * k + 1],
                    from@[8 * k + 2],
                    from@[8 * k + 3],
                    from@[8 * k + 4],
                    from@[8 * k + 5],
                    from@[8 * k + 6],
                    from@[8 * k + 7],
                ),
            forall|k: int| 0 <= k < i ==> #[trigger] f.limbs@[k] == rev64(words[k]),
            forall|k: int| i <= k < 4 ==> #[trigger] f.limbs@[k] == words[k],
        decreases 4 - i,
    {
        f.limbs[i] = swap_bits_u64(f.limbs[i]);
        i += 1;
    }
    proof {
        assert forall|k: int| 0 <= k < 4 implies #[trigger] f.limbs@[k] == decode_spec(from@)[k] by {
            lemma_rev64_of_be_word(
                from@[8 * k],
                from@[8 * k + 1],
                from@[8 * k + 2],
                from@[8 * k + 3],
                from@[8 * k + 4],
                from@[8 * k + 5],
                from@[8 * k + 6],
                from@[8 * k + 7],
            );
        }
        assert(f.limbs@ =~= decode_spec(from@));
    }
    Ok(f)
}

/// Writes the canonical 32-byte encoding of a field representation.
///
/// The limbs swap ends and each has its bits reversed; the four words are then
/// written big-endian, most significant limb first.
pub fn write_le(f: FieldRepr, to: &mut [u8; 32])
    ensures
        final(to)@ == encode_spec(f.limbs@),
{
    let ghost orig = f.limbs@;
    let mut f = f;
    let top = f.limbs[3];
    f.limbs[3] = f.limbs[0];
    f.limbs[0] = top;
    let mid = f.limbs[2];
    f.limbs[2] = f.limbs[1];
    f.limbs[1] = mid;
    let ghost words = f.limbs@;
    assert(words =~= seq![orig[3], orig[2], orig[1], orig[0]]);
    let mut i: usize = 0;
    while i < 4
        invariant
            i <= 4,
            f.limbs@.len() == 4,
            words.len() == 4,
            forall|k: int| 0 <= k < i ==> #[trigger] f.limbs@[k] == rev64(words[k]),
            forall|k: int| i <= k < 4 ==> #[trigger] f.limbs@[k] == words[k],
        decreases 4 - i,
    {
        f.limbs[i] = swap_bits_u64(f.limbs[i]);
        i += 1;
    }
    let ghost enc = encode_spec(orig);
    let mut i: usize = 0;
    while i < 4
        invariant
            i <= 4,
            f.limbs@.len() == 4,
            orig.len() == 4,
            enc == encode_spec(orig),
            forall|k: int| 0 <= k < 4 ==> #[trigger] f.limbs@[k] == rev64(words[k]),
            words =~= seq![orig[3], orig[2], orig[1], orig[0]],
            forall|k: int| 0 <= k < 8 * i ==> #[trigger] to@[k] == enc[k],
        decreases 4 - i,
    {
        let w = f.limbs[3 - i];
        assert(w == rev64(orig[i as int]));
        let mut j: usize = 0;
        while j < 8
            invariant
                i < 4,
                j <= 8,
                orig.len() == 4,
                enc == encode_spec(orig),
                w == rev64(orig[i as int]),
                forall|k: int| 0 <= k < 8 * i + j ==> #[trigger] to@[k] == enc[k],
            decreases 8 - j,
        {
            to[8 * i + j] = ((w >> (56 - 8 * j) as u64) & 0xffu64) as u8;
            proof {
                lemma_be_byte_of_rev64(orig[i as int], j as u64);
                let n = 8 * i + j;
                assert(n / 8 == i as int && n % 8 == j as int);
            }
            j += 1;
        }
        i += 1;
    }
    assert(to@ =~= enc);
}

/// The little-endian word held in the eight bytes of `b` from `s` on.
fn le_word_at(b: &[u8; 32], s: usize) -> (r: u64)
    requires
        s + 8 <= 32,
    ensures
        r == le_word(b@[s as int], b@[s + 1], b@[s + 2], b@[s + 3], b@[s + 4], b@[s + 5], b@[s + 6], b@[s + 7]),
{
    ((b[s + 7] as u64) << 56u64) | ((b[s + 6] as u64) << 48u64) | ((b[s + 5] as u64) << 40u64) | ((
    b[s + 4] as u64) << 32u64) | ((b[s + 3] as u64) << 24u64) | ((b[s + 2] as u64) << 16u64) | ((
    b[s + 1] as u64) << 8u64) | (b[s] as u64)
}

/// The field representation of an integer given by its 32 little-endian bytes.
pub fn repr_from_le_bytes(b: &[u8; 32]) -> (r: FieldRepr)
    ensures
        r.limbs@ == le_limbs(b@),
{
    let mut f = FieldRepr { limbs: [0u64; 4] };
    let mut i: usize = 0;
    while i < 4
        invariant
            i <= 4,
            forall|k: int| 0 <= k < i ==> #[trigger] f.limbs@[k] == le_limbs(b@)[k],
        decreases 4 - i,
    {
        f.limbs[i] = le_word_at(b, 8 * i);
        i += 1;
    }
    assert(f.limbs@ =~= le_limbs(b@));
    f
}

} // verus!
