//! The on-disk format of state-vector files: an eight-byte header followed by
//! records of eight little-endian IEEE-754 doubles, each given here by its bit
//! pattern.
//!
//! Computing the vectors works in floating point and is the caller's.
use vstd::prelude::*;

verus! {

/// State vector dimension (8 features).
pub const VEC_DIM: usize = 8;

/// Binary size of a state vector (8 features * 8 bytes per f64).
pub const VEC_SIZE: usize = 64;

/// The header that opens a vector file: `CCZEVEC` and format version 1.
pub open spec fn vector_header() -> Seq<u8> {
    seq![0x43u8, 0x43, 0x5A, 0x45, 0x56, 0x45, 0x43, 0x01]
}

/// The header that opens a vector file.
pub fn header() -> (h: [u8; 8])
    ensures
        h@ == vector_header(),
{
    let h: [u8; 8] = [0x43u8, 0x43, 0x5A, 0x45, 0x56, 0x45, 0x43, 0x01];
    assert(h@ =~= vector_header());
    h
}

/// Whether bytes read at the start of a file are the vector file header.
pub fn is_vector_header(bytes: &[u8]) -> (b: bool)
    ensures
        b == (bytes@ == vector_header()),
{
    let h = header();
    if bytes.len() != 8 {
        return false;
    }
    let mut i: usize = 0;
    while i < 8
        invariant
            i <= 8,
            bytes@.len() == 8,
            h@ == vector_header(),
            forall|j: int| 0 <= j < i ==> bytes@[j] == h@[j],
        decreases 8 - i,
    {
        if bytes[i] != h[i] {
            return false;
        }
        i = i + 1;
    }
    assert(bytes@ =~= vector_header());
    true
}

/// The byte `k` (0 least significant) of a 64-bit word.
pub open spec fn byte_of(x: u64, k: u64) -> u8 {
    ((x >> (8 * k)) & 0xff) as u8
}

/// The 64-bit word whose little-endian bytes start at `off`.
pub open spec fn word_at(b: Seq<u8>, off: int) -> u64 {
    (b[off] as u64) | ((b[off + 1] as u64) << 8) | ((b[off + 2] as u64) << 16) | ((b[off + 3] as u64)
        << 24) | ((b[off + 4] as u64) << 32) | ((b[off + 5] as u64) << 40) | ((b[off + 6] as u64)
        << 48) | ((b[off + 7] as u64) << 56)
}

/// The record of a state vector: each feature's bits in little-endian order.
pub open spec fn record_bytes(features: Seq<u64>) -> Seq<u8> {
    Seq::new(64, |i: int| byte_of(features[i / 8], (i % 8) as u64))
}

/// The feature bits of a record.
pub open spec fn record_features(record: Seq<u8>) -> Seq<u64> {
    Seq::new(8, |k: int| word_at(record, 8 * k))
}

/// A feature is finite and between 0 and 1: a bit pattern of a non-negative
/// double no greater than 1.0, or of -0.0.
pub open spec fn feature_valid(bits: u64) -> bool {
    bits <= 0x3FF0_0000_0000_0000 || bits == 0x8000_0000_0000_0000
}

/// The little-endian bytes of one word.
proof fn lemma_word_bytes(x: u64)
    ensures
        x == ((byte_of(x, 0) as u64) | ((byte_of(x, 1) as u64) << 8) | ((byte_of(x, 2) as u64) << 16)
            | ((byte_of(x, 3) as u64) << 24) | ((byte_of(x, 4) as u64) << 32) | ((byte_of(x, 5) as u64)
            << 40) | ((byte_of(x, 6) as u64) << 48) | ((byte_of(x, 7) as u64) << 56)),
{
    assert(x == ((((x >> 0u64) & 0xff) as u8 as u64) | (((((x >> 8u64) & 0xff) as u8) as u64) << 8)
        | (((((x >> 16u64) & 0xff) as u8) as u64) << 16) | (((((x >> 24u64) & 0xff) as u8) as u64)
        << 24) | (((((x >> 32u64) & 0xff) as u8) as u64) << 32) | (((((x >> 40u64) & 0xff) as u8)
        as u64) << 40) | (((((x >> 48u64) & 0xff) as u8) as u64) << 48) | (((((x >> 56u64) & 0xff)
        as u8) as u64) << 56))) by (bit_vector);
}

/// The bytes of a word read back as bytes.
proof fn lemma_bytes_word(b0: u8, b1: u8, b2: u8, b3: u8, b4: u8, b5: u8, b6: u8, b7: u8)
    ensures
        ({
            let x = (b0 as u64) | ((b1 as u64) << 8) | ((b2 as u64) << 16) | ((b3 as u64) << 24) | ((
            b4 as u64) << 32) | ((b5 as u64) << 40) | ((b6 as u64) << 48) | ((b7 as u64) << 56);
            &&& byte_of(x, 0) == b0
            &&& byte_of(x, 1) == b1
            &&& byte_of(x, 2) == b2
            &&& byte_of(x, 3) == b3
            &&& byte_of(x, 4) == b4
            &&& byte_of(x, 5) == b5
            &&& byte_of(x, 6) == b6
            &&& byte_of(x, 7) == b7
        }),
{
    let x = (b0 as u64) | ((b1 as u64) << 8) | ((b2 as u64) << 16) | ((b3 as u64) << 24) | ((
    b4 as u64) << 32) | ((b5 as u64) << 40) | ((b6 as u64) << 48) | ((b7 as u64) << 56);
    assert(((x >> 0u64) & 0xff) as u8 == b0 && ((x >> 8u64) & 0xff) as u8 == b1 && ((x >> 16u64)
        & 0xff) as u8 == b2 && ((x >> 24u64) & 0xff) as u8 == b3 && ((x >> 32u64) & 0xff) as u8
        == b4 && ((x >> 40u64) & 0xff) as u8 == b5 && ((x >> 48u64) & 0xff) as u8 == b6 && ((x
        >> 56u64) & 0xff) as u8 == b7) by (bit_vector)
        requires
            x == (b0 as u64) | ((b1 as u64) << 8) | ((b2 as u64) << 16) | ((b3 as u64) << 24) | ((
            b4 as u64) << 32) | ((b5 as u64) << 40) | ((b6 as u64) << 48) | ((b7 as u64) << 56),
    ;
}

/// The record of a state vector given by its feature bits.
pub fn encode_record(features: &[u64; 8]) -> (r: [u8; 64])
    ensures
        r@ == record_bytes(features@),
{
    let mut r = [0u8; 64];
    let mut i: usize = 0;
    while i < 64
        invariant
            i <= 64,
            r@.len() == 64,
            forall|j: int| 0 <= j < i ==> r@[j] == byte_of(features@[j / 8], (j % 8) as u64),
        decreases 64 - i,
    {
        let x = features[i / 8];
        let k = (i % 8) as u64;
        r[i] = ((x >> (8 * k)) & 0xff) as u8;
        i = i + 1;
    }
    assert(r@ =~= record_bytes(features@));
    r
}

/// The feature bits of a record.
pub fn decode_record(record: &[u8; 64]) -> (f: [u64; 8])
    ensures
        f@ == record_features(record@),
{
    let mut f = [0u64; 8];
    let mut k: usize = 0;
    while k < 8
        invariant
            k <= 8,
            f@.len() == 8,
            forall|j: int| 0 <= j < k ==> f@[j] == word_at(record@, 8 * j),
        decreases 8 - k,
    {
        let o = 8 * k;
        f[k] = (record[o] as u64) | ((record[o + 1] as u64) << 8) | ((record[o + 2] as u64) << 16) | ((
        record[o + 3] as u64) << 24) | ((record[o + 4] as u64) << 32) | ((record[o + 5] as u64) << 40)
            | ((record[o + 6] as u64) << 48) | ((record[o + 7] as u64) << 56);
        k = k + 1;
    }
    assert(f@ =~= record_features(record@));
    f
}

/// Whether every feature of a record is finite and between 0 and 1.
pub fn is_valid_record(features: &[u64; 8]) -> (b: bool)
    ensures
        b == forall|k: int| 0 <= k < 8 ==> feature_valid(#[trigger] features@[k]),
{
    let mut k: usize = 0;
    while k < 8
        invariant
            k <= 8,
            forall|j: int| 0 <= j < k ==> feature_valid(#[trigger] features@[j]),
        decreases 8 - k,
    {
        let bits = features[k];
        if !(bits <= 0x3FF0_0000_0000_0000 || bits == 0x8000_0000_0000_0000) {
            assert(!feature_valid(features@[k as int]));
            return false;
        }
        k = k + 1;
    }
    true
}

proof fn lemma_index_split(k: int, m: int)
    requires
        0 <= m < 8,
    ensures
        (8 * k + m) / 8 == k,
        (8 * k + m) % 8 == m,
{
    assert((8 * k + m) / 8 == k) by (nonlinear_arith)
        requires
            0 <= m < 8,
    ;
    assert((8 * k + m) % 8 == m) by (nonlinear_arith)
        requires
            0 <= m < 8,
    ;
}

/// Reading back a written record gives the features that were written.
pub proof fn law_decode_undoes_encode(features: Seq<u64>)
    requires
        features.len() == 8,
    ensures
        record_features(record_bytes(features)) == features,
{
    let b = record_bytes(features);
    assert forall|k: int| 0 <= k < 8 implies #[trigger] word_at(b, 8 * k) == features[k] by {
        lemma_word_bytes(features[k]);
        lemma_index_split(k, 0);
        lemma_index_split(k, 1);
        lemma_index_split(k, 2);
        lemma_index_split(k, 3);
        lemma_index_split(k, 4);
        lemma_index_split(k, 5);
        lemma_index_split(k, 6);
        lemma_index_split(k, 7);
        assert(b[8 * k + 0] == byte_of(features[k], 0));
        assert(b[8 * k + 1] == byte_of(features[k], 1));
        assert(b[8 * k + 2] == byte_of(features[k], 2));
        assert(b[8 * k + 3] == byte_of(features[k], 3));
        assert(b[8 * k + 4] == byte_of(features[k], 4));
        assert(b[8 * k + 5] == byte_of(features[k], 5));
        assert(b[8 * k + 6] == byte_of(features[k], 6));
        assert(b[8 * k + 7] == byte_of(features[k], 7));
    }
    assert(record_features(b) =~= features);
}

/// Writing back a record that was read gives the same bytes.
pub proof fn law_encode_undoes_decode(record: Seq<u8>)
    requires
        record.len() == 64,
    ensures
        record_bytes(record_features(record)) == record,
{
    let f = record_features(record);
    assert forall|i: int| 0 <= i < 64 implies #[trigger] record_bytes(f)[i] == record[i] by {
        let k = i / 8;
        let m = i % 8;
        assert(0 <= k < 8 && 0 <= m < 8 && i == 8 * k + m) by (nonlinear_arith)
            requires
                0 <= i < 64,
                k == i / 8,
                m == i % 8,
        ;
        lemma_bytes_word(
            record[8 * k],
            record[8 * k + 1],
            record[8 * k + 2],
            record[8 * k + 3],
            record[8 * k + 4],
            record[8 * k + 5],
            record[8 * k + 6],
            record[8 * k + 7],
        );
        assert(f[k] == word_at(record, 8 * k));
        if m == 0 {
        } else if m == 1 {
        } else if m == 2 {
        } else if m == 3 {
        } else if m == 4 {
        } else if m == 5 {
        } else if m == 6 {
        } else {
        }
    }
    assert(record_bytes(f) =~= record);
}

} // verus!
