//! Fixed-length vectors and their serialization: booleans packed eight to a
//! byte (bit `i` in byte `i / 8`, least significant bit first); `u8`, `u32`
//! and `u64` words as concatenated little-endian bytes; fixed-size composite
//! elements by concatenation of their encodings; and variable-size elements
//! behind a table of 32-bit little-endian offsets into the section that
//! follows it.

use vstd::prelude::*;

verus! {

/// Decoding errors.
#[derive(Clone, Copy, Debug, PartialEq, Eq, Structural)]
pub enum Error {
    /// The decoded length disagrees with the expected length.
    InvalidLength,
    /// The input is too short to reach a required byte.
    IncorrectSize,
    /// An enum tag is out of range.
    InvalidEnum,
}

/// A vector whose length is fixed by its type's configuration.
#[derive(Clone, Debug)]
pub struct FixedVec<T> {
    pub items: Vec<T>,
}

/// Number of bytes that hold `n` packed booleans.
pub open spec fn packed_len(n: int) -> int {
    (n + 7) / 8
}

/// Bit `i` of a packed byte string.
pub open spec fn bit_of(bytes: Seq<u8>, i: int) -> bool {
    (bytes[i / 8] >> ((i % 8) as u8)) & 1u8 == 1u8
}

/// `bytes` is the packing of `bits`: the right length, each bit in its place,
/// and the padding bits of the last byte clear.
pub open spec fn packs(bits: Seq<bool>, bytes: Seq<u8>) -> bool {
    &&& bytes.len() == packed_len(bits.len() as int)
    &&& forall|i: int| 0 <= i < bits.len() ==> bit_of(bytes, i) == #[trigger] bits[i]
    &&& forall|i: int| bits.len() <= i < 8 * bytes.len() ==> !#[trigger] bit_of(bytes, i)
}

/// What decoding `bytes` as `len` booleans gives.
pub open spec fn spec_decode_bools(bytes: Seq<u8>, len: int) -> Result<Seq<bool>, Error> {
    if bytes.len() < packed_len(len) {
        Err(Error::IncorrectSize)
    } else if bytes.len() > packed_len(len) {
        Err(Error::InvalidLength)
    } else {
        Ok(Seq::new(len as nat, |i: int| bit_of(bytes, i)))
    }
}

proof fn lemma_set_bit(x: u8, k: u8, j: u8)
    requires
        k < 8,
        j < 8,
        (x >> k) & 1u8 == 0u8,
    ensures
        ((x | (1u8 << k)) >> j) & 1u8 == (if j == k { 1u8 } else { (x >> j) & 1u8 }),
{
    assert(((x | (1u8 << k)) >> j) & 1u8 == (if j == k { 1u8 } else { (x >> j) & 1u8 })) by (bit_vector)
        requires
            k < 8,
            j < 8,
            (x >> k) & 1u8 == 0u8,
    ;
}

proof fn lemma_test_bit(x: u8, k: u8)
    requires
        k < 8,
    ensures
        ((x & (1u8 << k)) != 0u8) == ((x >> k) & 1u8 == 1u8),
{
    assert(((x & (1u8 << k)) != 0u8) == ((x >> k) & 1u8 == 1u8)) by (bit_vector)
        requires
            k < 8,
    ;
}

proof fn lemma_zero_bits(k: u8)
    requires
        k < 8,
    ensures
        (0u8 >> k) & 1u8 == 0u8,
{
    assert((0u8 >> k) & 1u8 == 0u8) by (bit_vector);
}

proof fn lemma_byte_from_bits(x: u8, y: u8)
    requires
        forall|k: u8| k < 8 ==> (x >> k) & 1u8 == #[trigger] ((y >> k) & 1u8),
    ensures
        x == y,
{
    assert((x >> 0u8) & 1u8 == (y >> 0u8) & 1u8);
    assert((x >> 1u8) & 1u8 == (y >> 1u8) & 1u8);
    assert((x >> 2u8) & 1u8 == (y >> 2u8) & 1u8);
    assert((x >> 3u8) & 1u8 == (y >> 3u8) & 1u8);
    assert((x >> 4u8) & 1u8 == (y >> 4u8) & 1u8);
    assert((x >> 5u8) & 1u8 == (y >> 5u8) & 1u8);
    assert((x >> 6u8) & 1u8 == (y >> 6u8) & 1u8);
    assert((x >> 7u8) & 1u8 == (y >> 7u8) & 1u8);
    assert(x == y) by (bit_vector)
        requires
            (x >> 0u8) & 1u8 == (y >> 0u8) & 1u8,
            (x >> 1u8) & 1u8 == (y >> 1u8) & 1u8,
            (x >> 2u8) & 1u8 == (y >> 2u8) & 1u8,
            (x >> 3u8) & 1u8 == (y >> 3u8) & 1u8,
            (x >> 4u8) & 1u8 == (y >> 4u8) & 1u8,
            (x >> 5u8) & 1u8 == (y >> 5u8) & 1u8,
            (x >> 6u8) & 1u8 == (y >> 6u8) & 1u8,
            (x >> 7u8) & 1u8 == (y >> 7u8) & 1u8,
    ;
}

/// The encoded size of `len` booleans.
pub fn bool_vector_size(len: usize) -> (r: usize)
    ensures
        r == packed_len(len as int),
{
    len / 8 + if len % 8 != 0 { 1 } else { 0 }
}

/// The encoded size of `len` words, if it fits in `usize`.
pub fn u64_vector_size(len: usize) -> (r: Option<usize>)
    ensures
        8 * len <= usize::MAX ==> r == Some((8 * len) as usize),
        8 * len > usize::MAX ==> r is None,
{
    len.checked_mul(8)
}

/// Pack booleans eight to a byte, least significant bit first.
pub fn encode_bool_vector(bits: &[bool]) -> (r: Vec<u8>)
    ensures
        packs(bits@, r@),
{
    let n = bits.len();
    let nbytes = bool_vector_size(n);
    let mut bytes: Vec<u8> = Vec::new();
    while bytes.len() < nbytes
        invariant
            bytes.len() <= nbytes,
            forall|j: int| 0 <= j < bytes.len() ==> bytes@[j] == 0u8,
        decreases nbytes - bytes.len(),
    {
        bytes.push(0u8);
    }
    assert forall|t: int| 0 <= t < 8 * bytes.len() implies !#[trigger] bit_of(bytes@, t) by {
        lemma_zero_bits((t % 8) as u8);
    }
    let mut i: usize = 0;
    while i < n
        invariant
            n == bits.len(),
            i <= n,
            bytes.len() == nbytes,
            nbytes == packed_len(n as int),
            forall|t: int| 0 <= t < i ==> bit_of(bytes@, t) == #[trigger] bits@[t],
            forall|t: int| i <= t < 8 * bytes.len() ==> !#[trigger] bit_of(bytes@, t),
        decreases n - i,
    {
        if bits[i] {
            let j = i / 8;
            let k = (i % 8) as u8;
            let ghost old_bytes = bytes@;
            let x = bytes[j];
            assert(!bit_of(old_bytes, i as int));
            proof {
                lemma_bit_cases(x, k);
            }
            bytes.set(j, x | (1u8 << k));
            assert forall|t: int| 0 <= t < 8 * bytes.len() && t != i implies #[trigger] bit_of(bytes@, t) == bit_of(old_bytes, t) by {
                if t / 8 == j as int {
                    lemma_set_bit(x, k, (t % 8) as u8);
                }
            }
            proof {
                lemma_set_bit(x, k, k);
            }
        }
        i += 1;
    }
    bytes
}

/// Unpack `len` booleans.
pub fn decode_bool_vector(value: &[u8], len: usize) -> (r: Result<FixedVec<bool>, Error>)
    ensures
        match spec_decode_bools(value@, len as int) {
            Ok(bits) => r is Ok && r->Ok_0.items@ == bits,
            Err(e) => r == Err::<FixedVec<bool>, Error>(e),
        },
{
    let nbytes = bool_vector_size(len);
    if value.len() < nbytes {
        return Err(Error::IncorrectSize);
    }
    if value.len() > nbytes {
        return Err(Error::InvalidLength);
    }
    let mut ret: Vec<bool> = Vec::new();
    let mut i: usize = 0;
    while i < len
        invariant
            i <= len,
            value.len() == nbytes,
            nbytes == packed_len(len as int),
            ret@.len() == i,
            forall|t: int| 0 <= t < i ==> #[trigger] ret@[t] == bit_of(value@, t),
        decreases len - i,
    {
        let k = (i % 8) as u8;
        proof {
            lemma_test_bit(value@[(i / 8) as int], k);
        }
        ret.push(value[i / 8] & (1u8 << k) != 0);
        i += 1;
    }
    assert(ret@ =~= Seq::new(len as nat, |t: int| bit_of(value@, t)));
    Ok(FixedVec { items: ret })
}

/// Decoding a packing of `bits` at their length gives `bits` back.
pub proof fn lemma_bool_vector_round_trip(bits: Seq<bool>, bytes: Seq<u8>)
    requires
        packs(bits, bytes),
    ensures
        spec_decode_bools(bytes, bits.len() as int) == Ok::<Seq<bool>, Error>(bits),
{
    assert(Seq::new(bits.len(), |i: int| bit_of(bytes, i)) =~= bits);
}

/// The packing of a boolean vector is unique, so encoding is deterministic.
pub proof fn lemma_bool_vector_encoding_unique(bits: Seq<bool>, a: Seq<u8>, b: Seq<u8>)
    requires
        packs(bits, a),
        packs(bits, b),
    ensures
        a == b,
{
    assert forall|j: int| 0 <= j < a.len() implies a[j] == b[j] by {
        assert forall|k: u8| k < 8 implies (a[j] >> k) & 1u8 == #[trigger] ((b[j] >> k) & 1u8) by {
            let t = 8 * j + k as int;
            assert(t / 8 == j && t % 8 == k as int);
            if t < bits.len() {
                assert(bit_of(a, t) == bits[t]);
                assert(bit_of(b, t) == bits[t]);
            } else {
                assert(!bit_of(a, t));
                assert(!bit_of(b, t));
            }
            lemma_bit_cases(a[j], k);
            lemma_bit_cases(b[j], k);
        }
        lemma_byte_from_bits(a[j], b[j]);
    }
    assert(a =~= b);
}

proof fn lemma_bit_cases(x: u8, k: u8)
    ensures
        (x >> k) & 1u8 == 0u8 || (x >> k) & 1u8 == 1u8,
{
    assert((x >> k) & 1u8 == 0u8 || (x >> k) & 1u8 == 1u8) by (bit_vector);
}

/// Byte `k` (from the least significant) of `x`.
pub open spec fn le_byte(x: u64, k: int) -> u8 {
    ((x >> ((8 * k) as u64)) & 0xffu64) as u8
}

/// The little-endian word stored at `bytes[at..at + 8]`.
pub open spec fn le_word(bytes: Seq<u8>, at: int) -> u64 {
    (bytes[at] as u64) | ((bytes[at + 1] as u64) << 8u64) | ((bytes[at + 2] as u64) << 16u64)
        | ((bytes[at + 3] as u64) << 24u64) | ((bytes[at + 4] as u64) << 32u64)
        | ((bytes[at + 5] as u64) << 40u64) | ((bytes[at + 6] as u64) << 48u64)
        | ((bytes[at + 7] as u64) << 56u64)
}

/// `bytes` is the concatenation of the little-endian encodings of `xs`.
pub open spec fn encodes_words(xs: Seq<u64>, bytes: Seq<u8>) -> bool {
    &&& bytes.len() == 8 * xs.len()
    &&& forall|i: int, k: int| 0 <= i < xs.len() && 0 <= k < 8 ==> #[trigger] bytes[8 * i + k] == le_byte(xs[i], k)
}

/// What decoding `bytes` as `len` little-endian words gives.
pub open spec fn spec_decode_words(bytes: Seq<u8>, len: int) -> Result<Seq<u64>, Error> {
    if bytes.len() % 8 != 0 {
        Err(Error::IncorrectSize)
    } else if bytes.len() / 8 != len {
        Err(Error::InvalidLength)
    } else {
        Ok(Seq::new(len as nat, |i: int| le_word(bytes, 8 * i)))
    }
}

proof fn lemma_byte_widen(x: u64, k: int)
    requires
        0 <= k < 8,
    ensures
        le_byte(x, k) as u64 == (x >> ((8 * k) as u64)) & 0xffu64,
{
    let s = (8 * k) as u64;
    assert((x >> s) & 0xffu64 <= 0xffu64) by (bit_vector);
}

proof fn lemma_word_from_bytes(x: u64, bytes: Seq<u8>, at: int)
    requires
        0 <= at,
        at + 8 <= bytes.len(),
        forall|k: int| 0 <= k < 8 ==> #[trigger] bytes[at + k] == le_byte(x, k),
    ensures
        le_word(bytes, at) == x,
{
    assert(bytes[at + 0] == le_byte(x, 0));
    assert(bytes[at + 1] == le_byte(x, 1));
    assert(bytes[at + 2] == le_byte(x, 2));
    assert(bytes[at + 3] == le_byte(x, 3));
    assert(bytes[at + 4] == le_byte(x, 4));
    assert(bytes[at + 5] == le_byte(x, 5));
    assert(bytes[at + 6] == le_byte(x, 6));
    assert(bytes[at + 7] == le_byte(x, 7));
    lemma_byte_widen(x, 0);
    lemma_byte_widen(x, 1);
    lemma_byte_widen(x, 2);
    lemma_byte_widen(x, 3);
    lemma_byte_widen(x, 4);
    lemma_byte_widen(x, 5);
    lemma_byte_widen(x, 6);
    lemma_byte_widen(x, 7);
    let w0 = bytes[at] as u64;
    let w1 = bytes[at + 1] as u64;
    let w2 = bytes[at + 2] as u64;
    let w3 = bytes[at + 3] as u64;
    let w4 = bytes[at + 4] as u64;
    let w5 = bytes[at + 5] as u64;
    let w6 = bytes[at + 6] as u64;
    let w7 = bytes[at + 7] as u64;
    assert(w0 | w1 << 8u64 | w2 << 16u64 | w3 << 24u64 | w4 << 32u64 | w5 << 40u64 | w6 << 48u64 | w7 << 56u64 == x)
        by (bit_vector)
        requires
            w0 == (x >> 0u64) & 0xffu64,
            w1 == (x >> 8u64) & 0xffu64,
            w2 == (x >> 16u64) & 0xffu64,
            w3 == (x >> 24u64) & 0xffu64,
            w4 == (x >> 32u64) & 0xffu64,
            w5 == (x >> 40u64) & 0xffu64,
            w6 == (x >> 48u64) & 0xffu64,
            w7 == (x >> 56u64) & 0xffu64,
    ;
}

/// Encode words as concatenated little-endian bytes.
pub fn encode_u64_vector(xs: &[u64]) -> (r: Vec<u8>)
    requires
        8 * xs.len() <= usize::MAX,
    ensures
        encodes_words(xs@, r@),
{
    let mut bytes: Vec<u8> = Vec::new();
    let mut i: usize = 0;
    while i < xs.len()
        invariant
            i <= xs.len(),
            bytes.len() == 8 * i,
            forall|t: int, k: int| 0 <= t < i && 0 <= k < 8 ==> #[trigger] bytes@[8 * t + k] == le_byte(xs@[t], k),
        decreases xs.len() - i,
    {
        let x = xs[i];
        let ghost before = bytes@;
        bytes.push((x & 0xff) as u8);
        bytes.push(((x >> 8) & 0xff) as u8);
        bytes.push(((x >> 16) & 0xff) as u8);
        bytes.push(((x >> 24) & 0xff) as u8);
        bytes.push(((x >> 32) & 0xff) as u8);
        bytes.push(((x >> 40) & 0xff) as u8);
        bytes.push(((x >> 48) & 0xff) as u8);
        bytes.push(((x >> 56) & 0xff) as u8);
        assert forall|t: int, k: int| 0 <= t < i + 1 && 0 <= k < 8 implies #[trigger] bytes@[8 * t + k] == le_byte(xs@[t], k) by {
            if t < i {
                assert(bytes@[8 * t + k] == before[8 * t + k]);
            } else {
                assert(t == i);
                assert(x >> 0u64 == x) by (bit_vector);
            }
        }
        i += 1;
    }
    bytes
}

fn read_word(value: &[u8], at: usize) -> (r: u64)
    requires
        at + 8 <= value.len(),
    ensures
        r == le_word(value@, at as int),
{
    (value[at] as u64) | ((value[at + 1] as u64) << 8u64) | ((value[at + 2] as u64) << 16u64)
        | ((value[at + 3] as u64) << 24u64) | ((value[at + 4] as u64) << 32u64)
        | ((value[at + 5] as u64) << 40u64) | ((value[at + 6] as u64) << 48u64)
        | ((value[at + 7] as u64) << 56u64)
}

/// Decode `len` little-endian words.
pub fn decode_u64_vector(value: &[u8], len: usize) -> (r: Result<FixedVec<u64>, Error>)
    ensures
        match spec_decode_words(value@, len as int) {
            Ok(xs) => r is Ok && r->Ok_0.items@ == xs,
            Err(e) => r == Err::<FixedVec<u64>, Error>(e),
        },
{
    if value.len() % 8 != 0 {
        return Err(Error::IncorrectSize);
    }
    if value.len() / 8 != len {
        return Err(Error::InvalidLength);
    }
    let mut ret: Vec<u64> = Vec::new();
    let mut i: usize = 0;
    while i < len
        invariant
            i <= len,
            value.len() == 8 * len,
            ret@.len() == i,
            forall|t: int| 0 <= t < i ==> #[trigger] ret@[t] == le_word(value@, 8 * t),
        decreases len - i,
    {
        ret.push(read_word(value, 8 * i));
        i += 1;
    }
    assert(ret@ =~= Seq::new(len as nat, |t: int| le_word(value@, 8 * t)));
    Ok(FixedVec { items: ret })
}

/// Decoding the encoding of words at their count gives the words back.
pub proof fn lemma_u64_vector_round_trip(xs: Seq<u64>, bytes: Seq<u8>)
    requires
        encodes_words(xs, bytes),
    ensures
        spec_decode_words(bytes, xs.len() as int) == Ok::<Seq<u64>, Error>(xs),
{
    assert forall|i: int| 0 <= i < xs.len() implies le_word(bytes, 8 * i) == xs[i] by {
        assert forall|k: int| 0 <= k < 8 implies #[trigger] bytes[8 * i + k] == le_byte(xs[i], k) by {
            assert(bytes[8 * i + k] == le_byte(xs[i], k));
        }
        lemma_word_from_bytes(xs[i], bytes, 8 * i);
    }
    assert(Seq::new(xs.len(), |i: int| le_word(bytes, 8 * i)) =~= xs);
}

/// The encoding of a word vector is unique, so encoding is deterministic.
pub proof fn lemma_u64_vector_encoding_unique(xs: Seq<u64>, a: Seq<u8>, b: Seq<u8>)
    requires
        encodes_words(xs, a),
        encodes_words(xs, b),
    ensures
        a == b,
{
    assert forall|j: int| 0 <= j < a.len() implies a[j] == b[j] by {
        let i = j / 8;
        let k = j % 8;
        assert(j == 8 * i + k);
        assert(a[8 * i + k] == le_byte(xs[i], k));
        assert(b[8 * i + k] == le_byte(xs[i], k));
    }
    assert(a =~= b);
}

/// The concatenation of `items`.
pub open spec fn concat(items: Seq<Seq<u8>>) -> Seq<u8>
    decreases items.len(),
{
    if items.len() == 0 { Seq::empty() } else { concat(items.drop_last()) + items.last() }
}

/// The views of a vector of byte strings.
pub open spec fn views(items: Seq<Vec<u8>>) -> Seq<Seq<u8>> {
    Seq::new(items.len(), |i: int| items[i]@)
}

/// What decoding `bytes` as `len` elements of `size` bytes each gives.
pub open spec fn spec_decode_fixed_composite(bytes: Seq<u8>, size: int, len: int) -> Result<Seq<Seq<u8>>, Error> {
    if (bytes.len() as int) % size != 0 {
        Err(Error::IncorrectSize)
    } else if (bytes.len() as int) / size != len {
        Err(Error::InvalidLength)
    } else {
        Ok(Seq::new(len as nat, |i: int| bytes.subrange(i * size, (i + 1) * size)))
    }
}

proof fn lemma_concat_len(items: Seq<Seq<u8>>, size: int)
    requires
        forall|i: int| 0 <= i < items.len() ==> (#[trigger] items[i]).len() == size,
    ensures
        concat(items).len() == items.len() * size,
    decreases items.len(),
{
    if items.len() > 0 {
        lemma_concat_len(items.drop_last(), size);
        assert((items.len() - 1) * size + size == items.len() * size) by (nonlinear_arith);
    }
}

proof fn lemma_concat_chunk(items: Seq<Seq<u8>>, size: int, i: int)
    requires
        size > 0,
        0 <= i < items.len(),
        forall|k: int| 0 <= k < items.len() ==> (#[trigger] items[k]).len() == size,
    ensures
        concat(items).subrange(i * size, (i + 1) * size) == items[i],
    decreases items.len(),
{
    let init = items.drop_last();
    lemma_concat_len(init, size);
    assert(concat(items) == concat(init) + items.last());
    assert((i + 1) * size == i * size + size) by (nonlinear_arith);
    assert(i * size >= 0) by (nonlinear_arith)
        requires
            i >= 0,
            size > 0,
    ;
    if i == items.len() - 1 {
        assert(concat(items).subrange(i * size, (i + 1) * size) =~= items[i]);
    } else {
        lemma_concat_chunk(init, size, i);
        assert((i + 1) * size <= (items.len() - 1) * size) by (nonlinear_arith)
            requires
                i + 1 <= items.len() - 1,
                size > 0,
        ;
        assert(concat(items).subrange(i * size, (i + 1) * size) =~= concat(init).subrange(i * size, (i + 1) * size));
    }
}

/// Encode a fixed vector of fixed-size composite elements (each already
/// encoded) by concatenation.
pub fn encode_fixed_composite(items: &Vec<Vec<u8>>) -> (r: Vec<u8>)
    ensures
        r@ == concat(views(items@)),
{
    let mut r: Vec<u8> = Vec::new();
    let mut i: usize = 0;
    while i < items.len()
        invariant
            i <= items.len(),
            r@ == concat(views(items@).take(i as int)),
        decreases items.len() - i,
    {
        let item = &items[i];
        let ghost before = r@;
        let mut j: usize = 0;
        while j < item.len()
            invariant
                j <= item.len(),
                r@ == before + item@.take(j as int),
            decreases item.len() - j,
        {
            r.push(item[j]);
            assert(r@ =~= before + item@.take(j + 1));
            j += 1;
        }
        assert(views(items@).take(i + 1).drop_last() =~= views(items@).take(i as int));
        assert(item@.take(item@.len() as int) =~= item@);
        i += 1;
    }
    assert(views(items@).take(items@.len() as int) =~= views(items@));
    r
}

/// Split `value` into `len` elements of `size` bytes each.
pub fn decode_fixed_composite(value: &[u8], size: usize, len: usize) -> (r: Result<Vec<Vec<u8>>, Error>)
    requires
        size > 0,
    ensures
        match spec_decode_fixed_composite(value@, size as int, len as int) {
            Ok(chunks) => r is Ok && views(r->Ok_0@) == chunks,
            Err(e) => r == Err::<Vec<Vec<u8>>, Error>(e),
        },
{
    if value.len() % size != 0 {
        return Err(Error::IncorrectSize);
    }
    if value.len() / size != len {
        return Err(Error::InvalidLength);
    }
    assert(len * size == value.len()) by (nonlinear_arith)
        requires
            (value.len() as int) % (size as int) == 0,
            (value.len() as int) / (size as int) == len as int,
            size > 0,
    ;
    let mut out: Vec<Vec<u8>> = Vec::new();
    let mut i: usize = 0;
    while i < len
        invariant
            i <= len,
            size > 0,
            len * size == value.len(),
            out@.len() == i,
            forall|k: int| 0 <= k < i ==> (#[trigger] out@[k])@ == value@.subrange(k * size, (k + 1) * size),
        decreases len - i,
    {
        assert((i + 1) * size <= len * size) by (nonlinear_arith)
            requires
                i + 1 <= len,
                size > 0,
        ;
        assert((i + 1) * size == i * size + size) by (nonlinear_arith);
        let start = i * size;
        let mut chunk: Vec<u8> = Vec::new();
        assert(chunk@ =~= value@.subrange(start as int, start as int));
        let mut j: usize = 0;
        while j < size
            invariant
                j <= size,
                start == i * size,
                start + size <= value.len(),
                chunk@ == value@.subrange(start as int, start + j),
            decreases size - j,
        {
            chunk.push(value[start + j]);
            assert(chunk@ =~= value@.subrange(start as int, start + j + 1));
            j += 1;
        }
        out.push(chunk);
        i += 1;
    }
    assert(views(out@) =~= Seq::new(len as nat, |k: int| value@.subrange(k * size, (k + 1) * size)));
    Ok(out)
}

/// Splitting the concatenation of `len` elements of `size` bytes gives the
/// elements back.
pub proof fn lemma_fixed_composite_round_trip(items: Seq<Seq<u8>>, size: int)
    requires
        size > 0,
        forall|i: int| 0 <= i < items.len() ==> (#[trigger] items[i]).len() == size,
    ensures
        spec_decode_fixed_composite(concat(items), size, items.len() as int) == Ok::<Seq<Seq<u8>>, Error>(items),
{
    lemma_concat_len(items, size);
    let n = items.len() as int;
    assert((n * size) % size == 0 && (n * size) / size == n) by (nonlinear_arith)
        requires
            size > 0,
            n >= 0,
    ;
    assert forall|i: int| 0 <= i < n implies concat(items).subrange(i * size, (i + 1) * size) == items[i] by {
        lemma_concat_chunk(items, size, i);
    }
    assert(Seq::new(n as nat, |i: int| concat(items).subrange(i * size, (i + 1) * size)) =~= items);
}

/// Byte `k` (from the least significant) of a 32-bit word.
pub open spec fn le32_byte(x: u32, k: int) -> u8 {
    ((x >> ((8 * k) as u32)) & 0xffu32) as u8
}

/// The little-endian 32-bit word stored at `bytes[at..at + 4]`.
pub open spec fn le32_word(bytes: Seq<u8>, at: int) -> u32 {
    (bytes[at] as u32) | ((bytes[at + 1] as u32) << 8u32) | ((bytes[at + 2] as u32) << 16u32)
        | ((bytes[at + 3] as u32) << 24u32)
}

/// Offset `i` of the table at the start of `bytes`.
pub open spec fn var_offset(bytes: Seq<u8>, i: int) -> int {
    le32_word(bytes, 4 * i) as int
}

/// Where element `i` of `len` ends within the variable section.
pub open spec fn var_end(bytes: Seq<u8>, len: int, i: int) -> int {
    if i + 1 < len { var_offset(bytes, i + 1) } else { bytes.len() - 4 * len }
}

/// The first offset is zero and none runs backwards or past the end.
pub open spec fn offsets_ok(bytes: Seq<u8>, len: int) -> bool {
    &&& len == 0 ==> bytes.len() == 0
    &&& len > 0 ==> var_offset(bytes, 0) == 0
    &&& forall|i: int| 0 <= i < len ==> #[trigger] var_offset(bytes, i) <= var_end(bytes, len, i)
}

/// What decoding `bytes` as `len` variable-size elements gives: a table of
/// `len` 32-bit offsets into the variable section that follows it.
pub open spec fn spec_decode_variable_composite(bytes: Seq<u8>, len: int) -> Result<Seq<Seq<u8>>, Error> {
    if bytes.len() < 4 * len {
        Err(Error::IncorrectSize)
    } else if !offsets_ok(bytes, len) {
        Err(Error::InvalidLength)
    } else {
        Ok(Seq::new(len as nat, |i: int| bytes.subrange(4 * len + var_offset(bytes, i), 4 * len + var_end(bytes, len, i))))
    }
}

/// The length of the first `i` elements together.
pub open spec fn prefix_len(items: Seq<Seq<u8>>, i: int) -> int {
    concat(items.take(i)).len() as int
}

/// The offset table of `items`.
pub open spec fn offset_table(items: Seq<Seq<u8>>) -> Seq<u8> {
    Seq::new((4 * items.len()) as nat, |k: int| le32_byte(prefix_len(items, k / 4) as u32, k % 4))
}

proof fn lemma_word32_from_bytes(x: u32, bytes: Seq<u8>, at: int)
    requires
        0 <= at,
        at + 4 <= bytes.len(),
        forall|k: int| 0 <= k < 4 ==> #[trigger] bytes[at + k] == le32_byte(x, k),
    ensures
        le32_word(bytes, at) == x,
{
    assert(bytes[at + 0] == le32_byte(x, 0));
    assert(bytes[at + 1] == le32_byte(x, 1));
    assert(bytes[at + 2] == le32_byte(x, 2));
    assert(bytes[at + 3] == le32_byte(x, 3));
    assert((x >> 0u32) & 0xffu32 <= 0xffu32) by (bit_vector);
    assert((x >> 8u32) & 0xffu32 <= 0xffu32) by (bit_vector);
    assert((x >> 16u32) & 0xffu32 <= 0xffu32) by (bit_vector);
    assert((x >> 24u32) & 0xffu32 <= 0xffu32) by (bit_vector);
    let w0 = bytes[at] as u32;
    let w1 = bytes[at + 1] as u32;
    let w2 = bytes[at + 2] as u32;
    let w3 = bytes[at + 3] as u32;
    assert(w0 | w1 << 8u32 | w2 << 16u32 | w3 << 24u32 == x) by (bit_vector)
        requires
            w0 == (x >> 0u32) & 0xffu32,
            w1 == (x >> 8u32) & 0xffu32,
            w2 == (x >> 16u32) & 0xffu32,
            w3 == (x >> 24u32) & 0xffu32,
    ;
}

proof fn lemma_concat_split(items: Seq<Seq<u8>>, k: int)
    requires
        0 <= k <= items.len(),
    ensures
        concat(items) == concat(items.take(k)) + concat(items.skip(k)),
    decreases items.len(),
{
    if k == items.len() {
        assert(items.take(k) =~= items);
        assert(items.skip(k) =~= Seq::<Seq<u8>>::empty());
        assert(concat(items) + Seq::<u8>::empty() =~= concat(items));
    } else {
        let init = items.drop_last();
        lemma_concat_split(init, k);
        assert(init.take(k) =~= items.take(k));
        assert(items.skip(k).drop_last() =~= init.skip(k));
        assert(concat(items) =~= concat(items.take(k)) + concat(items.skip(k)));
    }
}

proof fn lemma_prefix_step(items: Seq<Seq<u8>>, i: int)
    requires
        0 <= i < items.len(),
    ensures
        concat(items.take(i + 1)) == concat(items.take(i)) + items[i],
        prefix_len(items, i + 1) == prefix_len(items, i) + items[i].len(),
        concat(items).subrange(prefix_len(items, i), prefix_len(items, i + 1)) == items[i],
        prefix_len(items, i + 1) <= concat(items).len(),
{
    assert(items.take(i + 1).drop_last() =~= items.take(i));
    lemma_concat_split(items, i + 1);
    assert(concat(items).subrange(prefix_len(items, i), prefix_len(items, i + 1)) =~= items[i]);
}

proof fn lemma_prefix_full(items: Seq<Seq<u8>>)
    ensures
        prefix_len(items, items.len() as int) == concat(items).len(),
{
    assert(items.take(items.len() as int) =~= items);
}

proof fn lemma_prefix_monotone(items: Seq<Seq<u8>>, i: int)
    requires
        0 <= i <= items.len(),
    ensures
        prefix_len(items, i) <= concat(items).len(),
    decreases items.len() - i,
{
    if i < items.len() {
        lemma_prefix_step(items, i);
        lemma_prefix_monotone(items, i + 1);
    } else {
        lemma_prefix_full(items);
    }
}

/// Encode a fixed vector of variable-size elements (each already encoded):
/// the offset table, then the elements.
pub fn encode_variable_composite(items: &Vec<Vec<u8>>) -> (r: Vec<u8>)
    requires
        concat(views(items@)).len() <= u32::MAX,
        4 * items@.len() + concat(views(items@)).len() <= usize::MAX,
    ensures
        r@ == offset_table(views(items@)) + concat(views(items@)),
{
    let ghost v = views(items@);
    let mut r: Vec<u8> = Vec::new();
    let mut pos: u32 = 0;
    let mut i: usize = 0;
    while i < items.len()
        invariant
            v == views(items@),
            i <= items.len(),
            concat(v).len() <= u32::MAX,
            pos == prefix_len(v, i as int),
            r@.len() == 4 * i,
            forall|k: int| 0 <= k < 4 * i ==> #[trigger] r@[k] == offset_table(v)[k],
        decreases items.len() - i,
    {
        proof {
            lemma_prefix_step(v, i as int);
            lemma_prefix_monotone(v, i as int + 1);
        }
        let ghost before = r@;
        r.push((pos & 0xff) as u8);
        r.push(((pos >> 8) & 0xff) as u8);
        r.push(((pos >> 16) & 0xff) as u8);
        r.push(((pos >> 24) & 0xff) as u8);
        assert forall|k: int| 0 <= k < 4 * (i + 1) implies #[trigger] r@[k] == offset_table(v)[k] by {
            if k >= 4 * i {
                assert(k / 4 == i as int);
                assert(pos >> 0u32 == pos) by (bit_vector);
            } else {
                assert(r@[k] == before[k]);
            }
        }
        pos = pos + items[i].len() as u32;
        i += 1;
    }
    assert(r@ =~= offset_table(v));
    let mut i: usize = 0;
    while i < items.len()
        invariant
            v == views(items@),
            i <= items.len(),
            4 * items@.len() + concat(v).len() <= usize::MAX,
            r@ == offset_table(v) + concat(v.take(i as int)),
        decreases items.len() - i,
    {
        proof {
            lemma_prefix_step(v, i as int);
            lemma_prefix_monotone(v, i as int + 1);
        }
        let item = &items[i];
        let ghost before = r@;
        let mut j: usize = 0;
        while j < item.len()
            invariant
                j <= item.len(),
                r@ == before + item@.take(j as int),
                before.len() + item@.len() <= usize::MAX,
            decreases item.len() - j,
        {
            r.push(item[j]);
            assert(r@ =~= before + item@.take(j + 1));
            j += 1;
        }
        assert(item@.take(item@.len() as int) =~= item@);
        assert(v[i as int] == item@);
        assert(r@ =~= offset_table(v) + concat(v.take(i + 1)));
        i += 1;
    }
    assert(v.take(items@.len() as int) =~= v);
    r
}

fn read_u32(value: &[u8], at: usize) -> (r: u32)
    requires
        at + 4 <= value.len(),
    ensures
        r == le32_word(value@, at as int),
{
    (value[at] as u32) | ((value[at + 1] as u32) << 8u32) | ((value[at + 2] as u32) << 16u32)
        | ((value[at + 3] as u32) << 24u32)
}

/// Under valid offsets every element ends inside the variable section.
proof fn lemma_ends_bounded(bytes: Seq<u8>, len: int, k: int)
    requires
        0 <= k < len,
        4 * len <= bytes.len(),
        offsets_ok(bytes, len),
    ensures
        var_end(bytes, len, k) <= bytes.len() - 4 * len,
    decreases len - k,
{
    if k + 1 < len {
        lemma_ends_bounded(bytes, len, k + 1);
        assert(var_offset(bytes, k + 1) <= var_end(bytes, len, k + 1));
    }
}

fn read_offsets(value: &[u8], len: usize) -> (offs: Vec<usize>)
    requires
        4 * len <= value.len(),
    ensures
        offs@.len() == len,
        forall|k: int| 0 <= k < len ==> #[trigger] offs@[k] == var_offset(value@, k),
{
    let mut offs: Vec<usize> = Vec::new();
    let mut i: usize = 0;
    while i < len
        invariant
            i <= len,
            4 * len <= value.len(),
            offs@.len() == i,
            forall|k: int| 0 <= k < i ==> #[trigger] offs@[k] == var_offset(value@, k),
        decreases len - i,
    {
        offs.push(read_u32(value, 4 * i) as usize);
        i += 1;
    }
    offs
}

fn check_offsets(value: &[u8], offs: &Vec<usize>, len: usize) -> (r: bool)
    requires
        len > 0,
        4 * len <= value.len(),
        offs@.len() == len,
        forall|k: int| 0 <= k < len ==> #[trigger] offs@[k] == var_offset(value@, k),
    ensures
        r == offsets_ok(value@, len as int),
{
    if offs[0] != 0 {
        return false;
    }
    let section = value.len() - 4 * len;
    let mut i: usize = 0;
    while i < len
        invariant
            i <= len,
            len > 0,
            offs@.len() == len,
            section == value.len() - 4 * len,
            var_offset(value@, 0) == 0,
            forall|k: int| 0 <= k < len ==> #[trigger] offs@[k] == var_offset(value@, k),
            forall|k: int| 0 <= k < i ==> #[trigger] var_offset(value@, k) <= var_end(value@, len as int, k),
        decreases len - i,
    {
        let end = if i + 1 < len { offs[i + 1] } else { section };
        if offs[i] > end {
            return false;
        }
        i += 1;
    }
    true
}

fn slice_elements(value: &[u8], offs: &Vec<usize>, len: usize) -> (out: Vec<Vec<u8>>)
    requires
        len > 0,
        4 * len <= value.len(),
        offs@.len() == len,
        forall|k: int| 0 <= k < len ==> #[trigger] offs@[k] == var_offset(value@, k),
        offsets_ok(value@, len as int),
    ensures
        views(out@) == Seq::new(len as nat, |k: int| value@.subrange(
            4 * len + var_offset(value@, k),
            4 * len + var_end(value@, len as int, k),
        )),
{
    let table = 4 * len;
    let section = value.len() - table;
    let mut out: Vec<Vec<u8>> = Vec::new();
    let mut i: usize = 0;
    while i < len
        invariant
            i <= len,
            offs@.len() == len,
            table == 4 * len,
            table <= value.len(),
            section == value.len() - table,
            offsets_ok(value@, len as int),
            forall|k: int| 0 <= k < len ==> #[trigger] offs@[k] == var_offset(value@, k),
            out@.len() == i,
            forall|k: int| 0 <= k < i ==> (#[trigger] out@[k])@ == value@.subrange(
                4 * len + var_offset(value@, k),
                4 * len + var_end(value@, len as int, k),
            ),
        decreases len - i,
    {
        proof {
            lemma_ends_bounded(value@, len as int, i as int);
            assert(var_offset(value@, i as int) <= var_end(value@, len as int, i as int));
        }
        let start = table + offs[i];
        let stop = table + if i + 1 < len { offs[i + 1] } else { section };
        let mut chunk: Vec<u8> = Vec::new();
        let mut j: usize = start;
        assert(chunk@ =~= value@.subrange(start as int, start as int));
        while j < stop
            invariant
                start <= j <= stop,
                stop <= value.len(),
                chunk@ == value@.subrange(start as int, j as int),
            decreases stop - j,
        {
            chunk.push(value[j]);
            assert(chunk@ =~= value@.subrange(start as int, j + 1));
            j += 1;
        }
        out.push(chunk);
        i += 1;
    }
    assert(views(out@) =~= Seq::new(len as nat, |k: int| value@.subrange(
        4 * len + var_offset(value@, k),
        4 * len + var_end(value@, len as int, k),
    )));
    out
}

/// Decode a fixed vector of `len` variable-size elements.
pub fn decode_variable_composite(value: &[u8], len: usize) -> (r: Result<Vec<Vec<u8>>, Error>)
    ensures
        match spec_decode_variable_composite(value@, len as int) {
            Ok(items) => r is Ok && views(r->Ok_0@) == items,
            Err(e) => r == Err::<Vec<Vec<u8>>, Error>(e),
        },
{
    if value.len() / 4 < len {
        return Err(Error::IncorrectSize);
    }
    if len == 0 {
        if value.len() == 0 {
            assert(views(Seq::<Vec<u8>>::empty()) =~= Seq::new(0, |k: int| value@.subrange(0, 0)));
            return Ok(Vec::new());
        }
        return Err(Error::InvalidLength);
    }
    let offs = read_offsets(value, len);
    if !check_offsets(value, &offs, len) {
        return Err(Error::InvalidLength);
    }
    Ok(slice_elements(value, &offs, len))
}

/// Decoding the encoding of variable-size elements at their count gives the
/// elements back.
pub proof fn lemma_variable_composite_round_trip(items: Seq<Seq<u8>>)
    requires
        concat(items).len() <= u32::MAX,
    ensures
        spec_decode_variable_composite(offset_table(items) + concat(items), items.len() as int) == Ok::<Seq<Seq<u8>>, Error>(items),
{
    let n = items.len() as int;
    let bytes = offset_table(items) + concat(items);
    assert forall|i: int| 0 <= i < n implies #[trigger] var_offset(bytes, i) == prefix_len(items, i) by {
        lemma_prefix_monotone(items, i);
        let x = prefix_len(items, i) as u32;
        assert forall|k: int| 0 <= k < 4 implies #[trigger] bytes[4 * i + k] == le32_byte(x, k) by {
            assert((4 * i + k) / 4 == i);
            assert((4 * i + k) % 4 == k);
        }
        lemma_word32_from_bytes(x, bytes, 4 * i);
    }
    assert forall|i: int| 0 <= i < n implies var_end(bytes, n, i) == prefix_len(items, i + 1) by {
        if i + 1 < n {
            assert(var_offset(bytes, i + 1) == prefix_len(items, i + 1));
        } else {
            lemma_prefix_full(items);
        }
    }
    assert forall|i: int| 0 <= i < n implies #[trigger] var_offset(bytes, i) <= var_end(bytes, n, i) by {
        lemma_prefix_step(items, i);
    }
    if n > 0 {
        assert(var_offset(bytes, 0) == prefix_len(items, 0));
        assert(items.take(0) =~= Seq::<Seq<u8>>::empty());
    } else {
        assert(concat(items) =~= Seq::<u8>::empty());
    }
    assert forall|i: int| 0 <= i < n implies bytes.subrange(4 * n + var_offset(bytes, i), 4 * n + var_end(bytes, n, i)) == items[i] by {
        lemma_prefix_step(items, i);
        assert(bytes.subrange(4 * n + prefix_len(items, i), 4 * n + prefix_len(items, i + 1)) =~= concat(items).subrange(
            prefix_len(items, i),
            prefix_len(items, i + 1),
        ));
    }
    assert(Seq::new(n as nat, |i: int| bytes.subrange(4 * n + var_offset(bytes, i), 4 * n + var_end(bytes, n, i))) =~= items);
}

/// `bytes` is the concatenation of the little-endian encodings of `xs`.
pub open spec fn encodes_words32(xs: Seq<u32>, bytes: Seq<u8>) -> bool {
    &&& bytes.len() == 4 * xs.len()
    &&& forall|i: int, k: int| 0 <= i < xs.len() && 0 <= k < 4 ==> #[trigger] bytes[4 * i + k] == le32_byte(xs[i], k)
}

/// What decoding `bytes` as `len` little-endian 32-bit words gives.
pub open spec fn spec_decode_words32(bytes: Seq<u8>, len: int) -> Result<Seq<u32>, Error> {
    if bytes.len() % 4 != 0 {
        Err(Error::IncorrectSize)
    } else if bytes.len() / 4 != len {
        Err(Error::InvalidLength)
    } else {
        Ok(Seq::new(len as nat, |i: int| le32_word(bytes, 4 * i)))
    }
}

/// Encode 32-bit words as concatenated little-endian bytes.
pub fn encode_u32_vector(xs: &[u32]) -> (r: Vec<u8>)
    requires
        4 * xs.len() <= usize::MAX,
    ensures
        encodes_words32(xs@, r@),
{
    let mut bytes: Vec<u8> = Vec::new();
    let mut i: usize = 0;
    while i < xs.len()
        invariant
            i <= xs.len(),
            bytes.len() == 4 * i,
            forall|t: int, k: int| 0 <= t < i && 0 <= k < 4 ==> #[trigger] bytes@[4 * t + k] == le32_byte(xs@[t], k),
        decreases xs.len() - i,
    {
        let x = xs[i];
        let ghost before = bytes@;
        bytes.push((x & 0xff) as u8);
        bytes.push(((x >> 8) & 0xff) as u8);
        bytes.push(((x >> 16) & 0xff) as u8);
        bytes.push(((x >> 24) & 0xff) as u8);
        assert forall|t: int, k: int| 0 <= t < i + 1 && 0 <= k < 4 implies #[trigger] bytes@[4 * t + k] == le32_byte(xs@[t], k) by {
            if t < i {
                assert(bytes@[4 * t + k] == before[4 * t + k]);
            } else {
                assert(t == i);
                assert(x >> 0u32 == x) by (bit_vector);
            }
        }
        i += 1;
    }
    bytes
}

/// Decode `len` little-endian 32-bit words.
pub fn decode_u32_vector(value: &[u8], len: usize) -> (r: Result<FixedVec<u32>, Error>)
    ensures
        match spec_decode_words32(value@, len as int) {
            Ok(xs) => r is Ok && r->Ok_0.items@ == xs,
            Err(e) => r == Err::<FixedVec<u32>, Error>(e),
        },
{
    if value.len() % 4 != 0 {
        return Err(Error::IncorrectSize);
    }
    if value.len() / 4 != len {
        return Err(Error::InvalidLength);
    }
    let mut ret: Vec<u32> = Vec::new();
    let mut i: usize = 0;
    while i < len
        invariant
            i <= len,
            value.len() == 4 * len,
            ret@.len() == i,
            forall|t: int| 0 <= t < i ==> #[trigger] ret@[t] == le32_word(value@, 4 * t),
        decreases len - i,
    {
        ret.push(read_u32(value, 4 * i));
        i += 1;
    }
    assert(ret@ =~= Seq::new(len as nat, |t: int| le32_word(value@, 4 * t)));
    Ok(FixedVec { items: ret })
}

/// Decoding the encoding of 32-bit words at their count gives the words back.
pub proof fn lemma_u32_vector_round_trip(xs: Seq<u32>, bytes: Seq<u8>)
    requires
        encodes_words32(xs, bytes),
    ensures
        spec_decode_words32(bytes, xs.len() as int) == Ok::<Seq<u32>, Error>(xs),
{
    assert forall|i: int| 0 <= i < xs.len() implies le32_word(bytes, 4 * i) == xs[i] by {
        assert forall|k: int| 0 <= k < 4 implies #[trigger] bytes[4 * i + k] == le32_byte(xs[i], k) by {
            assert(bytes[4 * i + k] == le32_byte(xs[i], k));
        }
        lemma_word32_from_bytes(xs[i], bytes, 4 * i);
    }
    assert(Seq::new(xs.len(), |i: int| le32_word(bytes, 4 * i)) =~= xs);
}

/// The encoding of a 32-bit word vector is unique, so encoding is deterministic.
pub proof fn lemma_u32_vector_encoding_unique(xs: Seq<u32>, a: Seq<u8>, b: Seq<u8>)
    requires
        encodes_words32(xs, a),
        encodes_words32(xs, b),
    ensures
        a == b,
{
    assert forall|j: int| 0 <= j < a.len() implies a[j] == b[j] by {
        let i = j / 4;
        let k = j % 4;
        assert(j == 4 * i + k);
        assert(a[4 * i + k] == le32_byte(xs[i], k));
        assert(b[4 * i + k] == le32_byte(xs[i], k));
    }
    assert(a =~= b);
}

/// Encode bytes: each byte stands for itself.
pub fn encode_u8_vector(xs: &[u8]) -> (r: Vec<u8>)
    ensures
        r@ == xs@,
{
    let mut r: Vec<u8> = Vec::new();
    let mut i: usize = 0;
    while i < xs.len()
        invariant
            i <= xs.len(),
            r@ == xs@.take(i as int),
        decreases xs.len() - i,
    {
        r.push(xs[i]);
        assert(r@ =~= xs@.take(i + 1));
        i += 1;
    }
    assert(xs@.take(xs@.len() as int) =~= xs@);
    r
}

/// What decoding `bytes` as `len` bytes gives.
pub open spec fn spec_decode_bytes(bytes: Seq<u8>, len: int) -> Result<Seq<u8>, Error> {
    if bytes.len() != len { Err(Error::InvalidLength) } else { Ok(bytes) }
}

/// Decode `len` bytes.
pub fn decode_u8_vector(value: &[u8], len: usize) -> (r: Result<FixedVec<u8>, Error>)
    ensures
        match spec_decode_bytes(value@, len as int) {
            Ok(xs) => r is Ok && r->Ok_0.items@ == xs,
            Err(e) => r == Err::<FixedVec<u8>, Error>(e),
        },
{
    if value.len() != len {
        return Err(Error::InvalidLength);
    }
    Ok(FixedVec { items: encode_u8_vector(value) })
}

/// Decoding the encoding of bytes at their count gives the bytes back.
pub proof fn lemma_u8_vector_round_trip(xs: Seq<u8>)
    ensures
        spec_decode_bytes(xs, xs.len() as int) == Ok::<Seq<u8>, Error>(xs),
{
}

} // verus!
