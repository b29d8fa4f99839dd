//! 13-bit bucket unpacker.
//!
//! Each bucket is a 13-bit value `(parity:1, h:6, f:6)` packed LSB-first into a
//! contiguous byte stream. The packer pads the stream by 1 trailing byte so the
//! 3-byte read span at the end stays inside it.
//!
//! Sentinel buckets (0xFFFF, marking non-Leech blocks) are stored out-of-band
//! as a `u32` index list. [`patch_sentinels`] restores them after unpacking;
//! the packed stream itself holds zeros at those positions.

use vstd::arithmetic::power2::pow2;
use vstd::prelude::*;

use crate::bytes::{read_u32_at, u32_at, u32_bytes, u32_round_trip};
use crate::leech_q24::container::SENTINEL_BUCKET;
use crate::leech_q24::error::{outcome, LeechQ24Error, LeechQ24ErrorView, Result};
use crate::text::{cat3, decimal, to_decimal};

verus! {

pub const BUCKET_BITS: usize = 13;

pub const BUCKET_MASK: u16 = 0x1FFF;

/// Bytes that `n_blocks` buckets take, including the safety byte.
pub open spec fn packed_len(n_blocks: int) -> int {
    (n_blocks * BUCKET_BITS + 7) / 8 + 1
}

/// Bytes needed to hold `n_blocks` 13-bit buckets, including the safety byte.
pub fn packed_buckets_byte_count(n_blocks: usize) -> (r: usize)
    requires
        n_blocks * BUCKET_BITS + 7 <= usize::MAX,
    ensures
        r == packed_len(n_blocks as int),
{
    (n_blocks * BUCKET_BITS + 7) / 8 + 1
}

/// Bit `p` of a byte stream, least significant bit of each byte first.
pub open spec fn stream_bit(packed: Seq<u8>, p: int) -> bool {
    (packed[p / 8] >> (p % 8) as u8) & 1 == 1
}

/// Bit `k` of a bucket.
pub open spec fn bucket_bit(bucket: u16, k: int) -> bool {
    (bucket >> k as u16) & 1 == 1
}

/// `v` is bucket `i` of a stream: the 13 bits from bit `13 * i` on, the first
/// of them least significant.
pub open spec fn is_bucket(packed: Seq<u8>, i: int, v: u16) -> bool {
    &&& v < 0x2000
    &&& forall|k: int|
        0 <= k < BUCKET_BITS ==> bucket_bit(v, k) == #[trigger] stream_bit(
            packed,
            i * BUCKET_BITS + k,
        )
}

/// A bucket has only one value.
pub proof fn bucket_unique(packed: Seq<u8>, i: int, v: u16, w: u16)
    requires
        is_bucket(packed, i, v),
        is_bucket(packed, i, w),
    ensures
        v == w,
{
    assert forall|k: int| 0 <= k < 13 implies #[trigger] bucket_bit(v, k) == bucket_bit(w, k) by {
        assert(bucket_bit(v, k) == stream_bit(packed, i * BUCKET_BITS + k));
    }
    lemma_equal_by_bits(v, w);
}

proof fn lemma_equal_by_bits(v: u16, w: u16)
    requires
        v < 0x2000,
        w < 0x2000,
        forall|k: int| 0 <= k < 13 ==> #[trigger] bucket_bit(v, k) == bucket_bit(w, k),
    ensures
        v == w,
{
    assert(bucket_bit(v, 0) == bucket_bit(w, 0));
    assert(bucket_bit(v, 1) == bucket_bit(w, 1));
    assert(bucket_bit(v, 2) == bucket_bit(w, 2));
    assert(bucket_bit(v, 3) == bucket_bit(w, 3));
    assert(bucket_bit(v, 4) == bucket_bit(w, 4));
    assert(bucket_bit(v, 5) == bucket_bit(w, 5));
    assert(bucket_bit(v, 6) == bucket_bit(w, 6));
    assert(bucket_bit(v, 7) == bucket_bit(w, 7));
    assert(bucket_bit(v, 8) == bucket_bit(w, 8));
    assert(bucket_bit(v, 9) == bucket_bit(w, 9));
    assert(bucket_bit(v, 10) == bucket_bit(w, 10));
    assert(bucket_bit(v, 11) == bucket_bit(w, 11));
    assert(bucket_bit(v, 12) == bucket_bit(w, 12));
    assert(v == w) by (bit_vector)
        requires
            v < 0x2000,
            w < 0x2000,
            (v >> 0u16) & 1 == 1 <==> (w >> 0u16) & 1 == 1,
            (v >> 1u16) & 1 == 1 <==> (w >> 1u16) & 1 == 1,
            (v >> 2u16) & 1 == 1 <==> (w >> 2u16) & 1 == 1,
            (v >> 3u16) & 1 == 1 <==> (w >> 3u16) & 1 == 1,
            (v >> 4u16) & 1 == 1 <==> (w >> 4u16) & 1 == 1,
            (v >> 5u16) & 1 == 1 <==> (w >> 5u16) & 1 == 1,
            (v >> 6u16) & 1 == 1 <==> (w >> 6u16) & 1 == 1,
            (v >> 7u16) & 1 == 1 <==> (w >> 7u16) & 1 == 1,
            (v >> 8u16) & 1 == 1 <==> (w >> 8u16) & 1 == 1,
            (v >> 9u16) & 1 == 1 <==> (w >> 9u16) & 1 == 1,
            (v >> 10u16) & 1 == 1 <==> (w >> 10u16) & 1 == 1,
            (v >> 11u16) & 1 == 1 <==> (w >> 11u16) & 1 == 1,
            (v >> 12u16) & 1 == 1 <==> (w >> 12u16) & 1 == 1,
    ;
}

/// The 13 bits from bit `bo` of three bytes on.
spec fn span_bits(b0: u8, b1: u8, b2: u8, bo: u32) -> u16 {
    ((((b0 as u32) | ((b1 as u32) << 8) | ((b2 as u32) << 16)) >> bo) & 0x1FFF) as u16
}

proof fn lemma_span_bits(b0: u8, b1: u8, b2: u8, bo: u32)
    requires
        bo < 8,
    ensures
        ({
            let v = span_bits(b0, b1, b2, bo);
            &&& v < 0x2000
            &&& forall|k: int|
                0 <= k < 13 ==> #[trigger] bucket_bit(v, k) == (if bo + k < 8 {
                    (b0 >> (bo + k) as u8) & 1 == 1
                } else if bo + k < 16 {
                    (b1 >> (bo + k - 8) as u8) & 1 == 1
                } else {
                    (b2 >> (bo + k - 16) as u8) & 1 == 1
                })
        }),
{
    let span: u32 = (b0 as u32) | ((b1 as u32) << 8) | ((b2 as u32) << 16);
    let v: u16 = span_bits(b0, b1, b2, bo);
    assert(v < 0x2000) by (bit_vector)
        requires
            v == ((span >> bo) & 0x1FFF) as u16,
    ;
    assert forall|k: int| 0 <= k < 13 implies #[trigger] bucket_bit(v, k) == (if bo + k < 8 {
        (b0 >> (bo + k) as u8) & 1 == 1
    } else if bo + k < 16 {
        (b1 >> (bo + k - 8) as u8) & 1 == 1
    } else {
        (b2 >> (bo + k - 16) as u8) & 1 == 1
    }) by {
        let j: u16 = k as u16;
        let o: u8 = bo as u8;
        let q: u8 = k as u8;
        assert(((v >> j) & 1 == 1) == (if o + q < 8 {
            (b0 >> ((o + q) as u8)) & 1 == 1
        } else if o + q < 16 {
            (b1 >> ((o + q - 8) as u8)) & 1 == 1
        } else {
            (b2 >> ((o + q - 16) as u8)) & 1 == 1
        })) by (bit_vector)
            requires
                v == ((span >> bo) & 0x1FFF) as u16,
                span == (b0 as u32) | ((b1 as u32) << 8) | ((b2 as u32) << 16),
                o < 8,
                q < 13,
                bo == o as u32,
                j == q as u16,
        ;
    }
}

proof fn lemma_span_value(b0: u8, b1: u8, b2: u8, bo: u32)
    requires
        bo < 8,
    ensures
        span_bits(b0, b1, b2, bo) == (b0 + 0x100 * b1 + 0x1_0000 * b2) / (pow2(bo as nat) as int)
            % 0x2000,
{
    let span: u32 = (b0 as u32) | ((b1 as u32) << 8) | ((b2 as u32) << 16);
    assert(span == b0 + 0x100 * b1 + 0x1_0000 * b2) by (bit_vector)
        requires
            span == (b0 as u32) | ((b1 as u32) << 8) | ((b2 as u32) << 16),
    ;
    vstd::bits::lemma_u32_shr_is_div(span, bo);
    let rest: u32 = span >> bo;
    assert((rest & 0x1FFF) as u16 == rest % 0x2000) by (bit_vector);
}

/// The bucket that three bytes of a stream hold.
proof fn lemma_span_is_bucket(packed: Seq<u8>, i: int)
    requires
        0 <= i,
        i * BUCKET_BITS / 8 + 2 < packed.len(),
    ensures
        ({
            let at = i * BUCKET_BITS / 8;
            is_bucket(
                packed,
                i,
                span_bits(
                    packed[at],
                    packed[at + 1],
                    packed[at + 2],
                    (i * BUCKET_BITS % 8) as u32,
                ),
            )
        }),
{
    let bit_pos = i * BUCKET_BITS;
    let bi = bit_pos / 8;
    let bo = bit_pos % 8;
    let v = span_bits(packed[bi], packed[bi + 1], packed[bi + 2], bo as u32);
    lemma_span_bits(packed[bi], packed[bi + 1], packed[bi + 2], bo as u32);
    assert forall|k: int| 0 <= k < BUCKET_BITS implies bucket_bit(v, k) == #[trigger] stream_bit(
        packed,
        i * BUCKET_BITS + k,
    ) by {
        let p = bit_pos + k;
        if bo + k < 8 {
            assert(p / 8 == bi && p % 8 == bo + k);
        } else if bo + k < 16 {
            assert(p / 8 == bi + 1 && p % 8 == bo + k - 8);
        } else {
            assert(p / 8 == bi + 2 && p % 8 == bo + k - 16);
        }
    }
}

/// Buckets are the digits of the stream: bucket `i` is what is left of the
/// little-endian number in the three bytes that it starts in once the bits
/// before it are taken off at the bottom and all above 13 at the top.
pub proof fn bucket_is_a_digit_of_the_stream(packed: Seq<u8>, i: int, v: u16)
    requires
        0 <= i,
        13 * i / 8 + 2 < packed.len(),
    ensures
        ({
            let at = 13 * i / 8;
            is_bucket(packed, i, v) <==> v == (packed[at] + 0x100 * packed[at + 1] + 0x1_0000
                * packed[at + 2]) / (pow2((13 * i % 8) as nat) as int) % 0x2000
        }),
{
    let at = i * BUCKET_BITS / 8;
    let bo = (i * BUCKET_BITS % 8) as u32;
    assert(i * BUCKET_BITS == 13 * i);
    let w = span_bits(packed[at], packed[at + 1], packed[at + 2], bo);
    lemma_span_is_bucket(packed, i);
    lemma_span_value(packed[at], packed[at + 1], packed[at + 2], bo);
    if is_bucket(packed, i, v) {
        bucket_unique(packed, i, v, w);
    }
}

/// A stream's bytes are the fewest that hold its buckets, and one more; the
/// three bytes that a bucket is read from are then all there.
pub proof fn packed_len_is_least(n: int, i: int)
    requires
        0 <= n,
    ensures
        8 * (packed_len(n) - 1) >= 13 * n,
        8 * (packed_len(n) - 2) < 13 * n,
        0 <= i < n ==> 13 * i / 8 + 2 < packed_len(n),
{
    assert(n * BUCKET_BITS == 13 * n);
}

/// The 13 bits from bit `bo` of three bytes on.
fn combine(b0: u8, b1: u8, b2: u8, bo: u32) -> (v: u16)
    requires
        bo < 8,
    ensures
        v == span_bits(b0, b1, b2, bo),
        v < 0x2000,
        forall|k: int|
            0 <= k < 13 ==> #[trigger] bucket_bit(v, k) == (if bo + k < 8 {
                (b0 >> (bo + k) as u8) & 1 == 1
            } else if bo + k < 16 {
                (b1 >> (bo + k - 8) as u8) & 1 == 1
            } else {
                (b2 >> (bo + k - 16) as u8) & 1 == 1
            }),
{
    proof {
        lemma_span_bits(b0, b1, b2, bo);
    }
    let span: u32 = (b0 as u32) | ((b1 as u32) << 8) | ((b2 as u32) << 16);
    ((span >> bo) & BUCKET_MASK as u32) as u16
}

/// Reads bucket `i`, whose three bytes are there.
fn read_bucket(packed: &[u8], i: usize) -> (v: u16)
    requires
        i * BUCKET_BITS <= usize::MAX,
        i * BUCKET_BITS / 8 + 2 < packed.len(),
    ensures
        is_bucket(packed@, i as int, v),
{
    let bit_pos: usize = i * BUCKET_BITS;
    let bi: usize = bit_pos / 8;
    let bo: usize = bit_pos % 8;
    proof {
        lemma_span_is_bucket(packed@, i as int);
    }
    combine(packed[bi], packed[bi + 1], packed[bi + 2], bo as u32)
}

/// Unpacks a single bucket. `packed` must include the trailing safety byte.
pub fn unpack_bucket(packed: &[u8], i: usize) -> (r: Result<u16>)
    requires
        i * BUCKET_BITS <= usize::MAX,
    ensures
        match r {
            Ok(v) => i * BUCKET_BITS / 8 + 2 < packed@.len() && is_bucket(packed@, i as int, v),
            Err(e) => i * BUCKET_BITS / 8 + 2 >= packed@.len() && e@ == (
            LeechQ24ErrorView::Truncated {
                offset: (i * BUCKET_BITS / 8) as u64,
                needed: 3,
                len: packed@.len() as u64,
            }),
        },
{
    let bit_pos: usize = i * BUCKET_BITS;
    let bi: usize = bit_pos / 8;
    if bi + 2 >= packed.len() {
        return Err(
            LeechQ24Error::Truncated { offset: bi as u64, needed: 3, len: packed.len() as u64 },
        );
    }
    Ok(read_bucket(packed, i))
}

/// Unpacks all `n` buckets into `out`. `out.len()` must be `n`.
pub fn unpack_buckets_13bit(packed: &[u8], n: usize, out: &mut [u16]) -> (r: Result<()>)
    requires
        old(out)@.len() == n ==> n * BUCKET_BITS + 7 <= usize::MAX,
    ensures
        final(out)@.len() == old(out)@.len(),
        match r {
            Ok(_) => {
                &&& old(out)@.len() == n
                &&& packed@.len() >= packed_len(n as int)
                &&& forall|i: int|
                    0 <= i < n ==> is_bucket(packed@, i, #[trigger] final(out)@[i])
            },
            Err(e) => {
                &&& final(out)@ == old(out)@
                &&& old(out)@.len() != n || packed@.len() < packed_len(n as int)
                &&& e@ == if old(out)@.len() != n {
                    LeechQ24ErrorView::BucketUnpackOob { idx: old(out)@.len() as usize, n }
                } else {
                    LeechQ24ErrorView::Truncated {
                        offset: 0,
                        needed: packed_len(n as int) as usize,
                        len: packed@.len() as u64,
                    }
                }
            },
        },
{
    if out.len() != n {
        return Err(LeechQ24Error::BucketUnpackOob { idx: out.len(), n });
    }
    let required: usize = packed_buckets_byte_count(n);
    if packed.len() < required {
        return Err(
            LeechQ24Error::Truncated { offset: 0, needed: required, len: packed.len() as u64 },
        );
    }
    let mut i: usize = 0;
    while i < n
        invariant
            i <= n,
            out@.len() == n,
            n * BUCKET_BITS + 7 <= usize::MAX,
            packed@.len() >= packed_len(n as int),
            forall|k: int| 0 <= k < i ==> is_bucket(packed@, k, #[trigger] out@[k]),
        decreases n - i,
    {
        let v: u16 = read_bucket(packed, i);
        out[i] = v;
        i = i + 1;
    }
    Ok(())
}

/// A byte with the given bits, least significant first.
pub open spec fn byte_of_bits(bits: spec_fn(int) -> bool) -> u8 {
    (if bits(0) { 1u8 } else { 0 }) | (if bits(1) { 2u8 } else { 0 }) | (if bits(2) {
        4u8
    } else {
        0
    }) | (if bits(3) { 8u8 } else { 0 }) | (if bits(4) { 16u8 } else { 0 }) | (if bits(5) {
        32u8
    } else {
        0
    }) | (if bits(6) { 64u8 } else { 0 }) | (if bits(7) { 128u8 } else { 0 })
}

/// Bit `p` of the stream that holds the low 13 bits of each value, one value
/// after the other; zero behind the last value.
pub open spec fn packed_bit(values: Seq<u16>, p: int) -> bool {
    p < values.len() * BUCKET_BITS && bucket_bit(values[p / 13], p % 13)
}

/// The stream that holds these values as buckets, with its safety byte.
pub open spec fn pack_buckets(values: Seq<u16>) -> Seq<u8> {
    Seq::new(
        packed_len(values.len() as int) as nat,
        |j: int| byte_of_bits(|b: int| packed_bit(values, 8 * j + b)),
    )
}

proof fn lemma_bits_of_byte(bits: spec_fn(int) -> bool, b: int)
    requires
        0 <= b < 8,
    ensures
        ((byte_of_bits(bits) >> b as u8) & 1 == 1) == bits(b),
{
    let b0: u8 = if bits(0) { 1 } else { 0 };
    let b1: u8 = if bits(1) { 2 } else { 0 };
    let b2: u8 = if bits(2) { 4 } else { 0 };
    let b3: u8 = if bits(3) { 8 } else { 0 };
    let b4: u8 = if bits(4) { 16 } else { 0 };
    let b5: u8 = if bits(5) { 32 } else { 0 };
    let b6: u8 = if bits(6) { 64 } else { 0 };
    let b7: u8 = if bits(7) { 128 } else { 0 };
    let v: u8 = byte_of_bits(bits);
    assert({
        &&& ((v >> 0u8) & 1 == 1) == (b0 == 1)
        &&& ((v >> 1u8) & 1 == 1) == (b1 == 2)
        &&& ((v >> 2u8) & 1 == 1) == (b2 == 4)
        &&& ((v >> 3u8) & 1 == 1) == (b3 == 8)
        &&& ((v >> 4u8) & 1 == 1) == (b4 == 16)
        &&& ((v >> 5u8) & 1 == 1) == (b5 == 32)
        &&& ((v >> 6u8) & 1 == 1) == (b6 == 64)
        &&& ((v >> 7u8) & 1 == 1) == (b7 == 128)
    }) by (bit_vector)
        requires
            v == b0 | b1 | b2 | b3 | b4 | b5 | b6 | b7,
            b0 == 0 || b0 == 1,
            b1 == 0 || b1 == 2,
            b2 == 0 || b2 == 4,
            b3 == 0 || b3 == 8,
            b4 == 0 || b4 == 16,
            b5 == 0 || b5 == 32,
            b6 == 0 || b6 == 64,
            b7 == 0 || b7 == 128,
    ;
}

/// Packed values come back: every bucket of a packed stream is the low 13 bits
/// of the value that was packed there, and nothing else.
#[verifier::rlimit(30)]
pub proof fn packed_values_come_back(values: Seq<u16>, i: int, v: u16)
    requires
        0 <= i < values.len(),
    ensures
        pack_buckets(values).len() == packed_len(values.len() as int),
        is_bucket(pack_buckets(values), i, v) <==> v == values[i] & BUCKET_MASK,
{
    let packed = pack_buckets(values);
    let low: u16 = values[i] & BUCKET_MASK;
    let value = values[i];
    assert(low < 0x2000) by (bit_vector)
        requires
            low == value & 0x1FFF,
    ;
    assert forall|k: int| 0 <= k < BUCKET_BITS implies bucket_bit(low, k) == #[trigger] stream_bit(
        packed,
        i * BUCKET_BITS + k,
    ) by {
        let p = i * 13 + k;
        let j = p / 8;
        let bits = |b: int| packed_bit(values, 8 * j + b);
        assert(p / 13 == i && p % 13 == k);
        assert(p < values.len() * 13);
        assert(packed[j] == byte_of_bits(bits));
        lemma_bits_of_byte(bits, p % 8);
        assert(8 * j + p % 8 == p);
        let q: u16 = k as u16;
        assert(((low >> q) & 1 == 1) == ((value >> q) & 1 == 1)) by (bit_vector)
            requires
                low == value & 0x1FFF,
                q < 13,
        ;
    }
    assert(is_bucket(packed, i, low));
    if is_bucket(packed, i, v) {
        bucket_unique(packed, i, v, low);
    }
}

/// Index number `k` of a list of raw little-endian `u32`s.
pub open spec fn sentinel_at(indices: Seq<u8>, k: int) -> int {
    u32_at(indices, 4 * k) as int
}

/// The first index at or after place `from` that lies outside `n` buckets, or
/// `count` when there is none.
pub open spec fn first_stray(indices: Seq<u8>, n: int, from: int, count: int) -> int
    decreases count - from,
{
    if from >= count || sentinel_at(indices, from) >= n {
        from
    } else {
        first_stray(indices, n, from + 1, count)
    }
}

/// `buckets` with the sentinel at each of the first `count` indices.
pub open spec fn patched(buckets: Seq<u16>, indices: Seq<u8>, count: int) -> Seq<u16>
    decreases count,
{
    if count <= 0 {
        buckets
    } else {
        patched(buckets, indices, count - 1).update(
            sentinel_at(indices, count - 1),
            SENTINEL_BUCKET,
        )
    }
}

/// Indices are listed one after the other, four bytes each, little-endian.
pub proof fn index_is_where_it_was_written(indices: Seq<u8>, k: int, v: u32)
    requires
        0 <= k,
        4 * k + 4 <= indices.len(),
        indices.subrange(4 * k, 4 * k + 4) == u32_bytes(v),
    ensures
        sentinel_at(indices, k) == v,
{
    u32_round_trip(indices, 4 * k, v);
}

/// The stray index of a list is the first one that lies outside the buckets:
/// all before it lie inside, and there is none exactly when all do.
pub proof fn stray_is_first_outside(indices: Seq<u8>, n: int, count: int)
    requires
        0 <= count,
    ensures
        ({
            let stray = first_stray(indices, n, 0, count);
            &&& 0 <= stray <= count
            &&& forall|k: int| 0 <= k < stray ==> #[trigger] sentinel_at(indices, k) < n
            &&& stray < count ==> sentinel_at(indices, stray) >= n
        }),
{
    lemma_first_stray(indices, n, 0, count);
}

proof fn lemma_first_stray(indices: Seq<u8>, n: int, from: int, count: int)
    requires
        0 <= from <= count,
    ensures
        ({
            let stray = first_stray(indices, n, from, count);
            &&& from <= stray <= count
            &&& forall|k: int| from <= k < stray ==> #[trigger] sentinel_at(indices, k) < n
            &&& stray < count ==> sentinel_at(indices, stray) >= n
        }),
    decreases count - from,
{
    if from < count && sentinel_at(indices, from) < n {
        lemma_first_stray(indices, n, from + 1, count);
    }
}

/// Restores the sentinel value `0xFFFF` at every index given by
/// `sentinel_indices_bytes` (raw little-endian `u32` bytes from the file). The
/// indices before the first stray one are patched even when it fails.
pub fn patch_sentinels(buckets: &mut [u16], sentinel_indices_bytes: &[u8]) -> (r: Result<()>)
    ensures
        ({
            let bytes = sentinel_indices_bytes@;
            let count = bytes.len() as int / 4;
            let stray = first_stray(bytes, old(buckets)@.len() as int, 0, count);
            if bytes.len() % 4 != 0 {
                &&& final(buckets)@ == old(buckets)@
                &&& outcome(r) == Err::<(), LeechQ24ErrorView>(
                    LeechQ24ErrorView::BadCodebookHeader {
                        offset: 0,
                        reason: "sentinel_indices byte length "@ + decimal(bytes.len())
                            + " not multiple of 4"@,
                    },
                )
            } else {
                &&& final(buckets)@ == patched(old(buckets)@, bytes, stray)
                &&& outcome(r) == if stray < count {
                    Err::<(), LeechQ24ErrorView>(
                        LeechQ24ErrorView::BucketUnpackOob {
                            idx: sentinel_at(bytes, stray) as usize,
                            n: old(buckets)@.len() as usize,
                        },
                    )
                } else {
                    Ok(())
                }
            }
        }),
{
    if sentinel_indices_bytes.len() % 4 != 0 {
        return Err(
            LeechQ24Error::BadCodebookHeader {
                offset: 0,
                reason: cat3(
                    "sentinel_indices byte length ",
                    to_decimal(sentinel_indices_bytes.len() as u64).as_str(),
                    " not multiple of 4",
                ),
            },
        );
    }
    let n_sentinels: usize = sentinel_indices_bytes.len() / 4;
    let mut k: usize = 0;
    while k < n_sentinels
        invariant
            k <= n_sentinels,
            sentinel_indices_bytes.len() == 4 * n_sentinels,
            buckets@.len() == old(buckets)@.len(),
            buckets@ == patched(old(buckets)@, sentinel_indices_bytes@, k as int),
            first_stray(
                sentinel_indices_bytes@,
                old(buckets)@.len() as int,
                0,
                n_sentinels as int,
            ) == first_stray(
                sentinel_indices_bytes@,
                old(buckets)@.len() as int,
                k as int,
                n_sentinels as int,
            ),
        decreases n_sentinels - k,
    {
        let idx: usize = read_u32_at(sentinel_indices_bytes, k * 4) as usize;
        if idx >= buckets.len() {
            return Err(LeechQ24Error::BucketUnpackOob { idx, n: buckets.len() });
        }
        buckets[idx] = SENTINEL_BUCKET;
        k = k + 1;
    }
    Ok(())
}

/// Patching writes the sentinel at the listed indices and touches nothing else.
pub proof fn patched_exactly_at_indices(buckets: Seq<u16>, indices: Seq<u8>, count: int, j: int)
    requires
        0 <= count,
        0 <= j < buckets.len(),
        forall|k: int| 0 <= k < count ==> #[trigger] sentinel_at(indices, k) < buckets.len(),
    ensures
        patched(buckets, indices, count).len() == buckets.len(),
        (exists|k: int| 0 <= k < count && #[trigger] sentinel_at(indices, k) == j) ==> patched(
            buckets,
            indices,
            count,
        )[j] == SENTINEL_BUCKET,
        !(exists|k: int| 0 <= k < count && #[trigger] sentinel_at(indices, k) == j) ==> patched(
            buckets,
            indices,
            count,
        )[j] == buckets[j],
    decreases count,
{
    if count > 0 {
        patched_exactly_at_indices(buckets, indices, count - 1, j);
        if sentinel_at(indices, count - 1) != j {
            if exists|k: int| 0 <= k < count && #[trigger] sentinel_at(indices, k) == j {
                let k = choose|k: int| 0 <= k < count && #[trigger] sentinel_at(indices, k) == j;
                assert(k < count - 1);
            }
        }
    }
}

/// Whether a list of indices names exactly the places of the sentinel.
pub open spec fn lists_sentinels(buckets: Seq<u16>, indices: Seq<u8>) -> bool {
    let count = indices.len() as int / 4;
    &&& indices.len() % 4 == 0
    &&& forall|k: int|
        0 <= k < count ==> {
            &&& #[trigger] sentinel_at(indices, k) < buckets.len()
            &&& buckets[sentinel_at(indices, k)] == SENTINEL_BUCKET
        }
    &&& forall|j: int|
        0 <= j < buckets.len() && #[trigger] buckets[j] == SENTINEL_BUCKET ==> exists|k: int|
            0 <= k < count && #[trigger] sentinel_at(indices, k) == j
}

/// Buckets as they are stored: the sentinels are zeros.
pub open spec fn without_sentinels(buckets: Seq<u16>) -> Seq<u16> {
    Seq::new(
        buckets.len(),
        |j: int|
            if buckets[j] == SENTINEL_BUCKET {
                0u16
            } else {
                buckets[j]
            },
    )
}

proof fn lemma_no_stray(indices: Seq<u8>, n: int, from: int, count: int)
    requires
        0 <= from <= count,
        forall|k: int| 0 <= k < count ==> #[trigger] sentinel_at(indices, k) < n,
    ensures
        first_stray(indices, n, from, count) == count,
    decreases count - from,
{
    if from < count {
        assert(sentinel_at(indices, from) < n);
        lemma_no_stray(indices, n, from + 1, count);
    }
}

/// Sentinels come back: buckets whose sentinels were stored as zeros and listed
/// by index are, once unpacked and patched, the buckets that were stored; and
/// patching finds no stray index.
#[verifier::rlimit(30)]
pub proof fn sentinels_come_back(buckets: Seq<u16>, indices: Seq<u8>, unpacked: Seq<u16>)
    requires
        forall|j: int|
            0 <= j < buckets.len() ==> #[trigger] buckets[j] < 0x2000 || buckets[j]
                == SENTINEL_BUCKET,
        lists_sentinels(buckets, indices),
        unpacked.len() == buckets.len(),
        forall|j: int|
            0 <= j < buckets.len() ==> is_bucket(
                pack_buckets(without_sentinels(buckets)),
                j,
                #[trigger] unpacked[j],
            ),
    ensures
        ({
            let count = indices.len() as int / 4;
            &&& first_stray(indices, buckets.len() as int, 0, count) == count
            &&& patched(unpacked, indices, count) == buckets
        }),
{
    let count = indices.len() as int / 4;
    let stored = without_sentinels(buckets);
    lemma_no_stray(indices, buckets.len() as int, 0, count);
    assert(patched(unpacked, indices, count).len() == buckets.len()) by {
        lemma_patched_len(unpacked, indices, count);
    }
    assert forall|j: int| 0 <= j < buckets.len() implies patched(unpacked, indices, count)[j]
        == #[trigger] buckets[j] by {
        packed_values_come_back(stored, j, unpacked[j]);
        let value = stored[j];
        assert(value & 0x1FFF == value) by (bit_vector)
            requires
                value < 0x2000,
        ;
        patched_exactly_at_indices(unpacked, indices, count, j);
    }
    assert(patched(unpacked, indices, count) =~= buckets);
}

proof fn lemma_patched_len(buckets: Seq<u16>, indices: Seq<u8>, count: int)
    requires
        forall|k: int| 0 <= k < count ==> #[trigger] sentinel_at(indices, k) < buckets.len(),
    ensures
        patched(buckets, indices, count).len() == buckets.len(),
    decreases count,
{
    if count > 0 {
        lemma_patched_len(buckets, indices, count - 1);
        assert(sentinel_at(indices, count - 1) < buckets.len());
    }
}

/// Extracts the `(parity, h, f)` triple from one 13-bit bucket.
pub fn split_bucket(bucket: u16) -> (r: (u8, u8, u8))
    ensures
        r.0 == bucket as int / 0x1000 % 2,
        r.1 == bucket as int / 0x40 % 0x40,
        r.2 == bucket as int % 0x40,
        bucket < 0x2000 ==> 0x1000 * r.0 + 0x40 * r.1 + r.2 == bucket,
{
    assert((bucket >> 12) & 1 == bucket / 0x1000 % 2) by (bit_vector);
    assert((bucket >> 6) & 0x3F == bucket / 0x40 % 0x40) by (bit_vector);
    assert(bucket & 0x3F == bucket % 0x40) by (bit_vector);
    let parity: u8 = ((bucket >> 12) & 1) as u8;
    let h: u8 = ((bucket >> 6) & 0x3F) as u8;
    let f: u8 = (bucket & 0x3F) as u8;
    (parity, h, f)
}

/// A bucket is put together again from its three parts.
pub proof fn split_bucket_recombines(bucket: u16)
    requires
        bucket < 0x2000,
    ensures
        (bucket as int / 0x1000 % 2) * 0x1000 + (bucket as int / 0x40 % 0x40) * 0x40
            + bucket as int % 0x40 == bucket,
{
}

} // verus!
