//! Per-tensor LLVQ payload.
//!
//! ```text
//! +0   u32 R                      row count
//! +4   u32 n_done                 packed-column count (multiple of 24)
//! +8   u32 B                      block count = n_done / 24
//! +12  u8  ms_used                max shell observed
//! +13  u8  K_beta                 beta codebook entries
//! +14  u8  K_offset               offset codebook entries
//! +15  u8  has_offset             0/1
//! +16  u16 idx_bits               bits for i_global per block
//! +18  u8  leftover_kind          0=none, 1=zero-elided, 2=bf16 verbatim
//! +19  u8[5] pad
//! +24  beta_codebook   R * K_beta * fp16
//!      offset_codebook R * K_offset * fp16 (only if has_offset)
//!      packed_stream   ceil(R * B * (idx_bits + 3 + has_offset*3) / 8) bytes
//!      leftover        R * leftover_cols * bf16 (only if leftover_kind == 2)
//! ```

use vstd::arithmetic::power2::pow2;
use vstd::prelude::*;

use crate::bytes::{
    read_u16_at, read_u32_at, u16_at, u16_bytes, u16_round_trip, u32_at, u32_bytes, u32_round_trip,
    zeros,
};
use crate::leech::error::{outcome_view, LeechError, LeechErrorView, Result};
use crate::text::{cat, cat3, cat4, cat5, decimal, to_decimal};

verus! {

pub const PAYLOAD_HEADER_SIZE: usize = 24;

pub const BETA_BITS: u8 = 3;

pub const OFFSET_BITS: u8 = 3;

/// Parsed payload header + slices into the payload buffer.
#[derive(Debug, Clone)]
pub struct LlvqPayload<'a> {
    pub r: u32,
    pub n_done: u32,
    pub b: u32,
    pub ms_used: u8,
    pub k_beta: u8,
    pub k_offset: u8,
    pub has_offset: bool,
    pub idx_bits: u16,
    pub leftover_kind: u8,
    /// Per-block bit-width = idx_bits + 3 + (3 if has_offset else 0).
    pub per_block_bits: u32,
    /// R * K_beta * 2 bytes (fp16 LE).
    pub beta_codebook: &'a [u8],
    /// R * K_offset * 2 bytes (fp16 LE); empty if !has_offset.
    pub offset_codebook: &'a [u8],
    /// MSB-first packed bit stream.
    pub packed_stream: &'a [u8],
    /// bf16 LE if leftover_kind == 2, else empty.
    pub leftover: &'a [u8],
}

/// An [`LlvqPayload`] with its slices as byte sequences.
pub struct LlvqPayloadView {
    pub r: u32,
    pub n_done: u32,
    pub b: u32,
    pub ms_used: u8,
    pub k_beta: u8,
    pub k_offset: u8,
    pub has_offset: bool,
    pub idx_bits: u16,
    pub leftover_kind: u8,
    pub per_block_bits: u32,
    pub beta_codebook: Seq<u8>,
    pub offset_codebook: Seq<u8>,
    pub packed_stream: Seq<u8>,
    pub leftover: Seq<u8>,
}

impl<'a> View for LlvqPayload<'a> {
    type V = LlvqPayloadView;

    open spec fn view(&self) -> LlvqPayloadView {
        LlvqPayloadView {
            r: self.r,
            n_done: self.n_done,
            b: self.b,
            ms_used: self.ms_used,
            k_beta: self.k_beta,
            k_offset: self.k_offset,
            has_offset: self.has_offset,
            idx_bits: self.idx_bits,
            leftover_kind: self.leftover_kind,
            per_block_bits: self.per_block_bits,
            beta_codebook: self.beta_codebook@,
            offset_codebook: self.offset_codebook@,
            packed_stream: self.packed_stream@,
            leftover: self.leftover@,
        }
    }
}

/// A payload is seen field by field, each under its own name.
pub proof fn payload_seen_by_field(x: LlvqPayload)
    ensures
        x@.r == x.r,
        x@.n_done == x.n_done,
        x@.b == x.b,
        x@.ms_used == x.ms_used,
        x@.k_beta == x.k_beta,
        x@.k_offset == x.k_offset,
        x@.has_offset == x.has_offset,
        x@.idx_bits == x.idx_bits,
        x@.leftover_kind == x.leftover_kind,
        x@.per_block_bits == x.per_block_bits,
        x@.beta_codebook == x.beta_codebook@,
        x@.offset_codebook == x.offset_codebook@,
        x@.packed_stream == x.packed_stream@,
        x@.leftover == x.leftover@,
{
}

/// The first thing wrong with the fields of a payload header, if any.
pub open spec fn header_fault(p: Seq<u8>) -> Option<Seq<char>> {
    let n_done = u32_at(p, 4);
    let b = u32_at(p, 8);
    let k_offset = p[14];
    let has_offset = p[15] != 0;
    let idx_bits = u16_at(p, 16);
    let leftover_kind = p[18];
    if idx_bits == 0 || idx_bits > 64 {
        Some("idx_bits out of range: "@ + decimal(idx_bits as nat))
    } else if leftover_kind > 2 {
        Some("leftover_kind out of range: "@ + decimal(leftover_kind as nat))
    } else if n_done != b * 24 {
        Some(
            "n_done "@ + decimal(n_done as nat) + " / B "@ + decimal(b as nat)
                + " mismatch (must satisfy n_done = B * 24)"@,
        )
    } else if p[13] == 0 {
        Some("k_beta must be > 0"@)
    } else if has_offset && k_offset == 0 {
        Some("has_offset=1 but k_offset=0"@)
    } else if !has_offset && k_offset != 0 {
        Some("has_offset=0 but k_offset="@ + decimal(k_offset as nat))
    } else {
        None
    }
}

/// Bits that one block takes in the packed stream.
pub open spec fn block_bits(p: Seq<u8>) -> int {
    u16_at(p, 16) + BETA_BITS + (if p[15] != 0 {
        OFFSET_BITS as int
    } else {
        0
    })
}

/// Bytes of the beta codebook.
pub open spec fn beta_size(p: Seq<u8>) -> int {
    u32_at(p, 0) * p[13] * 2
}

/// Bytes of the offset codebook.
pub open spec fn offset_size(p: Seq<u8>) -> int {
    if p[15] != 0 {
        u32_at(p, 0) * p[14] * 2
    } else {
        0
    }
}

/// Bytes of the packed stream: the bits of all blocks, rounded up.
pub open spec fn stream_size(p: Seq<u8>) -> int {
    (u32_at(p, 0) * u32_at(p, 8) * block_bits(p) + 7) / 8
}

/// What is wrong with a section of `n` bytes at `cur`, if anything.
pub open spec fn section_fault(p: Seq<u8>, cur: int, n: int, field: Seq<char>) -> Option<
    Seq<char>,
> {
    if cur + n > usize::MAX {
        Some("size overflow for "@ + field)
    } else if cur + n > p.len() {
        Some(
            "payload truncated reading "@ + field + ": need "@ + decimal(n as nat) + " at "@
                + decimal(cur as nat) + ", have "@ + decimal((p.len() - cur) as nat),
        )
    } else {
        None
    }
}

/// The first thing wrong with a payload, if any.
pub open spec fn payload_fault(p: Seq<u8>) -> Option<Seq<char>> {
    let beta_at = PAYLOAD_HEADER_SIZE as int;
    let offset_at = beta_at + beta_size(p);
    let stream_at = offset_at + offset_size(p);
    if p.len() < PAYLOAD_HEADER_SIZE {
        Some(
            "payload too short for header: "@ + decimal(p.len()) + " < "@ + decimal(
                PAYLOAD_HEADER_SIZE as nat,
            ),
        )
    } else if header_fault(p) is Some {
        header_fault(p)
    } else if section_fault(p, beta_at, beta_size(p), "beta_codebook"@) is Some {
        section_fault(p, beta_at, beta_size(p), "beta_codebook"@)
    } else if section_fault(p, offset_at, offset_size(p), "offset_codebook"@) is Some {
        section_fault(p, offset_at, offset_size(p), "offset_codebook"@)
    } else {
        section_fault(p, stream_at, stream_size(p), "packed_stream"@)
    }
}

/// The parsed form of a payload with nothing wrong with it.
pub open spec fn payload_of(p: Seq<u8>) -> LlvqPayloadView {
    let beta_at = PAYLOAD_HEADER_SIZE as int;
    let offset_at = beta_at + beta_size(p);
    let stream_at = offset_at + offset_size(p);
    let leftover_at = stream_at + stream_size(p);
    LlvqPayloadView {
        r: u32_at(p, 0),
        n_done: u32_at(p, 4),
        b: u32_at(p, 8),
        ms_used: p[12],
        k_beta: p[13],
        k_offset: p[14],
        has_offset: p[15] != 0,
        idx_bits: u16_at(p, 16),
        leftover_kind: p[18],
        per_block_bits: block_bits(p) as u32,
        beta_codebook: p.subrange(beta_at, offset_at),
        offset_codebook: p.subrange(offset_at, stream_at),
        packed_stream: p.subrange(stream_at, leftover_at),
        leftover: if p[18] == 2 {
            p.subrange(leftover_at, p.len() as int)
        } else {
            Seq::empty()
        },
    }
}

/// Whether the section sizes that a payload's header calls for can be computed
/// in a `usize`. Only sizes that are reached count: those of a payload that is
/// refused earlier do not matter.
pub open spec fn payload_sizes_fit(p: Seq<u8>) -> bool {
    p.len() >= PAYLOAD_HEADER_SIZE && header_fault(p) is None ==> {
        &&& beta_size(p) <= usize::MAX
        &&& PAYLOAD_HEADER_SIZE + beta_size(p) <= p.len() ==> {
            &&& offset_size(p) <= usize::MAX
            &&& PAYLOAD_HEADER_SIZE + beta_size(p) + offset_size(p) <= p.len()
                ==> u32_at(p, 0) * u32_at(p, 8) * block_bits(p) + 7 <= usize::MAX
        }
    }
}

/// Sizes that can be computed are computed: a payload whose codebook sizes and
/// stream bits are `usize`s fits.
pub proof fn countable_payload_fits(p: Seq<u8>, v: LlvqPayloadView)
    requires
        v == payload_of(p),
        2 * (v.r * v.k_beta) <= usize::MAX,
        2 * (v.r * v.k_offset) <= usize::MAX,
        v.r * v.b * (v.idx_bits + 6) + 7 <= usize::MAX,
    ensures
        payload_sizes_fit(p),
{
    let r = u32_at(p, 0);
    let blocks = u32_at(p, 0) * u32_at(p, 8);
    assert(blocks >= 0) by (nonlinear_arith)
        requires
            blocks == u32_at(p, 0) * u32_at(p, 8),
    ;
    assert(r * p[13] * 2 == 2 * (r * p[13]));
    assert(r * p[14] * 2 == 2 * (r * p[14]));
    assert(blocks * block_bits(p) <= blocks * (u16_at(p, 16) + 6)) by (nonlinear_arith)
        requires
            0 <= blocks,
            block_bits(p) <= u16_at(p, 16) + 6,
    ;
}

fn payload_error(name: &str, reason: String) -> (e: LeechError)
    ensures
        e@ == (LeechErrorView::BadPayloadHeader { name: name@, reason: reason@ }),
{
    LeechError::BadPayloadHeader { name: name.to_owned(), reason }
}

/// Cuts `n` bytes off at `cur` and moves `cur` behind them.
fn take<'a>(buf: &'a [u8], cur: &mut usize, n: usize, tensor_name: &str, field: &str) -> (r: Result<
    &'a [u8],
>)
    requires
        *old(cur) <= buf.len(),
    ensures
        match section_fault(buf@, *old(cur) as int, n as int, field@) {
            Some(reason) => r matches Err(e) && e@ == (LeechErrorView::BadPayloadHeader {
                name: tensor_name@,
                reason,
            }) && *final(cur) == *old(cur),
            None => r matches Ok(s) && s@ == buf@.subrange(*old(cur) as int, *old(cur) + n)
                && *final(cur) == *old(cur) + n,
        },
{
    let start: usize = *cur;
    let end: usize = match start.checked_add(n) {
        Some(end) => end,
        None => {
            return Err(payload_error(tensor_name, cat("size overflow for ", field)));
        },
    };
    if end > buf.len() {
        let head: String = cat3("payload truncated reading ", field, ": need ");
        let reason: String = cat4(
            cat3(head.as_str(), to_decimal(n as u64).as_str(), " at ").as_str(),
            to_decimal(start as u64).as_str(),
            ", have ",
            to_decimal((buf.len() - start) as u64).as_str(),
        );
        assert(reason@ =~= section_fault(buf@, start as int, n as int, field@)->0);
        return Err(payload_error(tensor_name, reason));
    }
    *cur = end;
    Ok(&buf[start..end])
}

impl<'a> LlvqPayload<'a> {
    /// Whether [`LlvqPayload::parse`] can compute every section size that the
    /// header calls for.
    pub fn sizes_fit(payload: &[u8]) -> (r: bool)
        ensures
            r == payload_sizes_fit(payload@),
    {
        if payload.len() < PAYLOAD_HEADER_SIZE {
            return true;
        }
        if let Some(_) = header_check(payload) {
            return true;
        }
        let r: u128 = read_u32_at(payload, 0) as u128;
        let b: u128 = read_u32_at(payload, 8) as u128;
        let has_offset: bool = payload[15] != 0;
        let max: u128 = usize::MAX as u128;
        let len: u128 = payload.len() as u128;
        let k_beta: u128 = payload[13] as u128;
        let k_offset: u128 = payload[14] as u128;
        assert(r * k_beta * 2 <= 0xffff_ffff * 255 * 2) by (nonlinear_arith)
            requires
                r <= 0xffff_ffff,
                k_beta <= 255,
        ;
        assert(r * k_offset * 2 <= 0xffff_ffff * 255 * 2) by (nonlinear_arith)
            requires
                r <= 0xffff_ffff,
                k_offset <= 255,
        ;
        let beta: u128 = r * k_beta * 2;
        if beta > max {
            return false;
        }
        if 24 + beta > len {
            return true;
        }
        let offset: u128 = if has_offset {
            r * k_offset * 2
        } else {
            0
        };
        if offset > max {
            return false;
        }
        if 24 + beta + offset > len {
            return true;
        }
        let bits: u128 = read_u16_at(payload, 16) as u128 + 3 + (if has_offset {
            3
        } else {
            0
        });
        assert(0 <= r * b <= 0xffff_ffff * 0xffff_ffff) by (nonlinear_arith)
            requires
                0 <= r <= 0xffff_ffff,
                0 <= b <= 0xffff_ffff,
        ;
        let blocks: u128 = r * b;
        assert(0 <= blocks * bits <= 0xffff_ffff * 0xffff_ffff * 0x1_0005) by (nonlinear_arith)
            requires
                0 <= blocks <= 0xffff_ffff * 0xffff_ffff,
                0 <= bits <= 0x1_0005,
        ;
        blocks * bits + 7 <= max
    }

    /// Splits a payload into its header fields and sections.
    pub fn parse(payload: &'a [u8], tensor_name: &str) -> (r: Result<Self>)
        requires
            payload_sizes_fit(payload@),
        ensures
            outcome_view(r) == match payload_fault(payload@) {
                Some(reason) => Err::<LlvqPayloadView, LeechErrorView>(
                    LeechErrorView::BadPayloadHeader { name: tensor_name@, reason },
                ),
                None => Ok(payload_of(payload@)),
            },
    {
        if payload.len() < PAYLOAD_HEADER_SIZE {
            return Err(
                payload_error(
                    tensor_name,
                    cat4(
                        "payload too short for header: ",
                        to_decimal(payload.len() as u64).as_str(),
                        " < ",
                        to_decimal(PAYLOAD_HEADER_SIZE as u64).as_str(),
                    ),
                ),
            );
        }
        if let Some(reason) = header_check(payload) {
            return Err(payload_error(tensor_name, reason));
        }
        let r: u32 = read_u32_at(payload, 0);
        let n_done: u32 = read_u32_at(payload, 4);
        let b: u32 = read_u32_at(payload, 8);
        let ms_used: u8 = payload[12];
        let k_beta: u8 = payload[13];
        let k_offset: u8 = payload[14];
        let has_offset: bool = payload[15] != 0;
        let idx_bits: u16 = read_u16_at(payload, 16);
        let leftover_kind: u8 = payload[18];
        let per_block_bits: u32 = idx_bits as u32 + BETA_BITS as u32 + (if has_offset {
            OFFSET_BITS as u32
        } else {
            0
        });

        let mut cur: usize = PAYLOAD_HEADER_SIZE;
        assert(0 <= r * k_beta <= r * k_beta * 2) by (nonlinear_arith)
            requires
                0 <= r,
                0 <= k_beta,
        ;
        let beta_size: usize = r as usize * k_beta as usize * 2;
        let beta_codebook: &'a [u8] = match take(
            payload,
            &mut cur,
            beta_size,
            tensor_name,
            "beta_codebook",
        ) {
            Ok(s) => s,
            Err(e) => {
                return Err(e);
            },
        };

        let offset_codebook: &'a [u8] = if has_offset {
            assert(0 <= r * k_offset <= r * k_offset * 2) by (nonlinear_arith)
                requires
                    0 <= r,
                    0 <= k_offset,
            ;
            let off_size: usize = r as usize * k_offset as usize * 2;
            match take(payload, &mut cur, off_size, tensor_name, "offset_codebook") {
                Ok(s) => s,
                Err(e) => {
                    return Err(e);
                },
            }
        } else {
            &payload[cur..cur]
        };

        assert(0 <= r * b <= r * b * per_block_bits) by (nonlinear_arith)
            requires
                0 <= r,
                0 <= b,
                1 <= per_block_bits,
        ;
        let n_blocks: usize = r as usize * b as usize;
        let total_bits: usize = n_blocks * per_block_bits as usize;
        let stream_bytes: usize = (total_bits + 7) / 8;
        let packed_stream: &'a [u8] = match take(
            payload,
            &mut cur,
            stream_bytes,
            tensor_name,
            "packed_stream",
        ) {
            Ok(s) => s,
            Err(e) => {
                return Err(e);
            },
        };

        let leftover: &'a [u8] = if leftover_kind == 2 {
            &payload[cur..payload.len()]
        } else {
            &payload[cur..cur]
        };
        assert(leftover@ =~= payload_of(payload@).leftover);
        assert(offset_codebook@ =~= payload_of(payload@).offset_codebook);

        Ok(
            LlvqPayload {
                r,
                n_done,
                b,
                ms_used,
                k_beta,
                k_offset,
                has_offset,
                idx_bits,
                leftover_kind,
                per_block_bits,
                beta_codebook,
                offset_codebook,
                packed_stream,
                leftover,
            },
        )
    }

    /// The beta codebook's binary16 bit patterns (length = R * K_beta),
    /// row-major.
    pub fn beta_codebook_f16(&self) -> (r: Vec<u16>)
        ensures
            r@ == half_words(self.beta_codebook@),
            r@.len() == self.beta_codebook@.len() / 2,
            forall|i: int|
                0 <= i < r@.len() ==> self.beta_codebook@.subrange(2 * i, 2 * i + 2) == u16_bytes(
                    #[trigger] r@[i],
                ),
    {
        proof {
            lemma_half_words(self.beta_codebook@);
        }
        slice_le_f16(self.beta_codebook)
    }

    /// The offset codebook's binary16 bit patterns (empty if !has_offset),
    /// row-major.
    pub fn offset_codebook_f16(&self) -> (r: Vec<u16>)
        ensures
            r@ == half_words(self.offset_codebook@),
            r@.len() == self.offset_codebook@.len() / 2,
            forall|i: int|
                0 <= i < r@.len() ==> self.offset_codebook@.subrange(2 * i, 2 * i + 2) == u16_bytes(
                    #[trigger] r@[i],
                ),
    {
        proof {
            lemma_half_words(self.offset_codebook@);
        }
        slice_le_f16(self.offset_codebook)
    }
}

/// The 16-bit words that a byte sequence holds, little-endian; an odd last
/// byte is left over.
pub open spec fn half_words(bytes: Seq<u8>) -> Seq<u16> {
    Seq::new(bytes.len() / 2, |i: int| u16_at(bytes, 2 * i))
}

proof fn lemma_half_words(bytes: Seq<u8>)
    ensures
        half_words(bytes).len() == bytes.len() / 2,
        forall|i: int|
            0 <= i < bytes.len() / 2 ==> bytes.subrange(2 * i, 2 * i + 2) == u16_bytes(
                #[trigger] half_words(bytes)[i],
            ),
{
    assert forall|i: int| 0 <= i < bytes.len() / 2 implies bytes.subrange(2 * i, 2 * i + 2)
        == u16_bytes(#[trigger] half_words(bytes)[i]) by {
        u16_round_trip(bytes, 2 * i, half_words(bytes)[i]);
    }
}

/// Codebooks come back: bytes in which words were written little-endian, one
/// after the other, with at most an odd byte behind them, hold these words.
pub proof fn written_words_come_back(bytes: Seq<u8>, words: Seq<u16>)
    requires
        2 * words.len() <= bytes.len() <= 2 * words.len() + 1,
        forall|i: int|
            0 <= i < words.len() ==> bytes.subrange(2 * i, 2 * i + 2) == u16_bytes(
                #[trigger] words[i],
            ),
    ensures
        half_words(bytes) == words,
{
    assert forall|i: int| 0 <= i < words.len() implies half_words(bytes)[i] == #[trigger] words[i] by {
        u16_round_trip(bytes, 2 * i, words[i]);
    }
    assert(half_words(bytes) =~= words);
}

/// Codebooks are read word by word: those of joined bytes are the words of the
/// first part, which has no odd byte, followed by the words of the second.
pub proof fn half_words_join(a: Seq<u8>, b: Seq<u8>)
    requires
        a.len() % 2 == 0,
    ensures
        half_words(a + b) == half_words(a) + half_words(b),
{
    assert(half_words(a + b) =~= half_words(a) + half_words(b));
}

fn slice_le_f16(bytes: &[u8]) -> (out: Vec<u16>)
    ensures
        out@ == half_words(bytes@),
{
    let n: usize = bytes.len() / 2;
    let mut out: Vec<u16> = Vec::with_capacity(n);
    let mut i: usize = 0;
    while i < n
        invariant
            i <= n,
            n == bytes.len() / 2,
            out@ == Seq::new(i as nat, |k: int| u16_at(bytes@, 2 * k)),
        decreases n - i,
    {
        let bits: u16 = read_u16_at(bytes, i * 2);
        out.push(bits);
        i = i + 1;
    }
    out
}

/// A parsed payload is its header followed by its sections with nothing in
/// between: joined in order they are the payload again, up to the bytes behind
/// the packed stream, which are the leftover region when the header says so.
pub proof fn payload_sections_rebuild(p: Seq<u8>)
    requires
        payload_fault(p) is None,
    ensures
        ({
            let v = payload_of(p);
            let body = p.subrange(0, PAYLOAD_HEADER_SIZE as int) + v.beta_codebook
                + v.offset_codebook + v.packed_stream;
            &&& body == p.subrange(0, body.len() as int)
            &&& v.leftover_kind == 2 ==> body + v.leftover == p
            &&& v.leftover_kind != 2 ==> v.leftover.len() == 0
        }),
{
    let v = payload_of(p);
    lemma_sizes_nonnegative(p);
    let body = p.subrange(0, PAYLOAD_HEADER_SIZE as int) + v.beta_codebook + v.offset_codebook
        + v.packed_stream;
    assert(body =~= p.subrange(0, body.len() as int));
    if v.leftover_kind == 2 {
        assert(body + v.leftover =~= p);
    }
}

/// A payload's header is put together again from the fields that it is parsed
/// to, but for the byte that is the offset flag and the pad.
pub proof fn payload_header_rebuilds(p: Seq<u8>)
    requires
        payload_fault(p) is None,
    ensures
        ({
            let v = payload_of(p);
            &&& p.subrange(0, 15) == u32_bytes(v.r) + u32_bytes(v.n_done) + u32_bytes(v.b) + seq![
                v.ms_used,
                v.k_beta,
                v.k_offset,
            ]
            &&& v.has_offset <==> p[15] != 0
            &&& p.subrange(16, 19) == u16_bytes(v.idx_bits) + seq![v.leftover_kind]
        }),
{
    let v = payload_of(p);
    u32_round_trip(p, 0, v.r);
    u32_round_trip(p, 4, v.n_done);
    u32_round_trip(p, 8, v.b);
    u16_round_trip(p, 16, v.idx_bits);
    assert(p.subrange(0, 15) =~= p.subrange(0, 4) + p.subrange(4, 8) + p.subrange(8, 12) + seq![
        p[12],
        p[13],
        p[14],
    ]);
    assert(p.subrange(16, 19) =~= p.subrange(16, 18) + seq![p[18]]);
}

/// A payload is accepted exactly when it has a header whose fields are in range
/// and agree, and all the bytes of the codebooks and the stream that the fields
/// call for.
pub proof fn payload_accepted(p: Seq<u8>, v: LlvqPayloadView)
    requires
        p.len() <= usize::MAX,
        v == payload_of(p),
    ensures
        payload_fault(p) is None <==> {
            &&& p.len() >= 24
            &&& 1 <= v.idx_bits <= 64
            &&& v.leftover_kind <= 2
            &&& v.n_done == 24 * v.b
            &&& v.k_beta > 0
            &&& v.has_offset <==> v.k_offset > 0
            &&& 24 + 2 * (v.r * v.k_beta) + 2 * (v.r * v.k_offset) + (v.r * v.b * (v.idx_bits + (
            if v.has_offset {
                6int
            } else {
                3
            })) + 7) / 8 <= p.len()
        },
{
    lemma_sizes_nonnegative(p);
    let r = u32_at(p, 0);
    assert(r * p[13] * 2 == 2 * (r * p[13]));
    assert(r * p[14] * 2 == 2 * (r * p[14]));
    if p[14] == 0 {
        assert(r * p[14] == 0) by (nonlinear_arith)
            requires
                p[14] == 0,
        ;
    }
}

/// A parsed payload's sections have the sizes that its header fields call for.
pub proof fn payload_section_lengths(p: Seq<u8>)
    requires
        payload_fault(p) is None,
    ensures
        ({
            let v = payload_of(p);
            &&& v.n_done == v.b * 24
            &&& v.per_block_bits == v.idx_bits + 3 + (if v.has_offset {
                3int
            } else {
                0
            })
            &&& v.beta_codebook.len() == v.r * v.k_beta * 2
            &&& half_words(v.beta_codebook).len() == v.r * v.k_beta
            &&& v.offset_codebook.len() == v.r * v.k_offset * 2
            &&& v.has_offset <==> v.k_offset != 0
            &&& v.packed_stream.len() == (v.r * v.b * v.per_block_bits + 7) / 8
        }),
{
    lemma_sizes_nonnegative(p);
    let r = u32_at(p, 0);
    assert(r * 0 * 2 == 0);
}

proof fn lemma_sizes_nonnegative(p: Seq<u8>)
    ensures
        beta_size(p) >= 0,
        offset_size(p) >= 0,
        stream_size(p) >= 0,
{
    let r = u32_at(p, 0);
    let b = u32_at(p, 8);
    let bits = block_bits(p);
    assert(r * p[13] * 2 >= 0) by (nonlinear_arith);
    assert(r * p[14] * 2 >= 0) by (nonlinear_arith);
    assert(r * b * bits >= 0) by (nonlinear_arith)
        requires
            bits >= 0,
    ;
}

/// Whether a payload can be written: its fields are in range and agree with
/// each other, and its sections have the sizes that they call for.
pub open spec fn payload_consistent(v: LlvqPayloadView) -> bool {
    &&& 1 <= v.idx_bits <= 64
    &&& v.leftover_kind <= 2
    &&& v.n_done == v.b * 24
    &&& v.k_beta != 0
    &&& v.has_offset <==> v.k_offset != 0
    &&& v.per_block_bits == v.idx_bits + 3 + (if v.has_offset {
        3int
    } else {
        0
    })
    &&& v.beta_codebook.len() == v.r * v.k_beta * 2
    &&& v.offset_codebook.len() == v.r * v.k_offset * 2
    &&& v.packed_stream.len() == (v.r * v.b * v.per_block_bits + 7) / 8
    &&& v.leftover_kind != 2 ==> v.leftover.len() == 0
}

/// The header of a payload.
pub open spec fn payload_header_bytes(v: LlvqPayloadView) -> Seq<u8> {
    u32_bytes(v.r) + u32_bytes(v.n_done) + u32_bytes(v.b) + seq![
        v.ms_used,
        v.k_beta,
        v.k_offset,
        if v.has_offset {
            1u8
        } else {
            0u8
        },
    ] + u16_bytes(v.idx_bits) + seq![v.leftover_kind] + zeros(5)
}

/// The bytes of a payload: its header, then its sections.
pub open spec fn payload_bytes_of(v: LlvqPayloadView) -> Seq<u8> {
    payload_header_bytes(v) + v.beta_codebook + v.offset_codebook + v.packed_stream + v.leftover
}

#[verifier::rlimit(30)]
proof fn lemma_header_fields(v: LlvqPayloadView)
    ensures
        ({
            let head = payload_header_bytes(v);
            &&& head.len() == PAYLOAD_HEADER_SIZE
            &&& u32_at(head, 0) == v.r
            &&& u32_at(head, 4) == v.n_done
            &&& u32_at(head, 8) == v.b
            &&& head[12] == v.ms_used
            &&& head[13] == v.k_beta
            &&& head[14] == v.k_offset
            &&& (head[15] != 0) == v.has_offset
            &&& u16_at(head, 16) == v.idx_bits
            &&& head[18] == v.leftover_kind
        }),
{
    let head = payload_header_bytes(v);
    assert(head.len() == 24);
    assert(head.subrange(0, 4) =~= u32_bytes(v.r));
    assert(head.subrange(4, 8) =~= u32_bytes(v.n_done));
    assert(head.subrange(8, 12) =~= u32_bytes(v.b));
    assert(head.subrange(16, 18) =~= u16_bytes(v.idx_bits));
    u32_round_trip(head, 0, v.r);
    u32_round_trip(head, 4, v.n_done);
    u32_round_trip(head, 8, v.b);
    u16_round_trip(head, 16, v.idx_bits);
}

/// A payload comes back from its bytes.
#[verifier::rlimit(30)]
pub proof fn payload_comes_back(v: LlvqPayloadView)
    requires
        payload_consistent(v),
        payload_bytes_of(v).len() <= usize::MAX,
    ensures
        payload_fault(payload_bytes_of(v)) is None,
        payload_of(payload_bytes_of(v)) == v,
{
    let p = payload_bytes_of(v);
    let head = payload_header_bytes(v);
    lemma_header_fields(v);
    assert forall|k: int| 0 <= k < 24 implies #[trigger] p[k] == head[k] by {}
    assert(u32_at(p, 0) == v.r);
    assert(u32_at(p, 4) == v.n_done);
    assert(u32_at(p, 8) == v.b);
    assert(u16_at(p, 16) == v.idx_bits);
    let beta_at = 24int;
    let offset_at = beta_at + v.beta_codebook.len();
    let stream_at = offset_at + v.offset_codebook.len();
    let leftover_at = stream_at + v.packed_stream.len();
    let r = v.r;
    assert(r * 0 * 2 == 0);
    assert(beta_size(p) == v.beta_codebook.len());
    assert(offset_size(p) == v.offset_codebook.len());
    assert(stream_size(p) == v.packed_stream.len());
    assert(p.subrange(beta_at, offset_at) =~= v.beta_codebook);
    assert(p.subrange(offset_at, stream_at) =~= v.offset_codebook);
    assert(p.subrange(stream_at, leftover_at) =~= v.packed_stream);
    assert(p.subrange(leftover_at, p.len() as int) =~= v.leftover);
    assert(v.leftover_kind != 2 ==> v.leftover =~= Seq::empty());
}

/// Bits that number `n_total` things: the least `w >= 1` with
/// `n_total <= 2^w`.
pub open spec fn index_width(n_total: u64, w: int) -> bool {
    &&& 1 <= w <= 64
    &&& n_total <= pow2(w as nat)
    &&& w > 1 ==> n_total > pow2((w - 1) as nat)
}

proof fn lemma_leading_zeros(i: u64)
    requires
        i > 0,
    ensures
        0 <= vstd::std_specs::bits::u64_leading_zeros(i) < 64,
        pow2((63 - vstd::std_specs::bits::u64_leading_zeros(i)) as nat) <= i,
        i < pow2((64 - vstd::std_specs::bits::u64_leading_zeros(i)) as nat),
    decreases i,
{
    reveal(vstd::std_specs::bits::u64_leading_zeros);
    vstd::std_specs::bits::axiom_u64_leading_zeros(i);
    let z = vstd::std_specs::bits::u64_leading_zeros(i);
    vstd::arithmetic::power2::lemma2_to64();
    if i > 1 {
        lemma_leading_zeros(i / 2);
        vstd::arithmetic::power2::lemma_pow2_unfold((63 - z) as nat);
        vstd::arithmetic::power2::lemma_pow2_unfold((64 - z) as nat);
    } else {
        assert(vstd::std_specs::bits::u64_leading_zeros(0) == 64);
    }
}

/// At most one width numbers `n_total` things.
pub proof fn index_width_unique(n_total: u64, v: int, w: int)
    requires
        index_width(n_total, v),
        index_width(n_total, w),
    ensures
        v == w,
{
    if v < w {
        if v < w - 1 {
            vstd::arithmetic::power2::lemma_pow2_strictly_increases(v as nat, (w - 1) as nat);
        }
    } else if w < v {
        if w < v - 1 {
            vstd::arithmetic::power2::lemma_pow2_strictly_increases(w as nat, (v - 1) as nat);
        }
    }
}

proof fn lemma_index_width_least(n_total: u64, w: int)
    requires
        index_width(n_total, w),
    ensures
        forall|v: nat| 1 <= v < w ==> #[trigger] pow2(v) < n_total,
{
    assert forall|v: nat| 1 <= v < w implies #[trigger] pow2(v) < n_total by {
        if v < w - 1 {
            vstd::arithmetic::power2::lemma_pow2_strictly_increases(v, (w - 1) as nat);
        }
    }
}

/// Bits for an index below `n_total`: `ceil(log2(n_total))`, and at least 1.
/// Decoders should trust the value stored in the payload header.
pub fn idx_bits_for_total(n_total: u64) -> (w: u16)
    ensures
        index_width(n_total, w as int),
        w >= 1,
        n_total <= pow2(w as nat),
        forall|v: nat| 1 <= v < w ==> #[trigger] pow2(v) < n_total,
{
    proof {
        vstd::arithmetic::power2::lemma2_to64();
    }
    if n_total <= 1 {
        1
    } else {
        proof {
            lemma_leading_zeros((n_total - 1) as u64);
        }
        let w: u16 = (64 - (n_total - 1).leading_zeros()) as u16;
        proof {
            lemma_index_width_least(n_total, w as int);
        }
        w
    }
}

/// Checks the fields of a payload header.
fn header_check(payload: &[u8]) -> (r: Option<String>)
    requires
        payload@.len() >= PAYLOAD_HEADER_SIZE,
    ensures
        match header_fault(payload@) {
            Some(reason) => r matches Some(s) && s@ == reason,
            None => r is None,
        },
{
    let n_done: u32 = read_u32_at(payload, 4);
    let b: u32 = read_u32_at(payload, 8);
    let k_beta: u8 = payload[13];
    let k_offset: u8 = payload[14];
    let has_offset: bool = payload[15] != 0;
    let idx_bits: u16 = read_u16_at(payload, 16);
    let leftover_kind: u8 = payload[18];

    if idx_bits == 0 || idx_bits > 64 {
        return Some(cat("idx_bits out of range: ", to_decimal(idx_bits as u64).as_str()));
    }
    if leftover_kind > 2 {
        return Some(cat("leftover_kind out of range: ", to_decimal(leftover_kind as u64).as_str()));
    }
    assert((n_done % 24 != 0 || n_done / 24 != b) == (n_done != b * 24));
    if n_done % 24 != 0 || (n_done / 24) != b {
        return Some(
            cat5(
                "n_done ",
                to_decimal(n_done as u64).as_str(),
                " / B ",
                to_decimal(b as u64).as_str(),
                " mismatch (must satisfy n_done = B * 24)",
            ),
        );
    }
    if k_beta == 0 {
        return Some("k_beta must be > 0".to_owned());
    }
    if has_offset && k_offset == 0 {
        return Some("has_offset=1 but k_offset=0".to_owned());
    }
    if !has_offset && k_offset != 0 {
        return Some(cat("has_offset=0 but k_offset=", to_decimal(k_offset as u64).as_str()));
    }
    None
}

} // verus!
