//! Fixed-size records of a LEECHQ24 file.
//!
//! ```text
//! Bytes 0..8       MAGIC ("LEECHQ24")
//! Bytes 8..136     HEADER struct (128 B little-endian)
//! Bytes 136..256   header pad to HEADER_SIZE
//! manifest_json    UTF-8 JSON at `manifest_offset`
//! codebook_blob    per-symbol-set FSE decode tables at `codebook_offset`
//! TOC              `toc_entry_count x 448 B` entries at `toc_offset`
//! PAYLOAD          per-tensor blobs at `payload_offset` (64-byte aligned blocks)
//! Last 4 bytes     CRC32 over `[0, file_size - 4)`
//! ```
//!
//! Version 4 splits each tile of a tensor into `num_streams` parallel
//! substreams. Version 3 files have one stream per tile: their entries read as
//! version 4 entries with one substream, whose arrays are the tile arrays.

use vstd::arithmetic::power2::pow2;
use vstd::prelude::*;

use crate::bytes::{
    lemma_cut_twice, lemma_list_len, name_bytes, name_field, name_round_trip, read_u16_at,
    read_u32_at, read_u64_at, shape_field, shape_round_trip, shape_slots, trim_name, u16_at,
    u16_bytes, u16_round_trip, u32_at, u32_bytes, u32_list_bytes, u32_list_round_trip,
    u32_round_trip, u64_at, u64_bytes, u64_list_bytes, u64_list_round_trip, u64_round_trip, zeros,
};
use crate::leech_q24::error::{
    outcome, outcome_view, LeechQ24Error, LeechQ24ErrorView, Result,
};
use crate::text::{cat, cat3, cat4, cat5, decimal, decode_name, to_decimal, utf8_error};

verus! {

/// `LEECHQ24`
pub const MAGIC: [u8; 8] = [0x4C, 0x45, 0x45, 0x43, 0x48, 0x51, 0x32, 0x34];

pub const FORMAT_VERSION: u32 = 4;

/// Older version that is still read.
pub const FORMAT_VERSION_V3_COMPAT: u32 = 3;

pub const HEADER_SIZE: usize = 256;

pub const HEADER_STRUCT_SIZE: usize = 128;

pub const FIXED_PREFIX_SIZE: usize = 8 + HEADER_STRUCT_SIZE;

pub const TOC_ENTRY_SIZE: usize = 448;

/// Bytes of a TOC entry that every version uses.
pub const TOC_STRUCT_SIZE: usize = 428;

/// Bytes of a TOC entry that version 4 uses.
pub const TOC_STRUCT_SIZE_V4: usize = 444;

pub const TENSOR_NAME_BYTES: usize = 200;

pub const SHAPE_MAX_DIMS: usize = 8;

pub const MAX_STREAMS: u32 = 32;

pub const ALIGN: u64 = 64;

pub const SENTINEL_BUCKET: u16 = 0xFFFF;

/// Tensor role tag (TOC byte +200).
#[derive(Debug, Clone, Copy, PartialEq, Eq, Structural)]
pub enum Role {
    /// Forney-Q24 + 4-codebook (parity, pat) tANS.
    LlvqTans,
    Fp8Passthrough,
    Bf16Passthrough,
    Fp16Overlay,
}

/// The role that a tag byte stands for.
pub open spec fn role_of(v: u8) -> Option<Role> {
    if v == 0 {
        Some(Role::LlvqTans)
    } else if v == 1 {
        Some(Role::Fp8Passthrough)
    } else if v == 2 {
        Some(Role::Bf16Passthrough)
    } else if v == 3 {
        Some(Role::Fp16Overlay)
    } else {
        None
    }
}

impl Role {
    /// The tag byte of a role.
    pub open spec fn tag(self) -> u8 {
        match self {
            Role::LlvqTans => 0,
            Role::Fp8Passthrough => 1,
            Role::Bf16Passthrough => 2,
            Role::Fp16Overlay => 3,
        }
    }

    /// The variant's name.
    pub open spec fn name_text(self) -> Seq<char> {
        match self {
            Role::LlvqTans => "LlvqTans"@,
            Role::Fp8Passthrough => "Fp8Passthrough"@,
            Role::Bf16Passthrough => "Bf16Passthrough"@,
            Role::Fp16Overlay => "Fp16Overlay"@,
        }
    }

    /// Reads a tag byte.
    pub fn from_u8(v: u8) -> (r: Result<Self>)
        ensures
            outcome(r) == match role_of(v) {
                Some(role) => Ok::<Role, LeechQ24ErrorView>(role),
                None => Err(
                    LeechQ24ErrorView::BadTocEntry {
                        idx: 0,
                        reason: "unknown role "@ + decimal(v as nat),
                    },
                ),
            },
    {
        match v {
            0 => Ok(Role::LlvqTans),
            1 => Ok(Role::Fp8Passthrough),
            2 => Ok(Role::Bf16Passthrough),
            3 => Ok(Role::Fp16Overlay),
            other => Err(
                LeechQ24Error::BadTocEntry {
                    idx: 0,
                    reason: cat("unknown role ", to_decimal(other as u64).as_str()),
                },
            ),
        }
    }

    /// The tag byte.
    pub fn to_u8(self) -> (r: u8)
        ensures
            r == self.tag(),
    {
        match self {
            Role::LlvqTans => 0,
            Role::Fp8Passthrough => 1,
            Role::Bf16Passthrough => 2,
            Role::Fp16Overlay => 3,
        }
    }

    /// The variant's name.
    pub fn name(self) -> (r: &'static str)
        ensures
            r@ == self.name_text(),
    {
        match self {
            Role::LlvqTans => "LlvqTans",
            Role::Fp8Passthrough => "Fp8Passthrough",
            Role::Bf16Passthrough => "Bf16Passthrough",
            Role::Fp16Overlay => "Fp16Overlay",
        }
    }
}

/// Dtype tag (TOC byte +201).
#[derive(Debug, Clone, Copy, PartialEq, Eq, Structural)]
pub enum DtypeTag {
    Bf16,
    Fp8E4m3,
    Fp16,
    Fp32,
    Int8,
    Packed,
    Uint8,
}

/// The dtype that a tag byte stands for.
pub open spec fn dtype_of(v: u8) -> Option<DtypeTag> {
    if v == 0 {
        Some(DtypeTag::Bf16)
    } else if v == 1 {
        Some(DtypeTag::Fp8E4m3)
    } else if v == 2 {
        Some(DtypeTag::Fp16)
    } else if v == 3 {
        Some(DtypeTag::Fp32)
    } else if v == 4 {
        Some(DtypeTag::Int8)
    } else if v == 5 {
        Some(DtypeTag::Packed)
    } else if v == 6 {
        Some(DtypeTag::Uint8)
    } else {
        None
    }
}

impl DtypeTag {
    /// The tag byte of a dtype.
    pub open spec fn tag(self) -> u8 {
        match self {
            DtypeTag::Bf16 => 0,
            DtypeTag::Fp8E4m3 => 1,
            DtypeTag::Fp16 => 2,
            DtypeTag::Fp32 => 3,
            DtypeTag::Int8 => 4,
            DtypeTag::Packed => 5,
            DtypeTag::Uint8 => 6,
        }
    }

    /// The variant's name.
    pub open spec fn name_text(self) -> Seq<char> {
        match self {
            DtypeTag::Bf16 => "Bf16"@,
            DtypeTag::Fp8E4m3 => "Fp8E4m3"@,
            DtypeTag::Fp16 => "Fp16"@,
            DtypeTag::Fp32 => "Fp32"@,
            DtypeTag::Int8 => "Int8"@,
            DtypeTag::Packed => "Packed"@,
            DtypeTag::Uint8 => "Uint8"@,
        }
    }

    /// Reads a tag byte.
    pub fn from_u8(v: u8) -> (r: Result<Self>)
        ensures
            outcome(r) == match dtype_of(v) {
                Some(dtype) => Ok::<DtypeTag, LeechQ24ErrorView>(dtype),
                None => Err(
                    LeechQ24ErrorView::BadTocEntry {
                        idx: 0,
                        reason: "unknown dtype_tag "@ + decimal(v as nat),
                    },
                ),
            },
    {
        match v {
            0 => Ok(DtypeTag::Bf16),
            1 => Ok(DtypeTag::Fp8E4m3),
            2 => Ok(DtypeTag::Fp16),
            3 => Ok(DtypeTag::Fp32),
            4 => Ok(DtypeTag::Int8),
            5 => Ok(DtypeTag::Packed),
            6 => Ok(DtypeTag::Uint8),
            other => Err(
                LeechQ24Error::BadTocEntry {
                    idx: 0,
                    reason: cat("unknown dtype_tag ", to_decimal(other as u64).as_str()),
                },
            ),
        }
    }

    /// Bytes per element, or `None` for packed tensors.
    pub fn elem_size(self) -> (r: Option<usize>)
        ensures
            r == match self {
                DtypeTag::Bf16 | DtypeTag::Fp16 => Some(2usize),
                DtypeTag::Fp8E4m3 | DtypeTag::Int8 | DtypeTag::Uint8 => Some(1usize),
                DtypeTag::Fp32 => Some(4usize),
                DtypeTag::Packed => None,
            },
    {
        match self {
            DtypeTag::Bf16 => Some(2),
            DtypeTag::Fp8E4m3 => Some(1),
            DtypeTag::Fp16 => Some(2),
            DtypeTag::Fp32 => Some(4),
            DtypeTag::Int8 => Some(1),
            DtypeTag::Uint8 => Some(1),
            DtypeTag::Packed => None,
        }
    }

    /// The variant's name.
    pub fn name(self) -> (r: &'static str)
        ensures
            r@ == self.name_text(),
    {
        match self {
            DtypeTag::Bf16 => "Bf16",
            DtypeTag::Fp8E4m3 => "Fp8E4m3",
            DtypeTag::Fp16 => "Fp16",
            DtypeTag::Fp32 => "Fp32",
            DtypeTag::Int8 => "Int8",
            DtypeTag::Packed => "Packed",
            DtypeTag::Uint8 => "Uint8",
        }
    }
}

/// Reading a role's tag byte gives the role back, and no other byte reads as
/// that role.
pub proof fn role_tag_round_trip(role: Role, v: u8)
    ensures
        role_of(role.tag()) == Some(role),
        role_of(v) == Some(role) ==> v == role.tag(),
{
}

/// Reading a dtype's tag byte gives the dtype back, and no other byte reads as
/// that dtype.
pub proof fn dtype_tag_round_trip(dtype: DtypeTag, v: u8)
    ensures
        dtype_of(dtype.tag()) == Some(dtype),
        dtype_of(v) == Some(dtype) ==> v == dtype.tag(),
{
}

/// HEADER struct (128 bytes after the 8-byte magic).
#[derive(Debug, Clone)]
pub struct Header {
    pub format_version: u32,
    pub header_size: u32,
    pub manifest_offset: u64,
    pub manifest_size: u64,
    pub codebook_offset: u64,
    pub codebook_size: u64,
    pub toc_offset: u64,
    pub toc_size: u64,
    pub toc_entry_count: u32,
    pub tile_size_default: u32,
    pub payload_offset: u64,
    pub payload_size: u64,
    pub n_codebook_sets: u32,
    pub n_llvq_tensors: u32,
    pub n_fp8_tensors: u32,
    pub n_bf16_tensors: u32,
    pub n_overlay_tensors: u32,
    pub reserved_u32: u32,
    pub total_blocks: u64,
    /// BLAKE3-16 hash of the universal pattern_table baked into the decoder.
    /// Used by the loader to confirm the kernel was compiled against the same
    /// table the encoder used.
    pub pattern_table_blake3: [u8; 16],
}

/// A [`Header`] with its hash as a byte sequence.
pub struct HeaderView {
    pub format_version: u32,
    pub header_size: u32,
    pub manifest_offset: u64,
    pub manifest_size: u64,
    pub codebook_offset: u64,
    pub codebook_size: u64,
    pub toc_offset: u64,
    pub toc_size: u64,
    pub toc_entry_count: u32,
    pub tile_size_default: u32,
    pub payload_offset: u64,
    pub payload_size: u64,
    pub n_codebook_sets: u32,
    pub n_llvq_tensors: u32,
    pub n_fp8_tensors: u32,
    pub n_bf16_tensors: u32,
    pub n_overlay_tensors: u32,
    pub reserved_u32: u32,
    pub total_blocks: u64,
    pub pattern_table_blake3: Seq<u8>,
}

impl View for Header {
    type V = HeaderView;

    open spec fn view(&self) -> HeaderView {
        HeaderView {
            format_version: self.format_version,
            header_size: self.header_size,
            manifest_offset: self.manifest_offset,
            manifest_size: self.manifest_size,
            codebook_offset: self.codebook_offset,
            codebook_size: self.codebook_size,
            toc_offset: self.toc_offset,
            toc_size: self.toc_size,
            toc_entry_count: self.toc_entry_count,
            tile_size_default: self.tile_size_default,
            payload_offset: self.payload_offset,
            payload_size: self.payload_size,
            n_codebook_sets: self.n_codebook_sets,
            n_llvq_tensors: self.n_llvq_tensors,
            n_fp8_tensors: self.n_fp8_tensors,
            n_bf16_tensors: self.n_bf16_tensors,
            n_overlay_tensors: self.n_overlay_tensors,
            reserved_u32: self.reserved_u32,
            total_blocks: self.total_blocks,
            pattern_table_blake3: self.pattern_table_blake3@,
        }
    }
}

/// A header is seen field by field, each under its own name.
pub proof fn header_seen_by_field(x: Header)
    ensures
        x@.format_version == x.format_version,
        x@.header_size == x.header_size,
        x@.manifest_offset == x.manifest_offset,
        x@.manifest_size == x.manifest_size,
        x@.codebook_offset == x.codebook_offset,
        x@.codebook_size == x.codebook_size,
        x@.toc_offset == x.toc_offset,
        x@.toc_size == x.toc_size,
        x@.toc_entry_count == x.toc_entry_count,
        x@.tile_size_default == x.tile_size_default,
        x@.payload_offset == x.payload_offset,
        x@.payload_size == x.payload_size,
        x@.n_codebook_sets == x.n_codebook_sets,
        x@.n_llvq_tensors == x.n_llvq_tensors,
        x@.n_fp8_tensors == x.n_fp8_tensors,
        x@.n_bf16_tensors == x.n_bf16_tensors,
        x@.n_overlay_tensors == x.n_overlay_tensors,
        x@.reserved_u32 == x.reserved_u32,
        x@.total_blocks == x.total_blocks,
        x@.pattern_table_blake3 == x.pattern_table_blake3@,
{
}

/// The header that a 128-byte record holds.
pub open spec fn header_of(buf: Seq<u8>) -> HeaderView {
    HeaderView {
        format_version: u32_at(buf, 0),
        header_size: u32_at(buf, 4),
        manifest_offset: u64_at(buf, 8),
        manifest_size: u64_at(buf, 16),
        codebook_offset: u64_at(buf, 24),
        codebook_size: u64_at(buf, 32),
        toc_offset: u64_at(buf, 40),
        toc_size: u64_at(buf, 48),
        toc_entry_count: u32_at(buf, 56),
        tile_size_default: u32_at(buf, 60),
        payload_offset: u64_at(buf, 64),
        payload_size: u64_at(buf, 72),
        n_codebook_sets: u32_at(buf, 80),
        n_llvq_tensors: u32_at(buf, 84),
        n_fp8_tensors: u32_at(buf, 88),
        n_bf16_tensors: u32_at(buf, 92),
        n_overlay_tensors: u32_at(buf, 96),
        reserved_u32: u32_at(buf, 100),
        total_blocks: u64_at(buf, 104),
        pattern_table_blake3: buf.subrange(112, 128),
    }
}

/// Where the manifest, the codebooks and the TOC lie.
pub open spec fn header_places(h: HeaderView) -> Seq<u64> {
    seq![
        h.manifest_offset,
        h.manifest_size,
        h.codebook_offset,
        h.codebook_size,
        h.toc_offset,
        h.toc_size,
    ]
}

/// How many symbol sets and tensors there are.
pub open spec fn header_counts(h: HeaderView) -> Seq<u32> {
    seq![
        h.n_codebook_sets,
        h.n_llvq_tensors,
        h.n_fp8_tensors,
        h.n_bf16_tensors,
        h.n_overlay_tensors,
        h.reserved_u32,
    ]
}

/// The 128-byte record of a header.
#[verifier::opaque]
pub open spec fn header_bytes(h: HeaderView) -> Seq<u8> {
    u32_list_bytes(seq![h.format_version, h.header_size]) + u64_list_bytes(header_places(h))
        + u32_list_bytes(seq![h.toc_entry_count, h.tile_size_default]) + u64_list_bytes(
        seq![h.payload_offset, h.payload_size],
    ) + u32_list_bytes(header_counts(h)) + u64_list_bytes(seq![h.total_blocks])
        + h.pattern_table_blake3
}

/// A header comes back from its record.
#[verifier::rlimit(30)]
pub proof fn header_comes_back(h: HeaderView)
    requires
        h.pattern_table_blake3.len() == 16,
    ensures
        header_bytes(h).len() == HEADER_STRUCT_SIZE,
        header_of(header_bytes(h)) == h,
{
    reveal(header_bytes);
    let buf = header_bytes(h);
    let versions = seq![h.format_version, h.header_size];
    let tables = seq![h.toc_entry_count, h.tile_size_default];
    let payloads = seq![h.payload_offset, h.payload_size];
    let blocks = seq![h.total_blocks];
    lemma_list_len(versions, header_places(h));
    lemma_list_len(tables, payloads);
    lemma_list_len(header_counts(h), blocks);
    assert(buf.len() == 128);
    assert(buf.subrange(0, 8) =~= u32_list_bytes(versions));
    assert(buf.subrange(8, 56) =~= u64_list_bytes(header_places(h)));
    assert(buf.subrange(56, 64) =~= u32_list_bytes(tables));
    assert(buf.subrange(64, 80) =~= u64_list_bytes(payloads));
    assert(buf.subrange(80, 104) =~= u32_list_bytes(header_counts(h)));
    assert(buf.subrange(104, 112) =~= u64_list_bytes(blocks));
    assert(buf.subrange(112, 128) =~= h.pattern_table_blake3);
    u32_list_round_trip(buf, 0, versions);
    assert(versions[0] == h.format_version);
    assert(versions[1] == h.header_size);
    u64_list_round_trip(buf, 8, header_places(h));
    assert(header_places(h)[0] == h.manifest_offset);
    assert(header_places(h)[1] == h.manifest_size);
    assert(header_places(h)[2] == h.codebook_offset);
    assert(header_places(h)[3] == h.codebook_size);
    assert(header_places(h)[4] == h.toc_offset);
    assert(header_places(h)[5] == h.toc_size);
    u32_list_round_trip(buf, 56, tables);
    assert(tables[0] == h.toc_entry_count);
    assert(tables[1] == h.tile_size_default);
    u64_list_round_trip(buf, 64, payloads);
    assert(payloads[0] == h.payload_offset);
    assert(payloads[1] == h.payload_size);
    u32_list_round_trip(buf, 80, header_counts(h));
    assert(header_counts(h)[0] == h.n_codebook_sets);
    assert(header_counts(h)[1] == h.n_llvq_tensors);
    assert(header_counts(h)[2] == h.n_fp8_tensors);
    assert(header_counts(h)[3] == h.n_bf16_tensors);
    assert(header_counts(h)[4] == h.n_overlay_tensors);
    assert(header_counts(h)[5] == h.reserved_u32);
    u64_list_round_trip(buf, 104, blocks);
    assert(blocks[0] == h.total_blocks);
}

/// A header record is put together again from the fields that it is read as.
#[verifier::spinoff_prover]
#[verifier::rlimit(60)]
pub proof fn header_rebuilds(buf: Seq<u8>)
    requires
        buf.len() >= 128,
    ensures
        ({
            let h = header_of(buf);
            &&& buf.subrange(0, 56) == u32_bytes(h.format_version) + u32_bytes(h.header_size)
                + u64_bytes(h.manifest_offset) + u64_bytes(h.manifest_size) + u64_bytes(
                h.codebook_offset,
            ) + u64_bytes(h.codebook_size) + u64_bytes(h.toc_offset) + u64_bytes(h.toc_size)
            &&& buf.subrange(56, 80) == u32_bytes(h.toc_entry_count) + u32_bytes(
                h.tile_size_default,
            ) + u64_bytes(h.payload_offset) + u64_bytes(h.payload_size)
            &&& buf.subrange(80, 128) == u32_bytes(h.n_codebook_sets) + u32_bytes(h.n_llvq_tensors)
                + u32_bytes(h.n_fp8_tensors) + u32_bytes(h.n_bf16_tensors) + u32_bytes(
                h.n_overlay_tensors,
            ) + u32_bytes(h.reserved_u32) + u64_bytes(h.total_blocks) + h.pattern_table_blake3
        }),
{
    let h = header_of(buf);
    assert(buf.subrange(0, 56) == u32_bytes(h.format_version) + u32_bytes(h.header_size)
        + u64_bytes(h.manifest_offset) + u64_bytes(h.manifest_size) + u64_bytes(h.codebook_offset)
        + u64_bytes(h.codebook_size) + u64_bytes(h.toc_offset) + u64_bytes(h.toc_size)) by {
        u32_round_trip(buf, 0, h.format_version);
        u32_round_trip(buf, 4, h.header_size);
        u64_round_trip(buf, 8, h.manifest_offset);
        u64_round_trip(buf, 16, h.manifest_size);
        u64_round_trip(buf, 24, h.codebook_offset);
        u64_round_trip(buf, 32, h.codebook_size);
        u64_round_trip(buf, 40, h.toc_offset);
        u64_round_trip(buf, 48, h.toc_size);
        assert(buf.subrange(0, 56) =~= buf.subrange(0, 4) + buf.subrange(4, 8) + buf.subrange(8, 16)
            + buf.subrange(16, 24) + buf.subrange(24, 32) + buf.subrange(32, 40) + buf.subrange(
            40,
            48,
        ) + buf.subrange(48, 56));
    }
    assert(buf.subrange(56, 80) == u32_bytes(h.toc_entry_count) + u32_bytes(h.tile_size_default)
        + u64_bytes(h.payload_offset) + u64_bytes(h.payload_size)) by {
        u32_round_trip(buf, 56, h.toc_entry_count);
        u32_round_trip(buf, 60, h.tile_size_default);
        u64_round_trip(buf, 64, h.payload_offset);
        u64_round_trip(buf, 72, h.payload_size);
        assert(buf.subrange(56, 80) =~= buf.subrange(56, 60) + buf.subrange(60, 64) + buf.subrange(
            64,
            72,
        ) + buf.subrange(72, 80));
    }
    assert(buf.subrange(80, 128) == u32_bytes(h.n_codebook_sets) + u32_bytes(h.n_llvq_tensors)
        + u32_bytes(h.n_fp8_tensors) + u32_bytes(h.n_bf16_tensors) + u32_bytes(h.n_overlay_tensors)
        + u32_bytes(h.reserved_u32) + u64_bytes(h.total_blocks) + h.pattern_table_blake3) by {
        u32_round_trip(buf, 80, h.n_codebook_sets);
        u32_round_trip(buf, 84, h.n_llvq_tensors);
        u32_round_trip(buf, 88, h.n_fp8_tensors);
        u32_round_trip(buf, 92, h.n_bf16_tensors);
        u32_round_trip(buf, 96, h.n_overlay_tensors);
        u32_round_trip(buf, 100, h.reserved_u32);
        u64_round_trip(buf, 104, h.total_blocks);
        assert(buf.subrange(80, 128) =~= buf.subrange(80, 84) + buf.subrange(84, 88) + buf.subrange(
            88,
            92,
        ) + buf.subrange(92, 96) + buf.subrange(96, 100) + buf.subrange(100, 104) + buf.subrange(
            104,
            112,
        ) + buf.subrange(112, 128));
    }
}

impl Header {
    /// Reads a header record.
    pub fn unpack(buf: &[u8]) -> (r: Result<Self>)
        ensures
            outcome_view(r) == if buf@.len() < HEADER_STRUCT_SIZE {
                Err::<HeaderView, LeechQ24ErrorView>(
                    LeechQ24ErrorView::Truncated {
                        offset: 8,
                        needed: HEADER_STRUCT_SIZE,
                        len: buf@.len() as u64,
                    },
                )
            } else {
                Ok(header_of(buf@))
            },
    {
        if buf.len() < HEADER_STRUCT_SIZE {
            return Err(
                LeechQ24Error::Truncated {
                    offset: 8,
                    needed: HEADER_STRUCT_SIZE,
                    len: buf.len() as u64,
                },
            );
        }
        let mut pattern_table_blake3: [u8; 16] = [0u8;16];
        let mut i: usize = 0;
        while i < 16
            invariant
                i <= 16,
                buf@.len() >= HEADER_STRUCT_SIZE,
                pattern_table_blake3@.len() == 16,
                forall|k: int| 0 <= k < i ==> pattern_table_blake3@[k] == buf@[112 + k],
            decreases 16 - i,
        {
            pattern_table_blake3[i] = buf[112 + i];
            i = i + 1;
        }
        assert(pattern_table_blake3@ =~= buf@.subrange(112, 128));
        Ok(
            Header {
                format_version: read_u32_at(buf, 0),
                header_size: read_u32_at(buf, 4),
                manifest_offset: read_u64_at(buf, 8),
                manifest_size: read_u64_at(buf, 16),
                codebook_offset: read_u64_at(buf, 24),
                codebook_size: read_u64_at(buf, 32),
                toc_offset: read_u64_at(buf, 40),
                toc_size: read_u64_at(buf, 48),
                toc_entry_count: read_u32_at(buf, 56),
                tile_size_default: read_u32_at(buf, 60),
                payload_offset: read_u64_at(buf, 64),
                payload_size: read_u64_at(buf, 72),
                n_codebook_sets: read_u32_at(buf, 80),
                n_llvq_tensors: read_u32_at(buf, 84),
                n_fp8_tensors: read_u32_at(buf, 88),
                n_bf16_tensors: read_u32_at(buf, 92),
                n_overlay_tensors: read_u32_at(buf, 96),
                reserved_u32: read_u32_at(buf, 100),
                total_blocks: read_u64_at(buf, 104),
                pattern_table_blake3,
            },
        )
    }
}

/// One TOC entry (448 bytes on disk).
#[derive(Debug, Clone)]
pub struct TocEntry {
    pub name: String,
    pub role: Role,
    pub dtype_tag: DtypeTag,
    pub rank: u16,
    /// Length == rank.
    pub shape: Vec<u32>,
    pub flags: u32,
    pub symbol_set_id: u32,
    pub tile_size: u32,
    pub k_beta: u32,
    pub k_offset: u32,
    pub r: u32,
    pub b: u32,
    /// Substreams per tile.
    pub num_streams: u32,
    // LLVQ_TANS-only:
    pub n_blocks: u64,
    pub n_tiles: u64,
    pub buckets_offset: u64,
    pub buckets_packed_bytes: u64,
    pub sentinel_indices_offset: u64,
    pub sentinel_count: u32,
    pub tile_states_offset: u64,
    pub tile_nb_totals_offset: u64,
    pub tile_bitstream_offset: u64,
    pub tile_bitstream_words: u64,
    pub beta_idx_offset: u64,
    pub beta_idx_bytes: u64,
    pub offset_idx_offset: u64,
    pub offset_idx_bytes: u64,
    pub beta_lloyd_offset: u64,
    pub offset_lloyd_offset: u64,
    pub beta_lloyd_bytes: u64,
    pub offset_lloyd_bytes: u64,
    /// Per-substream final states.
    pub substream_states_offset: u64,
    /// Per-substream bit counts.
    pub substream_nb_totals_offset: u64,
    // Passthrough/overlay only:
    pub passthrough_offset: u64,
    pub passthrough_size: u64,
}

/// A [`TocEntry`] with its name and shape as sequences.
pub struct TocEntryView {
    pub name: Seq<char>,
    pub role: Role,
    pub dtype_tag: DtypeTag,
    pub rank: u16,
    pub shape: Seq<u32>,
    pub flags: u32,
    pub symbol_set_id: u32,
    pub tile_size: u32,
    pub k_beta: u32,
    pub k_offset: u32,
    pub r: u32,
    pub b: u32,
    pub num_streams: u32,
    pub n_blocks: u64,
    pub n_tiles: u64,
    pub buckets_offset: u64,
    pub buckets_packed_bytes: u64,
    pub sentinel_indices_offset: u64,
    pub sentinel_count: u32,
    pub tile_states_offset: u64,
    pub tile_nb_totals_offset: u64,
    pub tile_bitstream_offset: u64,
    pub tile_bitstream_words: u64,
    pub beta_idx_offset: u64,
    pub beta_idx_bytes: u64,
    pub offset_idx_offset: u64,
    pub offset_idx_bytes: u64,
    pub beta_lloyd_offset: u64,
    pub offset_lloyd_offset: u64,
    pub beta_lloyd_bytes: u64,
    pub offset_lloyd_bytes: u64,
    pub substream_states_offset: u64,
    pub substream_nb_totals_offset: u64,
    pub passthrough_offset: u64,
    pub passthrough_size: u64,
}

impl View for TocEntry {
    type V = TocEntryView;

    open spec fn view(&self) -> TocEntryView {
        TocEntryView {
            name: self.name@,
            role: self.role,
            dtype_tag: self.dtype_tag,
            rank: self.rank,
            shape: self.shape@,
            flags: self.flags,
            symbol_set_id: self.symbol_set_id,
            tile_size: self.tile_size,
            k_beta: self.k_beta,
            k_offset: self.k_offset,
            r: self.r,
            b: self.b,
            num_streams: self.num_streams,
            n_blocks: self.n_blocks,
            n_tiles: self.n_tiles,
            buckets_offset: self.buckets_offset,
            buckets_packed_bytes: self.buckets_packed_bytes,
            sentinel_indices_offset: self.sentinel_indices_offset,
            sentinel_count: self.sentinel_count,
            tile_states_offset: self.tile_states_offset,
            tile_nb_totals_offset: self.tile_nb_totals_offset,
            tile_bitstream_offset: self.tile_bitstream_offset,
            tile_bitstream_words: self.tile_bitstream_words,
            beta_idx_offset: self.beta_idx_offset,
            beta_idx_bytes: self.beta_idx_bytes,
            offset_idx_offset: self.offset_idx_offset,
            offset_idx_bytes: self.offset_idx_bytes,
            beta_lloyd_offset: self.beta_lloyd_offset,
            offset_lloyd_offset: self.offset_lloyd_offset,
            beta_lloyd_bytes: self.beta_lloyd_bytes,
            offset_lloyd_bytes: self.offset_lloyd_bytes,
            substream_states_offset: self.substream_states_offset,
            substream_nb_totals_offset: self.substream_nb_totals_offset,
            passthrough_offset: self.passthrough_offset,
            passthrough_size: self.passthrough_size,
        }
    }
}

/// A TOC entry is seen field by field, each under its own name.
pub proof fn entry_seen_by_field(x: TocEntry)
    ensures
        x@.name == x.name@,
        x@.role == x.role,
        x@.dtype_tag == x.dtype_tag,
        x@.rank == x.rank,
        x@.shape == x.shape@,
        x@.flags == x.flags,
        x@.symbol_set_id == x.symbol_set_id,
        x@.tile_size == x.tile_size,
        x@.k_beta == x.k_beta,
        x@.k_offset == x.k_offset,
        x@.r == x.r,
        x@.b == x.b,
        x@.num_streams == x.num_streams,
        x@.n_blocks == x.n_blocks,
        x@.n_tiles == x.n_tiles,
        x@.buckets_offset == x.buckets_offset,
        x@.buckets_packed_bytes == x.buckets_packed_bytes,
        x@.sentinel_indices_offset == x.sentinel_indices_offset,
        x@.sentinel_count == x.sentinel_count,
        x@.tile_states_offset == x.tile_states_offset,
        x@.tile_nb_totals_offset == x.tile_nb_totals_offset,
        x@.tile_bitstream_offset == x.tile_bitstream_offset,
        x@.tile_bitstream_words == x.tile_bitstream_words,
        x@.beta_idx_offset == x.beta_idx_offset,
        x@.beta_idx_bytes == x.beta_idx_bytes,
        x@.offset_idx_offset == x.offset_idx_offset,
        x@.offset_idx_bytes == x.offset_idx_bytes,
        x@.beta_lloyd_offset == x.beta_lloyd_offset,
        x@.offset_lloyd_offset == x.offset_lloyd_offset,
        x@.beta_lloyd_bytes == x.beta_lloyd_bytes,
        x@.offset_lloyd_bytes == x.offset_lloyd_bytes,
        x@.substream_states_offset == x.substream_states_offset,
        x@.substream_nb_totals_offset == x.substream_nb_totals_offset,
        x@.passthrough_offset == x.passthrough_offset,
        x@.passthrough_size == x.passthrough_size,
{
}

/// Whether a tile can be split into `k` substreams: `k` is a power of two, at
/// most 32.
pub open spec fn stream_count_ok(k: u32) -> bool {
    k == 1 || k == 2 || k == 4 || k == 8 || k == 16 || k == 32
}

/// Bytes of a TOC entry that a version uses.
pub open spec fn toc_struct_size(format_version: u32) -> usize {
    if format_version == FORMAT_VERSION_V3_COMPAT {
        TOC_STRUCT_SIZE
    } else {
        TOC_STRUCT_SIZE_V4
    }
}

/// The entry that a record of a version holds, or the first thing wrong with
/// it; `idx` is the record's place in the TOC.
#[verifier::opaque]
pub open spec fn toc_entry_of(buf: Seq<u8>, idx: usize, format_version: u32) -> core::result::Result<
    TocEntryView,
    LeechQ24ErrorView,
> {
    if buf.len() < toc_struct_size(format_version) {
        Err(
            LeechQ24ErrorView::BadTocEntry {
                idx,
                reason: "entry too short: "@ + decimal(buf.len()) + " < "@ + decimal(
                    toc_struct_size(format_version) as nat,
                ),
            },
        )
    } else {
        let name = name_bytes(buf.subrange(0, TENSOR_NAME_BYTES as int));
        let rank = u16_at(buf, 202);
        let v3 = format_version == FORMAT_VERSION_V3_COMPAT;
        let num_streams: u32 = if v3 {
            1
        } else {
            u32_at(buf, 264)
        };
        let tile_size = u32_at(buf, 244);
        if !vstd::utf8::valid_utf8(name) {
            Err(LeechQ24ErrorView::Utf8(utf8_error(name)))
        } else if role_of(buf[200]) is None {
            Err(
                LeechQ24ErrorView::BadTocEntry {
                    idx,
                    reason: "unknown role byte "@ + decimal(buf[200] as nat),
                },
            )
        } else if dtype_of(buf[201]) is None {
            Err(
                LeechQ24ErrorView::BadTocEntry {
                    idx,
                    reason: "unknown dtype_tag byte "@ + decimal(buf[201] as nat),
                },
            )
        } else if rank > SHAPE_MAX_DIMS {
            Err(
                LeechQ24ErrorView::BadTocEntry {
                    idx,
                    reason: "rank "@ + decimal(rank as nat) + " exceeds "@ + decimal(
                        SHAPE_MAX_DIMS as nat,
                    ),
                },
            )
        } else if role_of(buf[200]) == Some(Role::LlvqTans) && !stream_count_ok(num_streams) {
            Err(
                LeechQ24ErrorView::BadTocEntry {
                    idx,
                    reason: "num_streams "@ + decimal(num_streams as nat)
                        + " is not a power of two up to 32"@,
                },
            )
        } else if role_of(buf[200]) == Some(Role::LlvqTans) && tile_size % num_streams != 0 {
            Err(
                LeechQ24ErrorView::BadTocEntry {
                    idx,
                    reason: "num_streams "@ + decimal(num_streams as nat)
                        + " does not divide tile_size "@ + decimal(tile_size as nat),
                },
            )
        } else {
            Ok(
                TocEntryView {
                    name: vstd::utf8::decode_utf8(name),
                    role: role_of(buf[200])->0,
                    dtype_tag: dtype_of(buf[201])->0,
                    rank,
                    shape: Seq::new(rank as nat, |i: int| u32_at(buf, 204 + 4 * i)),
                    flags: u32_at(buf, 236),
                    symbol_set_id: u32_at(buf, 240),
                    tile_size: u32_at(buf, 244),
                    k_beta: u32_at(buf, 248),
                    k_offset: u32_at(buf, 252),
                    r: u32_at(buf, 256),
                    b: u32_at(buf, 260),
                    num_streams,
                    n_blocks: u64_at(buf, 268),
                    n_tiles: u64_at(buf, 276),
                    buckets_offset: u64_at(buf, 284),
                    buckets_packed_bytes: u64_at(buf, 292),
                    sentinel_indices_offset: u64_at(buf, 300),
                    sentinel_count: u32_at(buf, 308),
                    tile_states_offset: u64_at(buf, 316),
                    tile_nb_totals_offset: u64_at(buf, 324),
                    tile_bitstream_offset: u64_at(buf, 332),
                    tile_bitstream_words: u64_at(buf, 340),
                    beta_idx_offset: u64_at(buf, 348),
                    beta_idx_bytes: u64_at(buf, 356),
                    offset_idx_offset: u64_at(buf, 364),
                    offset_idx_bytes: u64_at(buf, 372),
                    beta_lloyd_offset: u64_at(buf, 380),
                    offset_lloyd_offset: u64_at(buf, 388),
                    beta_lloyd_bytes: u64_at(buf, 396),
                    offset_lloyd_bytes: u64_at(buf, 404),
                    substream_states_offset: if v3 {
                        u64_at(buf, 316)
                    } else {
                        u64_at(buf, 428)
                    },
                    substream_nb_totals_offset: if v3 {
                        u64_at(buf, 324)
                    } else {
                        u64_at(buf, 436)
                    },
                    passthrough_offset: u64_at(buf, 412),
                    passthrough_size: u64_at(buf, 420),
                },
            )
        }
    }
}

/// A version 3 entry reads as one substream per tile whose arrays are the tile
/// arrays.
pub proof fn v3_entry_is_single_stream(buf: Seq<u8>, idx: usize)
    ensures
        match toc_entry_of(buf, idx, FORMAT_VERSION_V3_COMPAT) {
            Ok(e) => {
                &&& e.num_streams == 1
                &&& e.substream_states_offset == e.tile_states_offset
                &&& e.substream_nb_totals_offset == e.tile_nb_totals_offset
            },
            Err(_) => true,
        },
{
    reveal(toc_entry_of);
}

/// The number of substreams of every LLVQ_TANS entry that is read, of either
/// version, is a power of two up to 32 and divides the tile size.
pub proof fn stream_count_divides_tile(buf: Seq<u8>, idx: usize, format_version: u32)
    ensures
        match toc_entry_of(buf, idx, format_version) {
            Ok(e) => e.role == Role::LlvqTans ==> {
                &&& stream_count_ok(e.num_streams)
                &&& e.tile_size % e.num_streams == 0
            },
            Err(_) => true,
        },
{
    reveal(toc_entry_of);
}

/// Whether an entry fits a record of a version: its name its field, without a
/// NUL, and its shape the eight slots; its substreams divide its tiles, and
/// version 3 has one per tile, whose arrays are the tile arrays.
pub open spec fn entry_fits(e: TocEntryView, format_version: u32) -> bool {
    let name = vstd::utf8::encode_utf8(e.name);
    &&& name.len() <= TENSOR_NAME_BYTES
    &&& forall|i: int| 0 <= i < name.len() ==> name[i] != 0
    &&& e.shape.len() == e.rank <= SHAPE_MAX_DIMS
    &&& e.role == Role::LlvqTans ==> stream_count_ok(e.num_streams) && e.tile_size % e.num_streams
        == 0
    &&& format_version == FORMAT_VERSION_V3_COMPAT ==> {
        &&& e.num_streams == 1
        &&& e.substream_states_offset == e.tile_states_offset
        &&& e.substream_nb_totals_offset == e.tile_nb_totals_offset
    }
}

/// The 32-bit numbers behind the shape.
pub open spec fn entry_counts(e: TocEntryView) -> Seq<u32> {
    seq![
        e.flags,
        e.symbol_set_id,
        e.tile_size,
        e.k_beta,
        e.k_offset,
        e.r,
        e.b,
        e.num_streams,
    ]
}

/// The 64-bit numbers behind those.
pub open spec fn entry_blocks(e: TocEntryView) -> Seq<u64> {
    seq![
        e.n_blocks,
        e.n_tiles,
        e.buckets_offset,
        e.buckets_packed_bytes,
        e.sentinel_indices_offset,
    ]
}

/// The 64-bit numbers behind the sentinel count.
pub open spec fn entry_places(e: TocEntryView) -> Seq<u64> {
    seq![
        e.tile_states_offset,
        e.tile_nb_totals_offset,
        e.tile_bitstream_offset,
        e.tile_bitstream_words,
        e.beta_idx_offset,
        e.beta_idx_bytes,
        e.offset_idx_offset,
        e.offset_idx_bytes,
        e.beta_lloyd_offset,
        e.offset_lloyd_offset,
        e.beta_lloyd_bytes,
        e.offset_lloyd_bytes,
        e.passthrough_offset,
        e.passthrough_size,
        e.substream_states_offset,
        e.substream_nb_totals_offset,
    ]
}

/// The 448-byte record of an entry.
#[verifier::opaque]
pub open spec fn toc_entry_bytes(e: TocEntryView) -> Seq<u8> {
    name_field(vstd::utf8::encode_utf8(e.name), TENSOR_NAME_BYTES as int) + seq![
        e.role.tag(),
        e.dtype_tag.tag(),
    ] + u16_bytes(e.rank) + shape_field(e.shape) + u32_list_bytes(entry_counts(e))
        + u64_list_bytes(entry_blocks(e)) + u32_list_bytes(seq![e.sentinel_count]) + zeros(4)
        + u64_list_bytes(entry_places(e)) + zeros(4)
}

#[verifier::rlimit(30)]
proof fn lemma_record_parts(e: TocEntryView)
    requires
        vstd::utf8::encode_utf8(e.name).len() <= TENSOR_NAME_BYTES,
    ensures
        ({
            let buf = toc_entry_bytes(e);
            &&& buf.len() == TOC_ENTRY_SIZE
            &&& buf.subrange(0, 200) == name_field(vstd::utf8::encode_utf8(e.name), 200)
            &&& buf[200] == e.role.tag()
            &&& buf[201] == e.dtype_tag.tag()
            &&& buf.subrange(202, 204) == u16_bytes(e.rank)
            &&& buf.subrange(204, 236) == shape_field(e.shape)
            &&& buf.subrange(236, 268) == u32_list_bytes(entry_counts(e))
            &&& buf.subrange(268, 308) == u64_list_bytes(entry_blocks(e))
            &&& buf.subrange(308, 312) == u32_list_bytes(seq![e.sentinel_count])
            &&& buf.subrange(316, 444) == u64_list_bytes(entry_places(e))
        }),
{
    reveal(toc_entry_bytes);
    let buf = toc_entry_bytes(e);
    let name = name_field(vstd::utf8::encode_utf8(e.name), 200);
    lemma_list_len(shape_slots(e.shape), entry_blocks(e));
    lemma_list_len(entry_counts(e), entry_places(e));
    lemma_list_len(seq![e.sentinel_count], entry_places(e));
    assert(name.len() == 200);
    assert(buf.len() == 448);
    assert(buf.subrange(0, 200) =~= name);
    assert(buf.subrange(202, 204) =~= u16_bytes(e.rank));
    assert(buf.subrange(204, 236) =~= shape_field(e.shape));
    assert(buf.subrange(236, 268) =~= u32_list_bytes(entry_counts(e)));
    assert(buf.subrange(268, 308) =~= u64_list_bytes(entry_blocks(e)));
    assert(buf.subrange(308, 312) =~= u32_list_bytes(seq![e.sentinel_count]));
    assert(buf.subrange(316, 444) =~= u64_list_bytes(entry_places(e)));
}

#[verifier::rlimit(30)]
proof fn lemma_record_numbers(e: TocEntryView)
    requires
        vstd::utf8::encode_utf8(e.name).len() <= TENSOR_NAME_BYTES,
    ensures
        ({
            let buf = toc_entry_bytes(e);
            &&& u32_at(buf, 236) == e.flags
            &&& u32_at(buf, 240) == e.symbol_set_id
            &&& u32_at(buf, 244) == e.tile_size
            &&& u32_at(buf, 248) == e.k_beta
            &&& u32_at(buf, 252) == e.k_offset
            &&& u32_at(buf, 256) == e.r
            &&& u32_at(buf, 260) == e.b
            &&& u32_at(buf, 264) == e.num_streams
            &&& u64_at(buf, 268) == e.n_blocks
            &&& u64_at(buf, 276) == e.n_tiles
            &&& u64_at(buf, 284) == e.buckets_offset
            &&& u64_at(buf, 292) == e.buckets_packed_bytes
            &&& u64_at(buf, 300) == e.sentinel_indices_offset
            &&& u32_at(buf, 308) == e.sentinel_count
            &&& u64_at(buf, 316) == e.tile_states_offset
            &&& u64_at(buf, 324) == e.tile_nb_totals_offset
            &&& u64_at(buf, 332) == e.tile_bitstream_offset
            &&& u64_at(buf, 340) == e.tile_bitstream_words
            &&& u64_at(buf, 348) == e.beta_idx_offset
            &&& u64_at(buf, 356) == e.beta_idx_bytes
            &&& u64_at(buf, 364) == e.offset_idx_offset
            &&& u64_at(buf, 372) == e.offset_idx_bytes
            &&& u64_at(buf, 380) == e.beta_lloyd_offset
            &&& u64_at(buf, 388) == e.offset_lloyd_offset
            &&& u64_at(buf, 396) == e.beta_lloyd_bytes
            &&& u64_at(buf, 404) == e.offset_lloyd_bytes
            &&& u64_at(buf, 412) == e.passthrough_offset
            &&& u64_at(buf, 420) == e.passthrough_size
            &&& u64_at(buf, 428) == e.substream_states_offset
            &&& u64_at(buf, 436) == e.substream_nb_totals_offset
        }),
{
    let buf = toc_entry_bytes(e);
    lemma_record_parts(e);
    u32_list_round_trip(buf, 236, entry_counts(e));
    assert(entry_counts(e)[0] == e.flags);
    assert(entry_counts(e)[1] == e.symbol_set_id);
    assert(entry_counts(e)[2] == e.tile_size);
    assert(entry_counts(e)[3] == e.k_beta);
    assert(entry_counts(e)[4] == e.k_offset);
    assert(entry_counts(e)[5] == e.r);
    assert(entry_counts(e)[6] == e.b);
    assert(entry_counts(e)[7] == e.num_streams);
    u64_list_round_trip(buf, 268, entry_blocks(e));
    assert(entry_blocks(e)[0] == e.n_blocks);
    assert(entry_blocks(e)[1] == e.n_tiles);
    assert(entry_blocks(e)[2] == e.buckets_offset);
    assert(entry_blocks(e)[3] == e.buckets_packed_bytes);
    assert(entry_blocks(e)[4] == e.sentinel_indices_offset);
    u32_list_round_trip(buf, 308, seq![e.sentinel_count]);
    assert(seq![e.sentinel_count][0] == e.sentinel_count);
    u64_list_round_trip(buf, 316, entry_places(e));
    assert(entry_places(e)[0] == e.tile_states_offset);
    assert(entry_places(e)[1] == e.tile_nb_totals_offset);
    assert(entry_places(e)[2] == e.tile_bitstream_offset);
    assert(entry_places(e)[3] == e.tile_bitstream_words);
    assert(entry_places(e)[4] == e.beta_idx_offset);
    assert(entry_places(e)[5] == e.beta_idx_bytes);
    assert(entry_places(e)[6] == e.offset_idx_offset);
    assert(entry_places(e)[7] == e.offset_idx_bytes);
    assert(entry_places(e)[8] == e.beta_lloyd_offset);
    assert(entry_places(e)[9] == e.offset_lloyd_offset);
    assert(entry_places(e)[10] == e.beta_lloyd_bytes);
    assert(entry_places(e)[11] == e.offset_lloyd_bytes);
    assert(entry_places(e)[12] == e.passthrough_offset);
    assert(entry_places(e)[13] == e.passthrough_size);
    assert(entry_places(e)[14] == e.substream_states_offset);
    assert(entry_places(e)[15] == e.substream_nb_totals_offset);
}

/// An entry comes back from its record, in either version.
#[verifier::rlimit(30)]
pub proof fn toc_entry_comes_back(e: TocEntryView, idx: usize, format_version: u32)
    requires
        entry_fits(e, format_version),
    ensures
        toc_entry_bytes(e).len() == TOC_ENTRY_SIZE,
        toc_entry_of(toc_entry_bytes(e), idx, format_version) == Ok::<
            TocEntryView,
            LeechQ24ErrorView,
        >(e),
{
    reveal(toc_entry_of);
    let buf = toc_entry_bytes(e);
    let name = vstd::utf8::encode_utf8(e.name);
    lemma_record_parts(e);
    lemma_record_numbers(e);
    name_round_trip(name, 200);
    vstd::utf8::encode_utf8_valid_utf8(e.name);
    vstd::utf8::encode_utf8_decode_utf8(e.name);
    u16_round_trip(buf, 202, e.rank);
    shape_round_trip(buf, 204, e.shape);
    role_tag_round_trip(e.role, e.role.tag());
    dtype_tag_round_trip(e.dtype_tag, e.dtype_tag.tag());
}

/// Tag bytes count the roles and the dtypes up from zero, and larger ones stand
/// for nothing.
pub proof fn tags_count_up(v: u8)
    ensures
        role_of(v) == match v {
            0 => Some(Role::LlvqTans),
            1 => Some(Role::Fp8Passthrough),
            2 => Some(Role::Bf16Passthrough),
            3 => Some(Role::Fp16Overlay),
            _ => None,
        },
        dtype_of(v) == match v {
            0 => Some(DtypeTag::Bf16),
            1 => Some(DtypeTag::Fp8E4m3),
            2 => Some(DtypeTag::Fp16),
            3 => Some(DtypeTag::Fp32),
            4 => Some(DtypeTag::Int8),
            5 => Some(DtypeTag::Packed),
            6 => Some(DtypeTag::Uint8),
            _ => None,
        },
{
}

/// The stream counts are the powers of two up to 32.
pub proof fn stream_counts_are_powers_of_two(k: u32)
    ensures
        stream_count_ok(k) <==> exists|n: nat| n <= 5 && k == #[trigger] pow2(n),
{
    vstd::arithmetic::power2::lemma2_to64();
    if stream_count_ok(k) {
        assert(k == pow2(0) || k == pow2(1) || k == pow2(2) || k == pow2(3) || k == pow2(4) || k
            == pow2(5));
    }
}

/// A TOC record is read exactly when it has the bytes that its version uses, its
/// name is UTF-8, its role and its dtype are known, its rank is at most 8 and, for an LLVQ_TANS tensor, its stream
/// count is a power of two up to 32 that divides its tile size; version 3 has
/// one stream. A refusal names the record's place.
pub proof fn toc_entry_accepted(buf: Seq<u8>, idx: usize, format_version: u32)
    ensures
        toc_entry_of(buf, idx, format_version) is Ok <==> {
            let streams = if format_version == 3 {
                1
            } else {
                u32_at(buf, 264)
            };
            &&& buf.len() >= if format_version == 3 {
                428int
            } else {
                444
            }
            &&& vstd::utf8::valid_utf8(name_bytes(buf.subrange(0, 200)))
            &&& buf[200] <= 3
            &&& buf[201] <= 6
            &&& u16_at(buf, 202) <= 8
            &&& buf[200] == 0 ==> stream_count_ok(streams) && u32_at(buf, 244) % streams == 0
        },
        match toc_entry_of(buf, idx, format_version) {
            Err(LeechQ24ErrorView::BadTocEntry { idx: place, .. }) => place == idx,
            Err(LeechQ24ErrorView::Utf8(_)) => !vstd::utf8::valid_utf8(
                name_bytes(buf.subrange(0, 200)),
            ),
            Err(_) => false,
            Ok(_) => true,
        },
{
    reveal(toc_entry_of);
}

/// What an entry says of its tensor as a whole writes the front of its record
/// again: the name up to the first zero byte, the tags, the dimensions, and the
/// numbers behind the shape.
#[verifier::spinoff_prover]
#[verifier::rlimit(60)]
pub proof fn toc_entry_front_rebuilds(buf: Seq<u8>, idx: usize, format_version: u32)
    ensures
        match toc_entry_of(buf, idx, format_version) {
            Ok(e) => {
                &&& vstd::utf8::encode_utf8(e.name) == name_bytes(buf.subrange(0, 200))
                &&& role_of(buf[200]) == Some(e.role)
                &&& dtype_of(buf[201]) == Some(e.dtype_tag)
                &&& buf.subrange(202, 204) == u16_bytes(e.rank)
                &&& e.shape.len() == e.rank
                &&& forall|i: int|
                    0 <= i < e.rank ==> buf.subrange(204 + 4 * i, 208 + 4 * i) == u32_bytes(
                        #[trigger] e.shape[i],
                    )
                &&& buf.subrange(236, 264) == u32_bytes(e.flags) + u32_bytes(e.symbol_set_id)
                    + u32_bytes(e.tile_size) + u32_bytes(e.k_beta) + u32_bytes(e.k_offset)
                    + u32_bytes(e.r) + u32_bytes(e.b)
                &&& format_version != 3 ==> buf.subrange(264, 268) == u32_bytes(e.num_streams)
            },
            Err(_) => true,
        },
{
    reveal(toc_entry_of);
    if let Ok(e) = toc_entry_of(buf, idx, format_version) {
        vstd::utf8::decode_utf8_encode_utf8(name_bytes(buf.subrange(0, 200)));
        u16_round_trip(buf, 202, e.rank);
        assert forall|i: int| 0 <= i < e.rank implies buf.subrange(204 + 4 * i, 208 + 4 * i)
            == u32_bytes(#[trigger] e.shape[i]) by {
            u32_round_trip(buf, 204 + 4 * i, e.shape[i]);
        }
        u32_round_trip(buf, 236, e.flags);
        u32_round_trip(buf, 240, e.symbol_set_id);
        u32_round_trip(buf, 244, e.tile_size);
        u32_round_trip(buf, 248, e.k_beta);
        u32_round_trip(buf, 252, e.k_offset);
        u32_round_trip(buf, 256, e.r);
        u32_round_trip(buf, 260, e.b);
        u32_round_trip(buf, 264, e.num_streams);
        assert(buf.subrange(236, 264) =~= buf.subrange(236, 240) + buf.subrange(240, 244)
            + buf.subrange(244, 248) + buf.subrange(248, 252) + buf.subrange(252, 256)
            + buf.subrange(256, 260) + buf.subrange(260, 264));
    }
}

/// Where an entry's tensor is stored writes the back of its record again: first
/// the blocks and the tiles, then where each section lies and how long it is.
#[verifier::spinoff_prover]
#[verifier::rlimit(60)]
pub proof fn toc_entry_back_rebuilds(buf: Seq<u8>, idx: usize, format_version: u32)
    ensures
        match toc_entry_of(buf, idx, format_version) {
            Ok(e) => {
                &&& buf.subrange(268, 312) == u64_bytes(e.n_blocks) + u64_bytes(e.n_tiles)
                    + u64_bytes(e.buckets_offset) + u64_bytes(e.buckets_packed_bytes) + u64_bytes(
                    e.sentinel_indices_offset,
                ) + u32_bytes(e.sentinel_count)
                &&& buf.subrange(316, 348) == u64_bytes(e.tile_states_offset) + u64_bytes(
                    e.tile_nb_totals_offset,
                ) + u64_bytes(e.tile_bitstream_offset) + u64_bytes(e.tile_bitstream_words)
                &&& buf.subrange(348, 380) == u64_bytes(e.beta_idx_offset) + u64_bytes(
                    e.beta_idx_bytes,
                ) + u64_bytes(e.offset_idx_offset) + u64_bytes(e.offset_idx_bytes)
                &&& buf.subrange(380, 412) == u64_bytes(e.beta_lloyd_offset) + u64_bytes(
                    e.offset_lloyd_offset,
                ) + u64_bytes(e.beta_lloyd_bytes) + u64_bytes(e.offset_lloyd_bytes)
                &&& buf.subrange(412, 428) == u64_bytes(e.passthrough_offset) + u64_bytes(
                    e.passthrough_size,
                )
                &&& format_version != 3 ==> buf.subrange(428, 444) == u64_bytes(
                    e.substream_states_offset,
                ) + u64_bytes(e.substream_nb_totals_offset)
            },
            Err(_) => true,
        },
{
    reveal(toc_entry_of);
    if let Ok(e) = toc_entry_of(buf, idx, format_version) {
        assert(buf.subrange(268, 312) == u64_bytes(e.n_blocks) + u64_bytes(e.n_tiles) + u64_bytes(
            e.buckets_offset,
        ) + u64_bytes(e.buckets_packed_bytes) + u64_bytes(e.sentinel_indices_offset) + u32_bytes(
            e.sentinel_count,
        )) by {
            u64_round_trip(buf, 268, e.n_blocks);
            u64_round_trip(buf, 276, e.n_tiles);
            u64_round_trip(buf, 284, e.buckets_offset);
            u64_round_trip(buf, 292, e.buckets_packed_bytes);
            u64_round_trip(buf, 300, e.sentinel_indices_offset);
            u32_round_trip(buf, 308, e.sentinel_count);
            assert(buf.subrange(268, 312) =~= buf.subrange(268, 276) + buf.subrange(276, 284)
                + buf.subrange(284, 292) + buf.subrange(292, 300) + buf.subrange(300, 308)
                + buf.subrange(308, 312));
        }
        lemma_four_numbers(
            buf,
            316,
            e.tile_states_offset,
            e.tile_nb_totals_offset,
            e.tile_bitstream_offset,
            e.tile_bitstream_words,
        );
        lemma_four_numbers(
            buf,
            348,
            e.beta_idx_offset,
            e.beta_idx_bytes,
            e.offset_idx_offset,
            e.offset_idx_bytes,
        );
        lemma_four_numbers(
            buf,
            380,
            e.beta_lloyd_offset,
            e.offset_lloyd_offset,
            e.beta_lloyd_bytes,
            e.offset_lloyd_bytes,
        );
        lemma_two_numbers(buf, 412, e.passthrough_offset, e.passthrough_size);
        if format_version != 3 {
            lemma_two_numbers(
                buf,
                428,
                e.substream_states_offset,
                e.substream_nb_totals_offset,
            );
        }
    }
}

proof fn lemma_two_numbers(buf: Seq<u8>, at: int, a: u64, b: u64)
    requires
        0 <= at,
        at + 16 <= buf.len(),
        u64_at(buf, at) == a,
        u64_at(buf, at + 8) == b,
    ensures
        buf.subrange(at, at + 16) == u64_bytes(a) + u64_bytes(b),
{
    u64_round_trip(buf, at, a);
    u64_round_trip(buf, at + 8, b);
    assert(buf.subrange(at, at + 16) =~= buf.subrange(at, at + 8) + buf.subrange(at + 8, at + 16));
}

#[verifier::spinoff_prover]
#[verifier::rlimit(60)]
proof fn lemma_four_numbers(buf: Seq<u8>, at: int, a: u64, b: u64, c: u64, d: u64)
    requires
        0 <= at,
        at + 32 <= buf.len(),
        u64_at(buf, at) == a,
        u64_at(buf, at + 8) == b,
        u64_at(buf, at + 16) == c,
        u64_at(buf, at + 24) == d,
    ensures
        buf.subrange(at, at + 32) == u64_bytes(a) + u64_bytes(b) + u64_bytes(c) + u64_bytes(d),
{
    lemma_two_numbers(buf, at, a, b);
    lemma_two_numbers(buf, at + 16, c, d);
    lemma_join_order(u64_bytes(a) + u64_bytes(b), u64_bytes(c), u64_bytes(d));
    lemma_cut_parts(buf, at, at + 16, at + 32);
}

proof fn lemma_cut_parts(s: Seq<u8>, from: int, mid: int, to: int)
    requires
        0 <= from <= mid <= to <= s.len(),
    ensures
        s.subrange(from, to) == s.subrange(from, mid) + s.subrange(mid, to),
{
    assert(s.subrange(from, to) =~= s.subrange(from, mid) + s.subrange(mid, to));
}

proof fn lemma_join_order(a: Seq<u8>, b: Seq<u8>, c: Seq<u8>)
    ensures
        a + (b + c) == a + b + c,
{
    assert(a + (b + c) =~= a + b + c);
}

fn bad_entry(idx: usize, reason: String) -> (e: LeechQ24Error)
    ensures
        e@ == (LeechQ24ErrorView::BadTocEntry { idx, reason: reason@ }),
{
    LeechQ24Error::BadTocEntry { idx, reason }
}

/// Reads the first `rank` dimensions of a shape.
fn read_shape(buf: &[u8], rank: u16) -> (shape: Vec<u32>)
    requires
        rank <= SHAPE_MAX_DIMS,
        buf@.len() >= TOC_STRUCT_SIZE,
    ensures
        shape@ == Seq::new(rank as nat, |i: int| u32_at(buf@, 204 + 4 * i)),
{
    let mut shape: Vec<u32> = Vec::new();
    let mut i: usize = 0;
    while i < rank as usize
        invariant
            i <= rank <= SHAPE_MAX_DIMS,
            buf@.len() >= TOC_STRUCT_SIZE,
            shape@ == Seq::new(i as nat, |k: int| u32_at(buf@, 204 + 4 * k)),
        decreases rank - i,
    {
        let dim: u32 = read_u32_at(buf, 204 + i * 4);
        shape.push(dim);
        i = i + 1;
    }
    shape
}

impl TocEntry {
    /// Reads a TOC record of a file with the given version.
    pub fn unpack(buf: &[u8], idx: usize, format_version: u32) -> (r: Result<Self>)
        ensures
            outcome_view(r) == toc_entry_of(buf@, idx, format_version),
    {
        proof {
            reveal(toc_entry_of);
        }
        let v3: bool = format_version == FORMAT_VERSION_V3_COMPAT;
        let needed: usize = if v3 {
            TOC_STRUCT_SIZE
        } else {
            TOC_STRUCT_SIZE_V4
        };
        if buf.len() < needed {
            return Err(
                bad_entry(
                    idx,
                    cat4(
                        "entry too short: ",
                        to_decimal(buf.len() as u64).as_str(),
                        " < ",
                        to_decimal(needed as u64).as_str(),
                    ),
                ),
            );
        }
        let name: String = match decode_name(trim_name(&buf[0..TENSOR_NAME_BYTES])) {
            Ok(name) => name,
            Err(e) => {
                return Err(LeechQ24Error::Utf8(e));
            },
        };
        let role: Role = match Role::from_u8(buf[200]) {
            Ok(role) => role,
            Err(_) => {
                return Err(
                    bad_entry(
                        idx,
                        cat("unknown role byte ", to_decimal(buf[200] as u64).as_str()),
                    ),
                );
            },
        };
        let dtype_tag: DtypeTag = match DtypeTag::from_u8(buf[201]) {
            Ok(dtype_tag) => dtype_tag,
            Err(_) => {
                return Err(
                    bad_entry(
                        idx,
                        cat("unknown dtype_tag byte ", to_decimal(buf[201] as u64).as_str()),
                    ),
                );
            },
        };
        let rank: u16 = read_u16_at(buf, 202);
        if rank as usize > SHAPE_MAX_DIMS {
            return Err(
                bad_entry(
                    idx,
                    cat4(
                        "rank ",
                        to_decimal(rank as u64).as_str(),
                        " exceeds ",
                        to_decimal(SHAPE_MAX_DIMS as u64).as_str(),
                    ),
                ),
            );
        }
        let shape: Vec<u32> = read_shape(buf, rank);
        let tile_size: u32 = read_u32_at(buf, 244);
        let num_streams: u32 = if v3 {
            1
        } else {
            read_u32_at(buf, 264)
        };
        if role == Role::LlvqTans {
            if !is_stream_count(num_streams) {
                return Err(
                    bad_entry(
                        idx,
                        cat3(
                            "num_streams ",
                            to_decimal(num_streams as u64).as_str(),
                            " is not a power of two up to 32",
                        ),
                    ),
                );
            }
            if tile_size % num_streams != 0 {
                return Err(
                    bad_entry(
                        idx,
                        cat4(
                            "num_streams ",
                            to_decimal(num_streams as u64).as_str(),
                            " does not divide tile_size ",
                            to_decimal(tile_size as u64).as_str(),
                        ),
                    ),
                );
            }
        }
        let tile_states_offset: u64 = read_u64_at(buf, 316);
        let tile_nb_totals_offset: u64 = read_u64_at(buf, 324);
        let substream_states_offset: u64 = if v3 {
            tile_states_offset
        } else {
            read_u64_at(buf, 428)
        };
        let substream_nb_totals_offset: u64 = if v3 {
            tile_nb_totals_offset
        } else {
            read_u64_at(buf, 436)
        };
        Ok(
            TocEntry {
                name,
                role,
                dtype_tag,
                rank,
                shape,
                flags: read_u32_at(buf, 236),
                symbol_set_id: read_u32_at(buf, 240),
                tile_size,
                k_beta: read_u32_at(buf, 248),
                k_offset: read_u32_at(buf, 252),
                r: read_u32_at(buf, 256),
                b: read_u32_at(buf, 260),
                num_streams,
                n_blocks: read_u64_at(buf, 268),
                n_tiles: read_u64_at(buf, 276),
                buckets_offset: read_u64_at(buf, 284),
                buckets_packed_bytes: read_u64_at(buf, 292),
                sentinel_indices_offset: read_u64_at(buf, 300),
                sentinel_count: read_u32_at(buf, 308),
                tile_states_offset,
                tile_nb_totals_offset,
                tile_bitstream_offset: read_u64_at(buf, 332),
                tile_bitstream_words: read_u64_at(buf, 340),
                beta_idx_offset: read_u64_at(buf, 348),
                beta_idx_bytes: read_u64_at(buf, 356),
                offset_idx_offset: read_u64_at(buf, 364),
                offset_idx_bytes: read_u64_at(buf, 372),
                beta_lloyd_offset: read_u64_at(buf, 380),
                offset_lloyd_offset: read_u64_at(buf, 388),
                beta_lloyd_bytes: read_u64_at(buf, 396),
                offset_lloyd_bytes: read_u64_at(buf, 404),
                substream_states_offset,
                substream_nb_totals_offset,
                passthrough_offset: read_u64_at(buf, 412),
                passthrough_size: read_u64_at(buf, 420),
            },
        )
    }

    pub fn is_llvq_tans(&self) -> (r: bool)
        ensures
            r == (self@.role == Role::LlvqTans),
    {
        self.role == Role::LlvqTans
    }
}

fn is_stream_count(k: u32) -> (r: bool)
    ensures
        r == stream_count_ok(k),
{
    k == 1 || k == 2 || k == 4 || k == 8 || k == 16 || k == MAX_STREAMS
}

/// The role and dtype pairs that a file may use.
pub open spec fn role_dtype_allowed(role: Role, dtype: DtypeTag) -> bool {
    ||| role == Role::LlvqTans && dtype == DtypeTag::Packed
    ||| role == Role::Fp8Passthrough && dtype == DtypeTag::Fp8E4m3
    ||| role == Role::Bf16Passthrough && (dtype == DtypeTag::Bf16 || dtype == DtypeTag::Fp16
        || dtype == DtypeTag::Fp32)
    ||| role == Role::Fp16Overlay
}

/// A role decides what its tensors can be made of: LLVQ_TANS tensors are packed,
/// fp8 ones fp8, bf16 ones any of the three float types, and overlays anything.
pub proof fn role_decides_dtype(role: Role, dtype: DtypeTag)
    ensures
        role_dtype_allowed(role, dtype) <==> match role {
            Role::LlvqTans => dtype is Packed,
            Role::Fp8Passthrough => dtype is Fp8E4m3,
            Role::Bf16Passthrough => dtype is Bf16 || dtype is Fp16 || dtype is Fp32,
            Role::Fp16Overlay => true,
        },
{
}

/// Checks a role and dtype pair.
pub fn validate_role_dtype(role: Role, dtype: DtypeTag) -> (r: Result<()>)
    ensures
        outcome(r) == if role_dtype_allowed(role, dtype) {
            Ok::<(), LeechQ24ErrorView>(())
        } else {
            Err(
                LeechQ24ErrorView::BadTocEntry {
                    idx: 0,
                    reason: "invalid (role="@ + role.name_text() + ", dtype="@ + dtype.name_text()
                        + ") combination"@,
                },
            )
        },
{
    let ok: bool = match (role, dtype) {
        (Role::LlvqTans, DtypeTag::Packed) => true,
        (Role::Fp8Passthrough, DtypeTag::Fp8E4m3) => true,
        (Role::Bf16Passthrough, DtypeTag::Bf16) => true,
        (Role::Bf16Passthrough, DtypeTag::Fp16) => true,
        (Role::Bf16Passthrough, DtypeTag::Fp32) => true,
        (Role::Fp16Overlay, _) => true,
        _ => false,
    };
    if !ok {
        return Err(
            LeechQ24Error::BadTocEntry {
                idx: 0,
                reason: cat5(
                    "invalid (role=",
                    role.name(),
                    ", dtype=",
                    dtype.name(),
                    ") combination",
                ),
            },
        );
    }
    Ok(())
}

} // verus!
