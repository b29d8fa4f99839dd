//! Fixed-size records of a `.leech` file.
//!
//! ```text
//! Bytes 0..8       MAGIC ("LEECHv01")
//! Bytes 8..72      HEADER (64 B, little-endian fields)
//! manifest_json    UTF-8 JSON at `manifest_json_offset`
//! TOC              `toc_entry_count x 128 B` entries at `toc_offset`
//! STATIC_TABLES    starts at `static_tables_offset` (per-tensor LLVQ tables)
//! PAYLOAD          per-tensor blobs at `payload_offset`
//! OVERLAY_BLOCK    at `overlay_block_offset` if flags bit 0 set
//! Last 4 bytes     CRC32 over `[0, file_size - 4)`
//! ```

use vstd::prelude::*;

use crate::bytes::{
    lemma_cut_joined, lemma_cut_twice, lemma_list_len, name_bytes, name_field, name_round_trip,
    read_u16_at, read_u32_at, read_u64_at, shape_field, shape_round_trip, shape_slots, trim_name,
    u16_at, u16_bytes, u16_round_trip, u32_at, u32_bytes, u32_round_trip, u64_at, u64_bytes,
    u64_round_trip,
};
use crate::leech::error::{outcome, outcome_view, LeechError, LeechErrorView, Result};
use crate::text::{cat, cat4, cat5, decimal, decode_name, to_decimal, utf8_error};

verus! {

/// `LEECHv01`
pub const MAGIC: [u8; 8] = [0x4C, 0x45, 0x45, 0x43, 0x48, 0x76, 0x30, 0x31];

pub const FORMAT_VERSION: u32 = 1;

pub const HEADER_SIZE: usize = 64;

pub const FIXED_PREFIX_SIZE: usize = 8 + HEADER_SIZE;

pub const TOC_ENTRY_SIZE: usize = 128;

pub const TOC_NAME_LEN: usize = 64;

pub const TOC_SHAPE_MAX_RANK: usize = 8;

pub const ALIGN: u64 = 64;

pub const FLAG_HAS_OVERLAYS: u32 = 1 << 0;

/// Tensor role tag (TOC byte +64).
#[derive(Debug, Clone, Copy, PartialEq, Eq, Structural)]
pub enum Role {
    Llvq,
    Fp8E4m3,
    Bf16,
    Fp16Overlay,
}

/// The role that a tag byte stands for.
pub open spec fn role_of(v: u8) -> Option<Role> {
    if v == 0 {
        Some(Role::Llvq)
    } else if v == 1 {
        Some(Role::Fp8E4m3)
    } else if v == 2 {
        Some(Role::Bf16)
    } else if v == 3 {
        Some(Role::Fp16Overlay)
    } else {
        None
    }
}

impl Role {
    /// The tag byte of a role.
    pub open spec fn tag(self) -> u8 {
        match self {
            Role::Llvq => 0,
            Role::Fp8E4m3 => 1,
            Role::Bf16 => 2,
            Role::Fp16Overlay => 3,
        }
    }

    /// The variant's name.
    pub open spec fn name_text(self) -> Seq<char> {
        match self {
            Role::Llvq => "Llvq"@,
            Role::Fp8E4m3 => "Fp8E4m3"@,
            Role::Bf16 => "Bf16"@,
            Role::Fp16Overlay => "Fp16Overlay"@,
        }
    }

    /// Reads a tag byte.
    pub fn from_u8(v: u8) -> (r: Result<Self>)
        ensures
            outcome(r) == match role_of(v) {
                Some(role) => Ok::<Role, LeechErrorView>(role),
                None => Err(
                    LeechErrorView::BadTocEntry {
                        idx: 0,
                        reason: "unknown role "@ + decimal(v as nat),
                    },
                ),
            },
    {
        match v {
            0 => Ok(Role::Llvq),
            1 => Ok(Role::Fp8E4m3),
            2 => Ok(Role::Bf16),
            3 => Ok(Role::Fp16Overlay),
            other => Err(
                LeechError::BadTocEntry {
                    idx: 0,
                    reason: cat("unknown role ", to_decimal(other as u64).as_str()),
                },
            ),
        }
    }

    /// The variant's name.
    pub fn name(self) -> (r: &'static str)
        ensures
            r@ == self.name_text(),
    {
        match self {
            Role::Llvq => "Llvq",
            Role::Fp8E4m3 => "Fp8E4m3",
            Role::Bf16 => "Bf16",
            Role::Fp16Overlay => "Fp16Overlay",
        }
    }
}

/// Dtype tag (TOC byte +65).
#[derive(Debug, Clone, Copy, PartialEq, Eq, Structural)]
pub enum DtypeTag {
    Bf16,
    Fp8E4m3,
    Fp16,
    Fp32,
    Int8,
    Packed,
}

/// The dtype that a tag byte stands for.
pub open spec fn dtype_of(v: u8) -> Option<DtypeTag> {
    if v == 0 {
        Some(DtypeTag::Bf16)
    } else if v == 1 {
        Some(DtypeTag::Fp8E4m3)
    } else if v == 2 {
        Some(DtypeTag::Fp16)
    } else if v == 3 {
        Some(DtypeTag::Fp32)
    } else if v == 4 {
        Some(DtypeTag::Int8)
    } else if v == 5 {
        Some(DtypeTag::Packed)
    } else {
        None
    }
}

impl DtypeTag {
    /// The tag byte of a dtype.
    pub open spec fn tag(self) -> u8 {
        match self {
            DtypeTag::Bf16 => 0,
            DtypeTag::Fp8E4m3 => 1,
            DtypeTag::Fp16 => 2,
            DtypeTag::Fp32 => 3,
            DtypeTag::Int8 => 4,
            DtypeTag::Packed => 5,
        }
    }

    /// The variant's name.
    pub open spec fn name_text(self) -> Seq<char> {
        match self {
            DtypeTag::Bf16 => "Bf16"@,
            DtypeTag::Fp8E4m3 => "Fp8E4m3"@,
            DtypeTag::Fp16 => "Fp16"@,
            DtypeTag::Fp32 => "Fp32"@,
            DtypeTag::Int8 => "Int8"@,
            DtypeTag::Packed => "Packed"@,
        }
    }

    /// Reads a tag byte.
    pub fn from_u8(v: u8) -> (r: Result<Self>)
        ensures
            outcome(r) == match dtype_of(v) {
                Some(dtype) => Ok::<DtypeTag, LeechErrorView>(dtype),
                None => Err(
                    LeechErrorView::BadTocEntry {
                        idx: 0,
                        reason: "unknown dtype_tag "@ + decimal(v as nat),
                    },
                ),
            },
    {
        match v {
            0 => Ok(DtypeTag::Bf16),
            1 => Ok(DtypeTag::Fp8E4m3),
            2 => Ok(DtypeTag::Fp16),
            3 => Ok(DtypeTag::Fp32),
            4 => Ok(DtypeTag::Int8),
            5 => Ok(DtypeTag::Packed),
            other => Err(
                LeechError::BadTocEntry {
                    idx: 0,
                    reason: cat("unknown dtype_tag ", to_decimal(other as u64).as_str()),
                },
            ),
        }
    }

    /// Bytes per element, or `None` for packed (LLVQ stream: the size depends
    /// on the payload header).
    pub fn elem_size(self) -> (r: Option<usize>)
        ensures
            r == match self {
                DtypeTag::Bf16 | DtypeTag::Fp16 => Some(2usize),
                DtypeTag::Fp8E4m3 | DtypeTag::Int8 => Some(1usize),
                DtypeTag::Fp32 => Some(4usize),
                DtypeTag::Packed => None,
            },
    {
        match self {
            DtypeTag::Bf16 => Some(2),
            DtypeTag::Fp8E4m3 => Some(1),
            DtypeTag::Fp16 => Some(2),
            DtypeTag::Fp32 => Some(4),
            DtypeTag::Int8 => Some(1),
            DtypeTag::Packed => None,
        }
    }

    /// The variant's name.
    pub fn name(self) -> (r: &'static str)
        ensures
            r@ == self.name_text(),
    {
        match self {
            DtypeTag::Bf16 => "Bf16",
            DtypeTag::Fp8E4m3 => "Fp8E4m3",
            DtypeTag::Fp16 => "Fp16",
            DtypeTag::Fp32 => "Fp32",
            DtypeTag::Int8 => "Int8",
            DtypeTag::Packed => "Packed",
        }
    }
}

/// Reading a role's tag byte gives the role back, and no other byte reads as
/// that role.
pub proof fn role_tag_round_trip(role: Role, v: u8)
    ensures
        role_of(role.tag()) == Some(role),
        role_of(v) == Some(role) ==> v == role.tag(),
{
}

/// Reading a dtype's tag byte gives the dtype back, and no other byte reads as
/// that dtype.
pub proof fn dtype_tag_round_trip(dtype: DtypeTag, v: u8)
    ensures
        dtype_of(dtype.tag()) == Some(dtype),
        dtype_of(v) == Some(dtype) ==> v == dtype.tag(),
{
}

/// 64-byte HEADER.
#[derive(Debug, Clone)]
pub struct Header {
    pub format_version: u32,
    pub header_size: u32,
    pub manifest_json_offset: u64,
    pub manifest_json_size: u64,
    pub toc_offset: u64,
    pub toc_entry_count: u64,
    pub payload_offset: u64,
    pub static_tables_offset: u32,
    /// Stored as two `u32` halves, low half first.
    pub overlay_block_offset: u64,
    pub flags: u32,
}

/// The header that a 64-byte record holds.
pub open spec fn header_of(buf: Seq<u8>) -> Header {
    Header {
        format_version: u32_at(buf, 0),
        header_size: u32_at(buf, 4),
        manifest_json_offset: u64_at(buf, 8),
        manifest_json_size: u64_at(buf, 16),
        toc_offset: u64_at(buf, 24),
        toc_entry_count: u64_at(buf, 32),
        payload_offset: u64_at(buf, 40),
        static_tables_offset: u32_at(buf, 48),
        overlay_block_offset: u64_at(buf, 52),
        flags: u32_at(buf, 60),
    }
}

/// The 64-byte record of a header.
#[verifier::opaque]
pub open spec fn header_bytes(h: Header) -> Seq<u8> {
    u32_bytes(h.format_version) + u32_bytes(h.header_size) + u64_bytes(h.manifest_json_offset)
        + u64_bytes(h.manifest_json_size) + u64_bytes(h.toc_offset) + u64_bytes(h.toc_entry_count)
        + u64_bytes(h.payload_offset) + u32_bytes(h.static_tables_offset) + u64_bytes(
        h.overlay_block_offset,
    ) + u32_bytes(h.flags)
}

/// A header comes back from its record.
#[verifier::rlimit(30)]
pub proof fn header_comes_back(h: Header)
    ensures
        header_bytes(h).len() == HEADER_SIZE,
        header_of(header_bytes(h)) == h,
{
    reveal(header_bytes);
    let buf = header_bytes(h);
    assert(buf.len() == 64);
    assert(buf.subrange(0, 4) =~= u32_bytes(h.format_version));
    assert(buf.subrange(4, 8) =~= u32_bytes(h.header_size));
    assert(buf.subrange(8, 16) =~= u64_bytes(h.manifest_json_offset));
    assert(buf.subrange(16, 24) =~= u64_bytes(h.manifest_json_size));
    assert(buf.subrange(24, 32) =~= u64_bytes(h.toc_offset));
    assert(buf.subrange(32, 40) =~= u64_bytes(h.toc_entry_count));
    assert(buf.subrange(40, 48) =~= u64_bytes(h.payload_offset));
    assert(buf.subrange(48, 52) =~= u32_bytes(h.static_tables_offset));
    assert(buf.subrange(52, 60) =~= u64_bytes(h.overlay_block_offset));
    assert(buf.subrange(60, 64) =~= u32_bytes(h.flags));
    u32_round_trip(buf, 0, h.format_version);
    u32_round_trip(buf, 4, h.header_size);
    u64_round_trip(buf, 8, h.manifest_json_offset);
    u64_round_trip(buf, 16, h.manifest_json_size);
    u64_round_trip(buf, 24, h.toc_offset);
    u64_round_trip(buf, 32, h.toc_entry_count);
    u64_round_trip(buf, 40, h.payload_offset);
    u32_round_trip(buf, 48, h.static_tables_offset);
    u64_round_trip(buf, 52, h.overlay_block_offset);
    u32_round_trip(buf, 60, h.flags);
}

/// A header record is put together again from the fields that it is read as.
#[verifier::spinoff_prover]
#[verifier::rlimit(60)]
pub proof fn header_rebuilds(buf: Seq<u8>)
    requires
        buf.len() >= 64,
    ensures
        ({
            let h = header_of(buf);
            buf.subrange(0, 64) == u32_bytes(h.format_version) + u32_bytes(h.header_size) + u64_bytes(
                h.manifest_json_offset,
            ) + u64_bytes(h.manifest_json_size) + u64_bytes(h.toc_offset) + u64_bytes(
                h.toc_entry_count,
            ) + u64_bytes(h.payload_offset) + u32_bytes(h.static_tables_offset) + u64_bytes(
                h.overlay_block_offset,
            ) + u32_bytes(h.flags)
        }),
{
    let h = header_of(buf);
    assert(buf.subrange(0, 64) =~= buf.subrange(0, 4) + buf.subrange(4, 8) + buf.subrange(8, 16) + buf.subrange(
        16,
        24,
    ) + buf.subrange(24, 32) + buf.subrange(32, 40) + buf.subrange(40, 48) + buf.subrange(48, 52)
        + buf.subrange(52, 60) + buf.subrange(60, 64));
    u32_round_trip(buf, 0, h.format_version);
    u32_round_trip(buf, 4, h.header_size);
    u64_round_trip(buf, 8, h.manifest_json_offset);
    u64_round_trip(buf, 16, h.manifest_json_size);
    u64_round_trip(buf, 24, h.toc_offset);
    u64_round_trip(buf, 32, h.toc_entry_count);
    u64_round_trip(buf, 40, h.payload_offset);
    u32_round_trip(buf, 48, h.static_tables_offset);
    u64_round_trip(buf, 52, h.overlay_block_offset);
    u32_round_trip(buf, 60, h.flags);
}

/// A file has overlays exactly when the lowest bit of its flags is set.
pub proof fn overlays_flag_is_lowest_bit(h: Header)
    ensures
        h.overlays_flag() <==> h.flags & 1 == 1,
{
    let flags = h.flags;
    assert((flags & 1 == 1) == (flags % 2 == 1)) by (bit_vector);
}

impl Header {
    /// Bit 0 of `flags`.
    pub open spec fn overlays_flag(&self) -> bool {
        self.flags % 2 == 1
    }

    /// Reads a header record.
    pub fn unpack(buf: &[u8]) -> (r: Result<Self>)
        ensures
            outcome(r) == if buf@.len() < HEADER_SIZE {
                Err::<Header, LeechErrorView>(
                    LeechErrorView::Truncated {
                        offset: 8,
                        needed: HEADER_SIZE,
                        len: buf@.len() as u64,
                    },
                )
            } else {
                Ok(header_of(buf@))
            },
    {
        if buf.len() < HEADER_SIZE {
            return Err(
                LeechError::Truncated { offset: 8, needed: HEADER_SIZE, len: buf.len() as u64 },
            );
        }
        let format_version: u32 = read_u32_at(buf, 0);
        let header_size: u32 = read_u32_at(buf, 4);
        let manifest_json_offset: u64 = read_u64_at(buf, 8);
        let manifest_json_size: u64 = read_u64_at(buf, 16);
        let toc_offset: u64 = read_u64_at(buf, 24);
        let toc_entry_count: u64 = read_u64_at(buf, 32);
        let payload_offset: u64 = read_u64_at(buf, 40);
        let static_tables_offset: u32 = read_u32_at(buf, 48);
        let overlay_lo: u64 = read_u32_at(buf, 52) as u64;
        let overlay_hi: u64 = read_u32_at(buf, 56) as u64;
        let flags: u32 = read_u32_at(buf, 60);
        assert(overlay_lo | (overlay_hi << 32) == overlay_lo + 0x1_0000_0000 * overlay_hi)
            by (bit_vector)
            requires
                overlay_lo < 0x1_0000_0000,
                overlay_hi < 0x1_0000_0000,
        ;
        Ok(
            Header {
                format_version,
                header_size,
                manifest_json_offset,
                manifest_json_size,
                toc_offset,
                toc_entry_count,
                payload_offset,
                static_tables_offset,
                overlay_block_offset: overlay_lo | (overlay_hi << 32),
                flags,
            },
        )
    }

    /// Whether the file has an overlay block.
    pub fn has_overlays(&self) -> (r: bool)
        ensures
            r == self.overlays_flag(),
    {
        let flags: u32 = self.flags;
        assert((flags & (1u32 << 0) != 0) == (flags % 2 == 1)) by (bit_vector);
        self.flags & FLAG_HAS_OVERLAYS != 0
    }
}

/// 128-byte TOC entry.
#[derive(Debug, Clone)]
pub struct TocEntry {
    pub name: String,
    pub role: Role,
    pub dtype_tag: DtypeTag,
    pub rank: u16,
    /// The first `rank` dimensions.
    pub shape: Vec<u32>,
    pub payload_offset: u64,
    pub payload_size: u64,
    pub static_table_offset: u32,
    pub static_table_size: u32,
    pub crc32: u32,
}

/// A [`TocEntry`] with its name and shape as sequences.
pub struct TocEntryView {
    pub name: Seq<char>,
    pub role: Role,
    pub dtype_tag: DtypeTag,
    pub rank: u16,
    pub shape: Seq<u32>,
    pub payload_offset: u64,
    pub payload_size: u64,
    pub static_table_offset: u32,
    pub static_table_size: u32,
    pub crc32: u32,
}

impl View for TocEntry {
    type V = TocEntryView;

    open spec fn view(&self) -> TocEntryView {
        TocEntryView {
            name: self.name@,
            role: self.role,
            dtype_tag: self.dtype_tag,
            rank: self.rank,
            shape: self.shape@,
            payload_offset: self.payload_offset,
            payload_size: self.payload_size,
            static_table_offset: self.static_table_offset,
            static_table_size: self.static_table_size,
            crc32: self.crc32,
        }
    }
}

/// A TOC entry is seen field by field, each under its own name.
pub proof fn entry_seen_by_field(x: TocEntry)
    ensures
        x@.name == x.name@,
        x@.role == x.role,
        x@.dtype_tag == x.dtype_tag,
        x@.rank == x.rank,
        x@.shape == x.shape@,
        x@.payload_offset == x.payload_offset,
        x@.payload_size == x.payload_size,
        x@.static_table_offset == x.static_table_offset,
        x@.static_table_size == x.static_table_size,
        x@.crc32 == x.crc32,
{
}

/// The entry that a 128-byte record holds, or the first thing wrong with it;
/// `idx` is the record's place in the TOC.
pub open spec fn toc_entry_of(buf: Seq<u8>, idx: usize) -> core::result::Result<
    TocEntryView,
    LeechErrorView,
> {
    if buf.len() < TOC_ENTRY_SIZE {
        Err(
            LeechErrorView::BadTocEntry {
                idx,
                reason: "entry too short: "@ + decimal(buf.len()) + " < "@ + decimal(
                    TOC_ENTRY_SIZE as nat,
                ),
            },
        )
    } else {
        let name = name_bytes(buf.subrange(0, TOC_NAME_LEN as int));
        let rank = u16_at(buf, 66);
        if !vstd::utf8::valid_utf8(name) {
            Err(LeechErrorView::Utf8(utf8_error(name)))
        } else if role_of(buf[64]) is None {
            Err(
                LeechErrorView::BadTocEntry {
                    idx,
                    reason: "unknown role byte "@ + decimal(buf[64] as nat),
                },
            )
        } else if dtype_of(buf[65]) is None {
            Err(
                LeechErrorView::BadTocEntry {
                    idx,
                    reason: "unknown dtype_tag byte "@ + decimal(buf[65] as nat),
                },
            )
        } else if rank > TOC_SHAPE_MAX_RANK {
            Err(
                LeechErrorView::BadTocEntry {
                    idx,
                    reason: "rank "@ + decimal(rank as nat) + " exceeds "@ + decimal(
                        TOC_SHAPE_MAX_RANK as nat,
                    ),
                },
            )
        } else {
            Ok(
                TocEntryView {
                    name: vstd::utf8::decode_utf8(name),
                    role: role_of(buf[64])->0,
                    dtype_tag: dtype_of(buf[65])->0,
                    rank,
                    shape: Seq::new(rank as nat, |i: int| u32_at(buf, 68 + 4 * i)),
                    payload_offset: u64_at(buf, 100),
                    payload_size: u64_at(buf, 108),
                    static_table_offset: u32_at(buf, 116),
                    static_table_size: u32_at(buf, 120),
                    crc32: u32_at(buf, 124),
                },
            )
        }
    }
}

/// Whether an entry fits a record: its name its field, without a NUL, and its
/// shape the eight slots.
pub open spec fn entry_fits(e: TocEntryView) -> bool {
    let name = vstd::utf8::encode_utf8(e.name);
    &&& name.len() <= TOC_NAME_LEN
    &&& forall|i: int| 0 <= i < name.len() ==> name[i] != 0
    &&& e.shape.len() == e.rank <= TOC_SHAPE_MAX_RANK
}

/// The 128-byte record of an entry.
#[verifier::opaque]
pub open spec fn toc_entry_bytes(e: TocEntryView) -> Seq<u8> {
    name_field(vstd::utf8::encode_utf8(e.name), TOC_NAME_LEN as int) + (seq![
        e.role.tag(),
        e.dtype_tag.tag(),
    ] + u16_bytes(e.rank) + shape_field(e.shape) + u64_bytes(e.payload_offset) + u64_bytes(
        e.payload_size,
    ) + u32_bytes(e.static_table_offset) + u32_bytes(e.static_table_size) + u32_bytes(e.crc32))
}

/// An entry comes back from its record.
#[verifier::rlimit(30)]
pub proof fn toc_entry_comes_back(e: TocEntryView, idx: usize)
    requires
        entry_fits(e),
    ensures
        toc_entry_bytes(e).len() == TOC_ENTRY_SIZE,
        toc_entry_of(toc_entry_bytes(e), idx) == Ok::<TocEntryView, LeechErrorView>(e),
{
    reveal(toc_entry_bytes);
    let buf = toc_entry_bytes(e);
    let name = vstd::utf8::encode_utf8(e.name);
    let field = name_field(name, 64);
    let rest = seq![e.role.tag(), e.dtype_tag.tag()] + u16_bytes(e.rank) + shape_field(e.shape)
        + u64_bytes(e.payload_offset) + u64_bytes(e.payload_size) + u32_bytes(
        e.static_table_offset,
    ) + u32_bytes(e.static_table_size) + u32_bytes(e.crc32);
    name_round_trip(name, 64);
    vstd::utf8::encode_utf8_valid_utf8(e.name);
    vstd::utf8::encode_utf8_decode_utf8(e.name);
    lemma_list_len(shape_slots(e.shape), Seq::empty());
    lemma_cut_joined(field, rest);
    assert(rest.len() == 64);
    assert(buf.len() == 128);
    assert(rest[0] == buf[64]);
    assert(rest[1] == buf[65]);
    assert(rest.subrange(2, 4) =~= u16_bytes(e.rank));
    assert(rest.subrange(4, 36) =~= shape_field(e.shape));
    assert(rest.subrange(36, 44) =~= u64_bytes(e.payload_offset));
    assert(rest.subrange(44, 52) =~= u64_bytes(e.payload_size));
    assert(rest.subrange(52, 56) =~= u32_bytes(e.static_table_offset));
    assert(rest.subrange(56, 60) =~= u32_bytes(e.static_table_size));
    assert(rest.subrange(60, 64) =~= u32_bytes(e.crc32));
    lemma_cut_twice(buf, 64, 64, 2, 4);
    lemma_cut_twice(buf, 64, 64, 4, 36);
    lemma_cut_twice(buf, 64, 64, 36, 44);
    lemma_cut_twice(buf, 64, 64, 44, 52);
    lemma_cut_twice(buf, 64, 64, 52, 56);
    lemma_cut_twice(buf, 64, 64, 56, 60);
    lemma_cut_twice(buf, 64, 64, 60, 64);
    u16_round_trip(buf, 66, e.rank);
    shape_round_trip(buf, 68, e.shape);
    u64_round_trip(buf, 100, e.payload_offset);
    u64_round_trip(buf, 108, e.payload_size);
    u32_round_trip(buf, 116, e.static_table_offset);
    u32_round_trip(buf, 120, e.static_table_size);
    u32_round_trip(buf, 124, e.crc32);
    role_tag_round_trip(e.role, e.role.tag());
    dtype_tag_round_trip(e.dtype_tag, e.dtype_tag.tag());
}

/// Tag bytes count the roles and the dtypes up from zero, and larger ones stand
/// for nothing.
pub proof fn tags_count_up(v: u8)
    ensures
        role_of(v) == match v {
            0 => Some(Role::Llvq),
            1 => Some(Role::Fp8E4m3),
            2 => Some(Role::Bf16),
            3 => Some(Role::Fp16Overlay),
            _ => None,
        },
        dtype_of(v) == match v {
            0 => Some(DtypeTag::Bf16),
            1 => Some(DtypeTag::Fp8E4m3),
            2 => Some(DtypeTag::Fp16),
            3 => Some(DtypeTag::Fp32),
            4 => Some(DtypeTag::Int8),
            5 => Some(DtypeTag::Packed),
            _ => None,
        },
{
}

/// A TOC record is read exactly when it has all 128 bytes, its name is UTF-8, its
/// role and its dtype are known and its rank is at most 8; the entry's fields then write the record
/// again: the name up to the first zero byte, the tags, the dimensions, and the
/// numbers behind the shape. A refusal names the record's place.
#[verifier::spinoff_prover]
#[verifier::rlimit(60)]
pub proof fn toc_entry_rebuilds(buf: Seq<u8>, idx: usize)
    ensures
        toc_entry_of(buf, idx) is Ok <==> {
            &&& buf.len() >= 128
            &&& vstd::utf8::valid_utf8(name_bytes(buf.subrange(0, 64)))
            &&& buf[64] <= 3
            &&& buf[65] <= 5
            &&& u16_at(buf, 66) <= 8
        },
        match toc_entry_of(buf, idx) {
            Ok(e) => {
                &&& vstd::utf8::encode_utf8(e.name) == name_bytes(buf.subrange(0, 64))
                &&& role_of(buf[64]) == Some(e.role)
                &&& dtype_of(buf[65]) == Some(e.dtype_tag)
                &&& buf.subrange(66, 68) == u16_bytes(e.rank)
                &&& e.shape.len() == e.rank
                &&& forall|i: int|
                    0 <= i < e.rank ==> buf.subrange(68 + 4 * i, 72 + 4 * i) == u32_bytes(
                        #[trigger] e.shape[i],
                    )
                &&& buf.subrange(100, 128) == u64_bytes(e.payload_offset) + u64_bytes(
                    e.payload_size,
                ) + u32_bytes(e.static_table_offset) + u32_bytes(e.static_table_size) + u32_bytes(
                    e.crc32,
                )
            },
            Err(LeechErrorView::BadTocEntry { idx: place, .. }) => place == idx,
            Err(LeechErrorView::Utf8(_)) => !vstd::utf8::valid_utf8(
                name_bytes(buf.subrange(0, 64)),
            ),
            Err(_) => false,
        },
{
    if let Ok(e) = toc_entry_of(buf, idx) {
        vstd::utf8::decode_utf8_encode_utf8(name_bytes(buf.subrange(0, 64)));
        u16_round_trip(buf, 66, e.rank);
        assert forall|i: int| 0 <= i < e.rank implies buf.subrange(68 + 4 * i, 72 + 4 * i)
            == u32_bytes(#[trigger] e.shape[i]) by {
            u32_round_trip(buf, 68 + 4 * i, e.shape[i]);
        }
        u64_round_trip(buf, 100, e.payload_offset);
        u64_round_trip(buf, 108, e.payload_size);
        u32_round_trip(buf, 116, e.static_table_offset);
        u32_round_trip(buf, 120, e.static_table_size);
        u32_round_trip(buf, 124, e.crc32);
        assert(buf.subrange(100, 128) =~= buf.subrange(100, 108) + buf.subrange(108, 116)
            + buf.subrange(116, 120) + buf.subrange(120, 124) + buf.subrange(124, 128));
    }
}

impl TocEntry {
    /// Reads a TOC record.
    pub fn unpack(buf: &[u8], idx: usize) -> (r: Result<Self>)
        ensures
            outcome_view(r) == toc_entry_of(buf@, idx),
    {
        if buf.len() < TOC_ENTRY_SIZE {
            return Err(
                LeechError::BadTocEntry {
                    idx,
                    reason: cat4(
                        "entry too short: ",
                        to_decimal(buf.len() as u64).as_str(),
                        " < ",
                        to_decimal(TOC_ENTRY_SIZE as u64).as_str(),
                    ),
                },
            );
        }
        let name: String = match decode_name(trim_name(&buf[0..TOC_NAME_LEN])) {
            Ok(name) => name,
            Err(e) => {
                return Err(LeechError::Utf8(e));
            },
        };
        let role: Role = match Role::from_u8(buf[64]) {
            Ok(role) => role,
            Err(_) => {
                return Err(
                    LeechError::BadTocEntry {
                        idx,
                        reason: cat("unknown role byte ", to_decimal(buf[64] as u64).as_str()),
                    },
                );
            },
        };
        let dtype_tag: DtypeTag = match DtypeTag::from_u8(buf[65]) {
            Ok(dtype_tag) => dtype_tag,
            Err(_) => {
                return Err(
                    LeechError::BadTocEntry {
                        idx,
                        reason: cat("unknown dtype_tag byte ", to_decimal(buf[65] as u64).as_str()),
                    },
                );
            },
        };
        let rank: u16 = read_u16_at(buf, 66);
        if rank as usize > TOC_SHAPE_MAX_RANK {
            return Err(
                LeechError::BadTocEntry {
                    idx,
                    reason: cat4(
                        "rank ",
                        to_decimal(rank as u64).as_str(),
                        " exceeds ",
                        to_decimal(TOC_SHAPE_MAX_RANK as u64).as_str(),
                    ),
                },
            );
        }
        let mut shape: Vec<u32> = Vec::new();
        let mut i: usize = 0;
        while i < rank as usize
            invariant
                i <= rank <= TOC_SHAPE_MAX_RANK,
                buf@.len() >= TOC_ENTRY_SIZE,
                shape@ == Seq::new(i as nat, |k: int| u32_at(buf@, 68 + 4 * k)),
            decreases rank - i,
        {
            let dim: u32 = read_u32_at(buf, 68 + i * 4);
            shape.push(dim);
            i = i + 1;
        }
        Ok(
            TocEntry {
                name,
                role,
                dtype_tag,
                rank,
                shape,
                payload_offset: read_u64_at(buf, 100),
                payload_size: read_u64_at(buf, 108),
                static_table_offset: read_u32_at(buf, 116),
                static_table_size: read_u32_at(buf, 120),
                crc32: read_u32_at(buf, 124),
            },
        )
    }
}

/// The role and dtype pairs that a file may use.
pub open spec fn role_dtype_allowed(role: Role, dtype: DtypeTag) -> bool {
    ||| role == Role::Llvq && dtype == DtypeTag::Packed
    ||| role == Role::Fp8E4m3 && dtype == DtypeTag::Fp8E4m3
    ||| role == Role::Bf16 && dtype == DtypeTag::Bf16
    ||| role == Role::Fp16Overlay && dtype == DtypeTag::Fp16
}

/// Every role goes with exactly one dtype: the one that its tensors are made
/// of.
pub proof fn role_decides_dtype(role: Role, dtype: DtypeTag)
    ensures
        role_dtype_allowed(role, dtype) <==> dtype == match role {
            Role::Llvq => DtypeTag::Packed,
            Role::Fp8E4m3 => DtypeTag::Fp8E4m3,
            Role::Bf16 => DtypeTag::Bf16,
            Role::Fp16Overlay => DtypeTag::Fp16,
        },
{
}

/// The text for a pair that a file may not use.
pub open spec fn bad_pair_text(role: Role, dtype: DtypeTag) -> Seq<char> {
    "invalid (role="@ + role.name_text() + ", dtype="@ + dtype.name_text() + ") combination"@
}

/// Writes the text for a pair that a file may not use.
pub(crate) fn bad_pair(role: Role, dtype: DtypeTag) -> (r: String)
    ensures
        r@ == bad_pair_text(role, dtype),
{
    cat5("invalid (role=", role.name(), ", dtype=", dtype.name(), ") combination")
}

/// Checks a role and dtype pair.
pub fn validate_role_dtype(role: Role, dtype: DtypeTag) -> (r: Result<()>)
    ensures
        outcome(r) == if role_dtype_allowed(role, dtype) {
            Ok::<(), LeechErrorView>(())
        } else {
            Err(LeechErrorView::BadTocEntry { idx: 0, reason: bad_pair_text(role, dtype) })
        },
{
    let ok: bool = match (role, dtype) {
        (Role::Llvq, DtypeTag::Packed) => true,
        (Role::Fp8E4m3, DtypeTag::Fp8E4m3) => true,
        (Role::Bf16, DtypeTag::Bf16) => true,
        (Role::Fp16Overlay, DtypeTag::Fp16) => true,
        _ => false,
    };
    if !ok {
        return Err(LeechError::BadTocEntry { idx: 0, reason: bad_pair(role, dtype) });
    }
    Ok(())
}

} // verus!
