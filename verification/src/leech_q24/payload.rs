//! One LLVQ_TANS tensor's payload sections.
//!
//! All offsets come from the tensor's `TocEntry`; they are bounds-checked
//! against the file. Bit-packed sections (packed buckets, beta_idx,
//! offset_idx) come out as raw bytes; buckets are decoded with
//! [`crate::leech_q24::bucket_unpack`].

use vstd::prelude::*;

use crate::bytes::{read_u32_at, u32_at, u32_bytes, u32_round_trip};
use crate::leech_q24::bucket_unpack::packed_len;
use crate::leech_q24::container::{Role, TocEntry, TocEntryView};
use crate::leech_q24::error::{outcome_view, LeechQ24Error, LeechQ24ErrorView, Result};

verus! {

/// Borrowed view of one LLVQ_TANS tensor's encoded payload.
#[derive(Debug, Clone)]
pub struct LlvqTansPayload<'a> {
    /// Packed bucket stream, 13 bits per block. As many bytes as the TOC entry
    /// says: at least `packed_buckets_byte_count(n_blocks)` where the entry's
    /// byte counts agree with its element counts (see
    /// [`sections_hold_their_elements`], also for the sections below).
    pub buckets_packed: &'a [u8],
    /// Raw little-endian `u32` indices of the sentinel blocks. Empty when
    /// `sentinel_count == 0`.
    pub sentinel_indices: &'a [u8],
    /// `tile_states[n_tiles]`: final tANS state offset per tile, u16 LE.
    pub tile_states: &'a [u8],
    /// `tile_nb_totals[n_tiles]`: bitstream bit-count per tile, u16 LE.
    pub tile_nb_totals: &'a [u8],
    /// `substream_states[n_tiles * num_streams]`: final tANS state offset per
    /// substream, u16 LE.
    pub substream_states: &'a [u8],
    /// `substream_nb_totals[n_tiles * num_streams]`: bitstream bit-count per
    /// substream, u16 LE.
    pub substream_nb_totals: &'a [u8],
    /// `tile_bitstream[tile_bitstream_words]`: concatenated u64 LE words.
    pub tile_bitstream: &'a [u8],
    /// Beta codebook indices, bit-packed at 3 bits/elem. As many bytes as the
    /// TOC entry says.
    pub beta_idx_packed: &'a [u8],
    /// Offset codebook indices, bit-packed at 3 bits/elem. As many bytes as the
    /// TOC entry says: none when `k_offset == 0` and the counts agree.
    pub offset_idx_packed: &'a [u8],
    /// Beta Lloyd centroids, f32 LE, row by row. As many bytes as the TOC entry
    /// says: `R x K_beta` values when the counts agree.
    pub beta_lloyd: &'a [u8],
    /// Offset Lloyd centroids, f32 LE, row by row. As many bytes as the TOC
    /// entry says: `R x K_offset` values when the counts agree, so none when
    /// `k_offset == 0`.
    pub offset_lloyd: &'a [u8],
    pub n_blocks: u64,
    pub n_tiles: u64,
    pub num_streams: u32,
    pub tile_bitstream_words: u64,
    pub sentinel_count: u32,
    pub symbol_set_id: u32,
    pub tile_size: u32,
    pub r: u32,
    pub b: u32,
    pub k_beta: u32,
    pub k_offset: u32,
}

/// An [`LlvqTansPayload`] with its slices as byte sequences.
pub struct LlvqTansPayloadView {
    pub buckets_packed: Seq<u8>,
    pub sentinel_indices: Seq<u8>,
    pub tile_states: Seq<u8>,
    pub tile_nb_totals: Seq<u8>,
    pub substream_states: Seq<u8>,
    pub substream_nb_totals: Seq<u8>,
    pub tile_bitstream: Seq<u8>,
    pub beta_idx_packed: Seq<u8>,
    pub offset_idx_packed: Seq<u8>,
    pub beta_lloyd: Seq<u8>,
    pub offset_lloyd: Seq<u8>,
    pub n_blocks: u64,
    pub n_tiles: u64,
    pub num_streams: u32,
    pub tile_bitstream_words: u64,
    pub sentinel_count: u32,
    pub symbol_set_id: u32,
    pub tile_size: u32,
    pub r: u32,
    pub b: u32,
    pub k_beta: u32,
    pub k_offset: u32,
}

impl<'a> View for LlvqTansPayload<'a> {
    type V = LlvqTansPayloadView;

    open spec fn view(&self) -> LlvqTansPayloadView {
        LlvqTansPayloadView {
            buckets_packed: self.buckets_packed@,
            sentinel_indices: self.sentinel_indices@,
            tile_states: self.tile_states@,
            tile_nb_totals: self.tile_nb_totals@,
            substream_states: self.substream_states@,
            substream_nb_totals: self.substream_nb_totals@,
            tile_bitstream: self.tile_bitstream@,
            beta_idx_packed: self.beta_idx_packed@,
            offset_idx_packed: self.offset_idx_packed@,
            beta_lloyd: self.beta_lloyd@,
            offset_lloyd: self.offset_lloyd@,
            n_blocks: self.n_blocks,
            n_tiles: self.n_tiles,
            num_streams: self.num_streams,
            tile_bitstream_words: self.tile_bitstream_words,
            sentinel_count: self.sentinel_count,
            symbol_set_id: self.symbol_set_id,
            tile_size: self.tile_size,
            r: self.r,
            b: self.b,
            k_beta: self.k_beta,
            k_offset: self.k_offset,
        }
    }
}

/// A payload is seen field by field, each under its own name.
pub proof fn payload_seen_by_field(x: LlvqTansPayload)
    ensures
        x@.buckets_packed == x.buckets_packed@,
        x@.sentinel_indices == x.sentinel_indices@,
        x@.tile_states == x.tile_states@,
        x@.tile_nb_totals == x.tile_nb_totals@,
        x@.substream_states == x.substream_states@,
        x@.substream_nb_totals == x.substream_nb_totals@,
        x@.tile_bitstream == x.tile_bitstream@,
        x@.beta_idx_packed == x.beta_idx_packed@,
        x@.offset_idx_packed == x.offset_idx_packed@,
        x@.beta_lloyd == x.beta_lloyd@,
        x@.offset_lloyd == x.offset_lloyd@,
        x@.n_blocks == x.n_blocks,
        x@.n_tiles == x.n_tiles,
        x@.num_streams == x.num_streams,
        x@.tile_bitstream_words == x.tile_bitstream_words,
        x@.sentinel_count == x.sentinel_count,
        x@.symbol_set_id == x.symbol_set_id,
        x@.tile_size == x.tile_size,
        x@.r == x.r,
        x@.b == x.b,
        x@.k_beta == x.k_beta,
        x@.k_offset == x.k_offset,
{
}

/// Byte offset of centroid `k` of row `r`, with `width` centroids per row.
pub open spec fn centroid_offset(r: int, width: int, k: int) -> int {
    (r * width + k) * 4
}

/// The bits of centroid `k` of row `r` in a table of `rows` rows of `width`
/// little-endian `f32`s.
pub open spec fn centroid_bits(table: Seq<u8>, rows: u32, width: u32, r: u32, k: u32) -> Option<
    u32,
> {
    let off = centroid_offset(r as int, width as int, k as int);
    if r >= rows || k >= width || off + 4 > table.len() {
        None
    } else {
        Some(u32_at(table, off))
    }
}

fn read_centroid(table: &[u8], rows: u32, width: u32, r: u32, k: u32) -> (bits: Option<u32>)
    requires
        r < rows && k < width ==> centroid_offset(r as int, width as int, k as int) + 4
            <= usize::MAX,
    ensures
        bits == centroid_bits(table@, rows, width, r, k),
{
    if r >= rows || k >= width {
        return None;
    }
    assert(0 <= r * width <= (r * width + k) * 4) by (nonlinear_arith)
        requires
            0 <= r,
            0 <= width,
            0 <= k,
    ;
    let off: usize = ((r as usize) * (width as usize) + k as usize) * 4;
    if off + 4 > table.len() {
        return None;
    }
    Some(read_u32_at(table, off))
}

impl<'a> LlvqTansPayload<'a> {
    /// The bits of one beta centroid value (`f32`, row `r`, codebook index
    /// `k`).
    pub fn beta_lloyd_at(&self, r: u32, k: u32) -> (bits: Option<u32>)
        requires
            r < self@.r && k < self@.k_beta ==> centroid_offset(
                r as int,
                self@.k_beta as int,
                k as int,
            ) + 4 <= usize::MAX,
        ensures
            bits == centroid_bits(self@.beta_lloyd, self@.r, self@.k_beta, r, k),
    {
        read_centroid(self.beta_lloyd, self.r, self.k_beta, r, k)
    }

    /// The bits of one offset centroid value (`f32`). `None` when the tensor
    /// has no offsets or indices are out of range.
    pub fn offset_lloyd_at(&self, r: u32, k: u32) -> (bits: Option<u32>)
        requires
            r < self@.r && k < self@.k_offset ==> centroid_offset(
                r as int,
                self@.k_offset as int,
                k as int,
            ) + 4 <= usize::MAX,
        ensures
            bits == centroid_bits(self@.offset_lloyd, self@.r, self@.k_offset, r, k),
    {
        if self.k_offset == 0 {
            return None;
        }
        read_centroid(self.offset_lloyd, self.r, self.k_offset, r, k)
    }

    /// Number of beta_idx entries (= n_blocks).
    pub fn n_beta_idx(&self) -> (r: u64)
        ensures
            r == self@.n_blocks,
    {
        self.n_blocks
    }
}

/// The bytes `[offset, offset + size)`, or the complaint that they are not all
/// there.
pub open spec fn slice_of(bytes: Seq<u8>, offset: usize, size: usize) -> core::result::Result<
    Seq<u8>,
    LeechQ24ErrorView,
> {
    if offset + size > bytes.len() {
        Err(
            LeechQ24ErrorView::Truncated {
                offset: offset as u64,
                needed: size,
                len: bytes.len() as u64,
            },
        )
    } else {
        Ok(bytes.subrange(offset as int, offset + size))
    }
}

/// Cuts out the bytes `[offset, offset + size)`.
pub(crate) fn slice_or_truncated(bytes: &[u8], offset: usize, size: usize) -> (r: Result<&[u8]>)
    ensures
        outcome_view(r) == slice_of(bytes@, offset, size),
        r is Ok <==> offset + size <= bytes@.len(),
        r matches Ok(s) ==> s@ == bytes@.subrange(offset as int, offset + size),
{
    let end: usize = match offset.checked_add(size) {
        Some(end) => end,
        None => {
            return Err(
                LeechQ24Error::Truncated {
                    offset: offset as u64,
                    needed: size,
                    len: bytes.len() as u64,
                },
            );
        },
    };
    if end > bytes.len() {
        return Err(
            LeechQ24Error::Truncated {
                offset: offset as u64,
                needed: size,
                len: bytes.len() as u64,
            },
        );
    }
    Ok(&bytes[offset..end])
}

/// A section of a tensor: empty when it is absent.
pub open spec fn section_of(
    file: Seq<u8>,
    present: bool,
    offset: u64,
    size: int,
) -> core::result::Result<Seq<u8>, LeechQ24ErrorView> {
    if present {
        slice_of(file, offset as usize, (size as u64) as usize)
    } else {
        Ok(Seq::empty())
    }
}

fn read_section<'a>(file: &'a [u8], present: bool, offset: u64, size: u64) -> (r: Result<&'a [u8]>)
    ensures
        outcome_view(r) == section_of(file@, present, offset, size as int),
{
    if present {
        slice_or_truncated(file, offset as usize, size as usize)
    } else {
        let none: &'a [u8] = &file[0..0];
        assert(none@ =~= Seq::empty());
        Ok(none)
    }
}

/// The packed buckets of a tensor.
pub open spec fn buckets_packed_section(
    entry: TocEntryView,
    file: Seq<u8>,
) -> core::result::Result<Seq<u8>, LeechQ24ErrorView> {
    section_of(file, true, entry.buckets_offset, entry.buckets_packed_bytes as int)
}

/// The sentinel indices of a tensor.
pub open spec fn sentinel_indices_section(
    entry: TocEntryView,
    file: Seq<u8>,
) -> core::result::Result<Seq<u8>, LeechQ24ErrorView> {
    section_of(
        file,
        entry.sentinel_count > 0,
        entry.sentinel_indices_offset,
        entry.sentinel_count * 4,
    )
}

/// The final state of each tile.
pub open spec fn tile_states_section(
    entry: TocEntryView,
    file: Seq<u8>,
) -> core::result::Result<Seq<u8>, LeechQ24ErrorView> {
    section_of(file, true, entry.tile_states_offset, entry.n_tiles * 2)
}

/// The bit count of each tile.
pub open spec fn tile_nb_totals_section(
    entry: TocEntryView,
    file: Seq<u8>,
) -> core::result::Result<Seq<u8>, LeechQ24ErrorView> {
    section_of(file, true, entry.tile_nb_totals_offset, entry.n_tiles * 2)
}

/// The final state of each substream.
pub open spec fn substream_states_section(
    entry: TocEntryView,
    file: Seq<u8>,
) -> core::result::Result<Seq<u8>, LeechQ24ErrorView> {
    section_of(file, true, entry.substream_states_offset, entry.n_tiles * entry.num_streams * 2)
}

/// The bit count of each substream.
pub open spec fn substream_nb_totals_section(
    entry: TocEntryView,
    file: Seq<u8>,
) -> core::result::Result<Seq<u8>, LeechQ24ErrorView> {
    section_of(file, true, entry.substream_nb_totals_offset, entry.n_tiles * entry.num_streams * 2)
}

/// The bit stream of all tiles.
pub open spec fn tile_bitstream_section(
    entry: TocEntryView,
    file: Seq<u8>,
) -> core::result::Result<Seq<u8>, LeechQ24ErrorView> {
    section_of(file, true, entry.tile_bitstream_offset, entry.tile_bitstream_words * 8)
}

/// The beta codebook indices.
pub open spec fn beta_idx_packed_section(
    entry: TocEntryView,
    file: Seq<u8>,
) -> core::result::Result<Seq<u8>, LeechQ24ErrorView> {
    section_of(file, entry.beta_idx_bytes > 0, entry.beta_idx_offset, entry.beta_idx_bytes as int)
}

/// The offset codebook indices.
pub open spec fn offset_idx_packed_section(
    entry: TocEntryView,
    file: Seq<u8>,
) -> core::result::Result<Seq<u8>, LeechQ24ErrorView> {
    section_of(
        file,
        entry.offset_idx_bytes > 0,
        entry.offset_idx_offset,
        entry.offset_idx_bytes as int,
    )
}

/// The beta centroids.
pub open spec fn beta_lloyd_section(
    entry: TocEntryView,
    file: Seq<u8>,
) -> core::result::Result<Seq<u8>, LeechQ24ErrorView> {
    section_of(
        file,
        entry.beta_lloyd_bytes > 0,
        entry.beta_lloyd_offset,
        entry.beta_lloyd_bytes as int,
    )
}

/// The offset centroids.
pub open spec fn offset_lloyd_section(
    entry: TocEntryView,
    file: Seq<u8>,
) -> core::result::Result<Seq<u8>, LeechQ24ErrorView> {
    section_of(
        file,
        entry.offset_lloyd_bytes > 0,
        entry.offset_lloyd_offset,
        entry.offset_lloyd_bytes as int,
    )
}

/// The payload of a tensor, or the first thing wrong with it.
pub open spec fn payload_of(entry: TocEntryView, file: Seq<u8>) -> core::result::Result<
    LlvqTansPayloadView,
    LeechQ24ErrorView,
> {
    if entry.role != Role::LlvqTans {
        Err(LeechQ24ErrorView::NotLlvqTans { name: entry.name, role: entry.role.tag() })
    } else if buckets_packed_section(entry, file) is Err {
        Err(buckets_packed_section(entry, file)->Err_0)
    } else if sentinel_indices_section(entry, file) is Err {
        Err(sentinel_indices_section(entry, file)->Err_0)
    } else if tile_states_section(entry, file) is Err {
        Err(tile_states_section(entry, file)->Err_0)
    } else if tile_nb_totals_section(entry, file) is Err {
        Err(tile_nb_totals_section(entry, file)->Err_0)
    } else if substream_states_section(entry, file) is Err {
        Err(substream_states_section(entry, file)->Err_0)
    } else if substream_nb_totals_section(entry, file) is Err {
        Err(substream_nb_totals_section(entry, file)->Err_0)
    } else if tile_bitstream_section(entry, file) is Err {
        Err(tile_bitstream_section(entry, file)->Err_0)
    } else if beta_idx_packed_section(entry, file) is Err {
        Err(beta_idx_packed_section(entry, file)->Err_0)
    } else if offset_idx_packed_section(entry, file) is Err {
        Err(offset_idx_packed_section(entry, file)->Err_0)
    } else if beta_lloyd_section(entry, file) is Err {
        Err(beta_lloyd_section(entry, file)->Err_0)
    } else if offset_lloyd_section(entry, file) is Err {
        Err(offset_lloyd_section(entry, file)->Err_0)
    } else {
        Ok(
            LlvqTansPayloadView {
                buckets_packed: buckets_packed_section(entry, file)->Ok_0,
                sentinel_indices: sentinel_indices_section(entry, file)->Ok_0,
                tile_states: tile_states_section(entry, file)->Ok_0,
                tile_nb_totals: tile_nb_totals_section(entry, file)->Ok_0,
                substream_states: substream_states_section(entry, file)->Ok_0,
                substream_nb_totals: substream_nb_totals_section(entry, file)->Ok_0,
                tile_bitstream: tile_bitstream_section(entry, file)->Ok_0,
                beta_idx_packed: beta_idx_packed_section(entry, file)->Ok_0,
                offset_idx_packed: offset_idx_packed_section(entry, file)->Ok_0,
                beta_lloyd: beta_lloyd_section(entry, file)->Ok_0,
                offset_lloyd: offset_lloyd_section(entry, file)->Ok_0,
                n_blocks: entry.n_blocks,
                n_tiles: entry.n_tiles,
                num_streams: entry.num_streams,
                tile_bitstream_words: entry.tile_bitstream_words,
                sentinel_count: entry.sentinel_count,
                symbol_set_id: entry.symbol_set_id,
                tile_size: entry.tile_size,
                r: entry.r,
                b: entry.b,
                k_beta: entry.k_beta,
                k_offset: entry.k_offset,
            },
        )
    }
}

/// Whether the section sizes that a tensor's counts call for can be computed
/// in a `u64`. Only sizes that are reached count: those behind a section that
/// is not all there do not matter.
pub open spec fn section_sizes_fit(entry: TocEntryView, file: Seq<u8>) -> bool {
    entry.role == Role::LlvqTans && buckets_packed_section(entry, file) is Ok
        && sentinel_indices_section(entry, file) is Ok ==> {
        &&& entry.n_tiles * 2 <= u64::MAX
        &&& tile_states_section(entry, file) is Ok && tile_nb_totals_section(entry, file) is Ok
            ==> {
            &&& entry.n_tiles * entry.num_streams * 2 <= u64::MAX
            &&& substream_states_section(entry, file) is Ok && substream_nb_totals_section(
                entry,
                file,
            ) is Ok ==> entry.tile_bitstream_words * 8 <= u64::MAX
        }
    }
}

/// Whether [`build_llvq_tans_payload`] can compute every section size that the
/// entry calls for.
pub(crate) fn check_section_sizes(entry: &TocEntry, file_bytes: &[u8]) -> (r: bool)
    ensures
        r == section_sizes_fit(entry@, file_bytes@),
{
    if !entry.is_llvq_tans() {
        return true;
    }
    let max: u128 = u64::MAX as u128;
    if read_section(file_bytes, true, entry.buckets_offset, entry.buckets_packed_bytes).is_err()
        || read_section(
        file_bytes,
        entry.sentinel_count > 0,
        entry.sentinel_indices_offset,
        entry.sentinel_count as u64 * 4,
    ).is_err() {
        return true;
    }
    if entry.n_tiles as u128 * 2 > max {
        return false;
    }
    let tile_bytes: u64 = entry.n_tiles * 2;
    if read_section(file_bytes, true, entry.tile_states_offset, tile_bytes).is_err()
        || read_section(file_bytes, true, entry.tile_nb_totals_offset, tile_bytes).is_err() {
        return true;
    }
    let n_tiles: u128 = entry.n_tiles as u128;
    let num_streams: u128 = entry.num_streams as u128;
    assert(0 <= n_tiles * num_streams <= 0xffff_ffff_ffff_ffff * 0xffff_ffff) by (nonlinear_arith)
        requires
            0 <= n_tiles <= 0xffff_ffff_ffff_ffff,
            0 <= num_streams <= 0xffff_ffff,
    ;
    let wide: u128 = n_tiles * num_streams * 2;
    if wide > max {
        return false;
    }
    let substream_bytes: u64 = wide as u64;
    if read_section(file_bytes, true, entry.substream_states_offset, substream_bytes).is_err()
        || read_section(
        file_bytes,
        true,
        entry.substream_nb_totals_offset,
        substream_bytes,
    ).is_err() {
        return true;
    }
    entry.tile_bitstream_words as u128 * 8 <= max
}

/// Builds a payload view from a TOC entry, slicing into the full file.
pub(crate) fn build_llvq_tans_payload<'a>(entry: &TocEntry, file_bytes: &'a [u8]) -> (r: Result<
    LlvqTansPayload<'a>,
>)
    requires
        section_sizes_fit(entry@, file_bytes@),
    ensures
        outcome_view(r) == payload_of(entry@, file_bytes@),
{
    if !entry.is_llvq_tans() {
        return Err(
            LeechQ24Error::NotLlvqTans { name: entry.name.clone(), role: entry.role.to_u8() },
        );
    }
    let buckets_packed: &'a [u8] = match read_section(
        file_bytes,
        true,
        entry.buckets_offset,
        entry.buckets_packed_bytes,
    ) {
        Ok(s) => s,
        Err(e) => {
            return Err(e);
        },
    };
    let sentinel_indices: &'a [u8] = match read_section(
        file_bytes,
        entry.sentinel_count > 0,
        entry.sentinel_indices_offset,
        entry.sentinel_count as u64 * 4,
    ) {
        Ok(s) => s,
        Err(e) => {
            return Err(e);
        },
    };
    let tile_states: &'a [u8] = match read_section(
        file_bytes,
        true,
        entry.tile_states_offset,
        entry.n_tiles * 2,
    ) {
        Ok(s) => s,
        Err(e) => {
            return Err(e);
        },
    };
    let tile_nb_totals: &'a [u8] = match read_section(
        file_bytes,
        true,
        entry.tile_nb_totals_offset,
        entry.n_tiles * 2,
    ) {
        Ok(s) => s,
        Err(e) => {
            return Err(e);
        },
    };
    assert(0 <= entry.n_tiles * entry.num_streams <= entry.n_tiles * entry.num_streams * 2)
        by (nonlinear_arith);
    let substream_bytes: u64 = entry.n_tiles * entry.num_streams as u64 * 2;
    let substream_states: &'a [u8] = match read_section(
        file_bytes,
        true,
        entry.substream_states_offset,
        substream_bytes,
    ) {
        Ok(s) => s,
        Err(e) => {
            return Err(e);
        },
    };
    let substream_nb_totals: &'a [u8] = match read_section(
        file_bytes,
        true,
        entry.substream_nb_totals_offset,
        substream_bytes,
    ) {
        Ok(s) => s,
        Err(e) => {
            return Err(e);
        },
    };
    let tile_bitstream: &'a [u8] = match read_section(
        file_bytes,
        true,
        entry.tile_bitstream_offset,
        entry.tile_bitstream_words * 8,
    ) {
        Ok(s) => s,
        Err(e) => {
            return Err(e);
        },
    };
    let beta_idx_packed: &'a [u8] = match read_section(
        file_bytes,
        entry.beta_idx_bytes > 0,
        entry.beta_idx_offset,
        entry.beta_idx_bytes,
    ) {
        Ok(s) => s,
        Err(e) => {
            return Err(e);
        },
    };
    let offset_idx_packed: &'a [u8] = match read_section(
        file_bytes,
        entry.offset_idx_bytes > 0,
        entry.offset_idx_offset,
        entry.offset_idx_bytes,
    ) {
        Ok(s) => s,
        Err(e) => {
            return Err(e);
        },
    };
    let beta_lloyd: &'a [u8] = match read_section(
        file_bytes,
        entry.beta_lloyd_bytes > 0,
        entry.beta_lloyd_offset,
        entry.beta_lloyd_bytes,
    ) {
        Ok(s) => s,
        Err(e) => {
            return Err(e);
        },
    };
    let offset_lloyd: &'a [u8] = match read_section(
        file_bytes,
        entry.offset_lloyd_bytes > 0,
        entry.offset_lloyd_offset,
        entry.offset_lloyd_bytes,
    ) {
        Ok(s) => s,
        Err(e) => {
            return Err(e);
        },
    };
    Ok(
        LlvqTansPayload {
            buckets_packed,
            sentinel_indices,
            tile_states,
            tile_nb_totals,
            substream_states,
            substream_nb_totals,
            tile_bitstream,
            beta_idx_packed,
            offset_idx_packed,
            beta_lloyd,
            offset_lloyd,
            n_blocks: entry.n_blocks,
            n_tiles: entry.n_tiles,
            num_streams: entry.num_streams,
            tile_bitstream_words: entry.tile_bitstream_words,
            sentinel_count: entry.sentinel_count,
            symbol_set_id: entry.symbol_set_id,
            tile_size: entry.tile_size,
            r: entry.r,
            b: entry.b,
            k_beta: entry.k_beta,
            k_offset: entry.k_offset,
        },
    )
}

/// A tensor with one substream per tile whose substream arrays are stored as
/// its tile arrays has substreams that are byte for byte its tiles.
pub proof fn single_stream_payload_aliases_tiles(entry: TocEntryView, file: Seq<u8>)
    requires
        entry.num_streams == 1,
        entry.substream_states_offset == entry.tile_states_offset,
        entry.substream_nb_totals_offset == entry.tile_nb_totals_offset,
    ensures
        match payload_of(entry, file) {
            Ok(p) => {
                &&& p.substream_states == p.tile_states
                &&& p.substream_nb_totals == p.tile_nb_totals
            },
            Err(_) => true,
        },
{
}

/// The sections of a payload have the sizes that the entry calls for, as far
/// as those fit a `usize`.
pub proof fn payload_section_lengths(entry: TocEntryView, file: Seq<u8>)
    requires
        section_sizes_fit(entry, file),
        entry.n_tiles * entry.num_streams * 2 <= usize::MAX,
        entry.n_tiles * 2 <= usize::MAX,
        entry.tile_bitstream_words * 8 <= usize::MAX,
        entry.sentinel_count * 4 <= usize::MAX,
    ensures
        match payload_of(entry, file) {
            Ok(p) => {
                &&& p.sentinel_indices.len() == p.sentinel_count * 4
                &&& p.tile_states.len() == p.n_tiles * 2
                &&& p.tile_nb_totals.len() == p.n_tiles * 2
                &&& p.substream_states.len() == p.n_tiles * p.num_streams * 2
                &&& p.substream_nb_totals.len() == p.n_tiles * p.num_streams * 2
                &&& p.tile_bitstream.len() == p.tile_bitstream_words * 8
            },
            Err(_) => true,
        },
{
    assert(entry.n_tiles * entry.num_streams >= 0) by (nonlinear_arith);
}

/// A tensor's sections come back: the payload of an entry is handed out exactly
/// when the entry is an LLVQ_TANS one and every section that it calls for lies
/// inside the file. Each section is then the bytes at its own offset, as many as
/// the entry's counts call for, and absent where it calls for none; the counts
/// are the entry's. What is refused is the tensor, or bytes that the file does
/// not have. Where a section starts and how long it is have to be `usize`s.
#[verifier::spinoff_prover]
#[verifier::rlimit(60)]
pub proof fn sections_are_where_they_were_written(entry: TocEntryView, file: Seq<u8>)
    requires
        entry.buckets_offset <= usize::MAX,
        entry.buckets_packed_bytes <= usize::MAX,
        entry.sentinel_indices_offset <= usize::MAX,
        4 * entry.sentinel_count <= usize::MAX,
        entry.tile_states_offset <= usize::MAX,
        2 * entry.n_tiles <= usize::MAX,
        entry.tile_nb_totals_offset <= usize::MAX,
        entry.substream_states_offset <= usize::MAX,
        2 * (entry.n_tiles * entry.num_streams) <= usize::MAX,
        entry.substream_nb_totals_offset <= usize::MAX,
        entry.tile_bitstream_offset <= usize::MAX,
        8 * entry.tile_bitstream_words <= usize::MAX,
        entry.beta_idx_offset <= usize::MAX,
        entry.beta_idx_bytes <= usize::MAX,
        entry.offset_idx_offset <= usize::MAX,
        entry.offset_idx_bytes <= usize::MAX,
        entry.beta_lloyd_offset <= usize::MAX,
        entry.beta_lloyd_bytes <= usize::MAX,
        entry.offset_lloyd_offset <= usize::MAX,
        entry.offset_lloyd_bytes <= usize::MAX,
    ensures
        payload_of(entry, file) is Ok <==> {
            &&& entry.role == Role::LlvqTans
            &&& entry.buckets_offset + entry.buckets_packed_bytes <= file.len()
            &&& entry.sentinel_count > 0 ==> entry.sentinel_indices_offset + 4 * entry.sentinel_count <= file.len()
            &&& entry.tile_states_offset + 2 * entry.n_tiles <= file.len()
            &&& entry.tile_nb_totals_offset + 2 * entry.n_tiles <= file.len()
            &&& entry.substream_states_offset + 2 * (entry.n_tiles * entry.num_streams) <= file.len()
            &&& entry.substream_nb_totals_offset + 2 * (entry.n_tiles * entry.num_streams) <= file.len()
            &&& entry.tile_bitstream_offset + 8 * entry.tile_bitstream_words <= file.len()
            &&& entry.beta_idx_bytes > 0 ==> entry.beta_idx_offset + entry.beta_idx_bytes <= file.len()
            &&& entry.offset_idx_bytes > 0 ==> entry.offset_idx_offset + entry.offset_idx_bytes <= file.len()
            &&& entry.beta_lloyd_bytes > 0 ==> entry.beta_lloyd_offset + entry.beta_lloyd_bytes <= file.len()
            &&& entry.offset_lloyd_bytes > 0 ==> entry.offset_lloyd_offset + entry.offset_lloyd_bytes <= file.len()
        },
        match payload_of(entry, file) {
            Ok(p) => {
                &&& p.buckets_packed == file.subrange(
                    entry.buckets_offset as int,
                    entry.buckets_offset + entry.buckets_packed_bytes,
                )
                &&& entry.sentinel_count > 0 ==> p.sentinel_indices == file.subrange(
                    entry.sentinel_indices_offset as int,
                    entry.sentinel_indices_offset + 4 * entry.sentinel_count,
                )
                &&& entry.sentinel_count == 0 ==> p.sentinel_indices.len() == 0
                &&& p.tile_states == file.subrange(
                    entry.tile_states_offset as int,
                    entry.tile_states_offset + 2 * entry.n_tiles,
                )
                &&& p.tile_nb_totals == file.subrange(
                    entry.tile_nb_totals_offset as int,
                    entry.tile_nb_totals_offset + 2 * entry.n_tiles,
                )
                &&& p.substream_states == file.subrange(
                    entry.substream_states_offset as int,
                    entry.substream_states_offset + 2 * (entry.n_tiles * entry.num_streams),
                )
                &&& p.substream_nb_totals == file.subrange(
                    entry.substream_nb_totals_offset as int,
                    entry.substream_nb_totals_offset + 2 * (entry.n_tiles * entry.num_streams),
                )
                &&& p.tile_bitstream == file.subrange(
                    entry.tile_bitstream_offset as int,
                    entry.tile_bitstream_offset + 8 * entry.tile_bitstream_words,
                )
                &&& entry.beta_idx_bytes > 0 ==> p.beta_idx_packed == file.subrange(
                    entry.beta_idx_offset as int,
                    entry.beta_idx_offset + entry.beta_idx_bytes,
                )
                &&& entry.beta_idx_bytes == 0 ==> p.beta_idx_packed.len() == 0
                &&& entry.offset_idx_bytes > 0 ==> p.offset_idx_packed == file.subrange(
                    entry.offset_idx_offset as int,
                    entry.offset_idx_offset + entry.offset_idx_bytes,
                )
                &&& entry.offset_idx_bytes == 0 ==> p.offset_idx_packed.len() == 0
                &&& entry.beta_lloyd_bytes > 0 ==> p.beta_lloyd == file.subrange(
                    entry.beta_lloyd_offset as int,
                    entry.beta_lloyd_offset + entry.beta_lloyd_bytes,
                )
                &&& entry.beta_lloyd_bytes == 0 ==> p.beta_lloyd.len() == 0
                &&& entry.offset_lloyd_bytes > 0 ==> p.offset_lloyd == file.subrange(
                    entry.offset_lloyd_offset as int,
                    entry.offset_lloyd_offset + entry.offset_lloyd_bytes,
                )
                &&& entry.offset_lloyd_bytes == 0 ==> p.offset_lloyd.len() == 0
                &&& p.n_blocks == entry.n_blocks
                &&& p.n_tiles == entry.n_tiles
                &&& p.num_streams == entry.num_streams
                &&& p.tile_bitstream_words == entry.tile_bitstream_words
                &&& p.sentinel_count == entry.sentinel_count
                &&& p.symbol_set_id == entry.symbol_set_id
                &&& p.tile_size == entry.tile_size
                &&& p.r == entry.r
                &&& p.b == entry.b
                &&& p.k_beta == entry.k_beta
                &&& p.k_offset == entry.k_offset
            },
            Err(LeechQ24ErrorView::NotLlvqTans { name, role }) => {
                &&& entry.role != Role::LlvqTans
                &&& name == entry.name
                &&& role == entry.role.tag()
            },
            Err(LeechQ24ErrorView::Truncated { offset, needed, len }) => {
                &&& entry.role == Role::LlvqTans
                &&& offset + needed > file.len()
                &&& len == file.len() as u64
            },
            Err(_) => false,
        },
{
    let streams = entry.n_tiles * entry.num_streams;
    assert(streams >= 0) by (nonlinear_arith)
        requires
            streams == entry.n_tiles * entry.num_streams,
    ;
    assert(streams * 2 == 2 * streams);
}

/// The first section that is missing is the one complained of: in the order of
/// buckets, sentinels, tiles, substreams, bit stream, indices and centroids, with
/// absent sections left out. Where a section starts and how long it is have to be
/// `usize`s.
#[verifier::spinoff_prover]
#[verifier::rlimit(60)]
pub proof fn first_missing_section_is_reported(entry: TocEntryView, file: Seq<u8>, j: int)
    requires
        entry.buckets_offset <= usize::MAX,
        entry.buckets_packed_bytes <= usize::MAX,
        entry.sentinel_indices_offset <= usize::MAX,
        4 * entry.sentinel_count <= usize::MAX,
        entry.tile_states_offset <= usize::MAX,
        2 * entry.n_tiles <= usize::MAX,
        entry.tile_nb_totals_offset <= usize::MAX,
        entry.substream_states_offset <= usize::MAX,
        2 * (entry.n_tiles * entry.num_streams) <= usize::MAX,
        entry.substream_nb_totals_offset <= usize::MAX,
        entry.tile_bitstream_offset <= usize::MAX,
        8 * entry.tile_bitstream_words <= usize::MAX,
        entry.beta_idx_offset <= usize::MAX,
        entry.beta_idx_bytes <= usize::MAX,
        entry.offset_idx_offset <= usize::MAX,
        entry.offset_idx_bytes <= usize::MAX,
        entry.beta_lloyd_offset <= usize::MAX,
        entry.beta_lloyd_bytes <= usize::MAX,
        entry.offset_lloyd_offset <= usize::MAX,
        entry.offset_lloyd_bytes <= usize::MAX,
    ensures
        ({
            let sections: Seq<(bool, u64, int)> = seq![
                (true, entry.buckets_offset, entry.buckets_packed_bytes as int),
                (entry.sentinel_count > 0, entry.sentinel_indices_offset, 4 * entry.sentinel_count),
                (true, entry.tile_states_offset, 2 * entry.n_tiles),
                (true, entry.tile_nb_totals_offset, 2 * entry.n_tiles),
                (true, entry.substream_states_offset, 2 * (entry.n_tiles * entry.num_streams)),
                (true, entry.substream_nb_totals_offset, 2 * (entry.n_tiles * entry.num_streams)),
                (true, entry.tile_bitstream_offset, 8 * entry.tile_bitstream_words),
                (entry.beta_idx_bytes > 0, entry.beta_idx_offset, entry.beta_idx_bytes as int),
                (entry.offset_idx_bytes > 0, entry.offset_idx_offset, entry.offset_idx_bytes as int),
                (entry.beta_lloyd_bytes > 0, entry.beta_lloyd_offset, entry.beta_lloyd_bytes as int),
                (entry.offset_lloyd_bytes > 0, entry.offset_lloyd_offset, entry.offset_lloyd_bytes as int),
            ];
            entry.role == Role::LlvqTans && 0 <= j < sections.len() && sections[j].0
                && sections[j].1 + sections[j].2 > file.len() && (forall|i: int|
                0 <= i < j && #[trigger] sections[i].0 ==> sections[i].1 + sections[i].2
                    <= file.len()) ==> payload_of(entry, file) == Err::<
                LlvqTansPayloadView,
                LeechQ24ErrorView,
            >(
                LeechQ24ErrorView::Truncated {
                    offset: sections[j].1,
                    needed: sections[j].2 as usize,
                    len: file.len() as u64,
                },
            )
        }),
{
    let sections: Seq<(bool, u64, int)> = seq![
        (true, entry.buckets_offset, entry.buckets_packed_bytes as int),
        (entry.sentinel_count > 0, entry.sentinel_indices_offset, 4 * entry.sentinel_count),
        (true, entry.tile_states_offset, 2 * entry.n_tiles),
        (true, entry.tile_nb_totals_offset, 2 * entry.n_tiles),
        (true, entry.substream_states_offset, 2 * (entry.n_tiles * entry.num_streams)),
        (true, entry.substream_nb_totals_offset, 2 * (entry.n_tiles * entry.num_streams)),
        (true, entry.tile_bitstream_offset, 8 * entry.tile_bitstream_words),
        (entry.beta_idx_bytes > 0, entry.beta_idx_offset, entry.beta_idx_bytes as int),
        (entry.offset_idx_bytes > 0, entry.offset_idx_offset, entry.offset_idx_bytes as int),
        (entry.beta_lloyd_bytes > 0, entry.beta_lloyd_offset, entry.beta_lloyd_bytes as int),
        (entry.offset_lloyd_bytes > 0, entry.offset_lloyd_offset, entry.offset_lloyd_bytes as int),
    ];
    let streams = entry.n_tiles * entry.num_streams;
    assert(streams >= 0) by (nonlinear_arith)
        requires
            streams == entry.n_tiles * entry.num_streams,
    ;
    assert(streams * 2 == 2 * streams);
    if entry.role == Role::LlvqTans && 0 <= j < sections.len() && sections[j].0 && sections[j].1
        + sections[j].2 > file.len() && (forall|i: int|
        0 <= i < j && #[trigger] sections[i].0 ==> sections[i].1 + sections[i].2 <= file.len()) {
        assert(j > 0 && sections[0].0 ==> sections[0].1 + sections[0].2 <= file.len());
        assert(j > 1 && sections[1].0 ==> sections[1].1 + sections[1].2 <= file.len());
        assert(j > 2 && sections[2].0 ==> sections[2].1 + sections[2].2 <= file.len());
        assert(j > 3 && sections[3].0 ==> sections[3].1 + sections[3].2 <= file.len());
        assert(j > 4 && sections[4].0 ==> sections[4].1 + sections[4].2 <= file.len());
        assert(j > 5 && sections[5].0 ==> sections[5].1 + sections[5].2 <= file.len());
        assert(j > 6 && sections[6].0 ==> sections[6].1 + sections[6].2 <= file.len());
        assert(j > 7 && sections[7].0 ==> sections[7].1 + sections[7].2 <= file.len());
        assert(j > 8 && sections[8].0 ==> sections[8].1 + sections[8].2 <= file.len());
        assert(j > 9 && sections[9].0 ==> sections[9].1 + sections[9].2 <= file.len());
    }
}

/// Centroids are looked up row by row: centroid `k` of row `r` is the
/// little-endian number that was written behind `r` whole rows and `k` centroids,
/// and there is none outside the table.
pub proof fn centroid_is_where_it_was_written(
    table: Seq<u8>,
    rows: u32,
    width: u32,
    r: u32,
    k: u32,
    v: u32,
)
    ensures
        ({
            let at = 4 * (r * width + k);
            &&& r < rows && k < width && at + 4 <= table.len() && table.subrange(at, at + 4)
                == u32_bytes(v) ==> centroid_bits(table, rows, width, r, k) == Some(v)
            &&& r >= rows || k >= width || at + 4 > table.len() ==> centroid_bits(
                table,
                rows,
                width,
                r,
                k,
            ) is None
        }),
{
    let at = 4 * (r * width + k);
    assert(r * width >= 0) by (nonlinear_arith);
    if at + 4 <= table.len() {
        u32_round_trip(table, at, v);
    }
}

/// Centroids come back: in the bytes of a table of centroids, written row by
/// row, every centroid is found at its row and its index.
pub proof fn written_centroids_come_back(
    table: Seq<u8>,
    rows: u32,
    width: u32,
    centroids: Seq<Seq<u32>>,
    r: u32,
    k: u32,
)
    requires
        centroids.len() == rows,
        forall|i: int| 0 <= i < rows ==> #[trigger] centroids[i].len() == width,
        table.len() == 4 * (rows * width),
        forall|i: int, j: int|
            0 <= i < rows && 0 <= j < width ==> table.subrange(
                4 * (i * width + j),
                4 * (i * width + j) + 4,
            ) == u32_bytes(#[trigger] centroids[i][j]),
        r < rows,
        k < width,
    ensures
        centroid_bits(table, rows, width, r, k) == Some(centroids[r as int][k as int]),
{
    let v = centroids[r as int][k as int];
    lemma_centroid_inside(rows as int, width as int, r as int, k as int);
    centroid_is_where_it_was_written(table, rows, width, r, k, v);
}

/// Sizes that can be computed are computed: a tensor whose tile, substream and
/// bit stream sizes are `u64`s fits.
pub proof fn countable_sections_fit(entry: TocEntryView, file: Seq<u8>)
    requires
        2 * entry.n_tiles <= u64::MAX,
        2 * (entry.n_tiles * entry.num_streams) <= u64::MAX,
        8 * entry.tile_bitstream_words <= u64::MAX,
    ensures
        section_sizes_fit(entry, file),
{
    let streams = entry.n_tiles * entry.num_streams;
    assert(streams * 2 == 2 * streams);
}

/// Bytes that `n` 3-bit indices take.
pub open spec fn index_bytes(n: int) -> int {
    (n * 3 + 7) / 8
}

/// Whether the byte counts of an entry agree with its element counts: room for
/// one bucket (and the safety byte) and one 3-bit index per block, four bytes
/// per centroid, and no offset bytes for a tensor without offsets.
pub open spec fn byte_counts_agree(entry: TocEntryView) -> bool {
    &&& entry.buckets_packed_bytes >= packed_len(entry.n_blocks as int)
    &&& entry.beta_idx_bytes >= index_bytes(entry.n_blocks as int)
    &&& entry.k_offset > 0 ==> entry.offset_idx_bytes >= index_bytes(entry.n_blocks as int)
    &&& entry.k_offset == 0 ==> entry.offset_idx_bytes == 0
    &&& entry.beta_lloyd_bytes == entry.r * entry.k_beta * 4
    &&& entry.offset_lloyd_bytes == entry.r * entry.k_offset * 4
}

proof fn lemma_centroid_inside(rows: int, width: int, r: int, k: int)
    requires
        0 <= r < rows,
        0 <= k < width,
    ensures
        0 <= centroid_offset(r, width, k),
        centroid_offset(r, width, k) + 4 <= rows * width * 4,
{
    assert(0 <= r * width && r * width + width <= rows * width) by (nonlinear_arith)
        requires
            0 <= r < rows,
            0 < width,
    ;
}

/// The sections of a tensor whose byte counts agree with its element counts
/// hold what they are for: a bucket and a 3-bit index for every block, `R x K`
/// centroids, every one of which is found, and no offset bytes for a tensor
/// without offsets. The byte counts have to fit a `usize`.
pub proof fn sections_hold_their_elements(entry: TocEntryView, file: Seq<u8>, r: u32, k: u32)
    requires
        byte_counts_agree(entry),
        entry.buckets_packed_bytes <= usize::MAX,
        entry.beta_idx_bytes <= usize::MAX,
        entry.offset_idx_bytes <= usize::MAX,
        entry.beta_lloyd_bytes <= usize::MAX,
        entry.offset_lloyd_bytes <= usize::MAX,
    ensures
        match payload_of(entry, file) {
            Ok(p) => {
                &&& p.buckets_packed.len() >= packed_len(p.n_blocks as int)
                &&& p.beta_idx_packed.len() >= index_bytes(p.n_blocks as int)
                &&& p.k_offset > 0 ==> p.offset_idx_packed.len() >= index_bytes(p.n_blocks as int)
                &&& p.k_offset == 0 ==> p.offset_idx_packed.len() == 0 && p.offset_lloyd.len() == 0
                &&& p.beta_lloyd.len() == p.r * p.k_beta * 4
                &&& p.offset_lloyd.len() == p.r * p.k_offset * 4
                &&& centroid_bits(p.beta_lloyd, p.r, p.k_beta, r, k) is Some <==> r < p.r && k
                    < p.k_beta
                &&& centroid_bits(p.offset_lloyd, p.r, p.k_offset, r, k) is Some <==> r < p.r && k
                    < p.k_offset
            },
            Err(_) => true,
        },
{
    if r < entry.r && k < entry.k_beta {
        lemma_centroid_inside(entry.r as int, entry.k_beta as int, r as int, k as int);
    }
    if r < entry.r && k < entry.k_offset {
        lemma_centroid_inside(entry.r as int, entry.k_offset as int, r as int, k as int);
    }
    assert(entry.k_offset == 0 ==> entry.r * entry.k_offset * 4 == 0) by (nonlinear_arith);
}

} // verus!
