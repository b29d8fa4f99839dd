//! A whole `.leech` file.

use vstd::prelude::*;

use crate::bytes::{
    crc32, crc32_hash, first_eight, lemma_cut_joined, lemma_cut_twice, read_u32_at, same_magic,
    u32_at, u32_bytes, u32_round_trip,
};
use crate::json::{clone_object, empty_object, json_len};
use crate::leech::container::{
    bad_pair, bad_pair_text, entry_fits, header_bytes, header_comes_back, header_of,
    role_dtype_allowed, toc_entry_bytes, toc_entry_comes_back, toc_entry_of, validate_role_dtype,
    Header, Role, TocEntry, TocEntryView, FIXED_PREFIX_SIZE, FORMAT_VERSION, HEADER_SIZE, MAGIC,
    TOC_ENTRY_SIZE, TOC_SHAPE_MAX_RANK,
};
use crate::leech::error::{outcome_view, LeechError, LeechErrorView, Result};
use crate::leech::overlay::{
    encoded_name, entry_views, overlay_block_bytes, overlay_block_of, overlay_block_size,
    overlays_come_back, parse_overlay_block, OverlayEntry, OverlayEntryView, OVERLAY_HEADER_SIZE,
};
use crate::leech::payload::{
    payload_bytes_of, payload_comes_back, payload_consistent, payload_fault, payload_of,
    payload_sizes_fit, LlvqPayload, LlvqPayloadView,
};
use crate::text::{cat5, quote, quoted, same_text};

verus! {

pub const EXPECTED_SCHEMA: &'static str = "LLVQ_NIEMEIER_G24_v1";

/// Subset of the manifest JSON that the loader consults.
#[derive(Debug)]
pub struct Manifest {
    pub format_version: u32,
    pub structural_schema_version: String,
    pub global: GlobalInfo,
    /// All other members, for downstream tools that need everything.
    pub extra: serde_json::Map<String, serde_json::Value>,
}

#[derive(Debug, Clone, Copy)]
pub struct GlobalInfo {
    pub ms_bulk: Option<u32>,
    pub ms_embed: Option<u32>,
    pub ms_head: Option<u32>,
    pub offset_bits: Option<u32>,
    pub k_beta: Option<u32>,
    pub k_offset: Option<u32>,
    pub leech_group_dim: Option<u32>,
    pub tensor_count: Option<u32>,
    pub llvq_count: Option<u32>,
    pub passthrough_count: Option<u32>,
    pub overlay_count: Option<u32>,
    pub leftover_columns_zero: Option<bool>,
}

/// Nothing known.
pub open spec fn no_global_info() -> GlobalInfo {
    GlobalInfo {
        ms_bulk: None,
        ms_embed: None,
        ms_head: None,
        offset_bits: None,
        k_beta: None,
        k_offset: None,
        leech_group_dim: None,
        tensor_count: None,
        llvq_count: None,
        passthrough_count: None,
        overlay_count: None,
        leftover_columns_zero: None,
    }
}

impl Default for GlobalInfo {
    fn default() -> (r: Self)
        ensures
            r == no_global_info(),
            r.ms_bulk is None && r.ms_embed is None && r.ms_head is None,
            r.offset_bits is None && r.k_beta is None && r.k_offset is None,
            r.leech_group_dim is None && r.tensor_count is None && r.llvq_count is None,
            r.passthrough_count is None && r.overlay_count is None,
            r.leftover_columns_zero is None,
    {
        GlobalInfo {
            ms_bulk: None,
            ms_embed: None,
            ms_head: None,
            offset_bits: None,
            k_beta: None,
            k_offset: None,
            leech_group_dim: None,
            tensor_count: None,
            llvq_count: None,
            passthrough_count: None,
            overlay_count: None,
            leftover_columns_zero: None,
        }
    }
}

impl Default for Manifest {
    fn default() -> (r: Self)
        ensures
            r.format_version == 0,
            r.structural_schema_version@ == Seq::<char>::empty(),
            r.global == no_global_info(),
            json_len(r.extra) == 0,
    {
        Manifest {
            format_version: 0,
            structural_schema_version: String::new(),
            global: GlobalInfo::default(),
            extra: empty_object(),
        }
    }
}

impl Clone for Manifest {
    fn clone(&self) -> (r: Self)
        ensures
            r.format_version == self.format_version,
            r.structural_schema_version@ == self.structural_schema_version@,
            r.global == self.global,
            r.extra == self.extra,
    {
        Manifest {
            format_version: self.format_version,
            structural_schema_version: self.structural_schema_version.clone(),
            global: self.global,
            extra: clone_object(&self.extra),
        }
    }
}

/// How aggressively to verify on open.
#[derive(Debug, Clone, Copy)]
pub struct OpenOptions {
    /// Run CRC32 over `[0, file_size - 4)` and compare to the trailing u32.
    /// Disabled by default because it touches the whole file.
    pub verify_crc: bool,
    /// Enforce `structural_schema_version == "LLVQ_NIEMEIER_G24_v1"`.
    /// Default true: foreign lattices are not read.
    pub require_schema: bool,
}

impl Default for OpenOptions {
    fn default() -> (r: Self)
        ensures
            r == (OpenOptions { verify_crc: false, require_schema: true }),
    {
        OpenOptions { verify_crc: false, require_schema: true }
    }
}

/// The bytes `[offset, offset + size)`, or the complaint that they are not all
/// there.
pub open spec fn slice_of(bytes: Seq<u8>, offset: usize, size: usize) -> core::result::Result<
    Seq<u8>,
    LeechErrorView,
> {
    if offset + size > bytes.len() {
        Err(LeechErrorView::Truncated { offset: offset as u64, needed: size, len: bytes.len() as u64 })
    } else {
        Ok(bytes.subrange(offset as int, offset + size))
    }
}

/// Cuts out the bytes `[offset, offset + size)`.
pub fn slice_or_truncated(bytes: &[u8], offset: usize, size: usize) -> (r: Result<&[u8]>)
    ensures
        outcome_view(r) == slice_of(bytes@, offset, size),
        r is Ok <==> offset + size <= bytes@.len(),
        r matches Ok(s) ==> s@ == bytes@.subrange(offset as int, offset + size),
{
    let end: usize = match offset.checked_add(size) {
        Some(end) => end,
        None => {
            return Err(
                LeechError::Truncated {
                    offset: offset as u64,
                    needed: size,
                    len: bytes.len() as u64,
                },
            );
        },
    };
    if end > bytes.len() {
        return Err(
            LeechError::Truncated { offset: offset as u64, needed: size, len: bytes.len() as u64 },
        );
    }
    Ok(&bytes[offset..end])
}

/// The header of a file that is long enough to have one.
pub open spec fn file_header(bytes: Seq<u8>) -> Header {
    header_of(bytes.subrange(8, 8 + HEADER_SIZE))
}

/// The manifest text of a file, or the first thing wrong with what comes
/// before it.
pub open spec fn manifest_text(bytes: Seq<u8>) -> core::result::Result<Seq<u8>, LeechErrorView> {
    let header = file_header(bytes);
    if bytes.len() < FIXED_PREFIX_SIZE + 4 {
        Err(
            LeechErrorView::Truncated {
                offset: 0,
                needed: (FIXED_PREFIX_SIZE + 4) as usize,
                len: bytes.len() as u64,
            },
        )
    } else if bytes.subrange(0, 8) != MAGIC@ {
        Err(LeechErrorView::BadMagic { got: bytes.subrange(0, 8) })
    } else if header.format_version != FORMAT_VERSION {
        Err(LeechErrorView::UnsupportedVersion(header.format_version))
    } else {
        slice_of(
            bytes,
            header.manifest_json_offset as usize,
            header.manifest_json_size as usize,
        )
    }
}

/// Entry `i` of a TOC, or what is wrong with it.
pub open spec fn toc_slot(toc: Seq<u8>, i: int) -> core::result::Result<
    TocEntryView,
    LeechErrorView,
> {
    match toc_entry_of(toc.subrange(i * TOC_ENTRY_SIZE, (i + 1) * TOC_ENTRY_SIZE), i as usize) {
        Err(e) => Err(e),
        Ok(entry) => if role_dtype_allowed(entry.role, entry.dtype_tag) {
            Ok(entry)
        } else {
            Err(
                LeechErrorView::BadTocEntry {
                    idx: i as usize,
                    reason: bad_pair_text(entry.role, entry.dtype_tag),
                },
            )
        },
    }
}

/// The first bad entry at or after `from`, or `count` when there is none.
pub open spec fn first_bad_slot(toc: Seq<u8>, from: int, count: int) -> int
    decreases count - from,
{
    if from >= count || toc_slot(toc, from) is Err {
        from
    } else {
        first_bad_slot(toc, from + 1, count)
    }
}

/// All entries of a TOC, or what is wrong with the first bad one.
pub open spec fn toc_entries_of(toc: Seq<u8>, count: int) -> core::result::Result<
    Seq<TocEntryView>,
    LeechErrorView,
> {
    let bad = first_bad_slot(toc, 0, count);
    if bad < count {
        Err(toc_slot(toc, bad)->Err_0)
    } else {
        Ok(Seq::new(count as nat, |i: int| toc_slot(toc, i)->Ok_0))
    }
}

/// The TOC of a file with this header, or what is wrong with it.
pub open spec fn file_toc(bytes: Seq<u8>, header: Header) -> core::result::Result<
    Seq<TocEntryView>,
    LeechErrorView,
> {
    let count = header.toc_entry_count as usize;
    if count * TOC_ENTRY_SIZE > usize::MAX {
        Err(
            LeechErrorView::Truncated {
                offset: header.toc_offset,
                needed: usize::MAX,
                len: bytes.len() as u64,
            },
        )
    } else {
        match slice_of(bytes, header.toc_offset as usize, (count * TOC_ENTRY_SIZE) as usize) {
            Err(e) => Err(e),
            Ok(toc) => toc_entries_of(toc, count as int),
        }
    }
}

/// The checksum in the last four bytes of a file.
pub open spec fn trailing_crc(bytes: Seq<u8>) -> u32 {
    u32_at(bytes, bytes.len() - 4)
}

/// The checksum of all bytes of a file but the last four.
pub open spec fn content_crc(bytes: Seq<u8>) -> u32 {
    crc32(bytes.subrange(0, bytes.len() - 4))
}

/// What a [`LeechFile`] holds.
pub struct LeechFileView {
    pub bytes: Seq<u8>,
    pub header: Header,
    pub manifest: Manifest,
    pub toc: Seq<TocEntryView>,
}

impl LeechFileView {
    /// The parts belong together: the bytes are a `.leech` file with this
    /// header and this TOC.
    pub open spec fn valid(self) -> bool {
        &&& manifest_text(self.bytes) is Ok
        &&& self.header == file_header(self.bytes)
        &&& file_toc(self.bytes, self.header) == Ok::<Seq<TocEntryView>, LeechErrorView>(self.toc)
    }
}

/// What loading a file gives, with `manifest` being what its manifest text
/// parsed to.
pub open spec fn loaded(
    bytes: Seq<u8>,
    manifest: core::result::Result<Manifest, serde_json::Error>,
    opts: OpenOptions,
) -> core::result::Result<LeechFileView, LeechErrorView> {
    let header = file_header(bytes);
    match manifest_text(bytes) {
        Err(e) => Err(e),
        Ok(_) => match manifest {
            Err(e) => Err(LeechErrorView::Json(e)),
            Ok(manifest) => if opts.require_schema && manifest.structural_schema_version@
                != EXPECTED_SCHEMA@ {
                Err(
                    LeechErrorView::SchemaMismatch {
                        got: manifest.structural_schema_version@,
                        expected: EXPECTED_SCHEMA@,
                    },
                )
            } else {
                match file_toc(bytes, header) {
                    Err(e) => Err(e),
                    Ok(toc) => if opts.verify_crc && trailing_crc(bytes) != content_crc(bytes) {
                        Err(
                            LeechErrorView::CrcMismatch {
                                file: trailing_crc(bytes),
                                computed: content_crc(bytes),
                            },
                        )
                    } else {
                        Ok(LeechFileView { bytes, header, manifest, toc })
                    },
                }
            },
        },
    }
}

/// The views of a list of TOC entries.
pub open spec fn toc_views(toc: Seq<TocEntry>) -> Seq<TocEntryView> {
    Seq::new(toc.len(), |i: int| toc[i]@)
}

/// A list of entries is seen entry by entry, in order.
pub proof fn entries_seen_in_order(toc: Seq<TocEntry>, last: TocEntry)
    ensures
        toc_views(Seq::empty()).len() == 0,
        toc_views(toc.push(last)) == toc_views(toc).push(last@),
{
    assert(toc_views(toc.push(last)) =~= toc_views(toc).push(last@));
}

/// A `.leech` file: its bytes plus the parsed prefix.
pub struct LeechFile<'a> {
    bytes: &'a [u8],
    header: Header,
    manifest: Manifest,
    toc: Vec<TocEntry>,
}

impl<'a> View for LeechFile<'a> {
    type V = LeechFileView;

    closed spec fn view(&self) -> LeechFileView {
        LeechFileView {
            bytes: self.bytes@,
            header: self.header,
            manifest: self.manifest,
            toc: toc_views(self.toc@),
        }
    }
}

/// Reads all entries of a TOC.
fn read_toc(toc_buf: &[u8], count: usize) -> (r: Result<Vec<TocEntry>>)
    requires
        toc_buf.len() == count * TOC_ENTRY_SIZE,
    ensures
        match toc_entries_of(toc_buf@, count as int) {
            Ok(toc) => r matches Ok(v) && toc_views(v@) == toc,
            Err(e) => r matches Err(f) && f@ == e,
        },
{
    let mut toc: Vec<TocEntry> = Vec::with_capacity(count);
    let mut i: usize = 0;
    while i < count
        invariant
            i <= count,
            toc_buf.len() == count * TOC_ENTRY_SIZE,
            first_bad_slot(toc_buf@, 0, count as int) == first_bad_slot(
                toc_buf@,
                i as int,
                count as int,
            ),
            toc_views(toc@) == Seq::new(i as nat, |k: int| toc_slot(toc_buf@, k)->Ok_0),
        decreases count - i,
    {
        let start: usize = i * TOC_ENTRY_SIZE;
        let entry: TocEntry = match TocEntry::unpack(&toc_buf[start..start + TOC_ENTRY_SIZE], i) {
            Ok(entry) => entry,
            Err(e) => {
                return Err(e);
            },
        };
        if let Err(_) = validate_role_dtype(entry.role, entry.dtype_tag) {
            return Err(
                LeechError::BadTocEntry { idx: i, reason: bad_pair(entry.role, entry.dtype_tag) },
            );
        }
        let ghost before = toc_views(toc@);
        let ghost last = entry@;
        toc.push(entry);
        proof {
            assert(toc_views(toc@) =~= before.push(last));
        }
        i = i + 1;
    }
    Ok(toc)
}

/// Checks what comes before the manifest.
fn read_prefix(bytes: &[u8]) -> (r: Result<(Header, &[u8])>)
    ensures
        match manifest_text(bytes@) {
            Ok(text) => r matches Ok(v) && v.0 == file_header(bytes@) && v.1@ == text,
            Err(e) => r matches Err(f) && f@ == e,
        },
{
    if bytes.len() < FIXED_PREFIX_SIZE + 4 {
        return Err(
            LeechError::Truncated {
                offset: 0,
                needed: FIXED_PREFIX_SIZE + 4,
                len: bytes.len() as u64,
            },
        );
    }
    let magic: [u8; 8] = first_eight(bytes);
    if !same_magic(&magic, &MAGIC) {
        return Err(LeechError::BadMagic { got: magic });
    }
    let header: Header = match Header::unpack(&bytes[8..8 + HEADER_SIZE]) {
        Ok(header) => header,
        Err(e) => {
            return Err(e);
        },
    };
    if header.format_version != FORMAT_VERSION {
        return Err(LeechError::UnsupportedVersion(header.format_version));
    }
    let m_off: usize = header.manifest_json_offset as usize;
    let m_size: usize = header.manifest_json_size as usize;
    match slice_or_truncated(bytes, m_off, m_size) {
        Ok(text) => Ok((header, text)),
        Err(e) => Err(e),
    }
}

impl<'a> LeechFile<'a> {
    #[verifier::type_invariant]
    spec fn inv(self) -> bool {
        self@.valid()
    }

    /// The manifest's JSON text, once the bytes before it check out.
    pub fn manifest_bytes(bytes: &'a [u8]) -> (r: Result<&'a [u8]>)
        ensures
            outcome_view(r) == manifest_text(bytes@),
    {
        match read_prefix(bytes) {
            Ok((_, text)) => Ok(text),
            Err(e) => Err(e),
        }
    }

    /// Loads a file; `manifest` is what the bytes of
    /// [`LeechFile::manifest_bytes`] parse to.
    pub fn from_bytes(
        bytes: &'a [u8],
        manifest: core::result::Result<Manifest, serde_json::Error>,
        opts: OpenOptions,
    ) -> (r: Result<Self>)
        ensures
            outcome_view(r) == loaded(bytes@, manifest, opts),
    {
        let (header, _): (Header, &[u8]) = match read_prefix(bytes) {
            Ok(v) => v,
            Err(e) => {
                return Err(e);
            },
        };
        let manifest: Manifest = match manifest {
            Ok(manifest) => manifest,
            Err(e) => {
                return Err(LeechError::Json(e));
            },
        };
        if opts.require_schema && !same_text(
            manifest.structural_schema_version.as_str(),
            EXPECTED_SCHEMA,
        ) {
            return Err(
                LeechError::SchemaMismatch {
                    got: manifest.structural_schema_version.clone(),
                    expected: EXPECTED_SCHEMA.to_owned(),
                },
            );
        }
        let toc_off: usize = header.toc_offset as usize;
        let toc_count: usize = header.toc_entry_count as usize;
        let toc_bytes_len: usize = match toc_count.checked_mul(TOC_ENTRY_SIZE) {
            Some(n) => n,
            None => {
                return Err(
                    LeechError::Truncated {
                        offset: header.toc_offset,
                        needed: usize::MAX,
                        len: bytes.len() as u64,
                    },
                );
            },
        };
        let toc_buf: &[u8] = match slice_or_truncated(bytes, toc_off, toc_bytes_len) {
            Ok(s) => s,
            Err(e) => {
                return Err(e);
            },
        };
        let toc: Vec<TocEntry> = match read_toc(toc_buf, toc_count) {
            Ok(toc) => toc,
            Err(e) => {
                return Err(e);
            },
        };
        if opts.verify_crc {
            let stored: u32 = read_u32_at(bytes, bytes.len() - 4);
            let computed: u32 = crc32_hash(&bytes[0..bytes.len() - 4]);
            if stored != computed {
                return Err(LeechError::CrcMismatch { file: stored, computed });
            }
        }
        Ok(LeechFile { bytes, header, manifest, toc })
    }

    pub fn header(&self) -> (r: &Header)
        ensures
            *r == self@.header,
            self@.valid(),
    {
        proof {
            use_type_invariant(self);
        }
        &self.header
    }

    pub fn manifest(&self) -> (r: &Manifest)
        ensures
            *r == self@.manifest,
    {
        &self.manifest
    }

    pub fn toc(&self) -> (r: &[TocEntry])
        ensures
            toc_views(r@) == self@.toc,
            self@.valid(),
    {
        proof {
            use_type_invariant(self);
        }
        self.toc.as_slice()
    }

    /// Number of TOC entries.
    pub fn tensor_count(&self) -> (r: usize)
        ensures
            r == self@.toc.len(),
            r == self@.header.toc_entry_count as usize,
    {
        proof {
            use_type_invariant(self);
            loaded_toc_is_complete(self@);
        }
        self.toc.len()
    }

    /// Raw bytes of the entire file.
    pub fn as_bytes(&self) -> (r: &'a [u8])
        ensures
            r@ == self@.bytes,
            self@.valid(),
    {
        proof {
            use_type_invariant(self);
        }
        self.bytes
    }

    /// Bytes for the payload of TOC entry `idx`.
    pub fn payload(&self, idx: usize) -> (r: Result<&'a [u8]>)
        ensures
            outcome_view(r) == payload_bytes(self@, idx),
            r matches Ok(s) ==> idx < self@.toc.len() && s@.len()
                == self@.toc[idx as int].payload_size as usize,
    {
        if idx >= self.toc.len() {
            return Err(
                LeechError::BadTocEntry { idx, reason: "index out of range".to_owned() },
            );
        }
        let entry: &TocEntry = &self.toc[idx];
        let off: usize = entry.payload_offset as usize;
        let size: usize = entry.payload_size as usize;
        slice_or_truncated(self.bytes, off, size)
    }

    /// Bytes for the per-tensor static table (LLVQ only; 0-size for
    /// passthroughs).
    pub fn static_table(&self, idx: usize) -> (r: Result<&'a [u8]>)
        requires
            static_table_addressable(self@, idx),
        ensures
            outcome_view(r) == static_table_bytes(self@, idx),
    {
        if idx >= self.toc.len() {
            return Err(
                LeechError::BadTocEntry { idx, reason: "index out of range".to_owned() },
            );
        }
        let entry: &TocEntry = &self.toc[idx];
        if entry.static_table_size == 0 {
            let none: &'a [u8] = &self.bytes[0..0];
            assert(none@ =~= Seq::empty());
            return Ok(none);
        }
        let base: usize = self.header.static_tables_offset as usize;
        let off: usize = base + entry.static_table_offset as usize;
        let size: usize = entry.static_table_size as usize;
        slice_or_truncated(self.bytes, off, size)
    }

    /// Parses the LLVQ payload of TOC entry `idx`.
    pub fn parse_llvq_payload(&self, idx: usize) -> (r: Result<LlvqPayload<'a>>)
        requires
            idx < self@.toc.len(),
            self@.toc[idx as int].role == Role::Llvq ==> match payload_bytes(self@, idx) {
                Ok(p) => payload_sizes_fit(p),
                Err(_) => true,
            },
        ensures
            outcome_view(r) == llvq_payload(self@, idx),
    {
        let entry: &TocEntry = &self.toc[idx];
        assert(self@.toc[idx as int] == entry@);
        if entry.role != Role::Llvq {
            return Err(
                LeechError::BadTocEntry {
                    idx,
                    reason: cat5(
                        "tensor ",
                        quote(entry.name.as_str()).as_str(),
                        " is not LLVQ (role=",
                        entry.role.name(),
                        ")",
                    ),
                },
            );
        }
        match self.payload(idx) {
            Ok(bytes) => LlvqPayload::parse(bytes, entry.name.as_str()),
            Err(e) => Err(e),
        }
    }

    /// Bytes for the OVERLAY_BLOCK, or `None` if the file has no overlays.
    pub fn overlay_bytes(&self) -> (r: Option<&'a [u8]>)
        requires
            overlay_addressable(self@.header),
        ensures
            match overlay_block(self@) {
                Some(block) => r matches Some(s) && s@ == block,
                None => r is None,
            },
    {
        proof {
            use_type_invariant(self);
        }
        if !self.header.has_overlays() || self.header.overlay_block_offset == 0 {
            return None;
        }
        let off: usize = self.header.overlay_block_offset as usize;
        let bytes: &'a [u8] = self.bytes;
        if off + OVERLAY_HEADER_SIZE > bytes.len() {
            return None;
        }
        let total: usize = read_u32_at(bytes, off + 4) as usize;
        let end: usize = match off.checked_add(total) {
            Some(end) => end,
            None => {
                return None;
            },
        };
        // Stop at (file end - 4) for the trailing CRC.
        let crc_floor: usize = bytes.len() - 4;
        if end > crc_floor {
            return None;
        }
        Some(&bytes[off..end])
    }

    /// Parses the overlay block, if present.
    pub fn overlays(&self) -> (r: Result<Vec<OverlayEntry<'a>>>)
        requires
            overlay_addressable(self@.header),
        ensures
            match overlay_entries(self@) {
                Ok(entries) => r matches Ok(v) && entry_views(v@) == entries,
                Err(e) => r matches Err(f) && f@ == e,
            },
    {
        match self.overlay_bytes() {
            Some(block) => parse_overlay_block(block),
            None => {
                let none: Vec<OverlayEntry<'a>> = Vec::new();
                assert(entry_views(none@) =~= Seq::empty());
                Ok(none)
            },
        }
    }

    /// Stored CRC32 from the last 4 bytes of the file.
    pub fn stored_crc(&self) -> (r: u32)
        ensures
            r == trailing_crc(self@.bytes),
    {
        proof {
            use_type_invariant(self);
        }
        read_u32_at(self.bytes, self.bytes.len() - 4)
    }

    /// Computes the CRC32. Does NOT compare; use for diagnostics.
    pub fn compute_crc(&self) -> (r: u32)
        ensures
            r == content_crc(self@.bytes),
    {
        proof {
            use_type_invariant(self);
        }
        crc32_hash(&self.bytes[0..self.bytes.len() - 4])
    }
}

proof fn lemma_good_slots(toc: Seq<u8>, from: int, count: int, i: int)
    requires
        0 <= from <= i < count,
        first_bad_slot(toc, from, count) >= count,
    ensures
        toc_slot(toc, i) is Ok,
    decreases count - from,
{
    if from < i {
        lemma_good_slots(toc, from + 1, count, i);
    }
}

/// A loaded file has one TOC entry for each record that its header announces,
/// in file order, and none of them is faulty: every role and dtype pair is
/// allowed, and no shape has more than eight dimensions.
pub proof fn loaded_toc_is_complete(file: LeechFileView)
    requires
        file.valid(),
    ensures
        file.toc.len() == file.header.toc_entry_count as usize,
        forall|i: int|
            0 <= i < file.toc.len() ==> {
                let at = (file.header.toc_offset as usize) + i * TOC_ENTRY_SIZE;
                let entry = #[trigger] file.toc[i];
                &&& at + TOC_ENTRY_SIZE <= file.bytes.len()
                &&& toc_entry_of(file.bytes.subrange(at, at + TOC_ENTRY_SIZE), i as usize) == Ok::<
                    TocEntryView,
                    LeechErrorView,
                >(entry)
                &&& role_dtype_allowed(entry.role, entry.dtype_tag)
                &&& entry.shape.len() == entry.rank <= TOC_SHAPE_MAX_RANK
            },
{
    let count = file.header.toc_entry_count as usize as int;
    let off = file.header.toc_offset as usize as int;
    let toc = file.bytes.subrange(off, off + count * TOC_ENTRY_SIZE);
    assert(file_toc(file.bytes, file.header) == toc_entries_of(toc, count));
    assert(first_bad_slot(toc, 0, count) >= count);
    assert forall|i: int| 0 <= i < file.toc.len() implies {
        let at = off + i * TOC_ENTRY_SIZE;
        let entry = #[trigger] file.toc[i];
        &&& at + TOC_ENTRY_SIZE <= file.bytes.len()
        &&& toc_entry_of(file.bytes.subrange(at, at + TOC_ENTRY_SIZE), i as usize) == Ok::<
            TocEntryView,
            LeechErrorView,
        >(entry)
        &&& role_dtype_allowed(entry.role, entry.dtype_tag)
        &&& entry.shape.len() == entry.rank <= TOC_SHAPE_MAX_RANK
    } by {
        lemma_good_slots(toc, 0, count, i);
        let at = off + i * TOC_ENTRY_SIZE;
        assert(toc.subrange(i * TOC_ENTRY_SIZE, (i + 1) * TOC_ENTRY_SIZE) =~= file.bytes.subrange(
            at,
            at + TOC_ENTRY_SIZE,
        ));
    }
}

/// A file that ends in the checksum of the rest has the checksum it should have.
pub proof fn sealed_file_matches(content: Seq<u8>)
    ensures
        ({
            let bytes = content + u32_bytes(crc32(content));
            &&& trailing_crc(bytes) == crc32(content)
            &&& content_crc(bytes) == crc32(content)
        }),
{
    let bytes = content + u32_bytes(crc32(content));
    lemma_cut_joined(content, u32_bytes(crc32(content)));
    u32_round_trip(bytes, content.len() as int, crc32(content));
}

/// The last four bytes of a file are its checksum, whatever they hold, and what
/// is summed up is everything before them.
pub proof fn checksum_is_of_the_rest(content: Seq<u8>, stored: u32)
    ensures
        trailing_crc(content + u32_bytes(stored)) == stored,
        content_crc(content + u32_bytes(stored)) == crc32(content),
{
    let bytes = content + u32_bytes(stored);
    lemma_cut_joined(content, u32_bytes(stored));
    u32_round_trip(bytes, content.len() as int, stored);
}

/// With `verify_crc` a file loads if and only if it loads without and its
/// stored checksum is the computed one; what is loaded is then the same.
pub proof fn crc_gate(
    bytes: Seq<u8>,
    manifest: core::result::Result<Manifest, serde_json::Error>,
    require_schema: bool,
)
    ensures
        loaded(bytes, manifest, OpenOptions { verify_crc: true, require_schema }) is Ok <==> {
            &&& loaded(bytes, manifest, OpenOptions { verify_crc: false, require_schema }) is Ok
            &&& trailing_crc(bytes) == content_crc(bytes)
        },
        loaded(bytes, manifest, OpenOptions { verify_crc: true, require_schema }) is Ok ==> loaded(
            bytes,
            manifest,
            OpenOptions { verify_crc: true, require_schema },
        ) == loaded(bytes, manifest, OpenOptions { verify_crc: false, require_schema }),
{
}

/// Every file that loads is consistent, and is of the expected schema when
/// that was asked for.
pub proof fn loaded_is_valid(
    bytes: Seq<u8>,
    manifest: core::result::Result<Manifest, serde_json::Error>,
    opts: OpenOptions,
)
    ensures
        match loaded(bytes, manifest, opts) {
            Ok(file) => {
                &&& file.valid()
                &&& file.bytes == bytes
                &&& Ok::<Manifest, serde_json::Error>(file.manifest) == manifest
                &&& opts.require_schema ==> file.manifest.structural_schema_version@
                    == EXPECTED_SCHEMA@
            },
            Err(_) => true,
        },
{
}

/// Whether a file was written with this header and this TOC: the magic, the
/// header record, and one record per entry stand where they belong, and there
/// is room for the manifest and the checksum.
pub open spec fn file_written(bytes: Seq<u8>, header: Header, toc: Seq<TocEntryView>) -> bool {
    &&& FIXED_PREFIX_SIZE + 4 <= bytes.len() <= usize::MAX
    &&& bytes.subrange(0, 8) == MAGIC@
    &&& bytes.subrange(8, 8 + HEADER_SIZE) == header_bytes(header)
    &&& header.format_version == FORMAT_VERSION
    &&& header.manifest_json_offset + header.manifest_json_size <= bytes.len()
    &&& header.toc_entry_count == toc.len()
    &&& header.toc_offset + toc.len() * TOC_ENTRY_SIZE <= bytes.len()
    &&& forall|i: int|
        0 <= i < toc.len() ==> {
            let entry = #[trigger] toc[i];
            let at = header.toc_offset + i * TOC_ENTRY_SIZE;
            &&& entry_fits(entry)
            &&& role_dtype_allowed(entry.role, entry.dtype_tag)
            &&& bytes.subrange(at, at + TOC_ENTRY_SIZE) == toc_entry_bytes(entry)
        }
}

proof fn lemma_all_slots_good(toc: Seq<u8>, from: int, count: int)
    requires
        0 <= from <= count,
        forall|i: int| 0 <= i < count ==> #[trigger] toc_slot(toc, i) is Ok,
    ensures
        first_bad_slot(toc, from, count) == count,
    decreases count - from,
{
    if from < count {
        assert(toc_slot(toc, from) is Ok);
        lemma_all_slots_good(toc, from + 1, count);
    }
}

proof fn lemma_slot_read_back(records: Seq<u8>, i: int, entry: TocEntryView)
    requires
        0 <= i,
        entry_fits(entry),
        role_dtype_allowed(entry.role, entry.dtype_tag),
        records.subrange(i * TOC_ENTRY_SIZE, (i + 1) * TOC_ENTRY_SIZE) == toc_entry_bytes(entry),
    ensures
        toc_slot(records, i) == Ok::<TocEntryView, LeechErrorView>(entry),
{
    toc_entry_comes_back(entry, i as usize);
}

#[verifier::rlimit(30)]
proof fn lemma_toc_read_back(bytes: Seq<u8>, header: Header, toc: Seq<TocEntryView>)
    requires
        file_written(bytes, header, toc),
    ensures
        file_toc(bytes, header) == Ok::<Seq<TocEntryView>, LeechErrorView>(toc),
{
    let count = toc.len() as int;
    let off = header.toc_offset as int;
    let room = count * TOC_ENTRY_SIZE;
    let records = bytes.subrange(off, off + room);
    assert forall|i: int| 0 <= i < count implies #[trigger] toc_slot(records, i) == Ok::<
        TocEntryView,
        LeechErrorView,
    >(toc[i]) by {
        lemma_cut_twice(bytes, off, room, i * TOC_ENTRY_SIZE, (i + 1) * TOC_ENTRY_SIZE);
        lemma_slot_read_back(records, i, toc[i]);
    }
    lemma_all_slots_good(records, 0, count);
    assert(Seq::new(count as nat, |i: int| toc_slot(records, i)->Ok_0) =~= toc);
}

/// What was written is loaded: a file that was written with a header and a TOC
/// loads with that header, that TOC and the given manifest, provided that the
/// schema and the checksum are right where they are asked for.
#[verifier::rlimit(30)]
pub proof fn written_file_loads(
    bytes: Seq<u8>,
    header: Header,
    toc: Seq<TocEntryView>,
    manifest: Manifest,
    opts: OpenOptions,
)
    requires
        file_written(bytes, header, toc),
        opts.require_schema ==> manifest.structural_schema_version@ == EXPECTED_SCHEMA@,
        opts.verify_crc ==> trailing_crc(bytes) == content_crc(bytes),
    ensures
        loaded(bytes, Ok(manifest), opts) == Ok::<LeechFileView, LeechErrorView>(
            LeechFileView { bytes, header, manifest, toc },
        ),
{
    header_comes_back(header);
    lemma_toc_read_back(bytes, header, toc);
}

/// Written overlays are loaded: the overlays of a file that holds a block
/// written with these entries, before its checksum, are these entries.
#[verifier::rlimit(30)]
pub proof fn written_overlays_load(file: LeechFileView, entries: Seq<OverlayEntryView>)
    requires
        file.valid(),
        file.bytes.len() <= usize::MAX,
        file.header.overlays_flag(),
        file.header.overlay_block_offset != 0,
        forall|k: int|
            0 <= k < entries.len() ==> encoded_name(#[trigger] entries[k]).len() <= 0xffff,
        overlay_block_size(entries) <= 0xffff_ffff,
        file.header.overlay_block_offset + overlay_block_size(entries) <= file.bytes.len() - 4,
        file.bytes.subrange(
            file.header.overlay_block_offset as int,
            file.header.overlay_block_offset + overlay_block_size(entries),
        ) == overlay_block_bytes(entries),
    ensures
        overlay_block(file) == Some(overlay_block_bytes(entries)),
        overlay_entries(file) == Ok::<Seq<OverlayEntryView>, LeechErrorView>(entries),
{
    let off = file.header.overlay_block_offset as int;
    let block = overlay_block_bytes(entries);
    overlays_come_back(entries);
    assert(block.len() >= OVERLAY_HEADER_SIZE);
    assert(u32_at(block, 4) == block.len());
    assert forall|k: int| 0 <= k < block.len() implies file.bytes[off + k] == #[trigger] block[k] by {
        assert(file.bytes.subrange(off, off + block.len())[k] == block[k]);
    }
    assert(block[4] == file.bytes[off + 4]);
    assert(block[5] == file.bytes[off + 5]);
    assert(block[6] == file.bytes[off + 6]);
    assert(block[7] == file.bytes[off + 7]);
    assert(u32_at(file.bytes, off + 4) == block.len());
}

/// The manifest comes back: a file's manifest text is handed out exactly when
/// the file has a prefix with the magic and version 1 and the text lies inside
/// it; it is then the bytes that the header says. The header's numbers have to
/// be `usize`s.
pub proof fn manifest_is_where_it_was_written(bytes: Seq<u8>, h: Header)
    requires
        h == header_of(bytes.subrange(8, 72)),
        h.manifest_json_offset <= usize::MAX,
        h.manifest_json_size <= usize::MAX,
    ensures
        manifest_text(bytes) is Ok <==> {
            &&& bytes.len() >= 76
            &&& bytes.subrange(0, 8) == MAGIC@
            &&& h.format_version == 1
            &&& h.manifest_json_offset + h.manifest_json_size <= bytes.len()
        },
        match manifest_text(bytes) {
            Ok(text) => text == bytes.subrange(
                h.manifest_json_offset as int,
                h.manifest_json_offset + h.manifest_json_size,
            ),
            Err(LeechErrorView::Truncated { offset, needed, len }) => offset + needed > bytes.len()
                && len == bytes.len() as u64,
            Err(LeechErrorView::BadMagic { got }) => bytes.len() >= 76 && got == bytes.subrange(
                0,
                8,
            ) && got != MAGIC@,
            Err(LeechErrorView::UnsupportedVersion(v)) => bytes.len() >= 76 && bytes.subrange(0, 8)
                == MAGIC@ && v == h.format_version && v != 1,
            Err(_) => false,
        },
{
}

/// A record of a TOC is accepted exactly when it is a readable entry whose role
/// and dtype go together, and gives that entry.
pub proof fn slot_is_its_record(toc: Seq<u8>, i: int)
    requires
        0 <= i,
        128 * i + 128 <= toc.len(),
    ensures
        ({
            let entry = toc_entry_of(toc.subrange(128 * i, 128 * i + 128), i as usize);
            &&& toc_slot(toc, i) is Ok <==> (entry matches Ok(e) && role_dtype_allowed(
                e.role,
                e.dtype_tag,
            ))
            &&& toc_slot(toc, i) is Ok ==> toc_slot(toc, i) == entry
            &&& entry is Err ==> toc_slot(toc, i) == entry
        }),
{
}

/// A TOC is read exactly when each of its records is accepted, and then as one
/// entry for each record, in order; otherwise the first record that is not
/// accepted is the one complained of.
pub proof fn toc_is_its_records(toc: Seq<u8>, count: int, bad: int)
    requires
        0 <= count,
    ensures
        (forall|i: int| 0 <= i < count ==> #[trigger] toc_slot(toc, i) is Ok) ==> {
            &&& toc_entries_of(toc, count) is Ok
            &&& toc_entries_of(toc, count)->Ok_0.len() == count
            &&& forall|i: int|
                0 <= i < count ==> toc_slot(toc, i) == Ok::<TocEntryView, LeechErrorView>(
                    #[trigger] toc_entries_of(toc, count)->Ok_0[i],
                )
        },
        0 <= bad < count && toc_slot(toc, bad) is Err && (forall|i: int|
            0 <= i < bad ==> #[trigger] toc_slot(toc, i) is Ok) ==> toc_entries_of(toc, count)
            == Err::<Seq<TocEntryView>, LeechErrorView>(toc_slot(toc, bad)->Err_0),
{
    if forall|i: int| 0 <= i < count ==> #[trigger] toc_slot(toc, i) is Ok {
        lemma_all_slots_good(toc, 0, count);
        assert forall|i: int| 0 <= i < count implies toc_slot(toc, i) == Ok::<
            TocEntryView,
            LeechErrorView,
        >(#[trigger] toc_entries_of(toc, count)->Ok_0[i]) by {
            assert(toc_slot(toc, i) is Ok);
        }
    }
    if 0 <= bad < count && toc_slot(toc, bad) is Err && (forall|i: int|
        0 <= i < bad ==> #[trigger] toc_slot(toc, i) is Ok) {
        lemma_first_bad(toc, 0, count, bad);
    }
}

proof fn lemma_first_bad(toc: Seq<u8>, from: int, count: int, bad: int)
    requires
        0 <= from <= bad < count,
        toc_slot(toc, bad) is Err,
        forall|i: int| 0 <= i < bad ==> #[trigger] toc_slot(toc, i) is Ok,
    ensures
        first_bad_slot(toc, from, count) == bad,
    decreases bad - from,
{
    if from < bad {
        assert(toc_slot(toc, from) is Ok);
        lemma_first_bad(toc, from + 1, count, bad);
    }
}

/// The TOC of a file is the 128-byte records at its offset, as many as its
/// header says, and is refused when the file does not have them all. The header's
/// numbers have to be `usize`s.
pub proof fn toc_is_where_it_was_written(bytes: Seq<u8>, header: Header)
    requires
        header.toc_offset <= usize::MAX,
        header.toc_entry_count <= usize::MAX,
        bytes.len() <= usize::MAX,
    ensures
        header.toc_offset + 128 * header.toc_entry_count <= bytes.len() ==> file_toc(bytes, header)
            == toc_entries_of(
            bytes.subrange(
                header.toc_offset as int,
                header.toc_offset + 128 * header.toc_entry_count,
            ),
            header.toc_entry_count as int,
        ),
        header.toc_offset + 128 * header.toc_entry_count > bytes.len() ==> file_toc(bytes, header)
            == Err::<Seq<TocEntryView>, LeechErrorView>(
            LeechErrorView::Truncated {
                offset: header.toc_offset,
                needed: if 128 * header.toc_entry_count <= usize::MAX {
                    (128 * header.toc_entry_count) as usize
                } else {
                    usize::MAX
                },
                len: bytes.len() as u64,
            },
        ),
{
}

/// A file loads exactly when its manifest text is there and parses, to the
/// expected schema where that is asked for, its TOC is read, and its checksum is
/// right where that is asked for; the first of these that does not hold is what
/// is refused.
pub proof fn file_accepted(
    bytes: Seq<u8>,
    manifest: core::result::Result<Manifest, serde_json::Error>,
    opts: OpenOptions,
)
    ensures
        loaded(bytes, manifest, opts) is Ok <==> {
            &&& manifest_text(bytes) is Ok
            &&& manifest is Ok
            &&& opts.require_schema ==> manifest->Ok_0.structural_schema_version@
                == "LLVQ_NIEMEIER_G24_v1"@
            &&& file_toc(bytes, file_header(bytes)) is Ok
            &&& opts.verify_crc ==> trailing_crc(bytes) == content_crc(bytes)
        },
        match loaded(bytes, manifest, opts) {
            Ok(file) => {
                &&& file.bytes == bytes
                &&& file.header == header_of(bytes.subrange(8, 72))
                &&& file_toc(bytes, file.header) == Ok::<Seq<TocEntryView>, LeechErrorView>(file.toc)
            },
            Err(e) => {
                ||| manifest_text(bytes) == Err::<Seq<u8>, LeechErrorView>(e)
                ||| manifest_text(bytes) is Ok && {
                    let schema = manifest->Ok_0.structural_schema_version@;
                    if manifest is Err {
                        e == LeechErrorView::Json(manifest->Err_0)
                    } else if opts.require_schema && schema != "LLVQ_NIEMEIER_G24_v1"@ {
                        e == (LeechErrorView::SchemaMismatch {
                            got: schema,
                            expected: "LLVQ_NIEMEIER_G24_v1"@,
                        })
                    } else if file_toc(bytes, file_header(bytes)) is Err {
                        file_toc(bytes, file_header(bytes)) == Err::<
                            Seq<TocEntryView>,
                            LeechErrorView,
                        >(e)
                    } else {
                        e == (LeechErrorView::CrcMismatch {
                            file: trailing_crc(bytes),
                            computed: content_crc(bytes),
                        })
                    }
                }
            },
        },
{
}

/// Written payloads come back: the payload of a TOC entry is handed out exactly
/// when there is such an entry and its bytes lie inside the file; it is then as
/// many bytes as the entry says, at the entry's offset. The entry's numbers have
/// to be `usize`s.
pub proof fn payload_is_where_it_was_written(file: LeechFileView, idx: usize, data: Seq<u8>)
    requires
        idx < file.toc.len() ==> file.toc[idx as int].payload_offset <= usize::MAX
            && file.toc[idx as int].payload_size <= usize::MAX,
    ensures
        idx >= file.toc.len() ==> payload_bytes(file, idx) == Err::<Seq<u8>, LeechErrorView>(
            LeechErrorView::BadTocEntry { idx, reason: "index out of range"@ },
        ),
        idx < file.toc.len() ==> {
            let at = file.toc[idx as int].payload_offset;
            let size = file.toc[idx as int].payload_size;
            &&& at + size <= file.bytes.len() && file.bytes.subrange(at as int, at + size) == data
                ==> payload_bytes(file, idx) == Ok::<Seq<u8>, LeechErrorView>(data) && data.len()
                == size
            &&& at + size > file.bytes.len() ==> payload_bytes(file, idx) == Err::<
                Seq<u8>,
                LeechErrorView,
            >(
                LeechErrorView::Truncated {
                    offset: at,
                    needed: size as usize,
                    len: file.bytes.len() as u64,
                },
            )
        },
{
}

/// Written static tables come back: the static table of a TOC entry is as many
/// bytes as the entry says, at the entry's offset from where the tables start;
/// none of them where it says none. Where it starts has to be a `usize`.
pub proof fn static_table_is_where_it_was_written(file: LeechFileView, idx: usize, data: Seq<u8>)
    requires
        idx < file.toc.len() ==> file.header.static_tables_offset
            + file.toc[idx as int].static_table_offset <= usize::MAX,
    ensures
        idx >= file.toc.len() ==> static_table_bytes(file, idx) == Err::<Seq<u8>, LeechErrorView>(
            LeechErrorView::BadTocEntry { idx, reason: "index out of range"@ },
        ),
        idx < file.toc.len() ==> {
            let at = file.header.static_tables_offset + file.toc[idx as int].static_table_offset;
            let size = file.toc[idx as int].static_table_size;
            &&& size == 0 ==> static_table_bytes(file, idx) == Ok::<Seq<u8>, LeechErrorView>(
                Seq::empty(),
            )
            &&& size > 0 && at + size <= file.bytes.len() && file.bytes.subrange(at, at + size)
                == data ==> static_table_bytes(file, idx) == Ok::<Seq<u8>, LeechErrorView>(data)
                && data.len() == size
            &&& size > 0 && at + size > file.bytes.len() ==> static_table_bytes(file, idx) == Err::<
                Seq<u8>,
                LeechErrorView,
            >(
                LeechErrorView::Truncated {
                    offset: at as u64,
                    needed: size as usize,
                    len: file.bytes.len() as u64,
                },
            )
        },
{
}

/// A written LLVQ tensor comes back: where the payload bytes of an LLVQ entry
/// are those of a payload, that payload is parsed; other entries have none.
pub proof fn written_llvq_payload_comes_back(file: LeechFileView, idx: usize, v: LlvqPayloadView)
    requires
        idx < file.toc.len(),
        payload_consistent(v),
        payload_bytes_of(v).len() <= usize::MAX,
        payload_bytes(file, idx) == Ok::<Seq<u8>, LeechErrorView>(payload_bytes_of(v)),
    ensures
        file.toc[idx as int].role == Role::Llvq ==> llvq_payload(file, idx) == Ok::<
            LlvqPayloadView,
            LeechErrorView,
        >(v),
        file.toc[idx as int].role != Role::Llvq ==> (llvq_payload(file, idx) matches Err(
            LeechErrorView::BadTocEntry { idx: place, .. },
        ) && place == idx),
{
    payload_comes_back(v);
}

/// A file has an overlay block exactly when its flag and its offset say so and
/// the block's header and all its bytes, of which it says itself how many, lie
/// inside the file, before the checksum; they are then the block. Where the
/// block lies has to be a `usize`.
pub proof fn overlay_block_is_where_it_was_written(file: LeechFileView, size: u32)
    requires
        ({
            let at = file.header.overlay_block_offset;
            &&& at <= usize::MAX
            &&& at + 16 <= file.bytes.len() ==> file.bytes.subrange(at + 4, at + 8) == u32_bytes(
                size,
            )
        }),
    ensures
        ({
            let at = file.header.overlay_block_offset;
            if file.header.overlays_flag() && at != 0 && at + 16 <= file.bytes.len() && at + size
                + 4 <= file.bytes.len() {
                overlay_block(file) == Some(file.bytes.subrange(at as int, at + size))
            } else {
                &&& overlay_block(file) is None
                &&& overlay_entries(file) == Ok::<Seq<OverlayEntryView>, LeechErrorView>(Seq::empty())
            }
        }),
        overlay_block(file) matches Some(block) ==> overlay_entries(file) == overlay_block_of(block),
{
    let at = file.header.overlay_block_offset;
    if at + 16 <= file.bytes.len() {
        u32_round_trip(file.bytes, at + 4, size);
    }
}

/// The payload bytes of TOC entry `idx`.
pub open spec fn payload_bytes(file: LeechFileView, idx: usize) -> core::result::Result<
    Seq<u8>,
    LeechErrorView,
> {
    if idx >= file.toc.len() {
        Err(LeechErrorView::BadTocEntry { idx, reason: "index out of range"@ })
    } else {
        let entry = file.toc[idx as int];
        slice_of(file.bytes, entry.payload_offset as usize, entry.payload_size as usize)
    }
}

/// Whether the address of a static table can be computed in a `usize`.
pub open spec fn static_table_addressable(file: LeechFileView, idx: usize) -> bool {
    idx < file.toc.len() && file.toc[idx as int].static_table_size != 0
        ==> file.header.static_tables_offset + file.toc[idx as int].static_table_offset
        <= usize::MAX
}

/// The static table of TOC entry `idx`.
pub open spec fn static_table_bytes(file: LeechFileView, idx: usize) -> core::result::Result<
    Seq<u8>,
    LeechErrorView,
> {
    if idx >= file.toc.len() {
        Err(LeechErrorView::BadTocEntry { idx, reason: "index out of range"@ })
    } else {
        let entry = file.toc[idx as int];
        if entry.static_table_size == 0 {
            Ok(Seq::empty())
        } else {
            slice_of(
                file.bytes,
                (file.header.static_tables_offset + entry.static_table_offset) as usize,
                entry.static_table_size as usize,
            )
        }
    }
}

/// The LLVQ payload of TOC entry `idx`.
pub open spec fn llvq_payload(file: LeechFileView, idx: usize) -> core::result::Result<
    LlvqPayloadView,
    LeechErrorView,
> {
    let entry = file.toc[idx as int];
    if entry.role != Role::Llvq {
        Err(
            LeechErrorView::BadTocEntry {
                idx,
                reason: "tensor "@ + quoted(entry.name) + " is not LLVQ (role="@
                    + entry.role.name_text() + ")"@,
            },
        )
    } else {
        match payload_bytes(file, idx) {
            Err(e) => Err(e),
            Ok(p) => match payload_fault(p) {
                Some(reason) => Err(LeechErrorView::BadPayloadHeader { name: entry.name, reason }),
                None => Ok(payload_of(p)),
            },
        }
    }
}

/// Whether the end of the overlay block's header can be computed in a `usize`.
pub open spec fn overlay_addressable(header: Header) -> bool {
    header.overlays_flag() && header.overlay_block_offset != 0 ==> (
    header.overlay_block_offset as usize) + OVERLAY_HEADER_SIZE <= usize::MAX
}

/// The overlay block of a file: `total_size` bytes from its offset, provided
/// that its header and all its bytes lie before the trailing checksum.
pub open spec fn overlay_block(file: LeechFileView) -> Option<Seq<u8>> {
    let off = (file.header.overlay_block_offset as usize) as int;
    let end = off + u32_at(file.bytes, off + 4);
    if !file.header.overlays_flag() || file.header.overlay_block_offset == 0 {
        None
    } else if off + OVERLAY_HEADER_SIZE > file.bytes.len() || end > file.bytes.len() - 4 {
        None
    } else {
        Some(file.bytes.subrange(off, end))
    }
}

/// The overlays of a file; none when it has no overlay block.
pub open spec fn overlay_entries(file: LeechFileView) -> core::result::Result<
    Seq<OverlayEntryView>,
    LeechErrorView,
> {
    match overlay_block(file) {
        Some(block) => overlay_block_of(block),
        None => Ok(Seq::empty()),
    }
}

} // verus!
