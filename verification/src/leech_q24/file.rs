//! A whole LEECHQ24 file.

use vstd::prelude::*;

use crate::bytes::{
    crc32, crc32_hash, first_eight, lemma_cut_joined, lemma_cut_twice, read_u32_at, same_magic,
    u32_at, u32_bytes, u32_list_bytes, u32_round_trip,
};
use crate::json::{json_value, parse_value};
use crate::leech_q24::codebook::{
    codebook_sets_come_back, codebook_sets_from, codebook_sets_layout, codebooks_of, is_padding,
    parse_codebook_blob, set_size, set_written, written_tables_come_back, CodebookSet,
    CB_HEADER_SIZE,
};
use crate::leech_q24::container::{
    entry_fits, header_bytes, header_comes_back, header_of, role_dtype_allowed, toc_entry_bytes,
    toc_entry_comes_back, toc_entry_of, v3_entry_is_single_stream, validate_role_dtype,
    Header, HeaderView, Role, TocEntry, TocEntryView, FORMAT_VERSION, FORMAT_VERSION_V3_COMPAT,
    HEADER_SIZE, HEADER_STRUCT_SIZE, MAGIC, TOC_ENTRY_SIZE,
};
use crate::leech_q24::error::{outcome, outcome_view, LeechQ24Error, LeechQ24ErrorView, Result};
use crate::leech_q24::payload::{
    build_llvq_tans_payload, check_section_sizes, payload_of, section_sizes_fit,
    single_stream_payload_aliases_tiles, slice_of, slice_or_truncated, LlvqTansPayload,
    LlvqTansPayloadView,
};
use crate::text::{cat3, cat4, decimal, quote, quoted, to_decimal};

verus! {

/// Open-time validation knobs.
#[derive(Debug, Clone, Copy)]
pub struct OpenOptions {
    /// Run CRC32 over `[0, file_size - 4)` and compare to the trailing u32.
    /// Disabled by default because it touches the entire file.
    pub verify_crc: bool,
    /// Enforce `validate_role_dtype` on every TOC entry. Default true.
    pub validate_toc: bool,
}

impl Default for OpenOptions {
    fn default() -> (r: Self)
        ensures
            r == (OpenOptions { verify_crc: false, validate_toc: true }),
    {
        OpenOptions { verify_crc: false, validate_toc: true }
    }
}

/// The header of a file that is long enough to have one.
pub open spec fn file_header(bytes: Seq<u8>) -> HeaderView {
    header_of(bytes.subrange(8, 8 + HEADER_STRUCT_SIZE))
}

/// The checksum in the last four bytes of a file.
pub open spec fn trailing_crc(bytes: Seq<u8>) -> u32 {
    u32_at(bytes, bytes.len() - 4)
}

/// The checksum of all bytes of a file but the last four.
pub open spec fn content_crc(bytes: Seq<u8>) -> u32 {
    crc32(bytes.subrange(0, bytes.len() - 4))
}

/// Whether files of this version are read.
pub open spec fn version_supported(v: u32) -> bool {
    v == FORMAT_VERSION || v == FORMAT_VERSION_V3_COMPAT
}

/// The first thing wrong with the magic, the header or the checksum of a file,
/// if any.
pub open spec fn prefix_fault(bytes: Seq<u8>, verify_crc: bool) -> Option<LeechQ24ErrorView> {
    let version = file_header(bytes).format_version;
    let header_size = file_header(bytes).header_size;
    if bytes.len() < HEADER_SIZE + 4 {
        Some(
            LeechQ24ErrorView::Truncated {
                offset: 0,
                needed: (HEADER_SIZE + 4) as usize,
                len: bytes.len() as u64,
            },
        )
    } else if bytes.subrange(0, 8) != MAGIC@ {
        Some(LeechQ24ErrorView::BadMagic { got: bytes.subrange(0, 8) })
    } else if !version_supported(version) {
        Some(LeechQ24ErrorView::UnsupportedVersion(version))
    } else if header_size != HEADER_SIZE {
        Some(
            LeechQ24ErrorView::BadTocEntry {
                idx: 0,
                reason: "header.header_size "@ + decimal(header_size as nat) + " != "@ + decimal(
                    HEADER_SIZE as nat,
                ),
            },
        )
    } else if verify_crc && trailing_crc(bytes) != content_crc(bytes) {
        Some(
            LeechQ24ErrorView::CrcMismatch {
                file: trailing_crc(bytes),
                computed: content_crc(bytes),
            },
        )
    } else {
        None
    }
}

/// The text for a role and dtype pair that a file may not use.
pub open spec fn bad_pair_text(entry: TocEntryView) -> Seq<char> {
    "invalid (role="@ + entry.role.name_text() + ", dtype="@ + entry.dtype_tag.name_text()
        + ") for tensor "@ + quoted(entry.name)
}

/// Entry `i` of a TOC, or what is wrong with it.
pub open spec fn toc_slot(
    toc: Seq<u8>,
    i: int,
    version: u32,
    validate: bool,
) -> core::result::Result<TocEntryView, LeechQ24ErrorView> {
    match toc_entry_of(
        toc.subrange(i * TOC_ENTRY_SIZE, (i + 1) * TOC_ENTRY_SIZE),
        i as usize,
        version,
    ) {
        Err(e) => Err(e),
        Ok(entry) => if !validate || role_dtype_allowed(entry.role, entry.dtype_tag) {
            Ok(entry)
        } else {
            Err(LeechQ24ErrorView::BadTocEntry { idx: i as usize, reason: bad_pair_text(entry) })
        },
    }
}

/// The first bad entry at or after `from`, or `count` when there is none.
pub open spec fn first_bad_slot(
    toc: Seq<u8>,
    from: int,
    count: int,
    version: u32,
    validate: bool,
) -> int
    decreases count - from,
{
    if from >= count || toc_slot(toc, from, version, validate) is Err {
        from
    } else {
        first_bad_slot(toc, from + 1, count, version, validate)
    }
}

/// All entries of a TOC, or what is wrong with the first bad one.
pub open spec fn toc_entries_of(
    toc: Seq<u8>,
    count: int,
    version: u32,
    validate: bool,
) -> core::result::Result<Seq<TocEntryView>, LeechQ24ErrorView> {
    let bad = first_bad_slot(toc, 0, count, version, validate);
    if bad < count {
        Err(toc_slot(toc, bad, version, validate)->Err_0)
    } else {
        Ok(Seq::new(count as nat, |i: int| toc_slot(toc, i, version, validate)->Ok_0))
    }
}

/// The TOC of a file with this header, or what is wrong with it.
pub open spec fn file_toc(bytes: Seq<u8>, header: HeaderView, validate: bool) -> core::result::Result<
    Seq<TocEntryView>,
    LeechQ24ErrorView,
> {
    let count = header.toc_entry_count as int;
    if count * TOC_ENTRY_SIZE > usize::MAX {
        Err(
            LeechQ24ErrorView::BadTocEntry {
                idx: 0,
                reason: "toc_entry_count * TOC_ENTRY_SIZE overflow"@,
            },
        )
    } else {
        match slice_of(bytes, header.toc_offset as usize, (count * TOC_ENTRY_SIZE) as usize) {
            Err(e) => Err(e),
            Ok(toc) => toc_entries_of(toc, count, header.format_version, validate),
        }
    }
}

/// What a [`LeechQ24File`] holds.
pub struct LeechQ24FileView {
    pub bytes: Seq<u8>,
    pub header: HeaderView,
    pub manifest: Seq<u8>,
    pub codebooks: Seq<CodebookSet>,
    pub toc: Seq<TocEntryView>,
}

/// What loading a file gives.
pub open spec fn loaded(bytes: Seq<u8>, opts: OpenOptions) -> core::result::Result<
    LeechQ24FileView,
    LeechQ24ErrorView,
> {
    let header = file_header(bytes);
    match prefix_fault(bytes, opts.verify_crc) {
        Some(e) => Err(e),
        None => match slice_of(
            bytes,
            header.manifest_offset as usize,
            header.manifest_size as usize,
        ) {
            Err(e) => Err(e),
            Ok(manifest) => match codebooks_of(
                bytes,
                header.codebook_offset,
                header.codebook_size,
            ) {
                Err(e) => Err(e),
                Ok(codebooks) => match file_toc(bytes, header, opts.validate_toc) {
                    Err(e) => Err(e),
                    Ok(toc) => Ok(LeechQ24FileView { bytes, header, manifest, codebooks, toc }),
                },
            },
        },
    }
}

impl LeechQ24FileView {
    /// The parts belong together: with some options the bytes load as these
    /// parts.
    #[verifier::opaque]
    pub open spec fn valid(self) -> bool {
        exists|opts: OpenOptions|
            #[trigger] loaded(self.bytes, opts) == Ok::<LeechQ24FileView, LeechQ24ErrorView>(self)
    }
}

/// The views of a list of TOC entries.
pub open spec fn toc_views(toc: Seq<TocEntry>) -> Seq<TocEntryView> {
    Seq::new(toc.len(), |i: int| toc[i]@)
}

/// A list of entries is seen entry by entry, in order.
pub proof fn entries_seen_in_order(toc: Seq<TocEntry>, last: TocEntry)
    ensures
        toc_views(Seq::empty()).len() == 0,
        toc_views(toc.push(last)) == toc_views(toc).push(last@),
{
    assert(toc_views(toc.push(last)) =~= toc_views(toc).push(last@));
}

/// A LEECHQ24 file: its bytes plus parsed prefix, manifest, codebooks, and TOC.
pub struct LeechQ24File<'a> {
    bytes: &'a [u8],
    header: Header,
    manifest_raw: &'a [u8],
    codebooks: Vec<CodebookSet>,
    toc: Vec<TocEntry>,
}

impl<'a> View for LeechQ24File<'a> {
    type V = LeechQ24FileView;

    closed spec fn view(&self) -> LeechQ24FileView {
        LeechQ24FileView {
            bytes: self.bytes@,
            header: self.header@,
            manifest: self.manifest_raw@,
            codebooks: self.codebooks@,
            toc: toc_views(self.toc@),
        }
    }
}

/// Reads all entries of a TOC.
fn read_toc(toc_buf: &[u8], count: usize, version: u32, validate: bool) -> (r: Result<
    Vec<TocEntry>,
>)
    requires
        toc_buf.len() == count * TOC_ENTRY_SIZE,
    ensures
        match toc_entries_of(toc_buf@, count as int, version, validate) {
            Ok(toc) => r matches Ok(v) && toc_views(v@) == toc,
            Err(e) => r matches Err(f) && f@ == e,
        },
{
    let mut toc: Vec<TocEntry> = Vec::with_capacity(count);
    let mut i: usize = 0;
    while i < count
        invariant
            i <= count,
            toc_buf.len() == count * TOC_ENTRY_SIZE,
            first_bad_slot(toc_buf@, 0, count as int, version, validate) == first_bad_slot(
                toc_buf@,
                i as int,
                count as int,
                version,
                validate,
            ),
            toc_views(toc@) == Seq::new(
                i as nat,
                |k: int| toc_slot(toc_buf@, k, version, validate)->Ok_0,
            ),
        decreases count - i,
    {
        let start: usize = i * TOC_ENTRY_SIZE;
        let entry: TocEntry = match TocEntry::unpack(
            &toc_buf[start..start + TOC_ENTRY_SIZE],
            i,
            version,
        ) {
            Ok(entry) => entry,
            Err(e) => {
                return Err(e);
            },
        };
        if validate {
            if let Err(_) = validate_role_dtype(entry.role, entry.dtype_tag) {
                return Err(LeechQ24Error::BadTocEntry { idx: i, reason: bad_pair(&entry) });
            }
        }
        let ghost before = toc_views(toc@);
        let ghost last = entry@;
        toc.push(entry);
        proof {
            assert(toc_views(toc@) =~= before.push(last));
        }
        i = i + 1;
    }
    Ok(toc)
}

fn bad_pair(entry: &TocEntry) -> (r: String)
    ensures
        r@ == bad_pair_text(entry@),
{
    let head: String = cat4(
        "invalid (role=",
        entry.role.name(),
        ", dtype=",
        entry.dtype_tag.name(),
    );
    cat3(head.as_str(), ") for tensor ", quote(entry.name.as_str()).as_str())
}

/// Checks the magic, the header and, if asked for, the checksum.
fn read_prefix(bytes: &[u8], verify_crc: bool) -> (r: Result<Header>)
    ensures
        match prefix_fault(bytes@, verify_crc) {
            Some(e) => r matches Err(f) && f@ == e,
            None => r matches Ok(h) && h@ == file_header(bytes@),
        },
{
    if bytes.len() < HEADER_SIZE + 4 {
        return Err(
            LeechQ24Error::Truncated {
                offset: 0,
                needed: HEADER_SIZE + 4,
                len: bytes.len() as u64,
            },
        );
    }
    let magic: [u8; 8] = first_eight(bytes);
    if !same_magic(&magic, &MAGIC) {
        return Err(LeechQ24Error::BadMagic { got: magic });
    }
    let header: Header = match Header::unpack(&bytes[8..8 + HEADER_STRUCT_SIZE]) {
        Ok(header) => header,
        Err(e) => {
            return Err(e);
        },
    };
    if header.format_version != FORMAT_VERSION && header.format_version
        != FORMAT_VERSION_V3_COMPAT {
        return Err(LeechQ24Error::UnsupportedVersion(header.format_version));
    }
    if header.header_size as usize != HEADER_SIZE {
        return Err(
            LeechQ24Error::BadTocEntry {
                idx: 0,
                reason: cat4(
                    "header.header_size ",
                    to_decimal(header.header_size as u64).as_str(),
                    " != ",
                    to_decimal(HEADER_SIZE as u64).as_str(),
                ),
            },
        );
    }
    if verify_crc {
        let stored: u32 = read_u32_at(bytes, bytes.len() - 4);
        let computed: u32 = crc32_hash(&bytes[0..bytes.len() - 4]);
        if stored != computed {
            return Err(LeechQ24Error::CrcMismatch { file: stored, computed });
        }
    }
    Ok(header)
}

impl<'a> LeechQ24File<'a> {
    #[verifier::type_invariant]
    spec fn inv(self) -> bool {
        self@.valid()
    }

    /// Loads a file.
    pub fn from_bytes(bytes: &'a [u8], opts: OpenOptions) -> (r: Result<Self>)
        ensures
            outcome_view(r) == loaded(bytes@, opts),
    {
        let header: Header = match read_prefix(bytes, opts.verify_crc) {
            Ok(header) => header,
            Err(e) => {
                return Err(e);
            },
        };
        let m_off: usize = header.manifest_offset as usize;
        let m_sz: usize = header.manifest_size as usize;
        let manifest_raw: &'a [u8] = match slice_or_truncated(bytes, m_off, m_sz) {
            Ok(s) => s,
            Err(e) => {
                return Err(e);
            },
        };
        let codebooks: Vec<CodebookSet> = match parse_codebook_blob(
            bytes,
            header.codebook_offset,
            header.codebook_size,
        ) {
            Ok(v) => v,
            Err(e) => {
                return Err(e);
            },
        };
        let toc_off: usize = header.toc_offset as usize;
        let toc_count: usize = header.toc_entry_count as usize;
        let toc_bytes_len: usize = match toc_count.checked_mul(TOC_ENTRY_SIZE) {
            Some(n) => n,
            None => {
                return Err(
                    LeechQ24Error::BadTocEntry {
                        idx: 0,
                        reason: "toc_entry_count * TOC_ENTRY_SIZE overflow".to_owned(),
                    },
                );
            },
        };
        let toc_buf: &[u8] = match slice_or_truncated(bytes, toc_off, toc_bytes_len) {
            Ok(s) => s,
            Err(e) => {
                return Err(e);
            },
        };
        let toc: Vec<TocEntry> = match read_toc(
            toc_buf,
            toc_count,
            header.format_version,
            opts.validate_toc,
        ) {
            Ok(toc) => toc,
            Err(e) => {
                return Err(e);
            },
        };
        proof {
            let view = LeechQ24FileView {
                bytes: bytes@,
                header: header@,
                manifest: manifest_raw@,
                codebooks: codebooks@,
                toc: toc_views(toc@),
            };
            assert(loaded(bytes@, opts) == Ok::<LeechQ24FileView, LeechQ24ErrorView>(view));
            loaded_is_valid(bytes@, opts);
        }
        Ok(LeechQ24File { bytes, header, manifest_raw, codebooks, toc })
    }

    pub fn header(&self) -> (r: &Header)
        ensures
            r@ == self@.header,
            self@.valid(),
    {
        proof {
            use_type_invariant(self);
        }
        &self.header
    }

    /// Raw manifest JSON bytes.
    pub fn manifest_json(&self) -> (r: &'a [u8])
        ensures
            r@ == self@.manifest,
    {
        self.manifest_raw
    }

    /// Parses the manifest as `serde_json::Value` for ad-hoc inspection.
    pub fn manifest_value(&self) -> (r: Result<serde_json::Value>)
        ensures
            outcome(r) == match json_value(self@.manifest) {
                Ok(v) => Ok::<serde_json::Value, LeechQ24ErrorView>(v),
                Err(e) => Err(LeechQ24ErrorView::Json(e)),
            },
    {
        json_result(parse_value(self.manifest_raw))
    }

    pub fn toc(&self) -> (r: &[TocEntry])
        ensures
            toc_views(r@) == self@.toc,
            self@.valid(),
    {
        proof {
            use_type_invariant(self);
        }
        self.toc.as_slice()
    }

    pub fn codebooks(&self) -> (r: &[CodebookSet])
        ensures
            r@ == self@.codebooks,
            self@.valid(),
    {
        proof {
            use_type_invariant(self);
        }
        self.codebooks.as_slice()
    }

    /// Locates a `CodebookSet` by its `symbol_set_id`.
    pub fn codebook_set(&self, symbol_set_id: u32) -> (r: Option<&CodebookSet>)
        ensures
            match find_set(self@.codebooks, symbol_set_id) {
                Some(i) => r matches Some(set) && *set == self@.codebooks[i],
                None => r is None,
            },
    {
        let mut i: usize = 0;
        while i < self.codebooks.len()
            invariant
                i <= self.codebooks.len(),
                self.codebooks@ == self@.codebooks,
                set_index(self@.codebooks, symbol_set_id, 0) == set_index(
                    self@.codebooks,
                    symbol_set_id,
                    i as int,
                ),
            decreases self.codebooks.len() - i,
        {
            if self.codebooks[i].symbol_set_id == symbol_set_id {
                return Some(&self.codebooks[i]);
            }
            i = i + 1;
        }
        None
    }

    /// Raw decode-tables blob for one symbol set (n_codebooks x M x u32 LE).
    pub fn decode_tables_bytes(&self, symbol_set_id: u32) -> (r: Option<&'a [u8]>)
        ensures
            match find_set(self@.codebooks, symbol_set_id) {
                Some(i) => r matches Some(s) && s@ == decode_tables(
                    self@.bytes,
                    self@.codebooks[i],
                ),
                None => r is None,
            },
    {
        proof {
            use_type_invariant(self);
        }
        let cb: &CodebookSet = match self.codebook_set(symbol_set_id) {
            Some(cb) => cb,
            None => {
                return None;
            },
        };
        proof {
            let i = find_set(self@.codebooks, symbol_set_id)->0;
            lemma_set_index(self@.codebooks, symbol_set_id, 0);
            loaded_tables_in_file(self@, i);
            assert(self@.bytes.len() == self.bytes.len());
        }
        let off: usize = cb.decode_tables_offset as usize;
        let sz: usize = cb.decode_tables_bytes as usize;
        if off + sz > self.bytes.len() {
            return None;
        }
        Some(&self.bytes[off..off + sz])
    }

    /// Raw bytes of the entire file. Useful for raw verification / hashing.
    pub fn as_bytes(&self) -> (r: &'a [u8])
        ensures
            r@ == self@.bytes,
            self@.valid(),
    {
        proof {
            use_type_invariant(self);
        }
        self.bytes
    }

    /// Whether [`LeechQ24File::llvq_tans_payload`] can compute every section
    /// size that TOC entry `idx` calls for.
    pub fn payload_sizes_fit(&self, idx: usize) -> (r: bool)
        ensures
            r == entry_sizes_fit(self@, idx),
    {
        if idx >= self.toc.len() {
            return true;
        }
        assert(self@.toc[idx as int] == self.toc@[idx as int]@);
        check_section_sizes(&self.toc[idx], self.bytes)
    }

    /// Slices for the LLVQ_TANS payload of TOC entry `idx`. Errors if the
    /// entry is not LLVQ_TANS or offsets are out of range.
    pub fn llvq_tans_payload(&self, idx: usize) -> (r: Result<LlvqTansPayload<'a>>)
        requires
            entry_sizes_fit(self@, idx),
        ensures
            outcome_view(r) == tensor_payload(self@, idx),
    {
        if idx >= self.toc.len() {
            return Err(
                LeechQ24Error::BadTocEntry { idx, reason: "index out of range".to_owned() },
            );
        }
        assert(self@.toc[idx as int] == self.toc@[idx as int]@);
        build_llvq_tans_payload(&self.toc[idx], self.bytes)
    }

    /// Locates a tensor by exact name; returns `(toc_index, &TocEntry)`.
    pub fn find_tensor(&self, name: &str) -> (r: Option<(usize, &TocEntry)>)
        ensures
            match find_name(self@.toc, name@) {
                Some(i) => r matches Some(found) && found.0 == i && found.1@ == self@.toc[i],
                None => r is None,
            },
    {
        let wanted: String = name.to_owned();
        let mut i: usize = 0;
        while i < self.toc.len()
            invariant
                i <= self.toc.len(),
                wanted@ == name@,
                toc_views(self.toc@) == self@.toc,
                name_index(self@.toc, name@, 0) == name_index(self@.toc, name@, i as int),
            decreases self.toc.len() - i,
        {
            assert(self@.toc[i as int] == self.toc@[i as int]@);
            if self.toc[i].name == wanted {
                return Some((i, &self.toc[i]));
            }
            i = i + 1;
        }
        None
    }

    /// Raw bytes for a passthrough / overlay tensor.
    pub fn passthrough_bytes(&self, idx: usize) -> (r: Result<&'a [u8]>)
        ensures
            outcome_view(r) == tensor_passthrough(self@, idx),
            r matches Ok(s) ==> idx < self@.toc.len() && s@.len()
                == self@.toc[idx as int].passthrough_size as usize,
    {
        if idx >= self.toc.len() {
            return Err(
                LeechQ24Error::BadTocEntry { idx, reason: "index out of range".to_owned() },
            );
        }
        let entry: &TocEntry = &self.toc[idx];
        assert(self@.toc[idx as int] == entry@);
        if entry.is_llvq_tans() {
            return Err(
                LeechQ24Error::BadTocEntry {
                    idx,
                    reason: cat3(
                        "tensor ",
                        quote(entry.name.as_str()).as_str(),
                        " is LLVQ_TANS (not passthrough)",
                    ),
                },
            );
        }
        slice_or_truncated(
            self.bytes,
            entry.passthrough_offset as usize,
            entry.passthrough_size as usize,
        )
    }

    /// Stored CRC32 from the last 4 bytes of the file.
    pub fn stored_crc(&self) -> (r: u32)
        ensures
            r == trailing_crc(self@.bytes),
    {
        proof {
            use_type_invariant(self);
            lemma_valid_len(self@);
        }
        read_u32_at(self.bytes, self.bytes.len() - 4)
    }

    /// Computes the file's CRC32 (does not compare).
    pub fn compute_crc(&self) -> (r: u32)
        ensures
            r == content_crc(self@.bytes),
    {
        proof {
            use_type_invariant(self);
            lemma_valid_len(self@);
        }
        crc32_hash(&self.bytes[0..self.bytes.len() - 4])
    }
}

/// Every file that loads is consistent.
pub proof fn loaded_is_valid(bytes: Seq<u8>, opts: OpenOptions)
    ensures
        match loaded(bytes, opts) {
            Ok(file) => file.valid() && file.bytes == bytes,
            Err(_) => true,
        },
{
    reveal(LeechQ24FileView::valid);
    if let Ok(file) = loaded(bytes, opts) {
        assert(loaded(file.bytes, opts) == Ok::<LeechQ24FileView, LeechQ24ErrorView>(file));
    }
}

proof fn lemma_valid_len(file: LeechQ24FileView)
    requires
        file.valid(),
    ensures
        file.bytes.len() >= HEADER_SIZE + 4,
{
    reveal(LeechQ24FileView::valid);
}

/// Turns a parse result into one of this module's results.
pub fn json_result(parsed: core::result::Result<serde_json::Value, serde_json::Error>) -> (r:
    Result<serde_json::Value>)
    ensures
        outcome(r) == match parsed {
            Ok(v) => Ok::<serde_json::Value, LeechQ24ErrorView>(v),
            Err(e) => Err(LeechQ24ErrorView::Json(e)),
        },
{
    match parsed {
        Ok(v) => Ok(v),
        Err(e) => Err(LeechQ24Error::Json(e)),
    }
}

/// The first symbol set at or after place `from` with this id, or the number
/// of sets when there is none.
pub open spec fn set_index(sets: Seq<CodebookSet>, id: u32, from: int) -> int
    decreases sets.len() - from,
{
    if from >= sets.len() || sets[from].symbol_set_id == id {
        from
    } else {
        set_index(sets, id, from + 1)
    }
}

/// The place of the first symbol set with this id.
pub open spec fn find_set(sets: Seq<CodebookSet>, id: u32) -> Option<int> {
    let i = set_index(sets, id, 0);
    if i < sets.len() {
        Some(i)
    } else {
        None
    }
}

proof fn lemma_set_index(sets: Seq<CodebookSet>, id: u32, from: int)
    requires
        0 <= from <= sets.len(),
    ensures
        from <= set_index(sets, id, from) <= sets.len(),
        forall|j: int| from <= j < set_index(sets, id, from) ==> sets[j].symbol_set_id != id,
    decreases sets.len() - from,
{
    if from < sets.len() && sets[from].symbol_set_id != id {
        lemma_set_index(sets, id, from + 1);
    }
}

/// A lookup finds a symbol set of that id whenever there is one, and finds the
/// first of several.
pub proof fn find_set_is_first(sets: Seq<CodebookSet>, id: u32)
    ensures
        match find_set(sets, id) {
            Some(i) => {
                &&& 0 <= i < sets.len()
                &&& sets[i].symbol_set_id == id
                &&& forall|j: int| 0 <= j < i ==> sets[j].symbol_set_id != id
            },
            None => forall|j: int| 0 <= j < sets.len() ==> sets[j].symbol_set_id != id,
        },
    decreases sets.len(),
{
    lemma_set_index(sets, id, 0);
    lemma_set_index_hit(sets, id, 0);
}

proof fn lemma_set_index_hit(sets: Seq<CodebookSet>, id: u32, from: int)
    requires
        0 <= from <= sets.len(),
    ensures
        set_index(sets, id, from) < sets.len() ==> sets[set_index(sets, id, from)].symbol_set_id
            == id,
    decreases sets.len() - from,
{
    if from < sets.len() && sets[from].symbol_set_id != id {
        lemma_set_index_hit(sets, id, from + 1);
    }
}

/// The decode tables of a symbol set.
pub open spec fn decode_tables(bytes: Seq<u8>, set: CodebookSet) -> Seq<u8> {
    bytes.subrange(
        set.decode_tables_offset as int,
        set.decode_tables_offset + set.decode_tables_bytes,
    )
}

/// The decode tables of every symbol set of a loaded file lie inside the file
/// and are 4 x 1024 entries of four bytes.
pub proof fn loaded_tables_in_file(file: LeechQ24FileView, i: int)
    requires
        file.valid(),
        0 <= i < file.codebooks.len(),
    ensures
        file.codebooks[i].decode_tables_offset + file.codebooks[i].decode_tables_bytes
            <= file.bytes.len(),
        decode_tables(file.bytes, file.codebooks[i]).len() == 4 * 1024 * 4,
{
    reveal(LeechQ24FileView::valid);
    let opts = choose|opts: OpenOptions|
        #[trigger] loaded(file.bytes, opts) == Ok::<LeechQ24FileView, LeechQ24ErrorView>(file);
    let h = file.header;
    let pos = (h.codebook_offset as usize) as int;
    let end = (((h.codebook_offset + h.codebook_size) as u64) as usize) as int;
    assert(codebooks_of(file.bytes, h.codebook_offset, h.codebook_size) == codebook_sets_from(
        file.bytes,
        pos,
        end,
    ));
    codebook_sets_layout(file.bytes, pos, end, i);
}

/// Every symbol set of a loaded file has four tables of 1024 entries of four
/// bytes.
pub proof fn loaded_sets_have_four_tables(file: LeechQ24FileView, i: int)
    requires
        file.valid(),
        0 <= i < file.codebooks.len(),
    ensures
        file.codebooks[i].n_codebooks == 4,
        file.codebooks[i].table_log == 10,
        file.codebooks[i].decode_tables_bytes == 16384,
{
    reveal(LeechQ24FileView::valid);
    let opts = choose|opts: OpenOptions|
        #[trigger] loaded(file.bytes, opts) == Ok::<LeechQ24FileView, LeechQ24ErrorView>(file);
    let h = file.header;
    let pos = (h.codebook_offset as usize) as int;
    let end = (((h.codebook_offset + h.codebook_size) as u64) as usize) as int;
    assert(codebooks_of(file.bytes, h.codebook_offset, h.codebook_size) == codebook_sets_from(
        file.bytes,
        pos,
        end,
    ));
    codebook_sets_layout(file.bytes, pos, end, i);
}

/// Whether the section sizes that TOC entry `idx` calls for can be computed.
pub open spec fn entry_sizes_fit(file: LeechQ24FileView, idx: usize) -> bool {
    idx < file.toc.len() ==> section_sizes_fit(file.toc[idx as int], file.bytes)
}

/// The LLVQ_TANS payload of TOC entry `idx`.
pub open spec fn tensor_payload(file: LeechQ24FileView, idx: usize) -> core::result::Result<
    LlvqTansPayloadView,
    LeechQ24ErrorView,
> {
    if idx >= file.toc.len() {
        Err(LeechQ24ErrorView::BadTocEntry { idx, reason: "index out of range"@ })
    } else {
        payload_of(file.toc[idx as int], file.bytes)
    }
}

/// The first TOC entry at or after place `from` with this name, or the number
/// of entries when there is none.
pub open spec fn name_index(toc: Seq<TocEntryView>, name: Seq<char>, from: int) -> int
    decreases toc.len() - from,
{
    if from >= toc.len() || toc[from].name == name {
        from
    } else {
        name_index(toc, name, from + 1)
    }
}

/// The place of the first TOC entry with this name.
pub open spec fn find_name(toc: Seq<TocEntryView>, name: Seq<char>) -> Option<int> {
    let i = name_index(toc, name, 0);
    if i < toc.len() {
        Some(i)
    } else {
        None
    }
}

proof fn lemma_name_index(toc: Seq<TocEntryView>, name: Seq<char>, from: int)
    requires
        0 <= from <= toc.len(),
    ensures
        ({
            let i = name_index(toc, name, from);
            &&& from <= i <= toc.len()
            &&& i < toc.len() ==> toc[i].name == name
            &&& forall|j: int| from <= j < i ==> toc[j].name != name
        }),
    decreases toc.len() - from,
{
    if from < toc.len() && toc[from].name != name {
        lemma_name_index(toc, name, from + 1);
    }
}

/// A lookup finds a tensor of that name whenever there is one, and finds the
/// first of several.
pub proof fn find_name_is_first(toc: Seq<TocEntryView>, name: Seq<char>)
    ensures
        match find_name(toc, name) {
            Some(i) => {
                &&& 0 <= i < toc.len()
                &&& toc[i].name == name
                &&& forall|j: int| 0 <= j < i ==> toc[j].name != name
            },
            None => forall|j: int| 0 <= j < toc.len() ==> toc[j].name != name,
        },
{
    lemma_name_index(toc, name, 0);
}

/// The bytes of passthrough or overlay tensor `idx`.
pub open spec fn tensor_passthrough(file: LeechQ24FileView, idx: usize) -> core::result::Result<
    Seq<u8>,
    LeechQ24ErrorView,
> {
    if idx >= file.toc.len() {
        Err(LeechQ24ErrorView::BadTocEntry { idx, reason: "index out of range"@ })
    } else {
        let entry = file.toc[idx as int];
        if entry.role == Role::LlvqTans {
            Err(
                LeechQ24ErrorView::BadTocEntry {
                    idx,
                    reason: "tensor "@ + quoted(entry.name) + " is LLVQ_TANS (not passthrough)"@,
                },
            )
        } else {
            slice_of(
                file.bytes,
                entry.passthrough_offset as usize,
                entry.passthrough_size as usize,
            )
        }
    }
}

/// A file that ends in the checksum of the rest has the checksum it should have.
pub proof fn sealed_file_matches(content: Seq<u8>)
    ensures
        ({
            let bytes = content + u32_bytes(crc32(content));
            &&& trailing_crc(bytes) == crc32(content)
            &&& content_crc(bytes) == crc32(content)
        }),
{
    let bytes = content + u32_bytes(crc32(content));
    lemma_cut_joined(content, u32_bytes(crc32(content)));
    u32_round_trip(bytes, content.len() as int, crc32(content));
}

/// The last four bytes of a file are its checksum, whatever they hold, and what
/// is summed up is everything before them.
pub proof fn checksum_is_of_the_rest(content: Seq<u8>, stored: u32)
    ensures
        trailing_crc(content + u32_bytes(stored)) == stored,
        content_crc(content + u32_bytes(stored)) == crc32(content),
{
    let bytes = content + u32_bytes(stored);
    lemma_cut_joined(content, u32_bytes(stored));
    u32_round_trip(bytes, content.len() as int, stored);
}

/// With `verify_crc` a file loads if and only if it loads without and its
/// stored checksum is the computed one; what is loaded is then the same.
pub proof fn crc_gate(bytes: Seq<u8>, validate_toc: bool)
    ensures
        loaded(bytes, OpenOptions { verify_crc: true, validate_toc }) is Ok <==> {
            &&& loaded(bytes, OpenOptions { verify_crc: false, validate_toc }) is Ok
            &&& trailing_crc(bytes) == content_crc(bytes)
        },
        loaded(bytes, OpenOptions { verify_crc: true, validate_toc }) is Ok ==> loaded(
            bytes,
            OpenOptions { verify_crc: true, validate_toc },
        ) == loaded(bytes, OpenOptions { verify_crc: false, validate_toc }),
{
}

proof fn lemma_good_slots(
    toc: Seq<u8>,
    from: int,
    count: int,
    version: u32,
    validate: bool,
    i: int,
)
    requires
        0 <= from <= i < count,
        first_bad_slot(toc, from, count, version, validate) >= count,
    ensures
        toc_slot(toc, i, version, validate) is Ok,
    decreases count - from,
{
    if from < i {
        lemma_good_slots(toc, from + 1, count, version, validate, i);
    }
}

/// A loaded file has one TOC entry for each record that its header announces,
/// in file order, read as the file's version says; with `validate_toc` every
/// role and dtype pair is allowed.
pub proof fn loaded_toc_is_complete(bytes: Seq<u8>, opts: OpenOptions)
    ensures
        match loaded(bytes, opts) {
            Ok(file) => {
                &&& version_supported(file.header.format_version)
                &&& file.toc.len() == file.header.toc_entry_count
                &&& forall|i: int|
                    0 <= i < file.toc.len() ==> {
                        let at = (file.header.toc_offset as usize) + i * TOC_ENTRY_SIZE;
                        let entry = #[trigger] file.toc[i];
                        &&& at + TOC_ENTRY_SIZE <= bytes.len()
                        &&& toc_entry_of(
                            bytes.subrange(at, at + TOC_ENTRY_SIZE),
                            i as usize,
                            file.header.format_version,
                        ) == Ok::<TocEntryView, LeechQ24ErrorView>(entry)
                        &&& opts.validate_toc ==> role_dtype_allowed(entry.role, entry.dtype_tag)
                    }
            },
            Err(_) => true,
        },
{
    if let Ok(file) = loaded(bytes, opts) {
        let version = file.header.format_version;
        let count = file.header.toc_entry_count as int;
        let off = file.header.toc_offset as usize as int;
        let toc = bytes.subrange(off, off + count * TOC_ENTRY_SIZE);
        assert(file_toc(bytes, file.header, opts.validate_toc) == toc_entries_of(
            toc,
            count,
            version,
            opts.validate_toc,
        ));
        assert forall|i: int| 0 <= i < file.toc.len() implies {
            let at = off + i * TOC_ENTRY_SIZE;
            let entry = #[trigger] file.toc[i];
            &&& at + TOC_ENTRY_SIZE <= bytes.len()
            &&& toc_entry_of(bytes.subrange(at, at + TOC_ENTRY_SIZE), i as usize, version) == Ok::<
                TocEntryView,
                LeechQ24ErrorView,
            >(entry)
            &&& opts.validate_toc ==> role_dtype_allowed(entry.role, entry.dtype_tag)
        } by {
            lemma_good_slots(toc, 0, count, version, opts.validate_toc, i);
            let at = off + i * TOC_ENTRY_SIZE;
            assert(toc.subrange(i * TOC_ENTRY_SIZE, (i + 1) * TOC_ENTRY_SIZE) =~= bytes.subrange(
                at,
                at + TOC_ENTRY_SIZE,
            ));
        }
    }
}

/// Whether a file was written with these parts: the magic, the header record,
/// the symbol sets, and one record per TOC entry stand where they belong, and
/// there is room for the manifest.
pub open spec fn file_written(file: LeechQ24FileView) -> bool {
    let bytes = file.bytes;
    let h = file.header;
    let behind = h.codebook_offset + file.codebooks.len() * set_size();
    let blob_end = h.codebook_offset + h.codebook_size;
    &&& HEADER_SIZE + 4 <= bytes.len() <= usize::MAX
    &&& bytes.subrange(0, 8) == MAGIC@
    &&& h.pattern_table_blake3.len() == 16
    &&& bytes.subrange(8, 8 + HEADER_STRUCT_SIZE) == header_bytes(h)
    &&& version_supported(h.format_version)
    &&& h.header_size == HEADER_SIZE
    &&& h.manifest_offset + h.manifest_size <= bytes.len()
    &&& file.manifest == bytes.subrange(
        h.manifest_offset as int,
        h.manifest_offset + h.manifest_size,
    )
    &&& blob_end <= bytes.len()
    &&& behind + CB_HEADER_SIZE > blob_end || is_padding(bytes, behind)
    &&& forall|i: int|
        0 <= i < file.codebooks.len() ==> set_written(
            bytes,
            h.codebook_offset + i * set_size(),
            blob_end,
            #[trigger] file.codebooks[i],
        )
    &&& h.toc_entry_count == file.toc.len()
    &&& h.toc_offset + file.toc.len() * TOC_ENTRY_SIZE <= bytes.len()
    &&& forall|i: int|
        0 <= i < file.toc.len() ==> {
            let entry = #[trigger] file.toc[i];
            let at = h.toc_offset + i * TOC_ENTRY_SIZE;
            &&& entry_fits(entry, h.format_version)
            &&& bytes.subrange(at, at + TOC_ENTRY_SIZE) == toc_entry_bytes(entry)
        }
}

proof fn lemma_all_slots_good(toc: Seq<u8>, from: int, count: int, version: u32, validate: bool)
    requires
        0 <= from <= count,
        forall|i: int| 0 <= i < count ==> #[trigger] toc_slot(toc, i, version, validate) is Ok,
    ensures
        first_bad_slot(toc, from, count, version, validate) == count,
    decreases count - from,
{
    if from < count {
        assert(toc_slot(toc, from, version, validate) is Ok);
        lemma_all_slots_good(toc, from + 1, count, version, validate);
    }
}

proof fn lemma_slot_read_back(
    records: Seq<u8>,
    i: int,
    version: u32,
    validate: bool,
    entry: TocEntryView,
)
    requires
        0 <= i,
        entry_fits(entry, version),
        validate ==> role_dtype_allowed(entry.role, entry.dtype_tag),
        records.subrange(i * TOC_ENTRY_SIZE, (i + 1) * TOC_ENTRY_SIZE) == toc_entry_bytes(entry),
    ensures
        toc_slot(records, i, version, validate) == Ok::<TocEntryView, LeechQ24ErrorView>(entry),
{
    toc_entry_comes_back(entry, i as usize, version);
}

#[verifier::rlimit(30)]
proof fn lemma_toc_read_back(file: LeechQ24FileView, validate: bool)
    requires
        file_written(file),
        validate ==> forall|i: int|
            0 <= i < file.toc.len() ==> role_dtype_allowed(
                #[trigger] file.toc[i].role,
                file.toc[i].dtype_tag,
            ),
    ensures
        file_toc(file.bytes, file.header, validate) == Ok::<Seq<TocEntryView>, LeechQ24ErrorView>(
            file.toc,
        ),
{
    let count = file.toc.len() as int;
    let off = file.header.toc_offset as int;
    let version = file.header.format_version;
    let room = count * TOC_ENTRY_SIZE;
    let records = file.bytes.subrange(off, off + room);
    assert forall|i: int| 0 <= i < count implies #[trigger] toc_slot(records, i, version, validate)
        == Ok::<TocEntryView, LeechQ24ErrorView>(file.toc[i]) by {
        lemma_cut_twice(file.bytes, off, room, i * TOC_ENTRY_SIZE, (i + 1) * TOC_ENTRY_SIZE);
        lemma_slot_read_back(records, i, version, validate, file.toc[i]);
    }
    lemma_all_slots_good(records, 0, count, version, validate);
    assert(Seq::new(count as nat, |i: int| toc_slot(records, i, version, validate)->Ok_0)
        =~= file.toc);
}

/// A record of a TOC is accepted exactly when it is a readable entry whose role
/// and dtype go together, where that is asked for, and gives that entry.
pub proof fn slot_is_its_record(toc: Seq<u8>, i: int, version: u32, validate: bool)
    requires
        0 <= i,
        448 * i + 448 <= toc.len(),
    ensures
        ({
            let entry = toc_entry_of(toc.subrange(448 * i, 448 * i + 448), i as usize, version);
            &&& toc_slot(toc, i, version, validate) is Ok <==> (entry matches Ok(e) && (validate
                ==> role_dtype_allowed(e.role, e.dtype_tag)))
            &&& toc_slot(toc, i, version, validate) is Ok ==> toc_slot(toc, i, version, validate)
                == entry
            &&& entry is Err ==> toc_slot(toc, i, version, validate) == entry
        }),
{
}

proof fn lemma_first_bad(
    toc: Seq<u8>,
    from: int,
    count: int,
    version: u32,
    validate: bool,
    bad: int,
)
    requires
        0 <= from <= bad < count,
        toc_slot(toc, bad, version, validate) is Err,
        forall|i: int| 0 <= i < bad ==> #[trigger] toc_slot(toc, i, version, validate) is Ok,
    ensures
        first_bad_slot(toc, from, count, version, validate) == bad,
    decreases bad - from,
{
    if from < bad {
        assert(toc_slot(toc, from, version, validate) is Ok);
        lemma_first_bad(toc, from + 1, count, version, validate, bad);
    }
}

/// A TOC is read exactly when each of its records is accepted, and then as one
/// entry for each record, in order; otherwise the first record that is not
/// accepted is the one complained of.
pub proof fn toc_is_its_records(toc: Seq<u8>, count: int, version: u32, validate: bool, bad: int)
    requires
        0 <= count,
    ensures
        (forall|i: int| 0 <= i < count ==> #[trigger] toc_slot(toc, i, version, validate) is Ok)
            ==> {
            let entries = toc_entries_of(toc, count, version, validate);
            &&& entries is Ok
            &&& entries->Ok_0.len() == count
            &&& forall|i: int|
                0 <= i < count ==> toc_slot(toc, i, version, validate) == Ok::<
                    TocEntryView,
                    LeechQ24ErrorView,
                >(#[trigger] entries->Ok_0[i])
        },
        0 <= bad < count && toc_slot(toc, bad, version, validate) is Err && (forall|i: int|
            0 <= i < bad ==> #[trigger] toc_slot(toc, i, version, validate) is Ok)
            ==> toc_entries_of(toc, count, version, validate) == Err::<
            Seq<TocEntryView>,
            LeechQ24ErrorView,
        >(toc_slot(toc, bad, version, validate)->Err_0),
{
    let entries = toc_entries_of(toc, count, version, validate);
    if forall|i: int| 0 <= i < count ==> #[trigger] toc_slot(toc, i, version, validate) is Ok {
        lemma_all_slots_good(toc, 0, count, version, validate);
        assert forall|i: int| 0 <= i < count implies toc_slot(toc, i, version, validate) == Ok::<
            TocEntryView,
            LeechQ24ErrorView,
        >(#[trigger] entries->Ok_0[i]) by {
            assert(toc_slot(toc, i, version, validate) is Ok);
        }
    }
    if 0 <= bad < count && toc_slot(toc, bad, version, validate) is Err && (forall|i: int|
        0 <= i < bad ==> #[trigger] toc_slot(toc, i, version, validate) is Ok) {
        lemma_first_bad(toc, 0, count, version, validate, bad);
    }
}

/// The TOC of a file is the 448-byte records at its offset, as many as its
/// header says and of the header's version, and is refused when the file does
/// not have them all. Where they start has to be a `usize`.
pub proof fn toc_is_where_it_was_written(bytes: Seq<u8>, header: HeaderView, validate: bool)
    requires
        header.toc_offset <= usize::MAX,
        bytes.len() <= usize::MAX,
    ensures
        header.toc_offset + 448 * header.toc_entry_count <= bytes.len() ==> file_toc(
            bytes,
            header,
            validate,
        ) == toc_entries_of(
            bytes.subrange(
                header.toc_offset as int,
                header.toc_offset + 448 * header.toc_entry_count,
            ),
            header.toc_entry_count as int,
            header.format_version,
            validate,
        ),
        header.toc_offset + 448 * header.toc_entry_count > bytes.len() ==> file_toc(
            bytes,
            header,
            validate,
        ) is Err,
        bytes.len() < header.toc_offset + 448 * header.toc_entry_count && 448
            * header.toc_entry_count <= usize::MAX ==> file_toc(bytes, header, validate) == Err::<
            Seq<TocEntryView>,
            LeechQ24ErrorView,
        >(
            LeechQ24ErrorView::Truncated {
                offset: header.toc_offset,
                needed: (448 * header.toc_entry_count) as usize,
                len: bytes.len() as u64,
            },
        ),
{
}

/// The prefix of a file is accepted exactly when there is room for it and the
/// checksum, it has the magic, version 3 or 4 and the header size 256, and the
/// checksum is right where that is asked for; the first of these that does not
/// hold is what is refused.
pub proof fn prefix_accepted(bytes: Seq<u8>, verify_crc: bool)
    ensures
        ({
            let h = header_of(bytes.subrange(8, 136));
            &&& prefix_fault(bytes, verify_crc) is None <==> {
                &&& bytes.len() >= 260
                &&& bytes.subrange(0, 8) == MAGIC@
                &&& h.format_version == 3 || h.format_version == 4
                &&& h.header_size == 256
                &&& verify_crc ==> trailing_crc(bytes) == content_crc(bytes)
            }
            &&& match prefix_fault(bytes, verify_crc) {
                Some(LeechQ24ErrorView::Truncated { offset, needed, len }) => offset == 0 && needed
                    == 260 && len == bytes.len() as u64 && bytes.len() < 260,
                Some(LeechQ24ErrorView::BadMagic { got }) => bytes.len() >= 260 && got
                    == bytes.subrange(0, 8) && got != MAGIC@,
                Some(LeechQ24ErrorView::UnsupportedVersion(v)) => bytes.len() >= 260
                    && bytes.subrange(0, 8) == MAGIC@ && v == h.format_version && v != 3 && v != 4,
                Some(LeechQ24ErrorView::BadTocEntry { idx, .. }) => {
                    &&& bytes.len() >= 260
                    &&& bytes.subrange(0, 8) == MAGIC@
                    &&& h.format_version == 3 || h.format_version == 4
                    &&& idx == 0
                    &&& h.header_size != 256
                },
                Some(LeechQ24ErrorView::CrcMismatch { file, computed }) => {
                    &&& prefix_fault(bytes, false) is None
                    &&& verify_crc
                    &&& file == trailing_crc(bytes)
                    &&& computed == content_crc(bytes)
                    &&& file != computed
                },
                Some(_) => false,
                None => true,
            }
        }),
{
}

/// A file loads exactly when its prefix is accepted, its manifest lies inside
/// it, and its symbol sets and its TOC are read; the parts are then those of the
/// file, the manifest the bytes that the header says. Where the manifest lies
/// and how long it is have to be `usize`s.
pub proof fn file_accepted(bytes: Seq<u8>, opts: OpenOptions, h: HeaderView)
    requires
        h == header_of(bytes.subrange(8, 136)),
        h.manifest_offset <= usize::MAX,
        h.manifest_size <= usize::MAX,
    ensures
        loaded(bytes, opts) is Ok <==> {
            &&& prefix_fault(bytes, opts.verify_crc) is None
            &&& h.manifest_offset + h.manifest_size <= bytes.len()
            &&& codebooks_of(bytes, h.codebook_offset, h.codebook_size) is Ok
            &&& file_toc(bytes, h, opts.validate_toc) is Ok
        },
        match loaded(bytes, opts) {
            Ok(file) => {
                &&& file.bytes == bytes
                &&& file.header == h
                &&& file.manifest == bytes.subrange(
                    h.manifest_offset as int,
                    h.manifest_offset + h.manifest_size,
                )
                &&& codebooks_of(bytes, h.codebook_offset, h.codebook_size) == Ok::<
                    Seq<CodebookSet>,
                    LeechQ24ErrorView,
                >(file.codebooks)
                &&& file_toc(bytes, h, opts.validate_toc) == Ok::<
                    Seq<TocEntryView>,
                    LeechQ24ErrorView,
                >(file.toc)
            },
            Err(e) => {
                let manifest_inside = h.manifest_offset + h.manifest_size <= bytes.len();
                let sets = codebooks_of(bytes, h.codebook_offset, h.codebook_size);
                if prefix_fault(bytes, opts.verify_crc) is Some {
                    prefix_fault(bytes, opts.verify_crc) == Some(e)
                } else if !manifest_inside {
                    e == (LeechQ24ErrorView::Truncated {
                        offset: h.manifest_offset,
                        needed: h.manifest_size as usize,
                        len: bytes.len() as u64,
                    })
                } else if sets is Err {
                    sets == Err::<Seq<CodebookSet>, LeechQ24ErrorView>(e)
                } else {
                    file_toc(bytes, h, opts.validate_toc) == Err::<
                        Seq<TocEntryView>,
                        LeechQ24ErrorView,
                    >(e)
                }
            },
        },
{
}

/// Written tensors come back: the bytes of a TOC entry that is not an LLVQ_TANS
/// one are handed out exactly when they lie inside the file; they are then as
/// many bytes as the entry says, at the entry's offset. LLVQ_TANS entries have
/// none. The entry's numbers have to be `usize`s.
pub proof fn passthrough_is_where_it_was_written(file: LeechQ24FileView, idx: usize, data: Seq<u8>)
    requires
        idx < file.toc.len() ==> file.toc[idx as int].passthrough_offset <= usize::MAX
            && file.toc[idx as int].passthrough_size <= usize::MAX,
    ensures
        idx >= file.toc.len() ==> tensor_passthrough(file, idx) == Err::<
            Seq<u8>,
            LeechQ24ErrorView,
        >(LeechQ24ErrorView::BadTocEntry { idx, reason: "index out of range"@ }),
        idx < file.toc.len() ==> {
            let entry = file.toc[idx as int];
            let at = entry.passthrough_offset;
            let size = entry.passthrough_size;
            &&& entry.role == Role::LlvqTans ==> (tensor_passthrough(file, idx) matches Err(
                LeechQ24ErrorView::BadTocEntry { idx: place, .. },
            ) && place == idx)
            &&& entry.role != Role::LlvqTans && at + size <= file.bytes.len()
                && file.bytes.subrange(at as int, at + size) == data ==> tensor_passthrough(
                file,
                idx,
            ) == Ok::<Seq<u8>, LeechQ24ErrorView>(data) && data.len() == size
            &&& entry.role != Role::LlvqTans && at + size > file.bytes.len() ==> tensor_passthrough(
                file,
                idx,
            ) == Err::<Seq<u8>, LeechQ24ErrorView>(
                LeechQ24ErrorView::Truncated {
                    offset: at,
                    needed: size as usize,
                    len: file.bytes.len() as u64,
                },
            )
        },
{
}

/// The LLVQ_TANS payload of a TOC entry is that entry's payload, and there is
/// none without an entry.
pub proof fn tensor_payload_is_its_entry(file: LeechQ24FileView, idx: usize, entry: TocEntryView)
    ensures
        idx < file.toc.len() && file.toc[idx as int] == entry ==> tensor_payload(file, idx)
            == payload_of(entry, file.bytes) && entry_sizes_fit(file, idx) == section_sizes_fit(
            entry,
            file.bytes,
        ),
        idx >= file.toc.len() ==> entry_sizes_fit(file, idx),
        idx >= file.toc.len() ==> tensor_payload(file, idx) == Err::<
            LlvqTansPayloadView,
            LeechQ24ErrorView,
        >(LeechQ24ErrorView::BadTocEntry { idx, reason: "index out of range"@ }),
{
}

/// Written tables come back from a file: where four tables of 1024 entries were
/// written behind the header of a symbol set, one after the other, the set's
/// tables are these bytes, and looking up a codebook and a state in them gives
/// that table's entry for that state.
pub proof fn written_tables_load(
    file: LeechQ24FileView,
    i: int,
    tables: Seq<Seq<u32>>,
    cb_idx: usize,
    state: u32,
)
    requires
        file.valid(),
        0 <= i < file.codebooks.len(),
        tables.len() == 4,
        forall|t: int| 0 <= t < 4 ==> #[trigger] tables[t].len() == 1024,
        cb_idx < 4,
        state < 1024,
        ({
            let at = file.codebooks[i].decode_tables_offset;
            file.bytes.subrange(at as int, at + 16384) == u32_list_bytes(
                tables[0] + tables[1] + tables[2] + tables[3],
            )
        }),
    ensures
        ({
            let set = file.codebooks[i];
            let blob = decode_tables(file.bytes, set);
            &&& blob == file.bytes.subrange(
                set.decode_tables_offset as int,
                set.decode_tables_offset + 16384,
            )
            &&& match set.entry_outcome(blob, cb_idx, state) {
                Ok(e) => e.sym + 0x100 * e.nb_bits + 0x1_0000 * e.base
                    == tables[cb_idx as int][state as int],
                Err(_) => false,
            }
        }),
{
    loaded_sets_have_four_tables(file, i);
    let set = file.codebooks[i];
    written_tables_come_back(
        set,
        decode_tables(file.bytes, set),
        tables,
        cb_idx,
        state,
    );
}

/// What was written is loaded: a file of either version that was written with
/// these parts loads as these parts, provided that the role and dtype pairs and
/// the checksum are right where they are asked for.
#[verifier::rlimit(30)]
pub proof fn written_file_loads(file: LeechQ24FileView, opts: OpenOptions)
    requires
        file_written(file),
        opts.validate_toc ==> forall|i: int|
            0 <= i < file.toc.len() ==> role_dtype_allowed(
                #[trigger] file.toc[i].role,
                file.toc[i].dtype_tag,
            ),
        opts.verify_crc ==> trailing_crc(file.bytes) == content_crc(file.bytes),
    ensures
        loaded(file.bytes, opts) == Ok::<LeechQ24FileView, LeechQ24ErrorView>(file),
{
    let h = file.header;
    header_comes_back(h);
    codebook_sets_come_back(
        file.bytes,
        h.codebook_offset as int,
        h.codebook_offset + h.codebook_size,
        file.codebooks,
    );
    lemma_toc_read_back(file, opts.validate_toc);
}

/// Every tensor of a loaded version 3 file reads as one substream per tile, and
/// the substream arrays of its payload are byte for byte its tile arrays.
pub proof fn v3_file_is_single_stream(file: LeechQ24FileView, idx: usize)
    requires
        file.valid(),
        file.header.format_version == FORMAT_VERSION_V3_COMPAT,
        idx < file.toc.len(),
    ensures
        ({
            let entry = file.toc[idx as int];
            &&& entry.num_streams == 1
            &&& entry.substream_states_offset == entry.tile_states_offset
            &&& entry.substream_nb_totals_offset == entry.tile_nb_totals_offset
        }),
        match tensor_payload(file, idx) {
            Ok(p) => {
                &&& p.num_streams == 1
                &&& p.substream_states == p.tile_states
                &&& p.substream_nb_totals == p.tile_nb_totals
            },
            Err(_) => true,
        },
{
    reveal(LeechQ24FileView::valid);
    let opts = choose|opts: OpenOptions|
        #[trigger] loaded(file.bytes, opts) == Ok::<LeechQ24FileView, LeechQ24ErrorView>(file);
    loaded_toc_is_complete(file.bytes, opts);
    let entry = file.toc[idx as int];
    let at = (file.header.toc_offset as usize) + idx * TOC_ENTRY_SIZE;
    v3_entry_is_single_stream(file.bytes.subrange(at, at + TOC_ENTRY_SIZE), idx);
    single_stream_payload_aliases_tiles(entry, file.bytes);
}

} // verus!
