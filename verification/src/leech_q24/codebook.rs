//! Per-symbol-set FSE codebook blob.
//!
//! ```text
//! CB_HEADER (32 B)      symbol_set_id, n_codebooks (=4), n_symbols,
//!                       table_log (=10), w_offset, w_min, w_max,
//!                       has_encoder_tables
//! decode_tables         n_codebooks x M x u32   (M = 1 << table_log)
//! ```
//!
//! There is one such pair per symbol set, packed contiguously from
//! `Header::codebook_offset` on; the writer pads the blob to 64-byte alignment
//! with zeros. Each decode-table entry packs (sym, nb_bits, base):
//!
//! ```text
//! bits  0..8   symbol index in [0, n_symbols)
//! bits  8..16  nb_bits to read on this transition
//! bits 16..32  base state (offset within the table, masked by M-1)
//! ```

use vstd::prelude::*;

use crate::bytes::{
    i32_at, i32_bytes, i32_round_trip, lemma_cut_twice, lemma_list_len, read_i32_at, read_u32_at,
    u32_at, u32_bytes, u32_list_bytes, u32_list_round_trip, u32_round_trip, zeros,
};
use crate::leech_q24::error::{outcome, LeechQ24Error, LeechQ24ErrorView, Result};
use crate::text::{cat4, cat5, decimal, to_decimal};

verus! {

pub const CB_HEADER_SIZE: usize = 32;

pub const N_CODEBOOKS: usize = 4;

pub const TABLE_LOG: u32 = 10;

pub const M_TABLE: usize = 1024;

#[derive(Debug, Clone, Copy)]
pub struct CodebookSet {
    pub symbol_set_id: u32,
    pub n_codebooks: u32,
    pub n_symbols: u32,
    pub table_log: u32,
    pub w_offset: u32,
    pub w_min: i32,
    pub w_max: i32,
    pub has_encoder_tables: bool,
    /// Byte offset of `decode_tables` inside the file.
    pub decode_tables_offset: u64,
    /// Length of `decode_tables` in bytes (n_codebooks x M x 4).
    pub decode_tables_bytes: u64,
}

/// Decoded view of one packed `u32` table entry.
#[derive(Debug, Clone, Copy)]
pub struct DecodeEntry {
    pub sym: u8,
    pub nb_bits: u8,
    pub base: u16,
}

/// The three fields of a packed table entry.
pub open spec fn decode_entry_of(raw: u32) -> DecodeEntry {
    DecodeEntry {
        sym: (raw % 0x100) as u8,
        nb_bits: (raw / 0x100 % 0x100) as u8,
        base: (raw / 0x1_0000) as u16,
    }
}

/// A packed table entry is put together again from its fields.
pub proof fn decode_entry_recombines(raw: u32)
    ensures
        ({
            let e = decode_entry_of(raw);
            e.sym + 0x100 * e.nb_bits + 0x1_0000 * e.base == raw
        }),
{
}

impl DecodeEntry {
    pub fn from_raw(raw: u32) -> (r: Self)
        ensures
            r == decode_entry_of(raw),
    {
        assert(raw & 0xFF == raw % 0x100) by (bit_vector);
        assert((raw >> 8) & 0xFF == raw / 0x100 % 0x100) by (bit_vector);
        assert((raw >> 16) & 0xFFFF == raw / 0x1_0000) by (bit_vector);
        DecodeEntry {
            sym: (raw & 0xFF) as u8,
            nb_bits: ((raw >> 8) & 0xFF) as u8,
            base: ((raw >> 16) & 0xFFFF) as u16,
        }
    }
}

/// Byte offset of an entry inside the decode tables.
pub open spec fn entry_offset(cb_idx: int, state: int) -> int {
    (cb_idx * M_TABLE + state) * 4
}

impl CodebookSet {
    /// Number of bytes consumed in the blob (header + decode tables).
    pub fn total_size(&self) -> (r: u64)
        requires
            CB_HEADER_SIZE + self.decode_tables_bytes <= u64::MAX,
        ensures
            r == CB_HEADER_SIZE + self.decode_tables_bytes,
    {
        CB_HEADER_SIZE as u64 + self.decode_tables_bytes
    }

    /// What looking up one entry gives.
    pub open spec fn entry_outcome(
        self,
        decode_blob: Seq<u8>,
        cb_idx: usize,
        state: u32,
    ) -> core::result::Result<DecodeEntry, LeechQ24ErrorView> {
        let off = entry_offset(cb_idx as int, state as int);
        if cb_idx >= self.n_codebooks {
            Err(
                LeechQ24ErrorView::BadCodebookHeader {
                    offset: self.decode_tables_offset,
                    reason: "cb_idx "@ + decimal(cb_idx as nat) + " ≥ n_codebooks "@ + decimal(
                        self.n_codebooks as nat,
                    ),
                },
            )
        } else if state >= M_TABLE {
            Err(
                LeechQ24ErrorView::BadCodebookHeader {
                    offset: self.decode_tables_offset,
                    reason: "state "@ + decimal(state as nat) + " ≥ M "@ + decimal(M_TABLE as nat),
                },
            )
        } else if off + 4 > decode_blob.len() {
            Err(
                LeechQ24ErrorView::Truncated {
                    offset: (self.decode_tables_offset + off) as u64,
                    needed: 4,
                    len: decode_blob.len() as u64,
                },
            )
        } else {
            Ok(decode_entry_of(u32_at(decode_blob, off)))
        }
    }

    /// Looks up one decode-table entry.
    /// `cb_idx` in [0, N_CODEBOOKS), `state` in [0, M_TABLE).
    pub fn decode_entry(&self, decode_blob: &[u8], cb_idx: usize, state: u32) -> (r: Result<
        DecodeEntry,
    >)
        requires
            cb_idx < self.n_codebooks && state < M_TABLE ==> {
                &&& entry_offset(cb_idx as int, state as int) + 4 <= usize::MAX
                &&& entry_offset(cb_idx as int, state as int) + 4 > decode_blob@.len()
                    ==> self.decode_tables_offset + entry_offset(cb_idx as int, state as int)
                    <= u64::MAX
            },
        ensures
            outcome(r) == self.entry_outcome(decode_blob@, cb_idx, state),
    {
        if cb_idx >= self.n_codebooks as usize {
            return Err(
                LeechQ24Error::BadCodebookHeader {
                    offset: self.decode_tables_offset,
                    reason: cat4(
                        "cb_idx ",
                        to_decimal(cb_idx as u64).as_str(),
                        " ≥ n_codebooks ",
                        to_decimal(self.n_codebooks as u64).as_str(),
                    ),
                },
            );
        }
        if (state as usize) >= M_TABLE {
            return Err(
                LeechQ24Error::BadCodebookHeader {
                    offset: self.decode_tables_offset,
                    reason: cat4(
                        "state ",
                        to_decimal(state as u64).as_str(),
                        " ≥ M ",
                        to_decimal(M_TABLE as u64).as_str(),
                    ),
                },
            );
        }
        let off: usize = (cb_idx * M_TABLE + state as usize) * 4;
        if off + 4 > decode_blob.len() {
            return Err(
                LeechQ24Error::Truncated {
                    offset: self.decode_tables_offset + off as u64,
                    needed: 4,
                    len: decode_blob.len() as u64,
                },
            );
        }
        let raw: u32 = read_u32_at(decode_blob, off);
        Ok(DecodeEntry::from_raw(raw))
    }
}

/// Entries are looked up table by table and state by state: the entry of a
/// codebook and a state is the little-endian number 4096 bytes further on for
/// each codebook before it and 4 for each state, taken apart into its symbol,
/// its bit count and its base.
pub proof fn entry_is_where_it_was_written(
    set: CodebookSet,
    blob: Seq<u8>,
    cb_idx: usize,
    state: u32,
    raw: u32,
)
    requires
        cb_idx < set.n_codebooks,
        state < 1024,
        4096 * cb_idx + 4 * state + 4 <= blob.len(),
        blob.subrange(4096 * cb_idx + 4 * state, 4096 * cb_idx + 4 * state + 4) == u32_bytes(raw),
    ensures
        match set.entry_outcome(blob, cb_idx, state) {
            Ok(e) => e.sym + 0x100 * e.nb_bits + 0x1_0000 * e.base == raw,
            Err(_) => false,
        },
{
    u32_round_trip(blob, 4096 * cb_idx + 4 * state, raw);
    decode_entry_recombines(raw);
}

/// Tables come back: in the bytes of four tables of 1024 entries, written one
/// after the other, looking up a codebook and a state gives the fields of that
/// table's entry for that state.
pub proof fn written_tables_come_back(
    set: CodebookSet,
    blob: Seq<u8>,
    tables: Seq<Seq<u32>>,
    cb_idx: usize,
    state: u32,
)
    requires
        set.n_codebooks == 4,
        tables.len() == 4,
        forall|t: int| 0 <= t < 4 ==> #[trigger] tables[t].len() == 1024,
        blob == u32_list_bytes(tables[0] + tables[1] + tables[2] + tables[3]),
        cb_idx < 4,
        state < 1024,
    ensures
        match set.entry_outcome(blob, cb_idx, state) {
            Ok(e) => e.sym + 0x100 * e.nb_bits + 0x1_0000 * e.base == tables[cb_idx as int][state as int],
            Err(_) => false,
        },
{
    let values = tables[0] + tables[1] + tables[2] + tables[3];
    let at = 1024 * cb_idx + state;
    lemma_list_len(values, Seq::empty());
    assert(values.len() == 4096);
    assert(blob.subrange(0, blob.len() as int) =~= blob);
    u32_list_round_trip(blob, 0, values);
    assert(values[at] == tables[cb_idx as int][state as int]);
    u32_round_trip(blob, 4 * at, values[at]);
    entry_is_where_it_was_written(set, blob, cb_idx, state, values[at]);
}

/// A lookup fails exactly where there is no such codebook or state, or where
/// the blob ends before the entry's four bytes, which are then the ones missed.
pub proof fn missing_entries_are_refused(
    set: CodebookSet,
    blob: Seq<u8>,
    cb_idx: usize,
    state: u32,
)
    ensures
        set.entry_outcome(blob, cb_idx, state) is Err <==> cb_idx >= set.n_codebooks || state >= 1024
            || 4096 * cb_idx + 4 * state + 4 > blob.len(),
        match set.entry_outcome(blob, cb_idx, state) {
            Err(LeechQ24ErrorView::Truncated { offset, needed, len }) => {
                &&& cb_idx < set.n_codebooks && state < 1024
                &&& offset == (set.decode_tables_offset + 4096 * cb_idx + 4 * state) as u64
                &&& needed == 4
                &&& len == blob.len() as u64
            },
            Err(LeechQ24ErrorView::BadCodebookHeader { offset, .. }) => {
                &&& cb_idx >= set.n_codebooks || state >= 1024
                &&& offset == set.decode_tables_offset
            },
            Err(_) => false,
            Ok(_) => true,
        },
{
}

/// Bytes of the decode tables of one symbol set.
pub open spec fn tables_size() -> int {
    N_CODEBOOKS * M_TABLE * 4
}

/// Bytes of one symbol set: its header and its decode tables.
pub open spec fn set_size() -> int {
    CB_HEADER_SIZE + tables_size()
}

/// Whether the 32 bytes at `pos` are all zero: padding, not a header.
pub open spec fn is_padding(file: Seq<u8>, pos: int) -> bool {
    forall|k: int| pos <= k < pos + CB_HEADER_SIZE ==> file[k] == 0
}

/// The symbol set whose header is at `pos`, in a blob that ends at `end`; or
/// what is wrong with it.
pub open spec fn codebook_set_at(file: Seq<u8>, pos: int, end: int) -> core::result::Result<
    CodebookSet,
    LeechQ24ErrorView,
> {
    let n_codebooks = u32_at(file, pos + 4);
    let table_log = u32_at(file, pos + 12);
    if n_codebooks != N_CODEBOOKS {
        Err(
            LeechQ24ErrorView::BadCodebookHeader {
                offset: pos as u64,
                reason: "n_codebooks "@ + decimal(n_codebooks as nat) + " != "@ + decimal(
                    N_CODEBOOKS as nat,
                ) + " (only 4-codebook tANS supported)"@,
            },
        )
    } else if table_log != TABLE_LOG {
        Err(
            LeechQ24ErrorView::BadCodebookHeader {
                offset: pos as u64,
                reason: "table_log "@ + decimal(table_log as nat) + " != "@ + decimal(
                    TABLE_LOG as nat,
                ) + " (TABLE_LOG hardcoded for now)"@,
            },
        )
    } else if pos + set_size() > end {
        Err(
            LeechQ24ErrorView::Truncated {
                offset: (pos + CB_HEADER_SIZE) as u64,
                needed: tables_size() as usize,
                len: file.len() as u64,
            },
        )
    } else {
        Ok(
            CodebookSet {
                symbol_set_id: u32_at(file, pos),
                n_codebooks,
                n_symbols: u32_at(file, pos + 8),
                table_log,
                w_offset: u32_at(file, pos + 16),
                w_min: i32_at(file, pos + 20),
                w_max: i32_at(file, pos + 24),
                has_encoder_tables: u32_at(file, pos + 28) != 0,
                decode_tables_offset: (pos + CB_HEADER_SIZE) as u64,
                decode_tables_bytes: tables_size() as u64,
            },
        )
    }
}

/// The symbol sets from `pos` on, up to the padding or the end of the blob; or
/// what is wrong with the first bad one.
pub open spec fn codebook_sets_from(file: Seq<u8>, pos: int, end: int) -> core::result::Result<
    Seq<CodebookSet>,
    LeechQ24ErrorView,
>
    decreases end - pos,
{
    if pos + CB_HEADER_SIZE > end || is_padding(file, pos) {
        Ok(Seq::empty())
    } else {
        match codebook_set_at(file, pos, end) {
            Err(e) => Err(e),
            Ok(set) => match codebook_sets_from(file, pos + set_size(), end) {
                Err(e) => Err(e),
                Ok(rest) => Ok(seq![set] + rest),
            },
        }
    }
}

/// The symbol sets of the blob `[blob_offset, blob_offset + blob_len)` of a
/// file; or what is wrong with it.
pub open spec fn codebooks_of(file: Seq<u8>, blob_offset: u64, blob_len: u64) -> core::result::Result<
    Seq<CodebookSet>,
    LeechQ24ErrorView,
> {
    let end = ((blob_offset + blob_len) as u64) as usize;
    if blob_offset + blob_len > u64::MAX {
        Err(
            LeechQ24ErrorView::BadCodebookHeader {
                offset: blob_offset,
                reason: "blob_offset + blob_len overflow"@,
            },
        )
    } else if end > file.len() {
        Err(
            LeechQ24ErrorView::Truncated {
                offset: blob_offset,
                needed: blob_len as usize,
                len: file.len() as u64,
            },
        )
    } else {
        codebook_sets_from(file, (blob_offset as usize) as int, end as int)
    }
}

/// The symbol sets of a blob lie back to back, each with four 1024-entry
/// tables, and all of them inside the blob.
pub proof fn codebook_sets_layout(file: Seq<u8>, pos: int, end: int, i: int)
    requires
        codebook_sets_from(file, pos, end) is Ok,
        0 <= pos,
        end <= u64::MAX,
        0 <= i < codebook_sets_from(file, pos, end)->Ok_0.len(),
    ensures
        ({
            let set = codebook_sets_from(file, pos, end)->Ok_0[i];
            let at = pos + i * set_size();
            &&& codebook_set_at(file, at, end) == Ok::<CodebookSet, LeechQ24ErrorView>(set)
            &&& set.n_codebooks == N_CODEBOOKS
            &&& set.table_log == TABLE_LOG
            &&& set.decode_tables_offset == at + CB_HEADER_SIZE
            &&& set.decode_tables_bytes == set.n_codebooks * M_TABLE * 4
            &&& set.decode_tables_offset + set.decode_tables_bytes <= end
        }),
    decreases i,
{
    let sets = codebook_sets_from(file, pos, end)->Ok_0;
    let set = codebook_set_at(file, pos, end)->Ok_0;
    let rest = codebook_sets_from(file, pos + set_size(), end)->Ok_0;
    let size = set_size();
    assert(size == 0x4020);
    assert(sets == seq![set] + rest);
    if i > 0 {
        codebook_sets_layout(file, pos + size, end, i - 1);
        assert(sets[i] == rest[i - 1]);
        assert(pos + i * size == pos + size + (i - 1) * size) by (nonlinear_arith);
    }
}

/// A symbol set's header is put together again from the fields that it is read
/// as, but for the number that is the encoder flag; its tables follow it.
#[verifier::rlimit(30)]
pub proof fn set_header_rebuilds(file: Seq<u8>, pos: int, end: int)
    requires
        0 <= pos,
        end <= file.len() <= u64::MAX,
        pos + 32 <= end,
    ensures
        match codebook_set_at(file, pos, end) {
            Ok(set) => {
                &&& file.subrange(pos, pos + 28) == u32_bytes(set.symbol_set_id) + u32_bytes(
                    set.n_codebooks,
                ) + u32_bytes(set.n_symbols) + u32_bytes(set.table_log) + u32_bytes(set.w_offset)
                    + i32_bytes(set.w_min) + i32_bytes(set.w_max)
                &&& !set.has_encoder_tables <==> file.subrange(pos + 28, pos + 32) == u32_bytes(0)
                &&& set.n_codebooks == 4
                &&& set.table_log == 10
                &&& set.decode_tables_offset == pos + 32
                &&& set.decode_tables_bytes == 4 * 1024 * 4
                &&& pos + 32 + 4 * 1024 * 4 <= end
            },
            Err(_) => file.subrange(pos + 4, pos + 8) != u32_bytes(4) || file.subrange(
                pos + 12,
                pos + 16,
            ) != u32_bytes(10) || pos + 32 + 4 * 1024 * 4 > end,
        },
{
    u32_round_trip(file, pos + 4, 4);
    u32_round_trip(file, pos + 12, 10);
    if let Ok(set) = codebook_set_at(file, pos, end) {
        u32_round_trip(file, pos, set.symbol_set_id);
        u32_round_trip(file, pos + 8, set.n_symbols);
        u32_round_trip(file, pos + 16, set.w_offset);
        i32_round_trip(file, pos + 20, set.w_min);
        i32_round_trip(file, pos + 24, set.w_max);
        u32_round_trip(file, pos + 28, 0);
        assert(file.subrange(pos, pos + 28) =~= file.subrange(pos, pos + 4) + file.subrange(
            pos + 4,
            pos + 8,
        ) + file.subrange(pos + 8, pos + 12) + file.subrange(pos + 12, pos + 16) + file.subrange(
            pos + 16,
            pos + 20,
        ) + file.subrange(pos + 20, pos + 24) + file.subrange(pos + 24, pos + 28));
    }
}

/// The symbol sets of a blob are those from its start to its end, and a blob
/// that does not lie inside the file is refused. Where it starts and ends have
/// to be `usize`s, unless it would end behind what a `u64` can tell.
pub proof fn blob_is_where_it_was_written(file: Seq<u8>, blob_offset: u64, blob_len: u64)
    requires
        blob_offset + blob_len <= usize::MAX || blob_offset + blob_len > u64::MAX,
        file.len() <= usize::MAX,
    ensures
        blob_offset + blob_len > u64::MAX ==> (codebooks_of(file, blob_offset, blob_len) matches Err(
            LeechQ24ErrorView::BadCodebookHeader { offset, .. },
        ) && offset == blob_offset),
        blob_offset + blob_len <= file.len() ==> codebooks_of(file, blob_offset, blob_len)
            == codebook_sets_from(file, blob_offset as int, blob_offset + blob_len),
        file.len() < blob_offset + blob_len <= u64::MAX ==> codebooks_of(file, blob_offset, blob_len) == Err::<
            Seq<CodebookSet>,
            LeechQ24ErrorView,
        >(
            LeechQ24ErrorView::Truncated {
                offset: blob_offset,
                needed: blob_len as usize,
                len: file.len() as u64,
            },
        ),
{
}

/// Symbol sets are read from the front: none where fewer than 32 bytes are left
/// or the next 32 are all zero; otherwise the next one, which takes 16416 bytes,
/// and those behind it. The first one that is faulty is the one complained of.
pub proof fn sets_are_read_from_the_front(file: Seq<u8>, pos: int, end: int)
    requires
        0 <= pos,
        end <= file.len(),
    ensures
        pos + 32 > end || file.subrange(pos, pos + 32) == zeros(32) ==> codebook_sets_from(
            file,
            pos,
            end,
        ) == Ok::<Seq<CodebookSet>, LeechQ24ErrorView>(Seq::empty()),
        pos + 32 <= end && file.subrange(pos, pos + 32) != zeros(32) ==> {
            let rest = codebook_sets_from(file, pos + 16416, end);
            match codebook_set_at(file, pos, end) {
                Err(e) => codebook_sets_from(file, pos, end) == Err::<
                    Seq<CodebookSet>,
                    LeechQ24ErrorView,
                >(e),
                Ok(set) => match rest {
                    Err(e) => codebook_sets_from(file, pos, end) == Err::<
                        Seq<CodebookSet>,
                        LeechQ24ErrorView,
                    >(e),
                    Ok(sets) => codebook_sets_from(file, pos, end) == Ok::<
                        Seq<CodebookSet>,
                        LeechQ24ErrorView,
                    >(seq![set] + sets),
                },
            }
        },
{
    if pos + 32 <= end {
        let head = file.subrange(pos, pos + 32);
        if head == zeros(32) {
            assert forall|k: int| pos <= k < pos + CB_HEADER_SIZE implies file[k] == 0 by {
                assert(head[k - pos] == zeros(32)[k - pos]);
            }
        } else if is_padding(file, pos) {
            assert(head =~= zeros(32));
        }
    }
}

/// The 32-byte header of a symbol set.
#[verifier::opaque]
pub open spec fn set_header_bytes(set: CodebookSet) -> Seq<u8> {
    u32_bytes(set.symbol_set_id) + u32_bytes(set.n_codebooks) + u32_bytes(set.n_symbols)
        + u32_bytes(set.table_log) + u32_bytes(set.w_offset) + i32_bytes(set.w_min) + i32_bytes(
        set.w_max,
    ) + u32_bytes(
        if set.has_encoder_tables {
            1
        } else {
            0
        },
    )
}

/// Whether the header of a symbol set was written at `at`, in front of its
/// tables.
pub open spec fn set_written(file: Seq<u8>, at: int, end: int, set: CodebookSet) -> bool {
    &&& 0 <= at
    &&& at + set_size() <= end <= file.len() <= u64::MAX
    &&& file.subrange(at, at + CB_HEADER_SIZE) == set_header_bytes(set)
    &&& set.n_codebooks == N_CODEBOOKS
    &&& set.table_log == TABLE_LOG
    &&& set.decode_tables_offset == at + CB_HEADER_SIZE
    &&& set.decode_tables_bytes == tables_size()
}

#[verifier::rlimit(30)]
proof fn lemma_set_read_back(file: Seq<u8>, at: int, end: int, set: CodebookSet)
    requires
        set_written(file, at, end, set),
    ensures
        !is_padding(file, at),
        codebook_set_at(file, at, end) == Ok::<CodebookSet, LeechQ24ErrorView>(set),
{
    reveal(set_header_bytes);
    let head = set_header_bytes(set);
    let flag: u32 = if set.has_encoder_tables {
        1
    } else {
        0
    };
    assert(head.len() == 32);
    assert(head.subrange(0, 4) =~= u32_bytes(set.symbol_set_id));
    assert(head.subrange(4, 8) =~= u32_bytes(set.n_codebooks));
    assert(head.subrange(8, 12) =~= u32_bytes(set.n_symbols));
    assert(head.subrange(12, 16) =~= u32_bytes(set.table_log));
    assert(head.subrange(16, 20) =~= u32_bytes(set.w_offset));
    assert(head.subrange(20, 24) =~= i32_bytes(set.w_min));
    assert(head.subrange(24, 28) =~= i32_bytes(set.w_max));
    assert(head.subrange(28, 32) =~= u32_bytes(flag));
    lemma_cut_twice(file, at, 32, 0, 4);
    lemma_cut_twice(file, at, 32, 4, 8);
    lemma_cut_twice(file, at, 32, 8, 12);
    lemma_cut_twice(file, at, 32, 12, 16);
    lemma_cut_twice(file, at, 32, 16, 20);
    lemma_cut_twice(file, at, 32, 20, 24);
    lemma_cut_twice(file, at, 32, 24, 28);
    lemma_cut_twice(file, at, 32, 28, 32);
    u32_round_trip(file, at, set.symbol_set_id);
    u32_round_trip(file, at + 4, set.n_codebooks);
    u32_round_trip(file, at + 8, set.n_symbols);
    u32_round_trip(file, at + 12, set.table_log);
    u32_round_trip(file, at + 16, set.w_offset);
    i32_round_trip(file, at + 20, set.w_min);
    i32_round_trip(file, at + 24, set.w_max);
    u32_round_trip(file, at + 28, flag);
    if is_padding(file, at) {
        assert(file[at + 4] == 0 && file[at + 5] == 0 && file[at + 6] == 0 && file[at + 7] == 0);
        assert(u32_at(file, at + 4) == 0);
    }
}

/// Symbol sets come back: a blob in which these sets were written back to back
/// from `pos` on, up to padding or fewer bytes than a header takes, is read as
/// these sets.
#[verifier::rlimit(30)]
pub proof fn codebook_sets_come_back(file: Seq<u8>, pos: int, end: int, sets: Seq<CodebookSet>)
    requires
        forall|i: int|
            0 <= i < sets.len() ==> set_written(file, pos + i * set_size(), end, #[trigger] sets[i]),
        ({
            let behind = pos + sets.len() * set_size();
            behind + CB_HEADER_SIZE > end || is_padding(file, behind)
        }),
    ensures
        codebook_sets_from(file, pos, end) == Ok::<Seq<CodebookSet>, LeechQ24ErrorView>(sets),
    decreases sets.len(),
{
    let size = set_size();
    assert(size == 0x4020);
    if sets.len() > 0 {
        let rest = sets.subrange(1, sets.len() as int);
        assert(set_written(file, pos + 0 * size, end, sets[0]));
        lemma_set_read_back(file, pos, end, sets[0]);
        assert forall|i: int| 0 <= i < rest.len() implies set_written(
            file,
            pos + size + i * size,
            end,
            #[trigger] rest[i],
        ) by {
            assert(rest[i] == sets[i + 1]);
            assert(pos + (i + 1) * size == pos + size + i * size) by (nonlinear_arith);
        }
        assert(pos + size + rest.len() * size == pos + sets.len() * size);
        codebook_sets_come_back(file, pos + size, end, rest);
        assert(seq![sets[0]] + rest =~= sets);
    } else {
        assert(sets =~= Seq::empty());
    }
}

fn all_zero(h: &[u8]) -> (r: bool)
    ensures
        r == (forall|k: int| 0 <= k < h@.len() ==> h@[k] == 0),
{
    let mut i: usize = 0;
    while i < h.len()
        invariant
            i <= h.len(),
            forall|k: int| 0 <= k < i ==> h@[k] == 0,
        decreases h.len() - i,
    {
        if h[i] != 0 {
            return false;
        }
        i = i + 1;
    }
    true
}

/// Reads the symbol set whose header is at `pos`.
fn read_set(blob: &[u8], pos: usize, end: usize) -> (r: Result<CodebookSet>)
    requires
        pos + CB_HEADER_SIZE <= end <= blob.len(),
    ensures
        outcome(r) == codebook_set_at(blob@, pos as int, end as int),
        r matches Ok(set) ==> set.decode_tables_bytes == tables_size() && pos + set_size() <= end,
{
    let symbol_set_id: u32 = read_u32_at(blob, pos);
    let n_codebooks: u32 = read_u32_at(blob, pos + 4);
    let n_symbols: u32 = read_u32_at(blob, pos + 8);
    let table_log: u32 = read_u32_at(blob, pos + 12);
    let w_offset: u32 = read_u32_at(blob, pos + 16);
    let w_min: i32 = read_i32_at(blob, pos + 20);
    let w_max: i32 = read_i32_at(blob, pos + 24);
    let has_encoder_tables: bool = read_u32_at(blob, pos + 28) != 0;

    if n_codebooks as usize != N_CODEBOOKS {
        return Err(
            LeechQ24Error::BadCodebookHeader {
                offset: pos as u64,
                reason: cat5(
                    "n_codebooks ",
                    to_decimal(n_codebooks as u64).as_str(),
                    " != ",
                    to_decimal(N_CODEBOOKS as u64).as_str(),
                    " (only 4-codebook tANS supported)",
                ),
            },
        );
    }
    if table_log != TABLE_LOG {
        return Err(
            LeechQ24Error::BadCodebookHeader {
                offset: pos as u64,
                reason: cat5(
                    "table_log ",
                    to_decimal(table_log as u64).as_str(),
                    " != ",
                    to_decimal(TABLE_LOG as u64).as_str(),
                    " (TABLE_LOG hardcoded for now)",
                ),
            },
        );
    }
    assert(1u64 << 10u32 == 1024) by (bit_vector);
    let m: u64 = 1u64 << table_log;
    let decode_tables_bytes: u64 = (n_codebooks as u64) * m * 4;
    let decode_tables_offset: u64 = (pos + CB_HEADER_SIZE) as u64;
    if end - (pos + CB_HEADER_SIZE) < decode_tables_bytes as usize {
        return Err(
            LeechQ24Error::Truncated {
                offset: decode_tables_offset,
                needed: decode_tables_bytes as usize,
                len: blob.len() as u64,
            },
        );
    }
    Ok(
        CodebookSet {
            symbol_set_id,
            n_codebooks,
            n_symbols,
            table_log,
            w_offset,
            w_min,
            w_max,
            has_encoder_tables,
            decode_tables_offset,
            decode_tables_bytes,
        },
    )
}

/// Sets already read, followed by those still to come.
spec fn prepend(
    read: Seq<CodebookSet>,
    rest: core::result::Result<Seq<CodebookSet>, LeechQ24ErrorView>,
) -> core::result::Result<Seq<CodebookSet>, LeechQ24ErrorView> {
    match rest {
        Err(e) => Err(e),
        Ok(rest) => Ok(read + rest),
    }
}

proof fn lemma_prepend_empty(rest: core::result::Result<Seq<CodebookSet>, LeechQ24ErrorView>)
    ensures
        prepend(Seq::empty(), rest) == rest,
{
    if let Ok(s) = rest {
        assert(Seq::<CodebookSet>::empty() + s =~= s);
    }
}

proof fn lemma_prepend_done(read: Seq<CodebookSet>)
    ensures
        prepend(read, Ok(Seq::empty())) == Ok::<Seq<CodebookSet>, LeechQ24ErrorView>(read),
{
    assert(read + Seq::<CodebookSet>::empty() =~= read);
}

proof fn lemma_prepend_step(
    read: Seq<CodebookSet>,
    set: CodebookSet,
    file: Seq<u8>,
    pos: int,
    end: int,
)
    requires
        pos + CB_HEADER_SIZE <= end,
        !is_padding(file, pos),
        codebook_set_at(file, pos, end) == Ok::<CodebookSet, LeechQ24ErrorView>(set),
    ensures
        prepend(read, codebook_sets_from(file, pos, end)) == prepend(
            read.push(set),
            codebook_sets_from(file, pos + set_size(), end),
        ),
{
    if let Ok(tail) = codebook_sets_from(file, pos + set_size(), end) {
        assert(read + (seq![set] + tail) =~= read.push(set) + tail);
    }
}

/// Parses the codebook blob into a list of `CodebookSet` entries.
///
/// `blob` must be the file bytes; `blob_offset` is the absolute file offset
/// of the codebook blob (so `decode_tables_offset` in each set is absolute).
/// `blob_len` is the length of the blob from `Header::codebook_size`.
#[verifier::rlimit(40)]
pub fn parse_codebook_blob(blob: &[u8], blob_offset: u64, blob_len: u64) -> (r: Result<
    Vec<CodebookSet>,
>)
    ensures
        match codebooks_of(blob@, blob_offset, blob_len) {
            Ok(sets) => r matches Ok(v) && v@ == sets,
            Err(e) => r matches Err(f) && f@ == e,
        },
{
    let end: usize = match blob_offset.checked_add(blob_len) {
        Some(end) => end as usize,
        None => {
            return Err(
                LeechQ24Error::BadCodebookHeader {
                    offset: blob_offset,
                    reason: "blob_offset + blob_len overflow".to_owned(),
                },
            );
        },
    };
    let start: usize = blob_offset as usize;
    if end > blob.len() {
        return Err(
            LeechQ24Error::Truncated {
                offset: blob_offset,
                needed: blob_len as usize,
                len: blob.len() as u64,
            },
        );
    }
    let mut sets: Vec<CodebookSet> = Vec::new();
    let mut pos: usize = start;
    proof {
        lemma_prepend_empty(codebook_sets_from(blob@, pos as int, end as int));
        assert(sets@ =~= Seq::empty());
    }
    let ghost expected = codebooks_of(blob@, blob_offset, blob_len);
    while pos <= end && end - pos >= CB_HEADER_SIZE
        invariant_except_break
            expected == prepend(sets@, codebook_sets_from(blob@, pos as int, end as int)),
        invariant
            end <= blob.len(),
            expected == codebooks_of(blob@, blob_offset, blob_len),
        ensures
            expected == Ok::<Seq<CodebookSet>, LeechQ24ErrorView>(sets@),
        decreases end - pos,
    {
        // The writer pads the blob with zero bytes: a zero header ends the list.
        let h: &[u8] = &blob[pos..pos + CB_HEADER_SIZE];
        if all_zero(h) {
            assert(is_padding(blob@, pos as int)) by {
                assert forall|k: int| pos <= k < pos + CB_HEADER_SIZE implies blob@[k] == 0 by {
                    assert(h@[k - pos] == 0);
                }
            }
            proof {
                lemma_prepend_done(sets@);
            }
            break;
        }
        assert(!is_padding(blob@, pos as int)) by {
            let k = choose|k: int| 0 <= k < h@.len() && h@[k] != 0;
            assert(blob@[pos + k] != 0);
        }
        let set: CodebookSet = match read_set(blob, pos, end) {
            Ok(set) => set,
            Err(e) => {
                return Err(e);
            },
        };
        proof {
            lemma_prepend_step(sets@, set, blob@, pos as int, end as int);
        }
        pos = pos + CB_HEADER_SIZE + set.decode_tables_bytes as usize;
        sets.push(set);
    }
    Ok(sets)
}

} // verus!
