//! OVERLAY_BLOCK of a `.leech` file.
//!
//! ```text
//! +0  u32 overlay_count
//! +4  u32 total_size                (entire block, including this header)
//! +8  u64 reserved=0
//! [entries: variable-length]
//!     u8  kind (0=block24, 1=lora)
//!     u8  reserved=0
//!     u16 name_len
//!     char[name_len] name (utf-8)
//!     pad to 4-byte alignment from block start
//!     u64 payload_offset (from OVERLAY_BLOCK start)
//!     u64 payload_size
//! [payloads concatenated]
//! ```

use vstd::prelude::*;

use crate::bytes::{
    lemma_cut_joined, lemma_cut_twice, read_u16_at, read_u32_at, read_u64_at, u16_at, u16_bytes,
    u16_round_trip, u32_at, u32_bytes, u32_round_trip, u64_at, u64_bytes, u64_round_trip, zeros,
};
use crate::leech::error::{outcome, LeechError, LeechErrorView, Result};
use crate::text::{cat, cat4, decimal, decode_name, to_decimal, utf8_error};

verus! {

pub const OVERLAY_HEADER_SIZE: usize = 16;

#[derive(Debug, Clone, Copy, PartialEq, Eq, Structural)]
pub enum OverlayKind {
    Block24,
    Lora,
}

/// The overlay kind that a byte stands for.
pub open spec fn overlay_kind_of(v: u8) -> Option<OverlayKind> {
    if v == 0 {
        Some(OverlayKind::Block24)
    } else if v == 1 {
        Some(OverlayKind::Lora)
    } else {
        None
    }
}

/// The text for a byte that stands for no overlay kind.
pub open spec fn unknown_kind_text(v: u8) -> Seq<char> {
    "unknown overlay kind "@ + decimal(v as nat)
}

impl OverlayKind {
    /// The byte of an overlay kind.
    pub open spec fn tag(self) -> u8 {
        match self {
            OverlayKind::Block24 => 0,
            OverlayKind::Lora => 1,
        }
    }

    /// Reads a kind byte.
    pub fn from_u8(v: u8) -> (r: Result<Self>)
        ensures
            outcome(r) == match overlay_kind_of(v) {
                Some(kind) => Ok::<OverlayKind, LeechErrorView>(kind),
                None => Err(LeechErrorView::BadOverlay(unknown_kind_text(v))),
            },
    {
        match v {
            0 => Ok(OverlayKind::Block24),
            1 => Ok(OverlayKind::Lora),
            other => Err(
                LeechError::BadOverlay(
                    cat("unknown overlay kind ", to_decimal(other as u64).as_str()),
                ),
            ),
        }
    }
}

/// Reading a kind's byte gives the kind back, and no other byte reads as that
/// kind.
pub proof fn overlay_kind_round_trip(kind: OverlayKind, v: u8)
    ensures
        overlay_kind_of(kind.tag()) == Some(kind),
        overlay_kind_of(v) == Some(kind) ==> v == kind.tag(),
{
}

#[derive(Debug, Clone)]
pub struct OverlayEntry<'a> {
    pub kind: OverlayKind,
    pub name: String,
    pub payload: &'a [u8],
}

/// An [`OverlayEntry`] with its name and payload as sequences.
pub struct OverlayEntryView {
    pub kind: OverlayKind,
    pub name: Seq<char>,
    pub payload: Seq<u8>,
}

impl<'a> View for OverlayEntry<'a> {
    type V = OverlayEntryView;

    open spec fn view(&self) -> OverlayEntryView {
        OverlayEntryView { kind: self.kind, name: self.name@, payload: self.payload@ }
    }
}

/// An overlay is seen field by field, each under its own name.
pub proof fn overlay_seen_by_field(x: OverlayEntry)
    ensures
        x@.kind == x.kind,
        x@.name == x.name@,
        x@.payload == x.payload@,
{
}

/// The views of a list of entries.
pub open spec fn entry_views(entries: Seq<OverlayEntry>) -> Seq<OverlayEntryView> {
    Seq::new(entries.len(), |i: int| entries[i]@)
}

/// A list of overlays is seen overlay by overlay, in order.
pub proof fn overlays_seen_in_order(entries: Seq<OverlayEntry>, last: OverlayEntry)
    ensures
        entry_views(Seq::empty()).len() == 0,
        entry_views(entries.push(last)) == entry_views(entries).push(last@),
{
    assert(entry_views(entries.push(last)) =~= entry_views(entries).push(last@));
}

/// The next multiple of four.
pub open spec fn align4(n: int) -> int {
    (n + 3) / 4 * 4
}

/// Entry `i` of a block, whose header starts at `cur`, and where the next
/// header starts; or what is wrong with it.
pub open spec fn overlay_entry_at(block: Seq<u8>, cur: int, i: int) -> core::result::Result<
    (OverlayEntryView, int),
    LeechErrorView,
> {
    let name_at = cur + 4;
    let name_end = name_at + u16_at(block, cur + 2);
    let name = block.subrange(name_at, name_end);
    let tail = align4(name_end);
    let payload_offset = u64_at(block, tail) as usize;
    let payload_end = payload_offset + (u64_at(block, tail + 8) as usize);
    if name_at > block.len() {
        Err(
            LeechErrorView::BadOverlay(
                "truncated overlay entry header at idx "@ + decimal(i as nat),
            ),
        )
    } else if overlay_kind_of(block[cur]) is None {
        Err(LeechErrorView::BadOverlay(unknown_kind_text(block[cur])))
    } else if name_end > block.len() {
        Err(LeechErrorView::BadOverlay("overlay name truncated at idx "@ + decimal(i as nat)))
    } else if !vstd::utf8::valid_utf8(name) {
        Err(LeechErrorView::Utf8(utf8_error(name)))
    } else if tail + 16 > block.len() {
        Err(
            LeechErrorView::BadOverlay(
                "overlay payload header truncated at idx "@ + decimal(i as nat),
            ),
        )
    } else if payload_end > usize::MAX {
        Err(LeechErrorView::BadOverlay("payload offset overflow at idx "@ + decimal(i as nat)))
    } else if payload_end > block.len() {
        Err(
            LeechErrorView::BadOverlay(
                "overlay payload "@ + decimal(i as nat) + " extends past block: "@ + decimal(
                    payload_end as nat,
                ) + " > "@ + decimal(block.len()),
            ),
        )
    } else {
        Ok(
            (
                OverlayEntryView {
                    kind: overlay_kind_of(block[cur])->0,
                    name: vstd::utf8::decode_utf8(name),
                    payload: block.subrange(payload_offset as int, payload_end),
                },
                tail + 16,
            ),
        )
    }
}

/// Entries `i` to `count` of a block, the first of whose headers starts at
/// `cur`; or what is wrong with the first bad one.
pub open spec fn overlay_entries_from(
    block: Seq<u8>,
    cur: int,
    i: int,
    count: int,
) -> core::result::Result<Seq<OverlayEntryView>, LeechErrorView>
    decreases count - i,
{
    if i >= count {
        Ok(Seq::empty())
    } else {
        match overlay_entry_at(block, cur, i) {
            Err(e) => Err(e),
            Ok((entry, next)) => match overlay_entries_from(block, next, i + 1, count) {
                Err(e) => Err(e),
                Ok(rest) => Ok(seq![entry] + rest),
            },
        }
    }
}

/// The entries of an overlay block; or what is wrong with it.
pub open spec fn overlay_block_of(block: Seq<u8>) -> core::result::Result<
    Seq<OverlayEntryView>,
    LeechErrorView,
> {
    let total_size = u32_at(block, 4);
    if block.len() == 0 {
        Ok(Seq::empty())
    } else if block.len() < OVERLAY_HEADER_SIZE {
        Err(
            LeechErrorView::BadOverlay(
                "overlay block too short: "@ + decimal(block.len()) + " < "@ + decimal(
                    OVERLAY_HEADER_SIZE as nat,
                ),
            ),
        )
    } else if total_size != block.len() {
        Err(
            LeechErrorView::BadOverlay(
                "overlay total_size "@ + decimal(total_size as nat) + " != block length "@
                    + decimal(block.len()),
            ),
        )
    } else {
        overlay_entries_from(block, OVERLAY_HEADER_SIZE as int, 0, u32_at(block, 0) as int)
    }
}

/// Entries already read, followed by those still to come.
spec fn prepend(
    read: Seq<OverlayEntryView>,
    rest: core::result::Result<Seq<OverlayEntryView>, LeechErrorView>,
) -> core::result::Result<Seq<OverlayEntryView>, LeechErrorView> {
    match rest {
        Err(e) => Err(e),
        Ok(rest) => Ok(read + rest),
    }
}

/// Reads one entry; returns it and where the next header starts.
fn read_entry<'a>(block: &'a [u8], cur: usize, i: usize) -> (r: Result<(OverlayEntry<'a>, usize)>)
    requires
        cur <= block.len() <= 0xffff_ffff,
    ensures
        match overlay_entry_at(block@, cur as int, i as int) {
            Ok((entry, next)) => r matches Ok(v) && v.0@ == entry && v.1 == next && next
                <= block.len(),
            Err(e) => r matches Err(f) && f@ == e,
        },
{
    let idx_text: String = to_decimal(i as u64);
    let len: u64 = block.len() as u64;
    if cur as u64 + 4 > len {
        return Err(
            LeechError::BadOverlay(
                cat("truncated overlay entry header at idx ", idx_text.as_str()),
            ),
        );
    }
    let kind: OverlayKind = match OverlayKind::from_u8(block[cur]) {
        Ok(kind) => kind,
        Err(e) => {
            return Err(e);
        },
    };
    let name_len: usize = read_u16_at(block, cur + 2) as usize;
    let name_at: usize = cur + 4;
    if name_at as u64 + name_len as u64 > len {
        return Err(
            LeechError::BadOverlay(cat("overlay name truncated at idx ", idx_text.as_str())),
        );
    }
    let name_end: usize = name_at + name_len;
    let name: String = match decode_name(&block[name_at..name_end]) {
        Ok(name) => name,
        Err(e) => {
            return Err(LeechError::Utf8(e));
        },
    };
    let pad: u64 = (4 - (name_end as u64 % 4)) % 4;
    assert(name_end + pad == align4(name_end as int));
    if name_end as u64 + pad + 16 > len {
        return Err(
            LeechError::BadOverlay(
                cat("overlay payload header truncated at idx ", idx_text.as_str()),
            ),
        );
    }
    let tail: usize = name_end + pad as usize;
    let payload_offset: usize = read_u64_at(block, tail) as usize;
    let payload_size: usize = read_u64_at(block, tail + 8) as usize;
    let end: usize = match payload_offset.checked_add(payload_size) {
        Some(end) => end,
        None => {
            return Err(
                LeechError::BadOverlay(cat("payload offset overflow at idx ", idx_text.as_str())),
            );
        },
    };
    if end > block.len() {
        let head: String = cat4(
            "overlay payload ",
            idx_text.as_str(),
            " extends past block: ",
            to_decimal(end as u64).as_str(),
        );
        let tail_text: String = cat(" > ", to_decimal(len).as_str());
        let reason: String = cat(head.as_str(), tail_text.as_str());
        proof {
            assert(reason@ =~= "overlay payload "@ + decimal(i as nat) + " extends past block: "@
                + decimal(end as nat) + " > "@ + decimal(block@.len()));
        }
        return Err(LeechError::BadOverlay(reason));
    }
    Ok((OverlayEntry { kind, name, payload: &block[payload_offset..end] }, tail + 16))
}

/// Reads the entries of an overlay block.
pub fn parse_overlay_block(block: &[u8]) -> (r: Result<Vec<OverlayEntry<'_>>>)
    ensures
        match overlay_block_of(block@) {
            Ok(entries) => r matches Ok(v) && entry_views(v@) == entries,
            Err(e) => r matches Err(f) && f@ == e,
        },
{
    if block.is_empty() {
        let none: Vec<OverlayEntry<'_>> = Vec::new();
        assert(entry_views(none@) =~= Seq::empty());
        return Ok(none);
    }
    if block.len() < OVERLAY_HEADER_SIZE {
        return Err(
            LeechError::BadOverlay(
                cat4(
                    "overlay block too short: ",
                    to_decimal(block.len() as u64).as_str(),
                    " < ",
                    to_decimal(OVERLAY_HEADER_SIZE as u64).as_str(),
                ),
            ),
        );
    }
    let overlay_count: usize = read_u32_at(block, 0) as usize;
    let total_size: usize = read_u32_at(block, 4) as usize;
    if total_size != block.len() {
        return Err(
            LeechError::BadOverlay(
                cat4(
                    "overlay total_size ",
                    to_decimal(total_size as u64).as_str(),
                    " != block length ",
                    to_decimal(block.len() as u64).as_str(),
                ),
            ),
        );
    }
    let mut entries: Vec<OverlayEntry<'_>> = Vec::new();
    let mut cur: usize = OVERLAY_HEADER_SIZE;
    let mut i: usize = 0;
    assert(entry_views(entries@) + Seq::<OverlayEntryView>::empty() =~= Seq::empty());
    proof {
        lemma_prepend_empty(
            entry_views(entries@),
            overlay_entries_from(block@, cur as int, 0, overlay_count as int),
        );
    }
    while i < overlay_count
        invariant
            i <= overlay_count,
            cur <= block.len() <= 0xffff_ffff,
            overlay_block_of(block@) == prepend(
                entry_views(entries@),
                overlay_entries_from(block@, cur as int, i as int, overlay_count as int),
            ),
        decreases overlay_count - i,
    {
        let (entry, next): (OverlayEntry<'_>, usize) = match read_entry(block, cur, i) {
            Ok(v) => v,
            Err(e) => {
                return Err(e);
            },
        };
        let ghost before = entry_views(entries@);
        let ghost first = entry@;
        entries.push(entry);
        proof {
            assert(entry_views(entries@) =~= before.push(first));
            let rest = overlay_entries_from(block@, next as int, i + 1, overlay_count as int);
            if let Ok(tail) = rest {
                assert(before + (seq![first] + tail) =~= before.push(first) + tail);
            }
        }
        cur = next;
        i = i + 1;
    }
    assert(entry_views(entries@) + Seq::<OverlayEntryView>::empty() =~= entry_views(entries@));
    Ok(entries)
}

proof fn lemma_prepend_empty(
    none: Seq<OverlayEntryView>,
    rest: core::result::Result<Seq<OverlayEntryView>, LeechErrorView>,
)
    requires
        none.len() == 0,
    ensures
        prepend(none, rest) == rest,
{
    if let Ok(s) = rest {
        assert(none + s =~= s);
    }
}

/// The bytes of a name.
pub open spec fn encoded_name(entry: OverlayEntryView) -> Seq<u8> {
    vstd::utf8::encode_utf8(entry.name)
}

/// The header of an entry whose payload starts at `payload_at`.
#[verifier::opaque]
pub open spec fn entry_head(entry: OverlayEntryView, payload_at: int) -> Seq<u8> {
    let name = encoded_name(entry);
    seq![entry.kind.tag(), 0u8] + u16_bytes(name.len() as u16) + name + zeros(
        align4(4 + name.len() as int) - (4 + name.len()),
    ) + u64_bytes(payload_at as u64) + u64_bytes(entry.payload.len() as u64)
}

/// Bytes of the header of an entry.
pub open spec fn head_size(entry: OverlayEntryView) -> int {
    align4(4 + encoded_name(entry).len() as int) + 16
}

/// Bytes of the headers from entry `i` on.
pub open spec fn heads_size(entries: Seq<OverlayEntryView>, i: int) -> int
    decreases entries.len() - i,
{
    if i >= entries.len() {
        0
    } else {
        head_size(entries[i]) + heads_size(entries, i + 1)
    }
}

/// The headers from entry `i` on, whose payload starts at `payload_at`; the
/// other payloads follow it.
pub open spec fn heads_from(entries: Seq<OverlayEntryView>, i: int, payload_at: int) -> Seq<u8>
    decreases entries.len() - i,
{
    if i >= entries.len() {
        Seq::empty()
    } else {
        entry_head(entries[i], payload_at) + heads_from(
            entries,
            i + 1,
            payload_at + entries[i].payload.len(),
        )
    }
}

/// The payloads from entry `i` on.
pub open spec fn payloads_from(entries: Seq<OverlayEntryView>, i: int) -> Seq<u8>
    decreases entries.len() - i,
{
    if i >= entries.len() {
        Seq::empty()
    } else {
        entries[i].payload + payloads_from(entries, i + 1)
    }
}

/// Bytes of the block that holds these entries.
pub open spec fn overlay_block_size(entries: Seq<OverlayEntryView>) -> int {
    OVERLAY_HEADER_SIZE + heads_size(entries, 0) + payloads_from(entries, 0).len()
}

/// The block that holds these entries: its header, their headers, their
/// payloads.
pub open spec fn overlay_block_bytes(entries: Seq<OverlayEntryView>) -> Seq<u8> {
    u32_bytes(entries.len() as u32) + u32_bytes(overlay_block_size(entries) as u32) + zeros(8)
        + heads_from(entries, 0, OVERLAY_HEADER_SIZE + heads_size(entries, 0)) + payloads_from(
        entries,
        0,
    )
}

proof fn lemma_heads_len(entries: Seq<OverlayEntryView>, i: int, payload_at: int)
    requires
        0 <= i,
    ensures
        heads_from(entries, i, payload_at).len() == heads_size(entries, i),
        heads_size(entries, i) >= 0,
        i <= entries.len() ==> heads_size(entries, i) >= 20 * (entries.len() - i),
    decreases entries.len() - i,
{
    if i < entries.len() {
        lemma_heads_len(entries, i + 1, payload_at + entries[i].payload.len());
        lemma_head_layout(entries[i], payload_at);
    }
}

/// Where the parts of an entry's header lie.
#[verifier::spinoff_prover]
#[verifier::rlimit(60)]
proof fn lemma_head_layout(entry: OverlayEntryView, payload_at: int)
    ensures
        ({
            let head = entry_head(entry, payload_at);
            let name = encoded_name(entry);
            let tail = align4(4 + name.len() as int);
            &&& head.len() == head_size(entry) == tail + 16
            &&& 4 + name.len() <= tail
            &&& head[0] == entry.kind.tag()
            &&& head.subrange(2, 4) == u16_bytes(name.len() as u16)
            &&& head.subrange(4, 4 + name.len() as int) == name
            &&& head.subrange(tail, tail + 8) == u64_bytes(payload_at as u64)
            &&& head.subrange(tail + 8, tail + 16) == u64_bytes(entry.payload.len() as u64)
        }),
{
    reveal(entry_head);
    let head = entry_head(entry, payload_at);
    let name = encoded_name(entry);
    let tail = align4(4 + name.len() as int);
    assert(head.len() == tail + 16);
    assert(head.subrange(2, 4) =~= u16_bytes(name.len() as u16));
    assert(head.subrange(4, 4 + name.len() as int) =~= name);
    assert(head.subrange(tail, tail + 8) =~= u64_bytes(payload_at as u64));
    assert(head.subrange(tail + 8, tail + 16) =~= u64_bytes(entry.payload.len() as u64));
}

/// Alignment does not depend on an aligned start.
proof fn lemma_align4_shift(start: int, n: int)
    requires
        start % 4 == 0,
    ensures
        align4(start + n) == start + align4(n),
{
}

/// What stands where in a block that holds the header of an entry.
#[verifier::spinoff_prover]
#[verifier::rlimit(60)]
proof fn lemma_head_in_block(block: Seq<u8>, cur: int, entry: OverlayEntryView, payload_at: int)
    requires
        0 <= cur,
        cur % 4 == 0,
        cur + head_size(entry) <= block.len(),
        block.subrange(cur, cur + head_size(entry)) == entry_head(entry, payload_at),
    ensures
        ({
            let name = encoded_name(entry);
            let n = name.len() as int;
            let tail = align4(cur + 4 + n);
            &&& block[cur] == entry.kind.tag()
            &&& block.subrange(cur + 2, cur + 4) == u16_bytes(n as u16)
            &&& block.subrange(cur + 4, cur + 4 + n) == name
            &&& block.subrange(tail, tail + 8) == u64_bytes(payload_at as u64)
            &&& block.subrange(tail + 8, tail + 16) == u64_bytes(entry.payload.len() as u64)
            &&& cur + 4 + n <= tail
            &&& tail + 16 == cur + head_size(entry)
        }),
{
    let n = encoded_name(entry).len() as int;
    let tail = align4(4 + n);
    let len = head_size(entry);
    lemma_head_layout(entry, payload_at);
    lemma_align4_shift(cur, 4 + n);
    assert(block[cur] == entry.kind.tag()) by {
        assert(block.subrange(cur, cur + len)[0] == block[cur]);
    }
    assert(block.subrange(cur + 2, cur + 4) == u16_bytes(n as u16)) by {
        lemma_cut_twice(block, cur, len, 2, 4);
    }
    assert(block.subrange(cur + 4, cur + 4 + n) == encoded_name(entry)) by {
        lemma_cut_twice(block, cur, len, 4, 4 + n);
    }
    assert(block.subrange(cur + tail, cur + tail + 8) == u64_bytes(payload_at as u64)) by {
        lemma_cut_twice(block, cur, len, tail, tail + 8);
    }
    assert(block.subrange(cur + tail + 8, cur + tail + 16) == u64_bytes(
        entry.payload.len() as u64,
    )) by {
        lemma_cut_twice(block, cur, len, tail + 8, tail + 16);
    }
}

/// An entry whose header and payload are in a block is read back from it.
#[verifier::spinoff_prover]
#[verifier::rlimit(60)]
proof fn lemma_entry_read_back(
    block: Seq<u8>,
    cur: int,
    i: int,
    entry: OverlayEntryView,
    payload_at: int,
)
    requires
        0 <= cur,
        cur % 4 == 0,
        encoded_name(entry).len() <= 0xffff,
        cur + head_size(entry) <= block.len() <= 0xffff_ffff,
        block.subrange(cur, cur + head_size(entry)) == entry_head(entry, payload_at),
        0 <= payload_at,
        payload_at + entry.payload.len() <= block.len(),
        block.subrange(payload_at, payload_at + entry.payload.len()) == entry.payload,
    ensures
        overlay_entry_at(block, cur, i) == Ok::<(OverlayEntryView, int), LeechErrorView>(
            (entry, cur + head_size(entry)),
        ),
{
    let n = encoded_name(entry).len() as int;
    let tail = align4(cur + 4 + n);
    let start = payload_at as u64;
    let size = entry.payload.len() as u64;
    lemma_head_in_block(block, cur, entry, payload_at);
    assert(u16_at(block, cur + 2) == n) by {
        u16_round_trip(block, cur + 2, n as u16);
    }
    assert(u64_at(block, tail) == payload_at) by {
        u64_round_trip(block, tail, start);
    }
    assert(u64_at(block, tail + 8) == entry.payload.len()) by {
        u64_round_trip(block, tail + 8, size);
    }
    assert(vstd::utf8::valid_utf8(encoded_name(entry)) && vstd::utf8::decode_utf8(
        encoded_name(entry),
    ) == entry.name) by {
        vstd::utf8::encode_utf8_valid_utf8(entry.name);
        vstd::utf8::encode_utf8_decode_utf8(entry.name);
    }
    assert(overlay_kind_of(block[cur]) == Some(entry.kind));
}

#[verifier::spinoff_prover]
#[verifier::rlimit(60)]
proof fn lemma_entries_read_back(
    block: Seq<u8>,
    entries: Seq<OverlayEntryView>,
    cur: int,
    i: int,
    payload_at: int,
)
    requires
        0 <= i <= entries.len(),
        forall|k: int|
            0 <= k < entries.len() ==> encoded_name(#[trigger] entries[k]).len() <= 0xffff,
        0 <= cur,
        cur % 4 == 0,
        cur + heads_size(entries, i) <= block.len() <= 0xffff_ffff,
        block.subrange(cur, cur + heads_size(entries, i)) == heads_from(entries, i, payload_at),
        0 <= payload_at <= block.len(),
        block.subrange(payload_at, block.len() as int) == payloads_from(entries, i),
    ensures
        overlay_entries_from(block, cur, i, entries.len() as int) == Ok::<
            Seq<OverlayEntryView>,
            LeechErrorView,
        >(entries.subrange(i, entries.len() as int)),
    decreases entries.len() - i,
{
    let n = entries.len() as int;
    if i < n {
        let entry = entries[i];
        let size = head_size(entry);
        let room = heads_size(entries, i);
        let len = entry.payload.len() as int;
        let data_len = block.len() - payload_at;
        let head = entry_head(entry, payload_at);
        lemma_heads_len(entries, i + 1, payload_at + len);
        lemma_head_layout(entry, payload_at);
        lemma_cut_joined(head, heads_from(entries, i + 1, payload_at + len));
        lemma_cut_twice(block, cur, room, 0, size);
        lemma_cut_twice(block, cur, room, size, room);
        lemma_cut_joined(entry.payload, payloads_from(entries, i + 1));
        lemma_cut_twice(block, payload_at, data_len, 0, len);
        lemma_cut_twice(block, payload_at, data_len, len, data_len);
        lemma_entry_read_back(block, cur, i, entry, payload_at);
        lemma_entries_read_back(block, entries, cur + size, i + 1, payload_at + len);
        assert(seq![entry] + entries.subrange(i + 1, n) =~= entries.subrange(i, n));
    } else {
        assert(entries.subrange(i, n) =~= Seq::empty());
    }
}

/// Overlays come back: a block that was written with these entries is read as
/// these entries. A block has room for 4 GiB, and a name for 65535 bytes.
#[verifier::spinoff_prover]
#[verifier::rlimit(60)]
pub proof fn overlays_come_back(entries: Seq<OverlayEntryView>)
    requires
        forall|k: int|
            0 <= k < entries.len() ==> encoded_name(#[trigger] entries[k]).len() <= 0xffff,
        overlay_block_size(entries) <= 0xffff_ffff,
    ensures
        overlay_block_bytes(entries).len() == overlay_block_size(entries),
        overlay_block_of(overlay_block_bytes(entries)) == Ok::<
            Seq<OverlayEntryView>,
            LeechErrorView,
        >(entries),
{
    let block = overlay_block_bytes(entries);
    let payload_at = OVERLAY_HEADER_SIZE + heads_size(entries, 0);
    let count = entries.len() as u32;
    let total = overlay_block_size(entries) as u32;
    let front = u32_bytes(count) + u32_bytes(total) + zeros(8);
    let heads = heads_from(entries, 0, payload_at);
    let payloads = payloads_from(entries, 0);
    lemma_heads_len(entries, 0, payload_at);
    assert(block == (front + heads) + payloads);
    lemma_cut_joined(front + heads, payloads);
    lemma_cut_joined(front, heads);
    lemma_cut_twice(block, 0, payload_at, 0, 16);
    lemma_cut_twice(block, 0, payload_at, 16, payload_at);
    lemma_cut_twice(block, 0, 16, 0, 4);
    lemma_cut_twice(block, 0, 16, 4, 8);
    assert(front.subrange(0, 4) =~= u32_bytes(count));
    assert(front.subrange(4, 8) =~= u32_bytes(total));
    u32_round_trip(block, 0, count);
    u32_round_trip(block, 4, total);
    lemma_entries_read_back(block, entries, 16, 0, payload_at);
    assert(entries.subrange(0, entries.len() as int) =~= entries);
}

/// Kind bytes are 0 for a block and 1 for a LoRA, and others stand for nothing.
pub proof fn kinds_count_up(v: u8)
    ensures
        overlay_kind_of(v) == match v {
            0 => Some(OverlayKind::Block24),
            1 => Some(OverlayKind::Lora),
            _ => None,
        },
{
}

/// An overlay is where its header says: an entry's header is its kind, its
/// name's length and bytes and, from the next multiple of four on, where its
/// payload lies in the block and how long it is. The entry is read exactly when
/// the kind is known, the name is UTF-8, and the header and the payload lie
/// inside the block; it is then that kind, that name and those bytes, and the
/// next header follows. Where the payload starts and how long it is have to be
/// `usize`s.
#[verifier::spinoff_prover]
#[verifier::rlimit(60)]
pub proof fn overlay_is_where_it_was_written(
    block: Seq<u8>,
    cur: int,
    i: int,
    name: Seq<u8>,
    tail: int,
    at: u64,
    size: u64,
)
    requires
        0 <= cur,
        name.len() <= 0xffff,
        tail % 4 == 0,
        cur + 4 + name.len() <= tail < cur + 4 + name.len() + 4,
        tail + 16 <= block.len(),
        block.subrange(cur + 2, cur + 4) == u16_bytes(name.len() as u16),
        block.subrange(cur + 4, cur + 4 + name.len()) == name,
        block.subrange(tail, tail + 8) == u64_bytes(at),
        block.subrange(tail + 8, tail + 16) == u64_bytes(size),
        at <= usize::MAX,
        size <= usize::MAX,
        block.len() <= usize::MAX,
    ensures
        overlay_entry_at(block, cur, i) is Ok <==> {
            &&& overlay_kind_of(block[cur]) is Some
            &&& vstd::utf8::valid_utf8(name)
            &&& at + size <= block.len()
        },
        match overlay_entry_at(block, cur, i) {
            Ok((entry, next)) => {
                &&& overlay_kind_of(block[cur]) == Some(entry.kind)
                &&& vstd::utf8::encode_utf8(entry.name) == name
                &&& entry.payload == block.subrange(at as int, at + size)
                &&& next == tail + 16
            },
            Err(_) => true,
        },
{
    u16_round_trip(block, cur + 2, name.len() as u16);
    u64_round_trip(block, tail, at);
    u64_round_trip(block, tail + 8, size);
    assert(align4(cur + 4 + name.len()) == tail);
    if vstd::utf8::valid_utf8(name) {
        vstd::utf8::decode_utf8_encode_utf8(name);
    }
}

/// A block's overlays are read one after the other behind its 16 bytes of
/// header, as many as it announces; the first one that is faulty is the one
/// complained of. An empty block has none, and a block that is shorter than its
/// header or not as long as it says is refused.
pub proof fn overlays_are_read_in_order(block: Seq<u8>, cur: int, i: int, count: int)
    ensures
        block.len() == 0 ==> overlay_block_of(block) == Ok::<Seq<OverlayEntryView>, LeechErrorView>(
            Seq::empty(),
        ),
        0 < block.len() < 16 ==> overlay_block_of(block) is Err,
        block.len() >= 16 && block.subrange(4, 8) != u32_bytes(block.len() as u32)
            ==> overlay_block_of(block) is Err,
        16 <= block.len() <= 0xffff_ffff && block.subrange(4, 8) == u32_bytes(block.len() as u32)
            && 0 <= count <= 0xffff_ffff && block.subrange(0, 4) == u32_bytes(count as u32)
            ==> overlay_block_of(block) == overlay_entries_from(block, 16, 0, count),
        i >= count ==> overlay_entries_from(block, cur, i, count) == Ok::<
            Seq<OverlayEntryView>,
            LeechErrorView,
        >(Seq::empty()),
        i < count ==> match overlay_entry_at(block, cur, i) {
            Err(e) => overlay_entries_from(block, cur, i, count) == Err::<
                Seq<OverlayEntryView>,
                LeechErrorView,
            >(e),
            Ok((entry, next)) => match overlay_entries_from(block, next, i + 1, count) {
                Err(e) => overlay_entries_from(block, cur, i, count) == Err::<
                    Seq<OverlayEntryView>,
                    LeechErrorView,
                >(e),
                Ok(rest) => overlay_entries_from(block, cur, i, count) == Ok::<
                    Seq<OverlayEntryView>,
                    LeechErrorView,
                >(seq![entry] + rest),
            },
        },
{
    if block.len() >= 16 {
        u32_round_trip(block, 4, block.len() as u32);
        u32_round_trip(block, 0, count as u32);
    }
}

/// Every overlay of a block that is read is announced by its header, and its
/// payload is a part of the block.
pub proof fn overlays_are_announced(block: Seq<u8>, i: int)
    requires
        block.len() > 0,
    ensures
        match overlay_block_of(block) {
            Ok(entries) => {
                &&& entries.len() == u32_at(block, 0)
                &&& 0 <= i < entries.len() ==> exists|at: int|
                    0 <= at && at + entries[i].payload.len() <= block.len() && entries[i].payload
                        == #[trigger] block.subrange(at, at + entries[i].payload.len())
            },
            Err(_) => true,
        },
{
    if overlay_block_of(block) is Ok {
        lemma_announced(block, OVERLAY_HEADER_SIZE as int, 0, u32_at(block, 0) as int, i);
    }
}

proof fn lemma_announced(block: Seq<u8>, cur: int, from: int, count: int, i: int)
    requires
        0 <= from <= count,
        overlay_entries_from(block, cur, from, count) is Ok,
    ensures
        ({
            let entries = overlay_entries_from(block, cur, from, count)->Ok_0;
            &&& entries.len() == count - from
            &&& 0 <= i < entries.len() ==> exists|at: int|
                0 <= at && at + entries[i].payload.len() <= block.len() && entries[i].payload
                    == #[trigger] block.subrange(at, at + entries[i].payload.len())
        }),
    decreases count - from,
{
    if from < count {
        let (entry, next) = overlay_entry_at(block, cur, from)->Ok_0;
        let rest = overlay_entries_from(block, next, from + 1, count)->Ok_0;
        lemma_announced(block, next, from + 1, count, i - 1);
        let entries = overlay_entries_from(block, cur, from, count)->Ok_0;
        assert(entries == seq![entry] + rest);
        if i == 0 {
            let tail = align4(cur + 4 + u16_at(block, cur + 2));
            let at = (u64_at(block, tail) as usize) as int;
            assert(entry.payload =~= block.subrange(at, at + entry.payload.len()));
        } else if 0 < i < entries.len() {
            assert(entries[i] == rest[i - 1]);
        }
    }
}

} // verus!
