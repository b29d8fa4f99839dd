//! Argument checks of the CUDA `.leech` decoder.

use vstd::prelude::*;

use crate::text::{cat3, cat4, decimal, to_decimal};

verus! {

#[derive(Debug, Clone, Copy, PartialEq, Eq, Structural)]
pub enum LeechDecodeError {
    /// Output buffer was not sized for `n_blocks * 24` int8 cells.
    OutputBufferTooSmall { needed: usize, got: usize },
    /// Packed bitstream is too short for the requested block count.
    PackedStreamTooShort { needed: usize, got: usize },
    /// idx_bits outside the supported {48, 54} set.
    UnsupportedIdxBits(u32),
}

impl LeechDecodeError {
    /// The text shown to users.
    pub open spec fn text(self) -> Seq<char> {
        match self {
            LeechDecodeError::OutputBufferTooSmall { needed, got } =>
                "out_v_int too small: need "@ + decimal(needed as nat) + " bytes, got "@ + decimal(
                    got as nat,
                ),
            LeechDecodeError::PackedStreamTooShort { needed, got } =>
                "packed_stream too short: need ≥ "@ + decimal(needed as nat)
                    + " bytes (incl. 8B tail-pad), got "@ + decimal(got as nat),
            LeechDecodeError::UnsupportedIdxBits(b) =>
                "unsupported idx_bits "@ + decimal(b as nat)
                    + ": kernel templates exist for {48, 54} only"@,
        }
    }

    /// The text shown to users.
    pub fn message(&self) -> (r: String)
        ensures
            r@ == self.text(),
    {
        match self {
            LeechDecodeError::OutputBufferTooSmall { needed, got } => cat4(
                "out_v_int too small: need ",
                to_decimal(*needed as u64).as_str(),
                " bytes, got ",
                to_decimal(*got as u64).as_str(),
            ),
            LeechDecodeError::PackedStreamTooShort { needed, got } => cat4(
                "packed_stream too short: need ≥ ",
                to_decimal(*needed as u64).as_str(),
                " bytes (incl. 8B tail-pad), got ",
                to_decimal(*got as u64).as_str(),
            ),
            LeechDecodeError::UnsupportedIdxBits(b) => cat3(
                "unsupported idx_bits ",
                to_decimal(*b as u64).as_str(),
                ": kernel templates exist for {48, 54} only",
            ),
        }
    }
}

/// Cells that decoding `n_blocks` blocks fills.
pub open spec fn cells_needed(n_blocks: u32) -> int {
    n_blocks * 24
}

/// Bits that one block takes in the packed stream.
pub open spec fn block_width(idx_bits: u32, has_offset: bool) -> int {
    idx_bits + 3 + (if has_offset {
        3int
    } else {
        0
    })
}

/// Bytes that the packed stream of `n_blocks` blocks takes, with its 8-byte
/// tail pad.
pub open spec fn padded_stream_len(n_blocks: u32, idx_bits: u32, has_offset: bool) -> int {
    (n_blocks * block_width(idx_bits, has_offset) + 7) / 8 + 8
}

/// Whether the kernel has a template for this width.
pub open spec fn idx_bits_supported(idx_bits: u32) -> bool {
    idx_bits == 48 || idx_bits == 54
}

/// What is wrong with the arguments of a decode, if anything.
pub open spec fn decode_fault(
    packed_len: usize,
    out_len: usize,
    n_blocks: u32,
    idx_bits: u32,
    has_offset: bool,
) -> Option<LeechDecodeError> {
    if out_len < cells_needed(n_blocks) {
        Some(
            LeechDecodeError::OutputBufferTooSmall {
                needed: cells_needed(n_blocks) as usize,
                got: out_len,
            },
        )
    } else if packed_len < padded_stream_len(n_blocks, idx_bits, has_offset) {
        Some(
            LeechDecodeError::PackedStreamTooShort {
                needed: padded_stream_len(n_blocks, idx_bits, has_offset) as usize,
                got: packed_len,
            },
        )
    } else if !idx_bits_supported(idx_bits) {
        Some(LeechDecodeError::UnsupportedIdxBits(idx_bits))
    } else {
        None
    }
}

/// Checks the arguments of a decode of `n_blocks` blocks from a packed stream
/// of `packed_len` bytes into `out_len` cells, before the kernel is launched.
pub fn check_decode_v_int(
    packed_len: usize,
    out_len: usize,
    n_blocks: u32,
    idx_bits: u32,
    has_offset: bool,
) -> (r: Result<(), LeechDecodeError>)
    requires
        cells_needed(n_blocks) <= usize::MAX,
        out_len >= cells_needed(n_blocks) ==> {
            &&& block_width(idx_bits, has_offset) <= u32::MAX
            &&& padded_stream_len(n_blocks, idx_bits, has_offset) <= usize::MAX
        },
    ensures
        r == match decode_fault(packed_len, out_len, n_blocks, idx_bits, has_offset) {
            Some(e) => Err::<(), LeechDecodeError>(e),
            None => Ok(()),
        },
{
    let needed_out: usize = (n_blocks as usize) * 24;
    if out_len < needed_out {
        return Err(LeechDecodeError::OutputBufferTooSmall { needed: needed_out, got: out_len });
    }
    let per_block_bits: u32 = idx_bits + 3 + (if has_offset {
        3
    } else {
        0
    });
    assert(0 <= n_blocks * per_block_bits <= 0xffff_ffff * 0xffff_ffff) by (nonlinear_arith)
        requires
            0 <= n_blocks <= 0xffff_ffff,
            0 <= per_block_bits <= 0xffff_ffff,
    ;
    let needed_bits: u64 = (n_blocks as u64) * (per_block_bits as u64);
    let needed_pad: usize = ((needed_bits + 7) / 8) as usize + 8;
    if packed_len < needed_pad {
        return Err(LeechDecodeError::PackedStreamTooShort { needed: needed_pad, got: packed_len });
    }
    if idx_bits != 48 && idx_bits != 54 {
        return Err(LeechDecodeError::UnsupportedIdxBits(idx_bits));
    }
    Ok(())
}

/// A decode is let through exactly when there are 24 cells for each block, all
/// the bits of all blocks with eight bytes behind them, and a kernel for the
/// index width. The first of these that is missing is refused, and it is said
/// what the least would be that is enough.
pub proof fn decode_needs_no_more(
    packed_len: usize,
    out_len: usize,
    n_blocks: u32,
    idx_bits: u32,
    has_offset: bool,
)
    requires
        24 * n_blocks <= usize::MAX,
        n_blocks * (idx_bits + 6) + 64 <= usize::MAX,
    ensures
        ({
            let bits = n_blocks * (idx_bits + (if has_offset {
                6int
            } else {
                3
            }));
            &&& decode_fault(packed_len, out_len, n_blocks, idx_bits, has_offset) is None <==> {
                &&& out_len >= 24 * n_blocks
                &&& 8 * (packed_len - 8) >= bits
                &&& idx_bits == 48 || idx_bits == 54
            }
            &&& match decode_fault(packed_len, out_len, n_blocks, idx_bits, has_offset) {
                Some(LeechDecodeError::OutputBufferTooSmall { needed, got }) => got == out_len
                    && needed == 24 * n_blocks && got < needed,
                Some(LeechDecodeError::PackedStreamTooShort { needed, got }) => out_len >= 24
                    * n_blocks && got == packed_len && got < needed && 8 * (needed - 8) >= bits && 8 * (needed - 9) < bits,
                Some(LeechDecodeError::UnsupportedIdxBits(b)) => out_len >= 24 * n_blocks && 8 * (
                packed_len - 8) >= bits && b == idx_bits && b != 48 && b != 54,
                None => true,
            }
        }),
{
    let w = block_width(idx_bits, has_offset);
    assert(0 <= n_blocks * w <= n_blocks * (idx_bits + 6)) by (nonlinear_arith)
        requires
            0 <= w <= idx_bits + 6,
            0 <= n_blocks,
    ;
}

/// A decode that passes the checks stays inside its buffers: every bit of every
/// block, and the eight bytes behind the last one, lie inside the packed
/// stream, and every cell of every block inside the output.
pub proof fn checked_decode_in_bounds(
    packed_len: usize,
    out_len: usize,
    n_blocks: u32,
    idx_bits: u32,
    has_offset: bool,
    block: int,
    bit: int,
    cell: int,
)
    requires
        decode_fault(packed_len, out_len, n_blocks, idx_bits, has_offset) is None,
        0 <= block < n_blocks,
        0 <= bit < block_width(idx_bits, has_offset),
        0 <= cell < 24,
    ensures
        (block * block_width(idx_bits, has_offset) + bit) / 8 + 8 < packed_len,
        block * 24 + cell < out_len,
{
    let w = block_width(idx_bits, has_offset);
    assert(block * w + bit < n_blocks * w) by (nonlinear_arith)
        requires
            0 <= block < n_blocks,
            0 <= bit < w,
    ;
}

} // verus!
