//! Q24-tANS decoding in builds without CUDA: there is none.

use vstd::prelude::*;

pub use crate::quant::leech_q24_cuda::compute_tile_bit_offsets;

verus! {

#[derive(Debug, Clone, Copy, PartialEq, Eq, Structural)]
pub enum LeechQ24DecodeError {
    CpuNotImplemented,
}

impl LeechQ24DecodeError {
    /// The text shown to users.
    pub open spec fn text(self) -> Seq<char> {
        "Q24-tANS CPU decoder is not provided by this crate — build with `--features cuda` or use the Python reference in production/packer/q24_tans/core/codec.py"@
    }

    /// The text shown to users.
    pub fn message(&self) -> (r: String)
        ensures
            r@ == self.text(),
    {
        "Q24-tANS CPU decoder is not provided by this crate — build with `--features cuda` or use the Python reference in production/packer/q24_tans/core/codec.py".to_owned()
    }
}

/// There are no tables to set up.
pub fn init_tables(_decode_tables: &[u32], _symbol_set_id: u32) -> (r: Result<
    (),
    LeechQ24DecodeError,
>)
    ensures
        r == Err::<(), LeechQ24DecodeError>(LeechQ24DecodeError::CpuNotImplemented),
{
    Err(LeechQ24DecodeError::CpuNotImplemented)
}

/// There is no decoder; the buffers that it would take are not looked at.
pub fn leech_q24_decode_v_int(
    _n_blocks: u32,
    _n_tiles: u32,
    _w_offset: i32,
    _tile_size: i32,
) -> (r: Result<(), LeechQ24DecodeError>)
    ensures
        r == Err::<(), LeechQ24DecodeError>(LeechQ24DecodeError::CpuNotImplemented),
{
    Err(LeechQ24DecodeError::CpuNotImplemented)
}

/// There is no fused kernel; the buffers that it would take are not looked
/// at.
pub fn leech_q24_gemv_bf16(
    _r_rows: u32,
    _b_blocks: u32,
    _n_blocks: u32,
    _n_tiles: u32,
    _k_beta: u32,
    _k_offset: u32,
    _w_offset: i32,
    _tile_size: i32,
    _has_offset: bool,
) -> (r: Result<(), LeechQ24DecodeError>)
    ensures
        r == Err::<(), LeechQ24DecodeError>(LeechQ24DecodeError::CpuNotImplemented),
{
    Err(LeechQ24DecodeError::CpuNotImplemented)
}

/// There is no fused kernel that shares its work within a warp; the buffers that it would take are not looked
/// at.
pub fn leech_q24_gemv_bf16_warpcoop(
    _r_rows: u32,
    _b_blocks: u32,
    _n_blocks: u32,
    _n_tiles: u32,
    _k_beta: u32,
    _k_offset: u32,
    _w_offset: i32,
    _tile_size: i32,
    _has_offset: bool,
) -> (r: Result<(), LeechQ24DecodeError>)
    ensures
        r == Err::<(), LeechQ24DecodeError>(LeechQ24DecodeError::CpuNotImplemented),
{
    Err(LeechQ24DecodeError::CpuNotImplemented)
}

} // verus!
