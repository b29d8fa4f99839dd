//! `.leech` decoding in builds without CUDA: there is none.

use vstd::prelude::*;

verus! {

#[derive(Debug, Clone, Copy, PartialEq, Eq, Structural)]
pub enum LeechDecodeError {
    CudaRequired,
}

impl LeechDecodeError {
    /// The text shown to users.
    pub fn message(&self) -> (r: String)
        ensures
            r@
                == ".leech decode requires the `cuda` feature; rebuild with `--features cuda`"@,
    {
        ".leech decode requires the `cuda` feature; rebuild with `--features cuda`".to_owned()
    }
}

/// There are no tables to set up.
pub fn init_tables() -> (r: Result<(), LeechDecodeError>)
    ensures
        r == Err::<(), LeechDecodeError>(LeechDecodeError::CudaRequired),
{
    Err(LeechDecodeError::CudaRequired)
}

/// Refuses to decode; the output is left as it is.
pub fn leech_decode_v_int(
    _packed_stream: &[u8],
    _out_v_int: &mut [i8],
    _n_blocks: u32,
    _idx_bits: u32,
    _has_offset: bool,
) -> (r: Result<(), LeechDecodeError>)
    ensures
        r == Err::<(), LeechDecodeError>(LeechDecodeError::CudaRequired),
        final(_out_v_int)@ == old(_out_v_int)@,
{
    Err(LeechDecodeError::CudaRequired)
}

} // verus!
