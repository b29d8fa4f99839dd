//! bfloat16 values by their bits.

use vstd::prelude::*;

verus! {

/// `half::bf16`, a bfloat16 value.
#[verifier::external_type_specification]
#[verifier::external_body]
pub struct ExBf16(half::bf16);

/// The value that `half::bf16::from_bits` makes of `bits`.
pub uninterp spec fn bf16_of_bits(bits: u16) -> half::bf16;

/// `half::bf16::from_bits`: the value with exactly these bits.
#[verifier::external_body]
pub(crate) fn bf16_from_bits(bits: u16) -> (v: half::bf16)
    ensures
        v == bf16_of_bits(bits),
{
    half::bf16::from_bits(bits)
}

} // verus!
