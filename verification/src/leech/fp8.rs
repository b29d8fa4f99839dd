//! fp8_e4m3 to bf16 conversion.
//!
//! ```text
//! fp8_e4m3   sign (1) | exp (4, bias 7)   | mantissa (3)
//! bf16       sign (1) | exp (8, bias 127) | mantissa (7)
//!
//! exp = 0xF, mant = 0x7  -> NaN (the only NaN encoding)
//! exp = 0,   mant = 0    -> +-0
//! exp = 0,   mant != 0   -> subnormal (mant * 2^-9)
//! else                   -> normal (1.mant * 2^(exp - 7))
//! ```

use vstd::arithmetic::power2::pow2;
use vstd::prelude::*;

use crate::half_float::{bf16_from_bits, bf16_of_bits};

verus! {

/// Sign bit of an fp8 byte.
pub open spec fn fp8_sign(b: u8) -> int {
    b as int / 0x80
}

/// Exponent field of an fp8 byte.
pub open spec fn fp8_exp(b: u8) -> int {
    b as int / 8 % 0x10
}

/// Mantissa field of an fp8 byte.
pub open spec fn fp8_mant(b: u8) -> int {
    b as int % 8
}

/// Whether an fp8 byte is a NaN.
pub open spec fn fp8_is_nan(b: u8) -> bool {
    fp8_exp(b) == 0xF && fp8_mant(b) == 7
}

/// The magnitude of an fp8 number, in units of 2^-9.
pub open spec fn fp8_magnitude(b: u8) -> int {
    if fp8_exp(b) == 0 {
        fp8_mant(b)
    } else {
        (8 + fp8_mant(b)) * pow2((fp8_exp(b) - 1) as nat)
    }
}

/// Sign bit of a bf16 bit pattern.
pub open spec fn bf16_sign(bits: u16) -> int {
    bits as int / 0x8000
}

/// Exponent field of a bf16 bit pattern.
pub open spec fn bf16_exp(bits: u16) -> int {
    bits as int / 0x80 % 0x100
}

/// Mantissa field of a bf16 bit pattern.
pub open spec fn bf16_mant(bits: u16) -> int {
    bits as int % 0x80
}

/// The magnitude of a zero, or of a normal bf16 number of at least 2^-9, in
/// units of 2^-16.
pub open spec fn bf16_magnitude(bits: u16) -> int {
    if bf16_exp(bits) == 0 {
        0
    } else {
        (0x80 + bf16_mant(bits)) * pow2((bf16_exp(bits) - 118) as nat)
    }
}

/// Index of the highest set bit of a non-zero mantissa.
pub open spec fn mant_top(mant: int) -> int {
    if mant >= 4 {
        2
    } else if mant >= 2 {
        1
    } else {
        0
    }
}

/// A bf16 bit pattern put together from its fields.
pub open spec fn bf16_fields(sign: int, exp: int, mant: int) -> u16 {
    (sign * 0x8000 + exp * 0x80 + mant) as u16
}

/// The bf16 bit pattern for an fp8 byte.
pub open spec fn fp8_to_bf16(b: u8) -> u16 {
    let sign = fp8_sign(b);
    let exp = fp8_exp(b);
    let mant = fp8_mant(b);
    let top = mant_top(mant);
    if fp8_is_nan(b) {
        bf16_fields(sign, 0xFF, 0x40)
    } else if exp == 0 && mant == 0 {
        bf16_fields(sign, 0, 0)
    } else if exp == 0 {
        // mant * 2^-9 = 2^(top - 9) * (mant / 2^top)
        bf16_fields(sign, top - 9 + 127, if top == 0 {
            0
        } else if top == 1 {
            (mant - 2) * 0x40
        } else {
            (mant - 4) * 0x20
        })
    } else {
        bf16_fields(sign, exp - 7 + 127, mant * 0x10)
    }
}

/// The conversion keeps the value: NaN goes to NaN and nothing else does, the
/// sign stays, and the magnitude of every number stays what it was.
pub proof fn fp8_to_bf16_exact(b: u8)
    ensures
        ({
            let bits = fp8_to_bf16(b);
            &&& bf16_sign(bits) == fp8_sign(b)
            &&& (bf16_exp(bits) == 0xFF && bf16_mant(bits) != 0) <==> fp8_is_nan(b)
            &&& !fp8_is_nan(b) ==> {
                &&& bf16_exp(bits) == 0 ==> bf16_mant(bits) == 0
                &&& bf16_exp(bits) != 0 ==> 118 <= bf16_exp(bits) < 0xFF
                &&& bf16_magnitude(bits) == fp8_magnitude(b) * 0x80
            }
        }),
{
    vstd::arithmetic::power2::lemma2_to64();
    let exp = fp8_exp(b);
    let mant = fp8_mant(b);
    let bits = fp8_to_bf16(b);
    if !fp8_is_nan(b) && exp != 0 {
        assert(bf16_exp(bits) == exp + 120);
        assert(bf16_mant(bits) == mant * 0x10);
        vstd::arithmetic::power2::lemma_pow2_unfold((exp + 2) as nat);
        vstd::arithmetic::power2::lemma_pow2_unfold((exp + 1) as nat);
        vstd::arithmetic::power2::lemma_pow2_unfold(exp as nat);
        let unit = pow2((exp - 1) as nat) as int;
        assert(pow2((exp + 2) as nat) == 8 * unit);
        assert((0x80 + mant * 0x10) * (8 * unit) == ((8 + mant) * unit) * 0x80) by (nonlinear_arith);
    } else if exp == 0 && mant != 0 {
        assert(bf16_exp(bits) == mant_top(mant) + 118);
        if mant >= 4 {
            assert(bf16_mant(bits) == (mant - 4) * 0x20);
            assert(pow2((bf16_exp(bits) - 118) as nat) == 4);
        } else if mant >= 2 {
            assert(bf16_mant(bits) == (mant - 2) * 0x40);
            assert(pow2((bf16_exp(bits) - 118) as nat) == 2);
        } else {
            assert(pow2((bf16_exp(bits) - 118) as nat) == 1);
        }
    }
}

/// One byte keeps its value: its bf16 bits have the byte's sign; `0x7F` without
/// its sign is a NaN and becomes the quiet one, and everything else becomes a
/// number of the same magnitude. That is `(128 + m) * 2^(e - 134)` or zero for a
/// bf16 with fields `e` and `m`, and `(8 + m) * 2^(e - 10)`, or `m * 2^-9` where
/// `e` is zero, for an fp8.
pub proof fn fp8_byte_keeps_its_value(byte: u8)
    ensures
        ({
            let bits = fp8_to_bf16(byte) as int;
            let b = byte as int;
            let exp = b / 8 % 16;
            let bf16_e = bits / 128 % 256;
            let bf16_m = bits % 128;
            &&& bits / 0x8000 == b / 0x80
            &&& b % 0x80 == 0x7F <==> bf16_e == 255
            &&& b % 0x80 == 0x7F ==> bf16_m == 64
            &&& b % 0x80 == 0 <==> bf16_e == 0
            &&& b % 0x80 == 0 ==> bf16_m == 0
            &&& 0 < b % 0x80 < 0x7F ==> 118 <= bf16_e && (128 + bf16_m) * pow2(
                (bf16_e - 118) as nat,
            ) == 128 * (if exp == 0 {
                b % 8
            } else {
                (8 + b % 8) * pow2((exp - 1) as nat)
            })
        }),
{
    let bits = fp8_to_bf16(byte);
    fp8_to_bf16_exact(byte);
    assert(fp8_is_nan(byte) <==> byte as int % 0x80 == 0x7F);
    if fp8_is_nan(byte) {
        assert(bits == fp8_sign(byte) * 0x8000 + 0x7FC0);
    }
}

/// The `f32` bit pattern of `mant3 * 2^-9`.
fn subnormal_as_single(mant3: u32) -> (bits: u32)
    requires
        1 <= mant3 <= 7,
    ensures
        bits == (118 + mant_top(mant3 as int)) * 0x80_0000 + (mant3 - (if mant3 >= 4 {
            4int
        } else if mant3 >= 2 {
            2
        } else {
            1
        })) * (if mant3 >= 4 {
            0x20_0000int
        } else if mant3 >= 2 {
            0x40_0000
        } else {
            0x80_0000
        }),
{
    if mant3 >= 4 {
        120 * 0x80_0000 + (mant3 - 4) * 0x20_0000
    } else if mant3 >= 2 {
        119 * 0x80_0000 + (mant3 - 2) * 0x40_0000
    } else {
        118 * 0x80_0000
    }
}

/// The top half of an `f32` bit pattern, rounded to nearest, ties to even.
pub open spec fn round_to_high_half(bits: u32) -> int {
    let high = bits as int / 0x1_0000;
    let low = bits as int % 0x1_0000;
    if low > 0x8000 || (low == 0x8000 && high % 2 == 1) {
        high + 1
    } else {
        high
    }
}

/// Round-to-nearest-even from an `f32` bit pattern to bf16 bits.
fn f32_to_bf16_bits(f32_bits: u32) -> (r: u16)
    requires
        f32_bits < 0xFFFF_8000,
    ensures
        r == round_to_high_half(f32_bits),
{
    let odd: u32 = (f32_bits >> 16) & 1;
    assert(f32_bits >> 16 == f32_bits / 0x1_0000) by (bit_vector);
    let high: u32 = f32_bits >> 16;
    assert(high & 1 == high % 2) by (bit_vector);
    let sum: u32 = f32_bits + 0x7FFF + odd;
    assert(sum >> 16 == sum / 0x1_0000) by (bit_vector);
    (sum >> 16) as u16
}

/// Decodes one fp8_e4m3 byte to bf16 raw bits.
pub fn fp8_byte_to_bf16_bits(b: u8) -> (bits: u16)
    ensures
        bits == fp8_to_bf16(b),
{
    let byte: u32 = b as u32;
    assert(byte < 0x100 ==> (byte >> 7) & 1 == byte / 0x80) by (bit_vector);
    assert((byte >> 3) & 0xF == byte / 8 % 0x10) by (bit_vector);
    assert(byte & 0x7 == byte % 8) by (bit_vector);
    let sign: u32 = (byte >> 7) & 1;
    let exp4: u32 = (byte >> 3) & 0xF;
    let mant3: u32 = byte & 0x7;
    if exp4 == 0xF && mant3 == 0x7 {
        (0x7FC0 + sign * 0x8000) as u16
    } else if exp4 == 0 {
        if mant3 == 0 {
            (sign * 0x8000) as u16
        } else {
            f32_to_bf16_bits(sign * 0x8000_0000 + subnormal_as_single(mant3))
        }
    } else {
        (sign * 0x8000 + (exp4 + 120) * 0x80 + mant3 * 0x10) as u16
    }
}

/// The bf16 bits of every fp8 byte.
pub fn build_lut() -> (lut: [u16; 256])
    ensures
        forall|b: u8| #[trigger] lut@[b as int] == fp8_to_bf16(b),
{
    let mut lut: [u16; 256] = [0u16;256];
    let mut byte: usize = 0;
    while byte < 256
        invariant
            byte <= 256,
            lut@.len() == 256,
            forall|b: u8| b < byte ==> #[trigger] lut@[b as int] == fp8_to_bf16(b),
        decreases 256 - byte,
    {
        lut[byte] = fp8_byte_to_bf16_bits(byte as u8);
        byte = byte + 1;
    }
    lut
}

/// Decodes one fp8_e4m3 byte to a `bf16` value.
pub fn fp8_byte_to_bf16(b: u8) -> (v: half::bf16)
    ensures
        v == bf16_of_bits(fp8_to_bf16(b)),
        fp8_values(seq![b]) == seq![v],
{
    assert(fp8_values(seq![b]) =~= seq![bf16_of_bits(fp8_to_bf16(b))]);
    bf16_from_bits(fp8_byte_to_bf16_bits(b))
}

/// The bf16 values of a sequence of fp8 bytes.
pub open spec fn fp8_values(bytes: Seq<u8>) -> Seq<half::bf16> {
    Seq::new(bytes.len(), |i: int| bf16_of_bits(fp8_to_bf16(bytes[i])))
}

/// Every element keeps its value: a sequence converts to one bf16 for each byte,
/// in order, with the byte's sign. `0x7F` without its sign is a NaN and becomes
/// the quiet one; everything else becomes a number of the same magnitude, which
/// for a bf16 with fields `e` and `m` is `(128 + m) * 2^(e - 134)` or zero, and
/// for an fp8 with fields `e` and `m` is `(8 + m) * 2^(e - 10)`, or `m * 2^-9`
/// where `e` is zero.
pub proof fn fp8_values_keep_their_value(bytes: Seq<u8>, i: int)
    requires
        0 <= i < bytes.len(),
    ensures
        fp8_values(bytes).len() == bytes.len(),
        exists|bits: u16|
            {
                let b = bytes[i] as int;
                let exp = b / 8 % 16;
                let bf16_e = bits as int / 128 % 256;
                let bf16_m = bits as int % 128;
                &&& fp8_values(bytes)[i] == #[trigger] bf16_of_bits(bits)
                &&& bits as int / 0x8000 == b / 0x80
                &&& b % 0x80 == 0x7F <==> bf16_e == 255
                &&& b % 0x80 == 0x7F ==> bf16_m == 64
                &&& b % 0x80 == 0 <==> bf16_e == 0
                &&& b % 0x80 == 0 ==> bf16_m == 0
                &&& 0 < b % 0x80 < 0x7F ==> 118 <= bf16_e && (128 + bf16_m) * pow2(
                    (bf16_e - 118) as nat,
                ) == 128 * (if exp == 0 {
                    b % 8
                } else {
                    (8 + b % 8) * pow2((exp - 1) as nat)
                })
            },
{
    let bits = fp8_to_bf16(bytes[i]);
    fp8_byte_keeps_its_value(bytes[i]);
    assert(fp8_values(bytes)[i] == bf16_of_bits(bits));
}

/// Converting does not mix elements: joined sequences convert to joined values.
pub proof fn fp8_values_join(a: Seq<u8>, b: Seq<u8>)
    ensures
        fp8_values(a + b) == fp8_values(a) + fp8_values(b),
{
    assert(fp8_values(a + b) =~= fp8_values(a) + fp8_values(b));
}

/// Converts a slice of fp8_e4m3 bytes into a fresh vector.
pub fn fp8_bytes_to_bf16(bytes: &[u8]) -> (out: Vec<half::bf16>)
    ensures
        out@ == fp8_values(bytes@),
{
    let table: [u16; 256] = build_lut();
    let mut out: Vec<half::bf16> = Vec::with_capacity(bytes.len());
    let mut i: usize = 0;
    while i < bytes.len()
        invariant
            i <= bytes.len(),
            forall|b: u8| #[trigger] table@[b as int] == fp8_to_bf16(b),
            out@ == Seq::new(i as nat, |k: int| bf16_of_bits(fp8_to_bf16(bytes@[k]))),
        decreases bytes.len() - i,
    {
        let b: u8 = bytes[i];
        assert(table@[b as int] == fp8_to_bf16(b));
        out.push(bf16_from_bits(table[b as usize]));
        i = i + 1;
    }
    out
}

/// Converts into a caller-provided destination of the same length.
pub fn fp8_bytes_to_bf16_into(bytes: &[u8], dst: &mut [half::bf16])
    requires
        bytes@.len() == old(dst)@.len(),
    ensures
        final(dst)@ == fp8_values(bytes@),
{
    let table: [u16; 256] = build_lut();
    let mut i: usize = 0;
    while i < bytes.len()
        invariant
            i <= bytes.len(),
            dst@.len() == bytes@.len(),
            forall|b: u8| #[trigger] table@[b as int] == fp8_to_bf16(b),
            forall|k: int| 0 <= k < i ==> #[trigger] dst@[k] == bf16_of_bits(
                fp8_to_bf16(bytes@[k]),
            ),
        decreases bytes.len() - i,
    {
        let b: u8 = bytes[i];
        assert(table@[b as int] == fp8_to_bf16(b));
        dst[i] = bf16_from_bits(table[b as usize]);
        i = i + 1;
    }
    assert(dst@ =~= fp8_values(bytes@));
}

} // verus!
