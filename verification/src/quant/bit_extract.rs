//! Reading a symbol's bits from a tile's bit stream.
//!
//! The stream is a list of 64-bit words; bit `p` of it is bit `p % 64` of word
//! `p / 64`. A reader that has `nb_left` bits left of a tile that starts at
//! `bit_off` takes the next `nb` bits off the top: those that end at bit
//! `bit_off + nb_left - 1`.

use vstd::arithmetic::power2::pow2;
use vstd::prelude::*;

verus! {

/// Bit `p` of a stream, 0 or 1.
pub open spec fn stream_bit(stream: Seq<u64>, p: int) -> int {
    stream[p / 64] as int / pow2((p % 64) as nat) as int % 2
}

/// The number made of the `nb` bits from bit `low` on, lowest bit first.
pub open spec fn window_value(stream: Seq<u64>, low: int, nb: int) -> int
    decreases nb,
{
    if nb <= 0 {
        0
    } else {
        stream_bit(stream, low) + 2 * window_value(stream, low + 1, nb - 1)
    }
}

/// Whether the next `nb` bits can be read one at a time: no more than are left,
/// and all inside the stream. No bits can always be read.
pub open spec fn window_ok(stream: Seq<u64>, bit_off: u64, nb_left: i32, nb: u32) -> bool {
    nb == 0 || {
        &&& nb <= nb_left
        &&& bit_off + nb_left <= stream.len() * 64
        &&& bit_off + nb_left <= u64::MAX
    }
}

/// Whether the next `nb` bits can be read a word at a time: fewer than a word's,
/// all inside the stream, with the word that they start in read in any case.
pub open spec fn batch_ok(stream: Seq<u64>, bit_off: u64, nb_left: i32, nb: u32) -> bool {
    &&& nb < 64
    &&& 0 <= nb_left
    &&& 0 <= window_low(bit_off, nb_left, nb) < stream.len() * 64
    &&& bit_off + nb_left <= stream.len() * 64
    &&& bit_off + nb_left <= u64::MAX
}

/// What a reader returns: the low 32 bits of the number that the next `nb` bits
/// make.
pub open spec fn window_bits(stream: Seq<u64>, bit_off: u64, nb_left: i32, nb: u32) -> int {
    window_value(stream, window_low(bit_off, nb_left, nb), nb as int) % 0x1_0000_0000
}

/// Where the next `nb` bits start.
pub open spec fn window_low(bit_off: u64, nb_left: i32, nb: u32) -> int {
    bit_off + nb_left - nb
}

proof fn lemma_window_bound(stream: Seq<u64>, low: int, nb: int)
    requires
        0 <= nb,
    ensures
        0 <= window_value(stream, low, nb) < pow2(nb as nat),
    decreases nb,
{
    vstd::arithmetic::power2::lemma2_to64();
    if nb > 0 {
        lemma_window_bound(stream, low + 1, nb - 1);
        vstd::arithmetic::power2::lemma_pow2_unfold(nb as nat);
    }
}

/// Reads the bits one at a time, top bit first.
pub fn v0_per_bit_loop(bitstream: &[u64], bit_off: u64, nb_left: i32, nb: u32) -> (r: u32)
    requires
        window_ok(bitstream@, bit_off, nb_left, nb),
    ensures
        r == window_bits(bitstream@, bit_off, nb_left, nb),
{
    let mut bits_val: u32 = 0;
    let mut k: u32 = 0;
    while k < nb
        invariant
            k <= nb,
            window_ok(bitstream@, bit_off, nb_left, nb),
            bits_val == window_value(bitstream@, bit_off + nb_left - k, k as int) % 0x1_0000_0000,
        decreases nb - k,
    {
        let pos: i32 = nb_left - 1 - (k as i32);
        let abs_bit: u64 = bit_off + (pos as u64);
        let word: u64 = bitstream[(abs_bit / 64) as usize];
        let bit_idx: u64 = abs_bit % 64;
        proof {
            vstd::bits::lemma_u64_shr_is_div(word, bit_idx);
        }
        let shifted: u64 = word >> bit_idx;
        assert(shifted & 1 == shifted % 2) by (bit_vector);
        let bit: u32 = (shifted & 1) as u32;
        assert((bits_val << 1) | bit == (2 * bits_val + bit) % 0x1_0000_0000) by (bit_vector)
            requires
                bit <= 1,
        ;
        proof {
            let above = window_value(bitstream@, bit_off + nb_left - k, k as int);
            assert(window_value(bitstream@, abs_bit as int, k + 1) == bit + 2 * above);
        }
        bits_val = (bits_val << 1) | bit;
        k = k + 1;
    }
    bits_val
}

proof fn lemma_mod_split(x: int, n: nat)
    requires
        x >= 0,
        n > 0,
    ensures
        x % pow2(n) as int == x % 2 + 2 * ((x / 2) % pow2((n - 1) as nat) as int),
{
    vstd::arithmetic::power2::lemma_pow2_unfold(n);
    vstd::arithmetic::power2::lemma_pow2_pos((n - 1) as nat);
    vstd::arithmetic::div_mod::lemma_mod_breakdown(x, 2, pow2((n - 1) as nat) as int);
}

/// A window inside one word is that word shifted down and cut off.
proof fn lemma_window_in_word(stream: Seq<u64>, low: int, nb: int)
    requires
        0 <= low,
        0 <= nb,
        low % 64 + nb <= 64,
    ensures
        window_value(stream, low, nb) == (stream[low / 64] as int / pow2((low % 64) as nat) as int)
            % pow2(nb as nat) as int,
    decreases nb,
{
    vstd::arithmetic::power2::lemma2_to64();
    let w = stream[low / 64] as int;
    let b = low % 64;
    vstd::arithmetic::power2::lemma_pow2_pos(b as nat);
    let x = w / pow2(b as nat) as int;
    assert(x >= 0) by {
        vstd::arithmetic::div_mod::lemma_div_pos_is_pos(w, pow2(b as nat) as int);
    }
    if nb > 0 {
        lemma_mod_split(x, nb as nat);
        if nb > 1 {
            lemma_window_in_word(stream, low + 1, nb - 1);
            assert((low + 1) / 64 == low / 64 && (low + 1) % 64 == b + 1);
            vstd::arithmetic::power2::lemma_pow2_unfold((b + 1) as nat);
            vstd::arithmetic::div_mod::lemma_div_denominator(w, pow2(b as nat) as int, 2);
        } else {
            assert(window_value(stream, low + 1, 0) == 0);
        }
    }
}

proof fn lemma_window_join(stream: Seq<u64>, low: int, a: int, b: int)
    requires
        0 <= a,
        0 <= b,
    ensures
        window_value(stream, low, a + b) == window_value(stream, low, a) + pow2(a as nat)
            * window_value(stream, low + a, b),
    decreases a,
{
    vstd::arithmetic::power2::lemma2_to64();
    if a > 0 {
        lemma_window_join(stream, low + 1, a - 1, b);
        vstd::arithmetic::power2::lemma_pow2_unfold(a as nat);
        let p = pow2((a - 1) as nat) as int;
        let v = window_value(stream, low + a, b);
        assert(2 * (p * v) == (2 * p) * v) by (nonlinear_arith);
        assert(low + 1 + (a - 1) == low + a && a + b - 1 == a - 1 + b);
    } else {
        assert(pow2(a as nat) == 1);
        assert(low + a == low);
    }
}

proof fn lemma_shifted_small(w: int, shift: nat, rest: nat)
    requires
        0 <= w <= u64::MAX,
        shift + rest == 64,
    ensures
        0 <= w / pow2(shift) as int,
        w / (pow2(shift) as int) < pow2(rest),
        (w / pow2(shift) as int) % pow2(rest) as int == w / pow2(shift) as int,
{
    vstd::arithmetic::power2::lemma2_to64();
    vstd::arithmetic::power2::lemma2_to64_rest();
    vstd::arithmetic::power2::lemma_pow2_adds(shift, rest);
    vstd::arithmetic::power2::lemma_pow2_pos(shift);
    vstd::arithmetic::power2::lemma_pow2_pos(rest);
    let a = pow2(shift) as int;
    let b = pow2(rest) as int;
    vstd::arithmetic::div_mod::lemma_div_pos_is_pos(w, a);
    vstd::arithmetic::div_mod::lemma_multiply_divide_lt(w, a, b);
    vstd::arithmetic::div_mod::lemma_small_mod((w / a) as nat, b as nat);
}

proof fn lemma_or_is_sum(lo: u64, hi: u64, n: u64)
    requires
        0 < n < 64,
        lo < pow2(n as nat),
    ensures
        lo | (hi << n) == lo + (hi << n),
{
    vstd::bits::lemma_u64_shr_is_div(lo, n);
    vstd::arithmetic::power2::lemma_pow2_pos(n as nat);
    vstd::arithmetic::div_mod::lemma_basic_div(lo as int, pow2(n as nat) as int);
    assert(lo | (hi << n) == lo + (hi << n)) by (bit_vector)
        requires
            0 < n < 64,
            lo >> n == 0,
    ;
}

/// The low `nb` bits of a word.
fn low_bits(word: u64, nb: u32) -> (r: u64)
    requires
        nb < 64,
    ensures
        r as int == word as int % pow2(nb as nat) as int,
{
    proof {
        vstd::bits::lemma_u64_pow2_no_overflow(nb as nat);
        vstd::bits::lemma_u64_shl_is_mul(1, nb as u64);
        vstd::bits::lemma_u64_low_bits_mask_is_mod(word, nb as nat);
        vstd::arithmetic::power2::lemma_pow2_pos(nb as nat);
    }
    word & ((1u64 << (nb as u64)) - 1)
}

/// Reads the bits with one word access, or two where they straddle a word
/// boundary.
pub fn batch_extract(bitstream: &[u64], bit_off: u64, nb_left: i32, nb: u32) -> (r: u32)
    requires
        batch_ok(bitstream@, bit_off, nb_left, nb),
    ensures
        r == window_bits(bitstream@, bit_off, nb_left, nb),
{
    let low_pos: u64 = bit_off + (nb_left as u64) - (nb as u64);
    let word_idx: u64 = low_pos / 64;
    let bit_idx: u32 = (low_pos % 64) as u32;
    let w0: u64 = bitstream[word_idx as usize];
    proof {
        lemma_window_bound(bitstream@, low_pos as int, nb as int);
        vstd::arithmetic::power2::lemma2_to64();
        vstd::bits::lemma_u64_pow2_no_overflow(nb as nat);
        vstd::bits::lemma_u64_shr_is_div(w0, bit_idx as u64);
    }
    let bits: u64 = if bit_idx + nb <= 64 {
        proof {
            lemma_window_in_word(bitstream@, low_pos as int, nb as int);
        }
        low_bits(w0 >> (bit_idx as u64), nb)
    } else {
        let w1: u64 = bitstream[(word_idx + 1) as usize];
        let lo_n: u32 = 64 - bit_idx;
        let lo_bits: u64 = w0 >> (bit_idx as u64);
        let hi: u64 = low_bits(w1, nb - lo_n);
        proof {
            let low = low_pos as int;
            lemma_window_in_word(bitstream@, low, lo_n as int);
            lemma_window_in_word(bitstream@, low + lo_n, (nb - lo_n) as int);
            lemma_window_join(bitstream@, low, lo_n as int, (nb - lo_n) as int);
            lemma_window_bound(bitstream@, low, lo_n as int);
            assert((low + lo_n) / 64 == word_idx + 1 && (low + lo_n) % 64 == 0);
            vstd::arithmetic::div_mod::lemma_div_basics(w1 as int);
            assert(hi == window_value(bitstream@, low + lo_n, (nb - lo_n) as int));
            let a = pow2(lo_n as nat) as int;
            assert(hi * a == a * hi) by (nonlinear_arith);
            lemma_shifted_small(w0 as int, bit_idx as nat, lo_n as nat);
            vstd::bits::lemma_u64_shl_is_mul(hi, lo_n as u64);
            lemma_or_is_sum(lo_bits, hi, lo_n as u64);
        }
        lo_bits | (hi << (lo_n as u64))
    };
    assert(bits as u32 == bits % 0x1_0000_0000) by (bit_vector);
    bits as u32
}

/// The bits of a word, from its lowest to its highest, make that word.
pub proof fn word_is_its_window(stream: Seq<u64>, i: int)
    requires
        0 <= i,
    ensures
        window_value(stream, 64 * i, 64) == stream[i],
{
    vstd::arithmetic::power2::lemma2_to64();
    vstd::arithmetic::power2::lemma2_to64_rest();
    lemma_window_in_word(stream, 64 * i, 64);
    assert((64 * i) / 64 == i && (64 * i) % 64 == 0);
    let w = stream[i] as int;
    vstd::arithmetic::div_mod::lemma_div_basics(w);
    vstd::arithmetic::div_mod::lemma_small_mod(w as nat, pow2(64));
}

/// Bits side by side make one number, the lower ones its low digits; a number
/// of `nb` bits is below `2^nb`.
pub proof fn windows_join(stream: Seq<u64>, low: int, a: int, b: int)
    requires
        0 <= a,
        0 <= b,
    ensures
        0 <= window_value(stream, low, a) < pow2(a as nat),
        window_value(stream, low, a + b) == window_value(stream, low, a) + pow2(a as nat)
            * window_value(stream, low + a, b),
{
    lemma_window_bound(stream, low, a);
    lemma_window_join(stream, low, a, b);
}

/// A reader takes the bits of a tile off the top: reading `a` bits and then `b`
/// more reads the number that reading them all at once does, and reading all
/// that is left reads from the tile's first bit on.
pub proof fn reads_take_bits_off_the_top(
    stream: Seq<u64>,
    bit_off: u64,
    nb_left: i32,
    a: u32,
    b: u32,
)
    requires
        a + b <= 32,
        a + b <= nb_left,
    ensures
        window_bits(stream, bit_off, nb_left, (a + b) as u32) == pow2(b as nat) * window_bits(
            stream,
            bit_off,
            nb_left,
            a,
        ) + window_bits(stream, bit_off, (nb_left - a) as i32, b),
        nb_left <= 32 ==> window_bits(stream, bit_off, nb_left, nb_left as u32) == window_value(
            stream,
            bit_off as int,
            nb_left as int,
        ),
{
    let low = bit_off + nb_left - (a + b);
    windows_join(stream, low, b as int, a as int);
    lemma_window_is_word32(stream, low, (a + b) as int);
    lemma_window_is_word32(stream, low, b as int);
    lemma_window_is_word32(stream, low + b, a as int);
    if nb_left <= 32 {
        lemma_window_is_word32(stream, bit_off as int, nb_left as int);
    }
}

/// Of more than 32 bits a reader returns the last 32: it reads what it would
/// read once the bits before them are taken off.
pub proof fn long_reads_keep_the_last_bits(
    stream: Seq<u64>,
    bit_off: u64,
    nb_left: i32,
    nb: u32,
)
    requires
        32 <= nb <= nb_left,
    ensures
        window_bits(stream, bit_off, nb_left, nb) == window_bits(
            stream,
            bit_off,
            (nb_left - (nb - 32)) as i32,
            32,
        ),
{
    let low = bit_off + nb_left - nb;
    let high = window_value(stream, low + 32, nb - 32);
    vstd::arithmetic::power2::lemma2_to64();
    windows_join(stream, low, 32, nb - 32);
    assert(window_value(stream, low, nb as int) == window_value(stream, low, 32) + 0x1_0000_0000
        * high);
    vstd::arithmetic::div_mod::lemma_mod_multiples_vanish(
        high,
        window_value(stream, low, 32),
        0x1_0000_0000,
    );
}

proof fn lemma_window_is_word32(stream: Seq<u64>, low: int, nb: int)
    requires
        0 <= nb <= 32,
    ensures
        window_value(stream, low, nb) % 0x1_0000_0000 == window_value(stream, low, nb),
{
    vstd::arithmetic::power2::lemma2_to64();
    lemma_window_bound(stream, low, nb);
    if nb < 32 {
        vstd::arithmetic::power2::lemma_pow2_strictly_increases(nb as nat, 32);
    }
}

} // verus!
