//! Little-endian integers, sub-slices and checksums of a byte buffer.

use byteorder::ByteOrder;
use vstd::prelude::*;

verus! {

/// The little-endian `u16` at offset `at`.
pub open spec fn u16_at(s: Seq<u8>, at: int) -> u16 {
    (s[at] + 0x100 * s[at + 1]) as u16
}

/// The little-endian `u32` at offset `at`.
pub open spec fn u32_at(s: Seq<u8>, at: int) -> u32 {
    (s[at] + 0x100 * s[at + 1] + 0x1_0000 * s[at + 2] + 0x100_0000 * s[at + 3]) as u32
}

/// The little-endian `u64` at offset `at`.
pub open spec fn u64_at(s: Seq<u8>, at: int) -> u64 {
    (u32_at(s, at) + 0x1_0000_0000 * u32_at(s, at + 4)) as u64
}

/// The little-endian two's-complement `i32` at offset `at`.
pub open spec fn i32_at(s: Seq<u8>, at: int) -> i32 {
    let v: u32 = u32_at(s, at);
    if v < 0x8000_0000 {
        v as i32
    } else {
        (v - 0x1_0000_0000) as i32
    }
}

/// The little-endian bytes of a `u16`.
pub open spec fn u16_bytes(v: u16) -> Seq<u8> {
    seq![(v % 0x100) as u8, (v / 0x100) as u8]
}

/// The little-endian bytes of a `u32`.
pub open spec fn u32_bytes(v: u32) -> Seq<u8> {
    seq![
        (v % 0x100) as u8,
        (v / 0x100 % 0x100) as u8,
        (v / 0x1_0000 % 0x100) as u8,
        (v / 0x100_0000) as u8,
    ]
}

/// The little-endian bytes of a `u64`.
pub open spec fn u64_bytes(v: u64) -> Seq<u8> {
    u32_bytes((v % 0x1_0000_0000) as u32) + u32_bytes((v / 0x1_0000_0000) as u32)
}

/// The bytes at offset `at` are those of a `u16` exactly when that number is
/// read there.
pub proof fn u16_round_trip(s: Seq<u8>, at: int, v: u16)
    requires
        0 <= at,
        at + 2 <= s.len(),
    ensures
        s.subrange(at, at + 2) == u16_bytes(v) <==> u16_at(s, at) == v,
{
    let field = s.subrange(at, at + 2);
    assert(field[0] == s[at] && field[1] == s[at + 1]);
    if u16_at(s, at) == v {
        assert(field =~= u16_bytes(v));
    }
}

proof fn lemma_u32_digits(b0: u8, b1: u8, b2: u8, b3: u8, v: u32)
    ensures
        v == b0 + 0x100 * b1 + 0x1_0000 * b2 + 0x100_0000 * b3 <==> {
            &&& b0 == v % 0x100
            &&& b1 == v / 0x100 % 0x100
            &&& b2 == v / 0x1_0000 % 0x100
            &&& b3 == v / 0x100_0000
        },
{
    let q1 = v / 0x100;
    let q2 = q1 / 0x100;
    let q3 = q2 / 0x100;
    assert(v / 0x1_0000 == q2);
    assert(v / 0x100_0000 == q3);
    if v == b0 + 0x100 * b1 + 0x1_0000 * b2 + 0x100_0000 * b3 {
        assert(q1 == b1 + 0x100 * b2 + 0x1_0000 * b3);
        assert(q2 == b2 + 0x100 * b3);
        assert(q3 == b3);
    }
}

/// The bytes at offset `at` are those of a `u32` exactly when that number is
/// read there.
#[verifier::rlimit(30)]
pub proof fn u32_round_trip(s: Seq<u8>, at: int, v: u32)
    requires
        0 <= at,
        at + 4 <= s.len(),
    ensures
        s.subrange(at, at + 4) == u32_bytes(v) <==> u32_at(s, at) == v,
{
    let field = s.subrange(at, at + 4);
    assert(field[0] == s[at] && field[1] == s[at + 1] && field[2] == s[at + 2] && field[3] == s[at
        + 3]);
    lemma_u32_digits(s[at], s[at + 1], s[at + 2], s[at + 3], v);
    if u32_at(s, at) == v {
        assert(field =~= u32_bytes(v));
    }
}

/// The bytes at offset `at` are those of a `u64` exactly when that number is
/// read there.
#[verifier::rlimit(30)]
pub proof fn u64_round_trip(s: Seq<u8>, at: int, v: u64)
    requires
        0 <= at,
        at + 8 <= s.len(),
    ensures
        s.subrange(at, at + 8) == u64_bytes(v) <==> u64_at(s, at) == v,
{
    let lo = (v % 0x1_0000_0000) as u32;
    let hi = (v / 0x1_0000_0000) as u32;
    let field = s.subrange(at, at + 8);
    u32_round_trip(s, at, lo);
    u32_round_trip(s, at + 4, hi);
    assert(field.subrange(0, 4) =~= s.subrange(at, at + 4));
    assert(field.subrange(4, 8) =~= s.subrange(at + 4, at + 8));
    assert(u64_bytes(v).subrange(0, 4) =~= u32_bytes(lo));
    assert(u64_bytes(v).subrange(4, 8) =~= u32_bytes(hi));
    assert(field =~= field.subrange(0, 4) + field.subrange(4, 8));
}

/// The little-endian two's-complement bytes of an `i32`.
pub open spec fn i32_bytes(v: i32) -> Seq<u8> {
    u32_bytes(
        (if v < 0 {
            v + 0x1_0000_0000
        } else {
            v as int
        }) as u32,
    )
}

/// The bytes at offset `at` are those of an `i32` exactly when that number is
/// read there.
pub proof fn i32_round_trip(s: Seq<u8>, at: int, v: i32)
    requires
        0 <= at,
        at + 4 <= s.len(),
    ensures
        s.subrange(at, at + 4) == i32_bytes(v) <==> i32_at(s, at) == v,
{
    let w = (if v < 0 {
        v + 0x1_0000_0000
    } else {
        v as int
    }) as u32;
    u32_round_trip(s, at, w);
}

/// Zero bytes.
pub open spec fn zeros(n: int) -> Seq<u8> {
    Seq::new(n as nat, |i: int| 0u8)
}

/// Cutting twice is cutting once.
pub proof fn lemma_cut_twice(s: Seq<u8>, at: int, len: int, from: int, to: int)
    requires
        0 <= at,
        at + len <= s.len(),
        0 <= from <= to <= len,
    ensures
        s.subrange(at, at + len).subrange(from, to) == s.subrange(at + from, at + to),
{
    assert(s.subrange(at, at + len).subrange(from, to) =~= s.subrange(at + from, at + to));
}

/// A joined sequence is cut into its halves again.
pub proof fn lemma_cut_joined(a: Seq<u8>, b: Seq<u8>)
    ensures
        (a + b).subrange(0, a.len() as int) == a,
        (a + b).subrange(a.len() as int, (a + b).len() as int) == b,
{
    assert((a + b).subrange(0, a.len() as int) =~= a);
    assert((a + b).subrange(a.len() as int, (a + b).len() as int) =~= b);
}

/// A CRC-32 register after one bit: shifted down, with the polynomial (lowest
/// coefficient in the top bit) added where a one falls out.
pub open spec fn crc32_bit(register: u32) -> u32 {
    if register & 1 == 1 {
        (register >> 1) ^ 0xEDB8_8320
    } else {
        register >> 1
    }
}

/// A CRC-32 register after `n` bits.
pub open spec fn crc32_bits(register: u32, n: nat) -> u32
    decreases n,
{
    if n == 0 {
        register
    } else {
        crc32_bit(crc32_bits(register, (n - 1) as nat))
    }
}

/// The CRC-32 register, all ones at first, after the bytes of `data`.
pub open spec fn crc32_register(data: Seq<u8>) -> u32
    decreases data.len(),
{
    if data.len() == 0 {
        0xFFFF_FFFF
    } else {
        crc32_bits(crc32_register(data.drop_last()) ^ (data.last() as u32), 8)
    }
}

/// The IEEE CRC-32 of `data`: the complement of the register.
pub open spec fn crc32(data: Seq<u8>) -> u32 {
    crc32_register(data) ^ 0xFFFF_FFFF
}

/// `crc32fast::hash`: the IEEE CRC-32 of the bytes it is given.
#[verifier::external_body]
pub(crate) fn crc32_hash(data: &[u8]) -> (crc: u32)
    ensures
        crc == crc32(data@),
{
    crc32fast::hash(data)
}

/// `byteorder::LittleEndian::read_u16`: the first two bytes, least
/// significant first. It panics on a shorter buffer.
#[verifier::external_body]
fn read_u16(buf: &[u8]) -> (v: u16)
    requires
        buf@.len() >= 2,
    ensures
        v == u16_at(buf@, 0),
{
    byteorder::LittleEndian::read_u16(buf)
}

/// `byteorder::LittleEndian::read_u32`: the first four bytes, least
/// significant first. It panics on a shorter buffer.
#[verifier::external_body]
fn read_u32(buf: &[u8]) -> (v: u32)
    requires
        buf@.len() >= 4,
    ensures
        v == u32_at(buf@, 0),
{
    byteorder::LittleEndian::read_u32(buf)
}

/// `byteorder::LittleEndian::read_u64`: the first eight bytes, least
/// significant first. It panics on a shorter buffer.
#[verifier::external_body]
fn read_u64(buf: &[u8]) -> (v: u64)
    requires
        buf@.len() >= 8,
    ensures
        v == u64_at(buf@, 0),
{
    byteorder::LittleEndian::read_u64(buf)
}

/// `byteorder::LittleEndian::read_i32`: the first four bytes, least
/// significant first, as a two's-complement number. It panics on a shorter
/// buffer.
#[verifier::external_body]
fn read_i32(buf: &[u8]) -> (v: i32)
    requires
        buf@.len() >= 4,
    ensures
        v == i32_at(buf@, 0),
{
    byteorder::LittleEndian::read_i32(buf)
}

/// Reads the `u16` at offset `at`.
pub fn read_u16_at(buf: &[u8], at: usize) -> (v: u16)
    requires
        at + 2 <= buf.len(),
    ensures
        v == u16_at(buf@, at as int),
{
    read_u16(&buf[at..at + 2])
}

/// Reads the `u32` at offset `at`.
pub fn read_u32_at(buf: &[u8], at: usize) -> (v: u32)
    requires
        at + 4 <= buf.len(),
    ensures
        v == u32_at(buf@, at as int),
{
    read_u32(&buf[at..at + 4])
}

/// Reads the `u64` at offset `at`.
pub fn read_u64_at(buf: &[u8], at: usize) -> (v: u64)
    requires
        at + 8 <= buf.len(),
    ensures
        v == u64_at(buf@, at as int),
{
    read_u64(&buf[at..at + 8])
}

/// Reads the `i32` at offset `at`.
pub fn read_i32_at(buf: &[u8], at: usize) -> (v: i32)
    requires
        at + 4 <= buf.len(),
    ensures
        v == i32_at(buf@, at as int),
{
    read_i32(&buf[at..at + 4])
}

/// Length of the name in a NUL-padded field: the index of the first zero byte
/// at or after `from`, or the field's length when there is none.
pub open spec fn name_len(field: Seq<u8>, from: int) -> int
    decreases field.len() - from,
{
    if from >= field.len() || field[from] == 0 {
        from
    } else {
        name_len(field, from + 1)
    }
}

/// The bytes of a NUL-padded name field before its first zero byte.
pub open spec fn name_bytes(field: Seq<u8>) -> Seq<u8> {
    field.subrange(0, name_len(field, 0))
}

/// A name field's length never leaves the field.
pub proof fn lemma_name_len_bounds(field: Seq<u8>, from: int)
    requires
        0 <= from <= field.len(),
    ensures
        from <= name_len(field, from) <= field.len(),
        forall|i: int| from <= i < name_len(field, from) ==> field[i] != 0,
        name_len(field, from) < field.len() ==> field[name_len(field, from)] == 0,
    decreases field.len() - from,
{
    if from < field.len() && field[from] != 0 {
        lemma_name_len_bounds(field, from + 1);
    }
}

/// A NUL-padded field of `size` bytes that holds a name.
pub open spec fn name_field(name: Seq<u8>, size: int) -> Seq<u8> {
    name + zeros(size - name.len())
}

/// A name without zero bytes that fits its field is found there again.
pub proof fn name_round_trip(name: Seq<u8>, size: int)
    requires
        name.len() <= size,
        forall|i: int| 0 <= i < name.len() ==> name[i] != 0,
    ensures
        name_field(name, size).len() == size,
        name_bytes(name_field(name, size)) == name,
{
    let field = name_field(name, size);
    lemma_name_len_bounds(field, 0);
    let n = name_len(field, 0);
    if n < name.len() {
        assert(field[n] == name[n]);
    } else if n > name.len() {
        assert(field[name.len() as int] == 0);
    }
    assert(field.subrange(0, n) =~= name);
}

/// A name ends at the first zero byte of its field, whatever follows it, and
/// fills a field without one.
pub proof fn name_ends_at_first_zero(name: Seq<u8>, rest: Seq<u8>)
    requires
        forall|i: int| 0 <= i < name.len() ==> name[i] != 0,
    ensures
        name_bytes(name) == name,
        name_bytes(name.push(0) + rest) == name,
{
    let field = name.push(0) + rest;
    let n = name.len() as int;
    lemma_name_len_bounds(name, 0);
    lemma_name_len_bounds(field, 0);
    let at = name_len(field, 0);
    if at < n {
        assert(field[at] == name[at]);
    } else if at > n {
        assert(field[n] == 0);
    }
    assert(name.subrange(0, name_len(name, 0)) =~= name);
    assert(field.subrange(0, at) =~= name);
}

/// The little-endian bytes of a list of `u32`s, one after the other.
#[verifier::opaque]
pub open spec fn u32_list_bytes(values: Seq<u32>) -> Seq<u8> {
    Seq::new(4 * values.len(), |k: int| u32_bytes(values[k / 4])[k % 4])
}

/// The little-endian bytes of a list of `u64`s, one after the other.
#[verifier::opaque]
pub open spec fn u64_list_bytes(values: Seq<u64>) -> Seq<u8> {
    Seq::new(8 * values.len(), |k: int| u64_bytes(values[k / 8])[k % 8])
}

/// Lists take four and eight bytes per number.
pub proof fn lemma_list_len(small: Seq<u32>, large: Seq<u64>)
    ensures
        u32_list_bytes(small).len() == 4 * small.len(),
        u64_list_bytes(large).len() == 8 * large.len(),
{
    reveal(u32_list_bytes);
    reveal(u64_list_bytes);
}

/// The numbers of a list of `u32`s that is written at offset `at` are read
/// there.
#[verifier::rlimit(30)]
pub proof fn u32_list_round_trip(s: Seq<u8>, at: int, values: Seq<u32>)
    requires
        0 <= at,
        at + 4 * values.len() <= s.len(),
        s.subrange(at, at + 4 * values.len()) == u32_list_bytes(values),
    ensures
        forall|i: int| 0 <= i < values.len() ==> u32_at(s, at + 4 * i) == #[trigger] values[i],
{
    reveal(u32_list_bytes);
    let list = u32_list_bytes(values);
    assert forall|i: int| 0 <= i < values.len() implies u32_at(s, at + 4 * i)
        == #[trigger] values[i] by {
        lemma_cut_twice(s, at, 4 * values.len() as int, 4 * i, 4 * i + 4);
        assert(list.subrange(4 * i, 4 * i + 4) =~= u32_bytes(values[i])) by {
            assert forall|j: int| 0 <= j < 4 implies #[trigger] list[4 * i + j] == u32_bytes(
                values[i],
            )[j] by {
                assert((4 * i + j) / 4 == i && (4 * i + j) % 4 == j);
            }
        }
        u32_round_trip(s, at + 4 * i, values[i]);
    }
}

/// The numbers of a list of `u64`s that is written at offset `at` are read
/// there.
#[verifier::rlimit(30)]
pub proof fn u64_list_round_trip(s: Seq<u8>, at: int, values: Seq<u64>)
    requires
        0 <= at,
        at + 8 * values.len() <= s.len(),
        s.subrange(at, at + 8 * values.len()) == u64_list_bytes(values),
    ensures
        forall|i: int| 0 <= i < values.len() ==> u64_at(s, at + 8 * i) == #[trigger] values[i],
{
    reveal(u64_list_bytes);
    let list = u64_list_bytes(values);
    assert forall|i: int| 0 <= i < values.len() implies u64_at(s, at + 8 * i)
        == #[trigger] values[i] by {
        lemma_cut_twice(s, at, 8 * values.len() as int, 8 * i, 8 * i + 8);
        assert(list.subrange(8 * i, 8 * i + 8) =~= u64_bytes(values[i])) by {
            assert forall|j: int| 0 <= j < 8 implies #[trigger] list[8 * i + j] == u64_bytes(
                values[i],
            )[j] by {
                assert((8 * i + j) / 8 == i && (8 * i + j) % 8 == j);
            }
        }
        u64_round_trip(s, at + 8 * i, values[i]);
    }
}

/// The eight slots of a shape, those behind its last dimension zero.
pub open spec fn shape_slots(shape: Seq<u32>) -> Seq<u32> {
    Seq::new(
        8,
        |i: int|
            if i < shape.len() {
                shape[i]
            } else {
                0
            },
    )
}

/// The bytes of the eight slots of a shape.
pub open spec fn shape_field(shape: Seq<u32>) -> Seq<u8> {
    u32_list_bytes(shape_slots(shape))
}

/// The dimensions of a shape that is written at offset `at` are read there.
pub proof fn shape_round_trip(s: Seq<u8>, at: int, shape: Seq<u32>)
    requires
        0 <= at,
        at + 32 <= s.len(),
        shape.len() <= 8,
        s.subrange(at, at + 32) == shape_field(shape),
    ensures
        Seq::new(shape.len(), |i: int| u32_at(s, at + 4 * i)) == shape,
{
    let slots = shape_slots(shape);
    u32_list_round_trip(s, at, slots);
    assert forall|i: int| 0 <= i < shape.len() implies u32_at(s, at + 4 * i) == #[trigger] shape[i] by {
        assert(slots[i] == shape[i]);
    }
    assert(Seq::new(shape.len(), |i: int| u32_at(s, at + 4 * i)) =~= shape);
}

/// The bytes of a NUL-padded name field before its first zero byte.
pub fn trim_name(field: &[u8]) -> (name: &[u8])
    ensures
        name@ == name_bytes(field@),
        name@.len() <= field@.len(),
        name@ == field@.subrange(0, name@.len() as int),
        forall|i: int| 0 <= i < name@.len() ==> name@[i] != 0,
        name@.len() < field@.len() ==> field@[name@.len() as int] == 0,
{
    proof {
        lemma_name_len_bounds(field@, 0);
    }
    let mut end: usize = 0;
    while end < field.len() && field[end] != 0
        invariant
            0 <= end <= field@.len(),
            name_len(field@, 0) == name_len(field@, end as int),
        decreases field@.len() - end,
    {
        end = end + 1;
    }
    &field[0..end]
}

/// Copies the first eight bytes of a buffer.
pub fn first_eight(buf: &[u8]) -> (magic: [u8; 8])
    requires
        buf@.len() >= 8,
    ensures
        magic@ == buf@.subrange(0, 8),
{
    let magic: [u8; 8] = [buf[0], buf[1], buf[2], buf[3], buf[4], buf[5], buf[6], buf[7]];
    assert(magic@ =~= buf@.subrange(0, 8));
    magic
}

/// Compares two magics.
pub fn same_magic(a: &[u8; 8], b: &[u8; 8]) -> (r: bool)
    ensures
        r == (a@ == b@),
{
    let mut i: usize = 0;
    while i < 8
        invariant
            i <= 8,
            forall|k: int| 0 <= k < i ==> a@[k] == b@[k],
        decreases 8 - i,
    {
        if a[i] != b[i] {
            return false;
        }
        i = i + 1;
    }
    assert(a@ =~= b@);
    true
}

} // verus!
