//! Fixed-width integers in big- and little-endian byte order.

use vstd::prelude::*;

verus! {

/// Two bytes at `at`, most significant first.
pub open spec fn be16(s: Seq<u8>, at: int) -> int {
    s[at] * 0x100 + s[at + 1]
}

/// Four bytes at `at`, most significant first.
pub open spec fn be32(s: Seq<u8>, at: int) -> int {
    s[at] * 0x100_0000 + s[at + 1] * 0x1_0000 + s[at + 2] * 0x100 + s[at + 3]
}

/// Eight bytes at `at`, most significant first.
pub open spec fn be64(s: Seq<u8>, at: int) -> int {
    be32(s, at) * 0x1_0000_0000 + be32(s, at + 4)
}

/// Two bytes at `at`, least significant first.
pub open spec fn le16(s: Seq<u8>, at: int) -> int {
    s[at] + s[at + 1] * 0x100
}

/// Four bytes at `at`, least significant first.
pub open spec fn le32(s: Seq<u8>, at: int) -> int {
    s[at] + s[at + 1] * 0x100 + s[at + 2] * 0x1_0000 + s[at + 3] * 0x100_0000
}

/// Eight bytes at `at`, least significant first.
pub open spec fn le64(s: Seq<u8>, at: int) -> int {
    le32(s, at) + le32(s, at + 4) * 0x1_0000_0000
}

/// Four bytes at `at` as a two's-complement number, most significant first.
pub open spec fn be32_signed(s: Seq<u8>, at: int) -> int {
    if be32(s, at) < 0x8000_0000 {
        be32(s, at)
    } else {
        be32(s, at) - 0x1_0000_0000
    }
}

/// Two bytes at `at` as a two's-complement number, most significant first.
pub open spec fn be16_signed(s: Seq<u8>, at: int) -> int {
    if be16(s, at) < 0x8000 {
        be16(s, at)
    } else {
        be16(s, at) - 0x1_0000
    }
}

/// The four bytes of `value`, most significant first.
pub open spec fn be32_bytes(value: u32) -> Seq<u8> {
    seq![
        (value / 0x100_0000) as u8,
        (value / 0x1_0000 % 0x100) as u8,
        (value / 0x100 % 0x100) as u8,
        (value % 0x100) as u8,
    ]
}

/// The four bytes of `value`, least significant first.
pub open spec fn le32_bytes(value: u32) -> Seq<u8> {
    seq![
        (value % 0x100) as u8,
        (value / 0x100 % 0x100) as u8,
        (value / 0x1_0000 % 0x100) as u8,
        (value / 0x100_0000) as u8,
    ]
}

/// Writing a number and reading it back gives the number, in either byte order.
pub proof fn number_bytes_round_trip(value: u32)
    ensures
        be32_bytes(value).len() == 4,
        le32_bytes(value).len() == 4,
        be32(be32_bytes(value), 0) == value,
        le32(le32_bytes(value), 0) == value,
{
}

pub fn read_be16(bytes: &[u8], at: usize) -> (value: u16)
    requires
        at + 2 <= bytes@.len(),
    ensures
        value == be16(bytes@, at as int),
{
    (bytes[at] as u16) * 0x100 + (bytes[at + 1] as u16)
}

pub fn read_be16_signed(bytes: &[u8], at: usize) -> (value: i16)
    requires
        at + 2 <= bytes@.len(),
    ensures
        value == be16_signed(bytes@, at as int),
{
    let raw: i32 = read_be16(bytes, at) as i32;
    if raw < 0x8000 {
        raw as i16
    } else {
        (raw - 0x1_0000) as i16
    }
}

pub fn read_be32(bytes: &[u8], at: usize) -> (value: u32)
    requires
        at + 4 <= bytes@.len(),
    ensures
        value == be32(bytes@, at as int),
{
    (bytes[at] as u32) * 0x100_0000 + (bytes[at + 1] as u32) * 0x1_0000 + (bytes[at + 2] as u32)
        * 0x100 + (bytes[at + 3] as u32)
}

pub fn read_be32_signed(bytes: &[u8], at: usize) -> (value: i32)
    requires
        at + 4 <= bytes@.len(),
    ensures
        value == be32_signed(bytes@, at as int),
{
    let raw: i64 = read_be32(bytes, at) as i64;
    if raw < 0x8000_0000 {
        raw as i32
    } else {
        (raw - 0x1_0000_0000) as i32
    }
}

pub fn read_be64(bytes: &[u8], at: usize) -> (value: u64)
    requires
        at + 8 <= bytes@.len(),
    ensures
        value == be64(bytes@, at as int),
{
    assert(bytes.len() == bytes@.len());
    (read_be32(bytes, at) as u64) * 0x1_0000_0000 + (read_be32(bytes, at + 4) as u64)
}

pub fn read_le16(bytes: &[u8], at: usize) -> (value: u16)
    requires
        at + 2 <= bytes@.len(),
    ensures
        value == le16(bytes@, at as int),
{
    (bytes[at] as u16) + (bytes[at + 1] as u16) * 0x100
}

pub fn read_le32(bytes: &[u8], at: usize) -> (value: u32)
    requires
        at + 4 <= bytes@.len(),
    ensures
        value == le32(bytes@, at as int),
{
    (bytes[at] as u32) + (bytes[at + 1] as u32) * 0x100 + (bytes[at + 2] as u32) * 0x1_0000 + (
    bytes[at + 3] as u32) * 0x100_0000
}

pub fn read_le64(bytes: &[u8], at: usize) -> (value: u64)
    requires
        at + 8 <= bytes@.len(),
    ensures
        value == le64(bytes@, at as int),
{
    assert(bytes.len() == bytes@.len());
    (read_le32(bytes, at) as u64) + (read_le32(bytes, at + 4) as u64) * 0x1_0000_0000
}

/// Appends a number, most significant byte first.
pub fn push_be32(output: &mut Vec<u8>, value: u32)
    ensures
        final(output)@ == old(output)@ + be32_bytes(value),
{
    output.push((value / 0x100_0000) as u8);
    output.push((value / 0x1_0000 % 0x100) as u8);
    output.push((value / 0x100 % 0x100) as u8);
    output.push((value % 0x100) as u8);
}

/// Appends a number, least significant byte first.
pub fn push_le32(output: &mut Vec<u8>, value: u32)
    ensures
        final(output)@ == old(output)@ + le32_bytes(value),
{
    output.push((value % 0x100) as u8);
    output.push((value / 0x100 % 0x100) as u8);
    output.push((value / 0x1_0000 % 0x100) as u8);
    output.push((value / 0x100_0000) as u8);
}

/// Whether the bytes from `at` on begin with `expected`.
pub open spec fn has_bytes_at(s: Seq<u8>, at: int, expected: Seq<u8>) -> bool {
    0 <= at && at + expected.len() <= s.len() && s.subrange(at, at + expected.len()) == expected
}

pub fn bytes_match(bytes: &[u8], at: usize, expected: &[u8]) -> (found: bool)
    ensures
        found == has_bytes_at(bytes@, at as int, expected@),
{
    if at > bytes.len() || expected.len() > bytes.len() - at {
        return false;
    }
    let mut index: usize = 0;
    while index < expected.len()
        invariant
            index <= expected@.len(),
            at + expected@.len() <= bytes@.len(),
            bytes@.len() == bytes.len(),
            forall|i: int| 0 <= i < index ==> bytes@[at + i] == expected@[i],
        decreases expected@.len() - index,
    {
        if bytes[at + index] != expected[index] {
            assert(bytes@.subrange(at as int, at + expected@.len())[index as int]
                != expected@[index as int]);
            return false;
        }
        index += 1;
    }
    assert(bytes@.subrange(at as int, at + expected@.len()) =~= expected@);
    true
}

/// Whether two byte strings are equal.
pub fn same_bytes(left: &[u8], right: &[u8]) -> (same: bool)
    ensures
        same == (left@ == right@),
{
    if left.len() != right.len() {
        return false;
    }
    proof {
        assert(left@.subrange(0, left@.len() as int) =~= left@);
    }
    bytes_match(left, 0, right)
}

/// Copies the bytes from `start` up to `end`.
pub fn copy_bytes(bytes: &[u8], start: usize, end: usize) -> (copy: Vec<u8>)
    requires
        start <= end <= bytes@.len(),
    ensures
        copy@ == bytes@.subrange(start as int, end as int),
{
    vstd::slice::slice_to_vec(vstd::slice::slice_subrange(bytes, start, end))
}

/// Appends every byte of `input`.
pub fn push_bytes(output: &mut Vec<u8>, input: &[u8])
    ensures
        final(output)@ == old(output)@ + input@,
{
    output.extend_from_slice(input);
    proof {
        assert(output@ =~= old(output)@ + input@);
    }
}

} // verus!
