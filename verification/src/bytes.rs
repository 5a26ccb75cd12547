//! Byte strings: searching, little-endian numbers, hexadecimal digits.

use vstd::prelude::*;
use crate::text::{absent_from, find_from, first_at, index_from, occurs_at};
use crate::text::{lemma_find_none, lemma_find_some};

verus! {

/// Whether `needle` stands in `hay` at `at`.
pub fn bytes_at(hay: &[u8], needle: &[u8], at: usize) -> (found: bool)
    ensures
        found == occurs_at(hay@, needle@, at as int),
{
    let size: usize = hay.len();
    if at > size || needle.len() > size - at {
        return false;
    }
    let mut i: usize = 0;
    while i < needle.len()
        invariant
            i <= needle@.len(),
            at + needle@.len() <= hay@.len() <= usize::MAX,
            forall|j: int| 0 <= j < i ==> hay@[at + j] == needle@[j],
        decreases needle@.len() - i,
    {
        if hay[at + i] != needle[i] {
            assert(hay@.subrange(at as int, at + needle@.len())[i as int] != needle@[i as int]);
            return false;
        }
        i = i + 1;
    }
    assert(hay@.subrange(at as int, at + needle@.len()) =~= needle@);
    true
}

/// The first position, not before `from`, where `needle` stands in `hay`.
pub fn find_bytes_from(hay: &[u8], needle: &[u8], from: usize) -> (found: Option<usize>)
    ensures
        found matches Some(at) ==> first_at(hay@, needle@, from as int, at as int),
        found is None ==> absent_from(hay@, needle@, from as int),
        find_from(hay@, needle@, from as int) == (match found {
            Some(at) => Some(at as int),
            None => None,
        }),
{
    if needle.len() > hay.len() {
        proof {
            lemma_find_none(hay@, needle@, from as int);
        }
        return None;
    }
    let last: usize = hay.len() - needle.len();
    let mut at: usize = from;
    while at < last
        invariant
            from <= at,
            last + needle@.len() == hay@.len(),
            forall|j: int| from <= j < at ==> !occurs_at(hay@, needle@, j),
        decreases last - at,
    {
        if bytes_at(hay, needle, at) {
            proof {
                lemma_find_some(hay@, needle@, from as int, at as int);
            }
            return Some(at);
        }
        at = at + 1;
    }
    if at == last && bytes_at(hay, needle, at) {
        proof {
            lemma_find_some(hay@, needle@, from as int, at as int);
        }
        return Some(at);
    }
    proof {
        lemma_find_none(hay@, needle@, from as int);
    }
    None
}

/// The first position of `byte` in `bytes`, not before `from`.
pub fn find_byte(bytes: &[u8], byte: u8, from: usize) -> (found: Option<usize>)
    ensures
        found matches Some(at) ==> from <= at < bytes@.len() && bytes@[at as int] == byte,
        index_from(bytes@, byte, from as int) == (match found {
            Some(at) => Some(at as int),
            None => None,
        }),
{
    let mut i: usize = from;
    while i < bytes.len()
        invariant
            from <= i,
            index_from(bytes@, byte, i as int) == index_from(bytes@, byte, from as int),
        decreases bytes@.len() - i,
    {
        if bytes[i] == byte {
            return Some(i);
        }
        i = i + 1;
    }
    None
}

/// Whether the two byte strings are equal.
pub fn same_bytes(left: &[u8], right: &[u8]) -> (equal: bool)
    ensures
        equal == (left@ == right@),
{
    let equal = left.len() == right.len() && bytes_at(left, right, 0);
    assert(left@.len() == right@.len() ==> left@.subrange(0, right@.len() as int) =~= left@);
    equal
}

/// The bytes `bytes[from..to]`.
pub fn copy_between(bytes: &[u8], from: usize, to: usize) -> (out: Vec<u8>)
    requires
        from <= to <= bytes@.len(),
    ensures
        out@ == bytes@.subrange(from as int, to as int),
{
    let mut out: Vec<u8> = Vec::new();
    let mut i: usize = from;
    while i < to
        invariant
            from <= i <= to <= bytes@.len(),
            out@ == bytes@.subrange(from as int, i as int),
        decreases to - i,
    {
        out.push(bytes[i]);
        i = i + 1;
    }
    out
}

/// Appends all of `part` to `bytes`.
pub fn push_bytes(bytes: &mut Vec<u8>, part: &[u8])
    ensures
        final(bytes)@ == old(bytes)@ + part@,
{
    let ghost before = bytes@;
    let mut i: usize = 0;
    while i < part.len()
        invariant
            i <= part@.len(),
            bytes@ == before + part@.take(i as int),
        decreases part@.len() - i,
    {
        bytes.push(part[i]);
        i = i + 1;
    }
    assert(part@.take(i as int) =~= part@);
}

// ---- Little-endian numbers ----

/// The number that two bytes hold, the low byte first.
pub open spec fn le16(bytes: Seq<u8>, at: int) -> nat {
    (bytes[at] + 256 * bytes[at + 1]) as nat
}

/// The number that four bytes hold, the low byte first.
pub open spec fn le32(bytes: Seq<u8>, at: int) -> nat {
    (bytes[at] + 0x100 * bytes[at + 1] + 0x1_0000 * bytes[at + 2] + 0x100_0000 * bytes[at + 3]) as nat
}

/// The two bytes of a number, the low byte first.
pub open spec fn bytes16(value: nat) -> Seq<u8> {
    seq![(value % 256) as u8, (value / 256 % 256) as u8]
}

/// The four bytes of a number, the low byte first.
pub open spec fn bytes32(value: nat) -> Seq<u8> {
    seq![
        (value % 256) as u8,
        (value / 0x100 % 256) as u8,
        (value / 0x1_0000 % 256) as u8,
        (value / 0x100_0000 % 256) as u8,
    ]
}

/// The number in the two bytes at `at`, where they are there.
pub fn get_u16(bytes: &[u8], at: usize) -> (value: Option<u16>)
    ensures
        value is Some <==> at + 2 <= bytes@.len(),
        value matches Some(n) ==> n == le16(bytes@, at as int),
{
    let size: usize = bytes.len();
    if size < 2 || at > size - 2 {
        return None;
    }
    Some(bytes[at] as u16 + 256 * bytes[at + 1] as u16)
}

/// The number in the four bytes at `at`, where they are there.
pub fn get_u32(bytes: &[u8], at: usize) -> (value: Option<u32>)
    ensures
        value is Some <==> at + 4 <= bytes@.len(),
        value matches Some(n) ==> n == le32(bytes@, at as int),
{
    let size: usize = bytes.len();
    if size < 4 || at > size - 4 {
        return None;
    }
    Some(
        bytes[at] as u32 + 0x100 * bytes[at + 1] as u32 + 0x1_0000 * bytes[at + 2] as u32
            + 0x100_0000 * bytes[at + 3] as u32,
    )
}

/// Appends a number in two bytes, the low byte first.
pub fn push_u16(bytes: &mut Vec<u8>, value: u16)
    ensures
        final(bytes)@ == old(bytes)@ + bytes16(value as nat),
{
    bytes.push((value % 256) as u8);
    bytes.push((value / 256) as u8);
    assert(bytes@ =~= old(bytes)@ + bytes16(value as nat));
}

/// Appends a number in four bytes, the low byte first.
pub fn push_u32(bytes: &mut Vec<u8>, value: u32)
    ensures
        final(bytes)@ == old(bytes)@ + bytes32(value as nat),
{
    bytes.push((value % 256) as u8);
    bytes.push((value / 0x100 % 256) as u8);
    bytes.push((value / 0x1_0000 % 256) as u8);
    bytes.push((value / 0x100_0000) as u8);
    assert(bytes@ =~= old(bytes)@ + bytes32(value as nat));
}

/// Reading back two written bytes gives the number that was written.
pub proof fn lemma_le16_of_bytes16(value: u16, bytes: Seq<u8>, at: int)
    requires
        occurs_at(bytes, bytes16(value as nat), at),
    ensures
        le16(bytes, at) == value,
{
    let part = bytes.subrange(at, at + 2);
    assert(part[0] == bytes[at] && part[1] == bytes[at + 1]);
}

/// Reading back four written bytes gives the number that was written.
pub proof fn lemma_le32_of_bytes32(value: u32, bytes: Seq<u8>, at: int)
    requires
        occurs_at(bytes, bytes32(value as nat), at),
    ensures
        le32(bytes, at) == value,
{
    let part = bytes.subrange(at, at + 4);
    assert(part[0] == bytes[at] && part[1] == bytes[at + 1] && part[2] == bytes[at + 2] && part[3]
        == bytes[at + 3]);
}

// ---- Hexadecimal digits ----

/// The value of a hexadecimal digit.
pub open spec fn hex_digit_value(byte: u8) -> Option<u8> {
    if 0x30 <= byte <= 0x39 {
        Some((byte - 0x30) as u8)
    } else if 0x61 <= byte <= 0x66 {
        Some((byte - 0x61 + 10) as u8)
    } else if 0x41 <= byte <= 0x46 {
        Some((byte - 0x41 + 10) as u8)
    } else {
        None
    }
}

/// The value of a hexadecimal digit.
pub fn hex_value(byte: u8) -> (value: Option<u8>)
    ensures
        value == hex_digit_value(byte),
{
    if 0x30 <= byte && byte <= 0x39 {
        Some(byte - 0x30)
    } else if 0x61 <= byte && byte <= 0x66 {
        Some(byte - 0x61 + 10)
    } else if 0x41 <= byte && byte <= 0x46 {
        Some(byte - 0x41 + 10)
    } else {
        None
    }
}

// ---- ASCII letters ----

/// The lower-case form of an ASCII letter; every other byte is kept.
pub open spec fn ascii_lower_byte(byte: u8) -> u8 {
    if 0x41 <= byte <= 0x5a {
        (byte + 32) as u8
    } else {
        byte
    }
}

/// The bytes with their ASCII letters in lower case.
pub open spec fn ascii_lowercase_bytes(bytes: Seq<u8>) -> Seq<u8> {
    bytes.map_values(|byte: u8| ascii_lower_byte(byte))
}

/// The lower-case form of an ASCII letter; every other byte is kept.
pub fn lower_byte(byte: u8) -> (lower: u8)
    ensures
        lower == ascii_lower_byte(byte),
{
    if 0x41 <= byte && byte <= 0x5a {
        byte + 32
    } else {
        byte
    }
}

} // verus!
