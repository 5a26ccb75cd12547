//! The hash by which the content of files is told apart.

use sha2::{Digest, Sha256};
use vstd::prelude::*;
use crate::text::chars;

verus! {

/// The SHA-256 hash of bytes.
pub uninterp spec fn sha256(bytes: Seq<u8>) -> Seq<u8>;

/// `sha2::Sha256::digest`: a function of the bytes, of 32 bytes. The hash function is not stated.
#[verifier::external_body]
fn sha256_digest(bytes: &[u8]) -> (hash: Vec<u8>)
    ensures
        hash@ == sha256(bytes@),
        hash@.len() == 32,
{
    Sha256::digest(bytes).to_vec()
}

/// A hexadecimal digit.
pub open spec fn hex_char(value: u8) -> char {
    if value < 10 {
        (value + 0x30) as char
    } else {
        (value - 10 + 0x61) as char
    }
}

/// Bytes as hexadecimal digits, the high digit of each first.
pub open spec fn hex_text(bytes: Seq<u8>) -> Seq<char>
    decreases bytes.len(),
{
    if bytes.len() == 0 {
        Seq::empty()
    } else {
        hex_text(bytes.drop_last()) + seq![
            hex_char(bytes.last() / 16),
            hex_char(bytes.last() % 16),
        ]
    }
}

fn hex_digit_char(value: u8) -> (c: char)
    requires
        value < 16,
    ensures
        c == hex_char(value),
{
    if value < 10 {
        (value + 0x30) as char
    } else {
        (value - 10 + 0x61) as char
    }
}

/// Bytes as hexadecimal digits.
pub fn to_hex(bytes: &[u8]) -> (text: String)
    ensures
        text@ == hex_text(bytes@),
{
    let mut text = String::new();
    let mut i: usize = 0;
    assert(text@ =~= hex_text(bytes@.take(0)));
    while i < bytes.len()
        invariant
            i <= bytes@.len(),
            text@ == hex_text(bytes@.take(i as int)),
        decreases bytes@.len() - i,
    {
        let byte: u8 = bytes[i];
        let ghost before = text@;
        text.push(hex_digit_char(byte / 16));
        text.push(hex_digit_char(byte % 16));
        assert(text@ =~= before + seq![hex_char(byte / 16), hex_char(byte % 16)]);
        assert(bytes@.take(i + 1).drop_last() =~= bytes@.take(i as int));
        i = i + 1;
    }
    assert(bytes@.take(i as int) =~= bytes@);
    text
}

/// The hash of the content of a file, in lower-case hexadecimal digits.
pub fn content_hash(bytes: &[u8]) -> (hash: String)
    ensures
        hash@ == hex_text(sha256(bytes@)),
        hash@.len() == 64,
{
    let digest = sha256_digest(bytes);
    proof {
        lemma_hex_doubles(digest@);
    }
    to_hex(digest.as_slice())
}

/// Each byte takes two digits.
proof fn lemma_hex_doubles(bytes: Seq<u8>)
    ensures
        hex_text(bytes).len() == 2 * bytes.len(),
    decreases bytes.len(),
{
    if bytes.len() > 0 {
        lemma_hex_doubles(bytes.drop_last());
    }
}

/// The hash that is known of a document, unless it is empty.
pub open spec fn known_version(hash: Option<Seq<char>>) -> Option<Seq<char>> {
    match hash {
        Some(hash) if hash.len() > 0 => Some(hash),
        _ => None,
    }
}

/// The hash that is known of a document; without one the content has to be hashed.
pub fn known_content_version(hash: &Option<String>) -> (version: Option<String>)
    ensures
        crate::text::optional(version) == known_version(crate::text::optional(*hash)),
{
    match hash {
        Some(hash) => {
            if chars(hash.as_str()).len() > 0 {
                Some(hash.clone())
            } else {
                None
            }
        },
        None => None,
    }
}

/// What a hexadecimal digit stands for.
pub open spec fn digit_stands_for(c: char) -> int {
    if '0' <= c <= '9' {
        c as int - '0' as int
    } else {
        c as int - 'a' as int + 10
    }
}

// ---- Laws ----

/// Two digits stand for each byte, the high one first, in their order; so the bytes can be read back.
pub proof fn digits_stand_for_bytes(bytes: Seq<u8>)
    ensures
        hex_text(bytes).len() == 2 * bytes.len(),
        forall|i: int|
            0 <= i < bytes.len() ==> digit_stands_for(hex_text(bytes)[2 * i]) * 16 + digit_stands_for(
                hex_text(bytes)[2 * i + 1],
            ) == #[trigger] bytes[i],
        forall|i: int|
            0 <= i < hex_text(bytes).len() ==> ('0' <= #[trigger] hex_text(bytes)[i] <= '9') || ('a'
                <= hex_text(bytes)[i] <= 'f'),
    decreases bytes.len(),
{
    if bytes.len() > 0 {
        let shorter = bytes.drop_last();
        let before = hex_text(shorter);
        let all = hex_text(bytes);
        digits_stand_for_bytes(shorter);
        assert(forall|i: int| 0 <= i < before.len() ==> all[i] == before[i]);
        let last = bytes.last();
        assert(all[2 * shorter.len() as int] == hex_char(last / 16));
        assert(all[2 * shorter.len() as int + 1] == hex_char(last % 16));
        assert forall|i: int| 0 <= i < bytes.len() implies digit_stands_for(all[2 * i]) * 16
            + digit_stands_for(all[2 * i + 1]) == #[trigger] bytes[i] by {
            if i < shorter.len() {
                assert(shorter[i] == bytes[i]);
                assert(all[2 * i] == before[2 * i] && all[2 * i + 1] == before[2 * i + 1]);
            }
        }
        assert forall|i: int| 0 <= i < all.len() implies ('0' <= #[trigger] all[i] <= '9') || ('a'
            <= all[i] <= 'f') by {
            if i < before.len() {
                assert(all[i] == before[i]);
            }
        }
    }
}

/// The hash of a document is known where one is on record that is not empty.
pub proof fn recorded_hashes_are_known(hash: Seq<char>)
    ensures
        known_version(Some(hash)) == if hash.len() > 0 {
            Some(hash)
        } else {
            None
        },
        known_version(None) is None,
{
}

} // verus!
