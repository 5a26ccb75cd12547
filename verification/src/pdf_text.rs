//! The text of PDF documents, and how many pages they have.

use vstd::prelude::*;
use crate::archive::{decoded, zlib_inflate, zlib_inflated};
use crate::bytes::{copy_between, find_bytes_from, hex_digit_value, hex_value};
use crate::error::{failure, outcome, ErrorKind, Failure, LibraryError, LibraryResult};
use crate::extraction::{normalize_extracted_text, normalized};
use crate::pdf_security::{
    data_after, dictionary_before, dictionary_mark, dictionary_start_before, is_pdf_white, pdf_white,
    stream_close,
};
use crate::text::{
    chars, contains, find_from, first_at, from_utf8, from_utf8_lossy, has_text, join, join_texts,
    lemma_find_meaning, lemma_find_some, occurs_at, rfind_before, trim, trimmed, utf8_lossy, views,
};

verus! {

// ---- Strings ----

/// A digit of an octal number.
pub open spec fn octal(byte: u8) -> bool {
    0x30 <= byte <= 0x37
}

/// What the escape whose letter stands at `at` means, and the position behind it. A line end that is
/// escaped means nothing; up to three octal digits give a byte.
pub open spec fn escape_at(content: Seq<u8>, at: int) -> (Seq<u8>, int) {
    let letter = content[at];
    if letter == 0x6e {
        (seq![0x0au8], at + 1)
    } else if letter == 0x72 {
        (seq![0x0du8], at + 1)
    } else if letter == 0x74 {
        (seq![0x09u8], at + 1)
    } else if letter == 0x62 {
        (seq![0x08u8], at + 1)
    } else if letter == 0x66 {
        (seq![0x0cu8], at + 1)
    } else if letter == 0x0d {
        (
            Seq::empty(),
            if at + 1 < content.len() && content[at + 1] == 0x0a {
                at + 2
            } else {
                at + 1
            },
        )
    } else if letter == 0x0a {
        (Seq::empty(), at + 1)
    } else if octal(letter) {
        let first = letter - 0x30;
        if at + 1 < content.len() && octal(content[at + 1]) {
            let second = first * 8 + content[at + 1] - 0x30;
            if at + 2 < content.len() && octal(content[at + 2]) {
                (seq![((second * 8 + content[at + 2] - 0x30) % 256) as u8], at + 3)
            } else {
                (seq![second as u8], at + 2)
            }
        } else {
            (seq![first as u8], at + 1)
        }
    } else {
        (seq![letter], at + 1)
    }
}

/// The bytes of the string whose contents go on at `cursor`, `depth` brackets deep, and the position
/// behind its closing bracket.
pub open spec fn literal_from(content: Seq<u8>, cursor: int, depth: nat, done: Seq<u8>) -> Option<
    (Seq<u8>, int),
>
    decreases content.len() - cursor,
{
    if cursor < 0 || cursor >= content.len() {
        None
    } else {
        let byte = content[cursor];
        if byte == 0x5c {
            if cursor + 1 >= content.len() {
                None
            } else {
                let (more, next) = escape_at(content, cursor + 1);
                literal_from(content, next, depth, done + more)
            }
        } else if byte == 0x28 {
            literal_from(content, cursor + 1, depth + 1, done.push(byte))
        } else if byte == 0x29 {
            if depth <= 1 {
                Some((done, cursor + 1))
            } else {
                literal_from(content, cursor + 1, (depth - 1) as nat, done.push(byte))
            }
        } else {
            literal_from(content, cursor + 1, depth, done.push(byte))
        }
    }
}

/// A string ends behind its start and within the content.
pub proof fn lemma_literal_ends_later(content: Seq<u8>, cursor: int, depth: nat, done: Seq<u8>)
    ensures
        literal_from(content, cursor, depth, done) matches Some((_, next)) ==> cursor < next
            <= content.len(),
    decreases content.len() - cursor,
{
    if 0 <= cursor < content.len() {
        let byte = content[cursor];
        if byte == 0x5c {
            if cursor + 1 < content.len() {
                let (more, next) = escape_at(content, cursor + 1);
                lemma_literal_ends_later(content, next, depth, done + more);
            }
        } else if byte == 0x28 {
            lemma_literal_ends_later(content, cursor + 1, depth + 1, done.push(byte));
        } else if byte == 0x29 {
            if depth > 1 {
                lemma_literal_ends_later(
                    content,
                    cursor + 1,
                    (depth - 1) as nat,
                    done.push(byte),
                );
            }
        } else {
            lemma_literal_ends_later(content, cursor + 1, depth, done.push(byte));
        }
    }
}

/// Reads the escape whose letter stands at `at`; gives the position behind it.
fn read_escape(content: &[u8], at: usize, output: &mut Vec<u8>) -> (next: usize)
    requires
        at < content@.len(),
    ensures
        final(output)@ == old(output)@ + escape_at(content@, at as int).0,
        next == escape_at(content@, at as int).1,
        at < next <= content@.len(),
{
    let size: usize = content.len();
    let letter: u8 = content[at];
    if letter == 0x0d {
        assert(output@ =~= old(output)@ + Seq::<u8>::empty());
        if at + 1 < size && content[at + 1] == 0x0a {
            return at + 2;
        }
        return at + 1;
    }
    if letter == 0x0a {
        assert(output@ =~= old(output)@ + Seq::<u8>::empty());
        return at + 1;
    }
    let mut next: usize = at + 1;
    let value: u8 = if letter == 0x6e {
        0x0a
    } else if letter == 0x72 {
        0x0d
    } else if letter == 0x74 {
        0x09
    } else if letter == 0x62 {
        0x08
    } else if letter == 0x66 {
        0x0c
    } else if 0x30 <= letter && letter <= 0x37 {
        let mut number: u16 = letter as u16 - 0x30;
        if next < size && 0x30 <= content[next] && content[next] <= 0x37 {
            number = number * 8 + (content[next] as u16 - 0x30);
            next = next + 1;
            if next < size && 0x30 <= content[next] && content[next] <= 0x37 {
                number = number * 8 + (content[next] as u16 - 0x30);
                next = next + 1;
            }
        }
        (number % 256) as u8
    } else {
        letter
    };
    output.push(value);
    assert(output@ =~= old(output)@ + seq![value]);
    next
}

/// The bytes of the string whose contents start at `start`, and the position behind its closing
/// bracket.
pub fn parse_pdf_literal(content: &[u8], start: usize) -> (found: Option<(Vec<u8>, usize)>)
    ensures
        (match found {
            Some((bytes, next)) => Some((bytes@, next as int)),
            None => None,
        }) == literal_from(content@, start as int, 1, Seq::empty()),
        found matches Some((_, next)) ==> start < next <= content@.len(),
{
    let size: usize = content.len();
    let mut cursor: usize = start;
    let mut inner: usize = 0;
    let mut output: Vec<u8> = Vec::new();
    proof {
        lemma_literal_ends_later(content@, start as int, 1, Seq::empty());
    }
    assert(output@ =~= Seq::empty());
    while cursor < size
        invariant
            size == content@.len(),
            start <= cursor,
            inner <= cursor - start,
            literal_from(content@, cursor as int, (inner + 1) as nat, output@) == literal_from(
                content@,
                start as int,
                1,
                Seq::empty(),
            ),
            literal_from(content@, start as int, 1, Seq::empty()) matches Some((_, next)) ==> start
                < next <= content@.len(),
        decreases size - cursor,
    {
        let byte: u8 = content[cursor];
        if byte == 0x5c {
            if cursor + 1 >= size {
                return None;
            }
            cursor = read_escape(content, cursor + 1, &mut output);
        } else if byte == 0x28 {
            inner = inner + 1;
            output.push(byte);
            cursor = cursor + 1;
        } else if byte == 0x29 {
            if inner == 0 {
                return Some((output, cursor + 1));
            }
            inner = inner - 1;
            output.push(byte);
            cursor = cursor + 1;
        } else {
            output.push(byte);
            cursor = cursor + 1;
        }
    }
    None
}

/// The bytes that pairs of digits give.
pub open spec fn paired(digits: Seq<u8>) -> Seq<u8> {
    Seq::new(digits.len() / 2, |i: int| (digits[2 * i] * 16 + digits[2 * i + 1]) as u8)
}

/// The bytes of the hexadecimal string whose contents go on at `cursor`, and the position behind its
/// closing bracket. White space counts for nothing. There is no string where something else stands
/// in it or the number of its digits is odd.
pub open spec fn hex_from(content: Seq<u8>, cursor: int, digits: Seq<u8>) -> Option<(Seq<u8>, int)>
    decreases content.len() - cursor,
{
    if cursor < 0 || cursor >= content.len() {
        None
    } else {
        let byte = content[cursor];
        if byte == 0x3e {
            if digits.len() % 2 == 1 {
                None
            } else {
                Some((paired(digits), cursor + 1))
            }
        } else if pdf_white(byte) {
            hex_from(content, cursor + 1, digits)
        } else {
            match hex_digit_value(byte) {
                None => None,
                Some(value) => hex_from(content, cursor + 1, digits.push(value)),
            }
        }
    }
}

/// A hexadecimal string ends behind its start and within the content.
pub proof fn lemma_hex_ends_later(content: Seq<u8>, cursor: int, digits: Seq<u8>)
    ensures
        hex_from(content, cursor, digits) matches Some((_, next)) ==> cursor < next
            <= content.len(),
    decreases content.len() - cursor,
{
    if 0 <= cursor < content.len() && content[cursor] != 0x3e {
        if pdf_white(content[cursor]) {
            lemma_hex_ends_later(content, cursor + 1, digits);
        } else if let Some(value) = hex_digit_value(content[cursor]) {
            lemma_hex_ends_later(content, cursor + 1, digits.push(value));
        }
    }
}

/// The bytes that pairs of digits give.
fn pair_digits(digits: &[u8]) -> (bytes: Vec<u8>)
    requires
        digits@.len() % 2 == 0,
        forall|i: int| 0 <= i < digits@.len() ==> digits@[i] < 16,
    ensures
        bytes@ == paired(digits@),
{
    let mut bytes: Vec<u8> = Vec::new();
    let size: usize = digits.len();
    let mut i: usize = 0;
    while i < size
        invariant
            i <= size,
            size == digits@.len(),
            size % 2 == 0,
            i % 2 == 0,
            forall|j: int| 0 <= j < digits@.len() ==> digits@[j] < 16,
            bytes@ == paired(digits@).take(i as int / 2),
        decreases size - i,
    {
        let ghost half = i as int / 2;
        assert(digits@[2 * half] == digits@[i as int]);
        assert(digits@[i as int] < 16 && digits@[i + 1] < 16);
        bytes.push(digits[i] * 16 + digits[i + 1]);
        assert(paired(digits@).take(half + 1) =~= paired(digits@).take(half).push(
            paired(digits@)[half],
        ));
        i = i + 2;
    }
    assert(paired(digits@).take(i as int / 2) =~= paired(digits@));
    bytes
}

/// The bytes of the hexadecimal string whose contents start at `start`, and the position behind its
/// closing bracket.
pub fn parse_pdf_hex_string(content: &[u8], start: usize) -> (found: Option<(Vec<u8>, usize)>)
    ensures
        (match found {
            Some((bytes, next)) => Some((bytes@, next as int)),
            None => None,
        }) == hex_from(content@, start as int, Seq::empty()),
        found matches Some((_, next)) ==> start < next <= content@.len(),
{
    let size: usize = content.len();
    let mut cursor: usize = start;
    let mut digits: Vec<u8> = Vec::new();
    proof {
        lemma_hex_ends_later(content@, start as int, Seq::empty());
    }
    assert(digits@ =~= Seq::empty());
    while cursor < size
        invariant
            size == content@.len(),
            forall|j: int| 0 <= j < digits@.len() ==> digits@[j] < 16,
            hex_from(content@, cursor as int, digits@) == hex_from(
                content@,
                start as int,
                Seq::empty(),
            ),
            hex_from(content@, start as int, Seq::empty()) matches Some((_, next)) ==> start < next
                <= content@.len(),
        decreases size - cursor,
    {
        let byte: u8 = content[cursor];
        if byte == 0x3e {
            if digits.len() % 2 == 1 {
                return None;
            }
            return Some((pair_digits(digits.as_slice()), cursor + 1));
        }
        if !is_pdf_white(byte) {
            match hex_value(byte) {
                None => {
                    return None;
                },
                Some(value) => {
                    digits.push(value);
                },
            }
        }
        cursor = cursor + 1;
    }
    None
}

// ---- Text in strings ----

/// The text that UTF-16 units hold, with U+FFFD in place of each surrogate without its partner.
pub open spec fn utf16_text(units: Seq<u16>) -> Seq<char>
    decreases units.len(),
{
    if units.len() == 0 {
        Seq::empty()
    } else if units[0] < 0xd800 || units[0] > 0xdfff {
        seq![units[0] as char] + utf16_text(units.skip(1))
    } else if units[0] <= 0xdbff && units.len() > 1 && 0xdc00 <= units[1] <= 0xdfff {
        seq![(0x1_0000 + (units[0] - 0xd800) * 0x400 + (units[1] - 0xdc00)) as char] + utf16_text(
            units.skip(2),
        )
    } else {
        seq!['\u{fffd}'] + utf16_text(units.skip(1))
    }
}

/// `String::from_utf16_lossy`: the text that the units hold; a surrogate without its partner gives
/// U+FFFD.
#[verifier::external_body]
fn from_utf16_lossy(units: &[u16]) -> (text: String)
    ensures
        text@ == utf16_text(units@),
{
    String::from_utf16_lossy(units)
}

/// The units of two bytes each, the high byte first or last; a last byte without a partner counts
/// for nothing.
pub open spec fn units_of(bytes: Seq<u8>, high_first: bool) -> Seq<u16> {
    Seq::new(
        bytes.len() / 2,
        |i: int|
            if high_first {
                (bytes[2 * i] * 256 + bytes[2 * i + 1]) as u16
            } else {
                (bytes[2 * i] + bytes[2 * i + 1] * 256) as u16
            },
    )
}

/// The text of bytes as UTF-16.
fn decode_utf16(bytes: &[u8], high_first: bool) -> (text: String)
    ensures
        text@ == utf16_text(units_of(bytes@, high_first)),
{
    let mut units: Vec<u16> = Vec::new();
    let size: usize = bytes.len();
    let count: usize = size / 2;
    let mut i: usize = 0;
    while i < count
        invariant
            i <= count,
            size == bytes@.len(),
            count == size / 2,
            units@ == units_of(bytes@, high_first).take(i as int),
        decreases count - i,
    {
        let first: u16 = bytes[2 * i] as u16;
        let second: u16 = bytes[2 * i + 1] as u16;
        let unit: u16 = if high_first {
            first * 256 + second
        } else {
            first + second * 256
        };
        units.push(unit);
        assert(units_of(bytes@, high_first).take(i + 1) =~= units_of(bytes@, high_first).take(
            i as int,
        ).push(unit));
        i = i + 1;
    }
    assert(units_of(bytes@, high_first).take(i as int) =~= units_of(bytes@, high_first));
    from_utf16_lossy(units.as_slice())
}

/// The text that the bytes of a string mean: UTF-16 by its mark, else UTF-8 where it is that, else
/// UTF-16 with the high byte first where every unit of it means something.
pub open spec fn string_text(bytes: Seq<u8>) -> Seq<char> {
    if bytes.len() >= 2 && bytes[0] == 0xfe && bytes[1] == 0xff {
        utf16_text(units_of(bytes.skip(2), true))
    } else if bytes.len() >= 2 && bytes[0] == 0xff && bytes[1] == 0xfe {
        utf16_text(units_of(bytes.skip(2), false))
    } else if vstd::utf8::valid_utf8(bytes) {
        vstd::utf8::decode_utf8(bytes)
    } else if bytes.len() % 2 == 0 && !utf16_text(units_of(bytes, true)).contains('\u{fffd}') {
        utf16_text(units_of(bytes, true))
    } else {
        utf8_lossy(bytes)
    }
}

/// Whether a character stands in the text.
fn has_char(text: &[char], c: char) -> (found: bool)
    ensures
        found == text@.contains(c),
{
    let mut i: usize = 0;
    while i < text.len()
        invariant
            i <= text@.len(),
            forall|j: int| 0 <= j < i ==> text@[j] != c,
        decreases text@.len() - i,
    {
        if text[i] == c {
            return true;
        }
        i = i + 1;
    }
    false
}

/// The text that the bytes of a string mean.
pub fn decode_pdf_text_bytes(bytes: &[u8]) -> (text: String)
    ensures
        text@ == string_text(bytes@),
{
    let size: usize = bytes.len();
    if size >= 2 && bytes[0] == 0xfe && bytes[1] == 0xff {
        let rest = vstd::slice::slice_subrange(bytes, 2, size);
        assert(rest@ =~= bytes@.skip(2));
        return decode_utf16(rest, true);
    }
    if size >= 2 && bytes[0] == 0xff && bytes[1] == 0xfe {
        let rest = vstd::slice::slice_subrange(bytes, 2, size);
        assert(rest@ =~= bytes@.skip(2));
        return decode_utf16(rest, false);
    }
    match from_utf8(bytes) {
        Ok(text) => text,
        Err(_) => {
            if size % 2 == 0 {
                let text = decode_utf16(bytes, true);
                if !has_char(chars(text.as_str()).as_slice(), '\u{fffd}') {
                    return text;
                }
            }
            from_utf8_lossy(bytes)
        },
    }
}

// ---- Content streams ----

/// The parts of text with one more, unless it is blank.
pub open spec fn with_part(parts: Seq<Seq<char>>, bytes: Seq<u8>) -> Seq<Seq<char>> {
    if trim(string_text(bytes)).len() > 0 {
        parts.push(string_text(bytes))
    } else {
        parts
    }
}

/// The texts of the strings from `cursor` on; a string that does not end ends the search.
pub open spec fn strings_from(content: Seq<u8>, cursor: int, parts: Seq<Seq<char>>) -> Seq<Seq<char>>
    decreases content.len() - cursor,
{
    if cursor < 0 || cursor >= content.len() {
        parts
    } else if content[cursor] == 0x28 {
        proof {
            lemma_literal_ends_later(content, cursor + 1, 1, Seq::empty());
        }
        match literal_from(content, cursor + 1, 1, Seq::empty()) {
            None => parts,
            Some((bytes, next)) => strings_from(content, next, with_part(parts, bytes)),
        }
    } else if content[cursor] == 0x3c && !(cursor + 1 < content.len() && content[cursor + 1] == 0x3c) {
        proof {
            lemma_hex_ends_later(content, cursor + 1, Seq::empty());
        }
        match hex_from(content, cursor + 1, Seq::empty()) {
            None => parts,
            Some((bytes, next)) => strings_from(content, next, with_part(parts, bytes)),
        }
    } else {
        strings_from(content, cursor + 1, parts)
    }
}

/// The content draws text: one of the operators for that stands in it.
pub open spec fn draws_text(content: Seq<u8>) -> bool {
    contains(content, seq![0x42u8, 0x54]) || contains(content, seq![0x54u8, 0x6a]) || contains(
        content,
        seq![0x54u8, 0x4a],
    )
}

/// The text of a content stream.
pub open spec fn content_text(content: Seq<u8>) -> Seq<char> {
    if draws_text(content) {
        join(strings_from(content, 0, Seq::empty()), " "@)
    } else {
        Seq::empty()
    }
}

/// Whether two bytes stand behind each other in the content.
fn has_pair(content: &[u8], first: u8, second: u8) -> (found: bool)
    ensures
        found == contains(content@, seq![first, second]),
{
    let pair: [u8; 2] = [first, second];
    assert(pair@ =~= seq![first, second]);
    let found = find_bytes_from(content, vstd::array::array_as_slice(&pair), 0);
    proof {
        if let Some(at) = found {
            assert(occurs_at(content@, seq![first, second], at as int));
        } else {
            assert forall|at: int| !occurs_at(content@, seq![first, second], at) by {}
        }
    }
    found.is_some()
}

/// Adds the text of a string, unless it is blank.
fn add_part(parts: &mut Vec<String>, bytes: &[u8])
    ensures
        views(final(parts)@) == with_part(views(old(parts)@), bytes@),
{
    let text = decode_pdf_text_bytes(bytes);
    if chars(trimmed(text.as_str()).as_str()).len() > 0 {
        let ghost before = views(parts@);
        let ghost added = text@;
        parts.push(text);
        assert(views(parts@) =~= before.push(added));
    }
}

/// The text of a content stream.
pub fn extract_pdf_content_text(content: &[u8]) -> (text: String)
    ensures
        text@ == content_text(content@),
{
    if !has_pair(content, 0x42, 0x54) && !has_pair(content, 0x54, 0x6a) && !has_pair(
        content,
        0x54,
        0x4a,
    ) {
        let text = String::new();
        assert(text@ =~= Seq::empty());
        return text;
    }
    let size: usize = content.len();
    let mut parts: Vec<String> = Vec::new();
    let mut cursor: usize = 0;
    assert(views(parts@) =~= Seq::empty());
    while cursor < size
        invariant
            size == content@.len(),
            draws_text(content@),
            strings_from(content@, cursor as int, views(parts@)) == strings_from(
                content@,
                0,
                Seq::empty(),
            ),
        decreases size - cursor,
    {
        let byte: u8 = content[cursor];
        if byte == 0x28 {
            match parse_pdf_literal(content, cursor + 1) {
                None => {
                    return join_texts(parts.as_slice(), " ");
                },
                Some((bytes, next)) => {
                    add_part(&mut parts, bytes.as_slice());
                    cursor = next;
                },
            }
        } else if byte == 0x3c && !(cursor + 1 < size && content[cursor + 1] == 0x3c) {
            match parse_pdf_hex_string(content, cursor + 1) {
                None => {
                    return join_texts(parts.as_slice(), " ");
                },
                Some((bytes, next)) => {
                    add_part(&mut parts, bytes.as_slice());
                    cursor = next;
                },
            }
        } else {
            cursor = cursor + 1;
        }
    }
    join_texts(parts.as_slice(), " ")
}

/// What the data of a stream means, given what it expands to, or why it cannot be expanded.
pub open spec fn stream_content(
    dictionary: Seq<char>,
    stream: Seq<u8>,
    expanded: Result<Seq<u8>, Seq<char>>,
) -> Result<Seq<u8>, Failure> {
    if contains(dictionary, "FlateDecode"@) {
        match expanded {
            Ok(content) => Ok(content),
            Err(reason) => Err(
                failure(ErrorKind::Preview, "无法解压 PDF 正文流："@ + reason),
            ),
        }
    } else {
        Ok(stream)
    }
}

/// The content of a stream whose dictionary names the zlib filter, from what it expanded to.
pub fn accept_stream_content(expanded: Result<Vec<u8>, String>) -> (result: LibraryResult<Vec<u8>>)
    ensures
        outcome(result) == (match decoded(expanded) {
            Ok(content) => Ok(content),
            Err(reason) => Err(
                failure(ErrorKind::Preview, "无法解压 PDF 正文流："@ + reason),
            ),
        }),
{
    match expanded {
        Ok(content) => Ok(content),
        Err(reason) => {
            let mut detail = "无法解压 PDF 正文流：".to_owned();
            detail.append(reason.as_str());
            Err(LibraryError::Preview(detail))
        },
    }
}

/// The content of a stream.
pub fn decode_pdf_stream(dictionary: &[u8], stream: &[u8]) -> (result: LibraryResult<Vec<u8>>)
    ensures
        outcome(result) == stream_content(
            utf8_lossy(dictionary@),
            stream@,
            zlib_inflated(stream@, u64::MAX),
        ),
{
    let text = chars(from_utf8_lossy(dictionary).as_str());
    if has_text(text.as_slice(), "FlateDecode") {
        accept_stream_content(zlib_inflate(stream, u64::MAX))
    } else {
        let content = copy_between(stream, 0, stream.len());
        assert(content@ =~= stream@);
        Ok(content)
    }
}

/// The word that opens the data of a stream.
pub open spec fn stream_word() -> Seq<u8> {
    seq![0x73u8, 0x74, 0x72, 0x65, 0x61, 0x6d]
}

/// The text so far with that of one more stream on lines of its own.
pub open spec fn with_stream_text(text: Seq<char>, more: Seq<char>) -> Seq<char> {
    if more.len() == 0 {
        text
    } else if text.len() == 0 {
        more
    } else {
        text.push('\n') + more
    }
}

/// The text of the streams from `cursor` on, or why one cannot be expanded. A stream without an end
/// ends the search.
pub open spec fn streams_text(bytes: Seq<u8>, cursor: nat, text: Seq<char>) -> Result<
    Seq<char>,
    Failure,
>
    decreases bytes.len() - cursor,
{
    match find_from(bytes, stream_word(), cursor as int) {
        None => Ok(text),
        Some(keyword) => {
            let data_start = data_after(bytes, keyword + 6);
            match find_from(bytes, stream_close(), data_start) {
                None => Ok(text),
                Some(data_end) => {
                    proof {
                        lemma_find_meaning(bytes, stream_word(), cursor as int);
                        lemma_find_meaning(bytes, stream_close(), data_start);
                    }
                    let dictionary = bytes.subrange(dictionary_before(bytes, keyword), keyword);
                    let stream = bytes.subrange(data_start, data_end);
                    match stream_content(
                        utf8_lossy(dictionary),
                        stream,
                        zlib_inflated(stream, u64::MAX),
                    ) {
                        Err(error) => Err(error),
                        Ok(content) => streams_text(
                            bytes,
                            (data_end + 9) as nat,
                            with_stream_text(text, content_text(content)),
                        ),
                    }
                },
            }
        },
    }
}

/// The text of a PDF document, or why it cannot be read.
pub open spec fn pdf_text(bytes: Seq<u8>) -> Result<Seq<char>, Failure> {
    match streams_text(bytes, 0, Seq::empty()) {
        Err(error) => Err(error),
        Ok(text) => Ok(normalized(text)),
    }
}

/// The text of a PDF document.
pub fn extract_pdf_text(bytes: &[u8]) -> (result: LibraryResult<String>)
    ensures
        outcome(result) == pdf_text(bytes@),
{
    let word: [u8; 6] = [0x73, 0x74, 0x72, 0x65, 0x61, 0x6d];
    let close: [u8; 9] = [0x65, 0x6e, 0x64, 0x73, 0x74, 0x72, 0x65, 0x61, 0x6d];
    assert(word@ =~= stream_word());
    assert(close@ =~= stream_close());
    let size: usize = bytes.len();
    let mut text = String::new();
    let mut blank = true;
    let mut cursor: usize = 0;
    assert(text@ =~= Seq::empty());
    while cursor <= size
        invariant
            cursor <= size,
            size == bytes@.len(),
            word@ == stream_word(),
            close@ == stream_close(),
            blank == (text@.len() == 0),
            streams_text(bytes@, cursor as nat, text@) == streams_text(bytes@, 0, Seq::empty()),
        decreases size - cursor,
    {
        let keyword: usize = match find_bytes_from(
            bytes,
            vstd::array::array_as_slice(&word),
            cursor,
        ) {
            None => {
                return Ok(normalize_extracted_text(text.as_str()));
            },
            Some(at) => at,
        };
        let mut data_start: usize = keyword + 6;
        if data_start < size && bytes[data_start] == 0x0d {
            data_start = data_start + 1;
        }
        if data_start < size && bytes[data_start] == 0x0a {
            data_start = data_start + 1;
        }
        assert(data_start == data_after(bytes@, keyword + 6));
        let data_end: usize = match find_bytes_from(
            bytes,
            vstd::array::array_as_slice(&close),
            data_start,
        ) {
            None => {
                return Ok(normalize_extracted_text(text.as_str()));
            },
            Some(at) => at,
        };
        let dictionary_start = dictionary_start_before(bytes, keyword);
        let content = match decode_pdf_stream(
            vstd::slice::slice_subrange(bytes, dictionary_start, keyword),
            vstd::slice::slice_subrange(bytes, data_start, data_end),
        ) {
            Err(error) => {
                return Err(error);
            },
            Ok(content) => content,
        };
        let more = extract_pdf_content_text(content.as_slice());
        if chars(more.as_str()).len() > 0 {
            if !blank {
                text.push('\n');
            }
            let ghost before = text@;
            text.append(more.as_str());
            assert(blank ==> text@ =~= more@);
            blank = false;
        }
        cursor = data_end + 9;
    }
    Ok(normalize_extracted_text(text.as_str()))
}

// ---- Pages ----

/// The word before the number of pages.
pub open spec fn count_word() -> Seq<u8> {
    seq![0x2fu8, 0x43, 0x6f, 0x75, 0x6e, 0x74]
}

/// A decimal digit.
pub open spec fn decimal_digit(byte: u8) -> bool {
    0x30 <= byte <= 0x39
}

/// The first position from `at` on without white space.
pub open spec fn after_white(bytes: Seq<u8>, at: int) -> int
    decreases bytes.len() - at,
{
    if 0 <= at < bytes.len() && pdf_white(bytes[at]) {
        after_white(bytes, at + 1)
    } else {
        at
    }
}

/// The number that `value` and the digits from `at` on make.
pub open spec fn number_from(bytes: Seq<u8>, at: int, value: nat) -> nat
    decreases bytes.len() - at,
{
    if 0 <= at < bytes.len() && decimal_digit(bytes[at]) {
        number_from(bytes, at + 1, value * 10 + (bytes[at] - 0x30) as nat)
    } else {
        value
    }
}

/// More digits make a number no smaller.
proof fn lemma_number_grows(bytes: Seq<u8>, at: int, value: nat)
    ensures
        value <= number_from(bytes, at, value),
    decreases bytes.len() - at,
{
    if 0 <= at < bytes.len() && decimal_digit(bytes[at]) {
        lemma_number_grows(bytes, at + 1, value * 10 + (bytes[at] - 0x30) as nat);
    }
}

/// The larger of `most` and the number behind the word that ends at `at`; a number beyond 32 bits
/// counts for nothing.
pub open spec fn with_count(bytes: Seq<u8>, at: int, most: nat) -> nat {
    let count = number_from(bytes, after_white(bytes, at), 0);
    if most < count <= u32::MAX {
        count
    } else {
        most
    }
}

/// The largest number of pages that is told from `at` on, or `most`.
pub open spec fn counts_from(bytes: Seq<u8>, at: nat, most: nat) -> nat
    decreases bytes.len() - at,
{
    match find_from(bytes, count_word(), at as int) {
        None => most,
        Some(found) => {
            proof {
                lemma_find_meaning(bytes, count_word(), at as int);
            }
            counts_from(bytes, (found + 1) as nat, with_count(bytes, found + 6, most))
        },
    }
}

/// The number at `at`, where it has 32 bits at most.
fn read_number(bytes: &[u8], at: usize) -> (number: Option<u32>)
    ensures
        number is Some <==> number_from(bytes@, at as int, 0) <= u32::MAX,
        number matches Some(value) ==> value == number_from(bytes@, at as int, 0),
{
    let size: usize = bytes.len();
    let mut value: u64 = 0;
    let mut i: usize = at;
    while i < size && 0x30 <= bytes[i] && bytes[i] <= 0x39
        invariant
            size == bytes@.len(),
            value <= u32::MAX,
            number_from(bytes@, i as int, value as nat) == number_from(bytes@, at as int, 0),
        decreases size - i,
    {
        value = value * 10 + (bytes[i] - 0x30) as u64;
        i = i + 1;
        if value > u32::MAX as u64 {
            proof {
                lemma_number_grows(bytes@, i as int, value as nat);
            }
            return None;
        }
    }
    Some(value as u32)
}

/// How many pages the document tells of, where it tells it.
pub fn estimate_pdf_page_count(bytes: &[u8]) -> (pages: Option<u32>)
    ensures
        pages == (if counts_from(bytes@, 0, 0) > 0 {
            Some(counts_from(bytes@, 0, 0) as u32)
        } else {
            None
        }),
        counts_from(bytes@, 0, 0) <= u32::MAX,
{
    let word: [u8; 6] = [0x2f, 0x43, 0x6f, 0x75, 0x6e, 0x74];
    assert(word@ =~= count_word());
    let size: usize = bytes.len();
    let mut most: u32 = 0;
    let mut at: usize = 0;
    while at <= size
        invariant
            at <= size,
            size == bytes@.len(),
            word@ == count_word(),
            counts_from(bytes@, at as nat, most as nat) == counts_from(bytes@, 0, 0),
        decreases size - at,
    {
        let found: usize = match find_bytes_from(bytes, vstd::array::array_as_slice(&word), at) {
            None => {
                return if most > 0 {
                    Some(most)
                } else {
                    None
                };
            },
            Some(found) => found,
        };
        let mut cursor: usize = found + 6;
        while cursor < size && is_pdf_white(bytes[cursor])
            invariant
                size == bytes@.len(),
                after_white(bytes@, cursor as int) == after_white(bytes@, found + 6),
            decreases size - cursor,
        {
            cursor = cursor + 1;
        }
        if let Some(count) = read_number(bytes, cursor) {
            if count > most {
                most = count;
            }
        }
        at = found + 1;
    }
    None
}

// ---- Laws ----

/// A number as decimal digits.
pub open spec fn number_bytes(number: nat) -> Seq<u8>
    decreases number,
{
    if number < 10 {
        seq![(0x30 + number) as u8]
    } else {
        number_bytes(number / 10).push((0x30 + number % 10) as u8)
    }
}

/// A file has at least as many pages as any place in it tells.
pub proof fn told_pages_are_counted(
    head: Seq<u8>,
    white: Seq<u8>,
    number: nat,
    rest: Seq<u8>,
)
    requires
        number <= u32::MAX,
        forall|i: int| 0 <= i < white.len() ==> pdf_white(#[trigger] white[i]),
        rest.len() == 0 || !decimal_digit(rest[0]),
    ensures
        counts_from(head + count_word() + white + number_bytes(number) + rest, 0, 0) >= number,
{
    let bytes = head + count_word() + white + number_bytes(number) + rest;
    let at = head.len() as int;
    let start = at + 6 + white.len();
    assert(bytes.subrange(at, at + 6) =~= count_word());
    lemma_digits(number);
    let digits = number_bytes(number);
    assert forall|i: int| at + 6 <= i < start implies pdf_white(#[trigger] bytes[i]) by {
        assert(bytes[i] == white[i - at - 6]);
    }
    assert(bytes[start] == digits[0]);
    lemma_white_is_passed(bytes, at + 6, start);
    assert(bytes.skip(start) =~= digits + rest);
    lemma_digits_are_read(bytes, start, digits, rest, 0);
    lemma_counts_cover(bytes, 0, 0, at);
}

/// The number of pages of a file is one that the file tells behind the word for it, or none.
pub proof fn counted_pages_are_told(bytes: Seq<u8>, at: nat, most: nat)
    ensures
        counts_from(bytes, at, most) >= most,
        counts_from(bytes, at, most) == most || exists|found: int|
            at <= found && #[trigger] occurs_at(bytes, count_word(), found) && counts_from(
                bytes,
                at,
                most,
            ) == number_from(bytes, after_white(bytes, found + 6), 0),
    decreases bytes.len() - at,
{
    lemma_find_meaning(bytes, count_word(), at as int);
    match find_from(bytes, count_word(), at as int) {
        None => {},
        Some(found) => {
            let next = with_count(bytes, found + 6, most);
            counted_pages_are_told(bytes, (found + 1) as nat, next);
            assert(occurs_at(bytes, count_word(), found));
        },
    }
}

proof fn lemma_counts_cover(bytes: Seq<u8>, at: nat, most: nat, place: int)
    requires
        at <= place,
        occurs_at(bytes, count_word(), place),
        number_from(bytes, after_white(bytes, place + 6), 0) <= u32::MAX,
    ensures
        counts_from(bytes, at, most) >= number_from(bytes, after_white(bytes, place + 6), 0),
    decreases bytes.len() - at,
{
    lemma_find_meaning(bytes, count_word(), at as int);
    match find_from(bytes, count_word(), at as int) {
        None => {},
        Some(found) => {
            let next = with_count(bytes, found + 6, most);
            if found < place {
                lemma_counts_cover(bytes, (found + 1) as nat, next, place);
            } else {
                counted_pages_are_told(bytes, (found + 1) as nat, next);
            }
        },
    }
}

proof fn lemma_white_is_passed(bytes: Seq<u8>, at: int, end: int)
    requires
        0 <= at <= end < bytes.len(),
        !pdf_white(bytes[end]),
        forall|i: int| at <= i < end ==> pdf_white(#[trigger] bytes[i]),
    ensures
        after_white(bytes, at) == end,
    decreases end - at,
{
    if at < end {
        lemma_white_is_passed(bytes, at + 1, end);
    }
}

/// The number that `value` and these digits make.
spec fn with_digits(digits: Seq<u8>, value: nat) -> nat
    decreases digits.len(),
{
    if digits.len() == 0 {
        value
    } else {
        with_digits(digits.skip(1), value * 10 + (digits[0] - 0x30) as nat)
    }
}

proof fn lemma_digit_behind(digits: Seq<u8>, digit: u8, value: nat)
    requires
        decimal_digit(digit),
    ensures
        with_digits(digits.push(digit), value) == with_digits(digits, value) * 10 + (digit - 0x30),
    decreases digits.len(),
{
    reveal_with_fuel(with_digits, 2);
    if digits.len() == 0 {
        assert(digits.push(digit).skip(1) =~= digits);
    } else {
        assert(digits.push(digit).skip(1) =~= digits.skip(1).push(digit));
        lemma_digit_behind(digits.skip(1), digit, value * 10 + (digits[0] - 0x30) as nat);
    }
}

proof fn lemma_digits(number: nat)
    ensures
        number_bytes(number).len() > 0,
        forall|i: int|
            0 <= i < number_bytes(number).len() ==> decimal_digit(#[trigger] number_bytes(number)[i]),
        with_digits(number_bytes(number), 0) == number,
    decreases number,
{
    if number < 10 {
        reveal_with_fuel(with_digits, 2);
        assert(number_bytes(number).skip(1) =~= Seq::empty());
    } else {
        lemma_digits(number / 10);
        lemma_digit_behind(number_bytes(number / 10), (0x30 + number % 10) as u8, 0);
    }
}

proof fn lemma_digits_are_read(bytes: Seq<u8>, at: int, digits: Seq<u8>, rest: Seq<u8>, value: nat)
    requires
        0 <= at <= bytes.len(),
        bytes.skip(at) == digits + rest,
        forall|i: int| 0 <= i < digits.len() ==> decimal_digit(#[trigger] digits[i]),
        rest.len() == 0 || !decimal_digit(rest[0]),
    ensures
        number_from(bytes, at, value) == with_digits(digits, value),
    decreases digits.len(),
{
    let tail = bytes.skip(at);
    assert(tail.len() == digits.len() + rest.len());
    if tail.len() > 0 {
        assert(bytes[at] == tail[0]);
    }
    if digits.len() > 0 {
        assert(bytes[at] == digits[0]);
        assert(decimal_digit(digits[0]));
        assert(bytes.skip(at + 1) =~= tail.skip(1));
        assert(tail.skip(1) =~= digits.skip(1) + rest);
        lemma_digits_are_read(
            bytes,
            at + 1,
            digits.skip(1),
            rest,
            value * 10 + (digits[0] - 0x30) as nat,
        );
    }
}

/// The content of a stream is its data, or what these expand to where the dictionary names the known
/// compression.
pub proof fn streams_are_expanded_where_they_say_so(
    dictionary: Seq<char>,
    stream: Seq<u8>,
    expanded: Result<Seq<u8>, Seq<char>>,
)
    ensures
        !contains(dictionary, "FlateDecode"@) ==> stream_content(dictionary, stream, expanded) == Ok::<
            Seq<u8>,
            Failure,
        >(stream),
        contains(dictionary, "FlateDecode"@) ==> match expanded {
            Ok(content) => stream_content(dictionary, stream, expanded) == Ok::<Seq<u8>, Failure>(
                content,
            ),
            Err(_) => stream_content(dictionary, stream, expanded) matches Err(error) && error.kind
                == ErrorKind::Preview,
        },
{
}

/// The text of a file with one stream is the text of that stream, whatever stands around it.
pub proof fn files_say_what_their_stream_says(head: Seq<u8>, data: Seq<u8>, rest: Seq<u8>)
    requires
        forall|j: int|
            0 <= j < head.len() ==> !occurs_at(
                one_stream(head, data, rest),
                stream_word(),
                j,
            ),
        forall|j: int|
            head.len() + 7 <= j < head.len() + 7 + data.len() ==> !occurs_at(
                one_stream(head, data, rest),
                stream_close(),
                j,
            ),
        forall|j: int|
            head.len() + 16 + data.len() <= j ==> !occurs_at(
                one_stream(head, data, rest),
                stream_word(),
                j,
            ),
        !contains(
            utf8_lossy(head.subrange(dictionary_before(head, head.len() as int), head.len() as int)),
            "FlateDecode"@,
        ),
    ensures
        pdf_text(one_stream(head, data, rest)) == Ok::<Seq<char>, Failure>(
            normalized(content_text(data)),
        ),
{
    let bytes = one_stream(head, data, rest);
    let start = head.len() as int;
    let data_end = start + 7 + data.len();
    let text = with_stream_text(Seq::empty(), content_text(data));
    lemma_stream_stands(head, data, rest);
    lemma_find_meaning(bytes, stream_word(), data_end + 9);
    assert(find_from(bytes, stream_word(), data_end + 9) is None);
    assert(streams_text(bytes, (data_end + 9) as nat, text) == Ok::<Seq<char>, Failure>(text));
    assert(text =~= content_text(data));
    assert(streams_text(bytes, 0, Seq::empty()) == streams_text(
        bytes,
        (data_end + 9) as nat,
        text,
    ));
}

proof fn lemma_stream_stands(head: Seq<u8>, data: Seq<u8>, rest: Seq<u8>)
    requires
        forall|j: int|
            0 <= j < head.len() ==> !occurs_at(
                one_stream(head, data, rest),
                stream_word(),
                j,
            ),
        forall|j: int|
            head.len() + 7 <= j < head.len() + 7 + data.len() ==> !occurs_at(
                one_stream(head, data, rest),
                stream_close(),
                j,
            ),
    ensures
        ({
            let bytes = one_stream(head, data, rest);
            let start = head.len() as int;
            let data_start = start + 7;
            let data_end = data_start + data.len();
            &&& find_from(bytes, stream_word(), 0) == Some(start)
            &&& data_after(bytes, start + 6) == data_start
            &&& find_from(bytes, stream_close(), data_start) == Some(data_end)
            &&& bytes.subrange(data_start, data_end) == data
            &&& bytes.subrange(dictionary_before(bytes, start), start) == head.subrange(
                dictionary_before(head, start),
                start,
            )
        }),
{
    let bytes = one_stream(head, data, rest);
    let start = head.len() as int;
    let data_start = start + 7;
    let data_end = data_start + data.len();
    lemma_stream_bytes(head, data, rest);
    lemma_first_place(bytes, stream_word(), 0, start);
    lemma_first_place(bytes, stream_close(), data_start, data_end);
    lemma_dictionary_is_before(head);
    let from = dictionary_before(head, start);
    assert(head.take(start) =~= head);
    assert(bytes.take(start).subrange(from, start) =~= bytes.subrange(from, start));
}

proof fn lemma_stream_bytes(head: Seq<u8>, data: Seq<u8>, rest: Seq<u8>)
    ensures
        ({
            let bytes = one_stream(head, data, rest);
            let start = head.len() as int;
            let data_end = start + 7 + data.len();
            &&& data_end + 9 <= bytes.len()
            &&& bytes.take(start) == head
            &&& bytes.subrange(start, start + 6) == stream_word()
            &&& bytes[start + 6] == 0x0a
            &&& bytes.subrange(start + 7, data_end) == data
            &&& bytes.subrange(data_end, data_end + 9) == stream_close()
        }),
{
    let bytes = one_stream(head, data, rest);
    let start = head.len() as int;
    let data_end = start + 7 + data.len();
    assert(bytes.take(start) =~= head);
    assert(bytes.subrange(start, start + 6) =~= stream_word());
    assert(bytes.subrange(start + 7, data_end) =~= data);
    assert(bytes.subrange(data_end, data_end + 9) =~= stream_close());
}

proof fn lemma_first_place(bytes: Seq<u8>, word: Seq<u8>, from: int, at: int)
    requires
        0 <= from <= at,
        at + word.len() <= bytes.len(),
        bytes.subrange(at, at + word.len()) == word,
        forall|j: int| from <= j < at ==> !occurs_at(bytes, word, j),
    ensures
        find_from(bytes, word, from) == Some(at),
{
    assert(first_at(bytes, word, from, at));
    lemma_find_some(bytes, word, from, at);
}

/// A file with one stream.
pub open spec fn one_stream(head: Seq<u8>, data: Seq<u8>, rest: Seq<u8>) -> Seq<u8> {
    head + stream_word() + seq![0x0au8] + data + stream_close() + rest
}

proof fn lemma_dictionary_is_before(head: Seq<u8>)
    ensures
        0 <= dictionary_before(head, head.len() as int) <= head.len(),
{
    lemma_last_is_before(head.take(head.len() as int), dictionary_mark(), head.len() as int);
}

proof fn lemma_last_is_before(hay: Seq<u8>, needle: Seq<u8>, most: int)
    ensures
        rfind_before(hay, needle, most) matches Some(at) ==> 0 <= at <= most,
    decreases most + 1,
{
    if most >= 0 && !occurs_at(hay, needle, most) {
        lemma_last_is_before(hay, needle, most - 1);
    }
}

/// The texts of streams stand on lines of their own; a stream without text leaves no trace.
pub proof fn streams_stand_on_lines_of_their_own(text: Seq<char>, more: Seq<char>)
    ensures
        with_stream_text(text, Seq::empty()) == text,
        with_stream_text(Seq::empty(), more) == more,
        text.len() > 0 && more.len() > 0 ==> with_stream_text(text, more) == text + seq!['\n'] + more,
{
    if more.len() == 0 {
        assert(more =~= Seq::empty());
    }
    if text.len() > 0 && more.len() > 0 {
        assert(with_stream_text(text, more) =~= text + seq!['\n'] + more);
    }
}

} // verus!
