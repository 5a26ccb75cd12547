//! What the content of a PDF page says, by the strings that are written in it.

use vstd::prelude::*;
use crate::bytes::hex_digit_value;
use crate::pdf_text::{
    content_text, escape_at, hex_from, literal_from, paired, string_text, strings_from, units_of,
    utf16_text, with_part,
};
use crate::text::{join, occurs_at, trim};

verus! {

// ---- Strings as they are written ----

/// A part of a string between round brackets.
#[verifier::ext_equal]
pub enum LiteralPart {
    /// A byte that stands for itself.
    Plain(u8),
    /// A byte behind a backslash.
    Escaped(u8),
    /// A byte as a backslash and three octal digits.
    Octal(u8),
    /// A backslash and a line feed, which stand for nothing.
    Folded,
    /// A bracket that opens a pair inside the string.
    Open,
    /// The bracket that closes a pair inside the string.
    Close,
}

/// The bytes of a part of a string.
pub open spec fn part_bytes(part: LiteralPart) -> Seq<u8> {
    match part {
        LiteralPart::Plain(byte) => seq![byte],
        LiteralPart::Escaped(byte) => seq![0x5cu8, byte],
        LiteralPart::Octal(byte) => seq![
            0x5cu8,
            (0x30 + byte / 64) as u8,
            (0x30 + byte / 8 % 8) as u8,
            (0x30 + byte % 8) as u8,
        ],
        LiteralPart::Folded => seq![0x5cu8, 0x0a],
        LiteralPart::Open => seq![0x28u8],
        LiteralPart::Close => seq![0x29u8],
    }
}

/// The bytes of the parts of a string.
pub open spec fn parts_bytes(parts: Seq<LiteralPart>) -> Seq<u8>
    decreases parts.len(),
{
    if parts.len() == 0 {
        Seq::empty()
    } else {
        part_bytes(parts[0]) + parts_bytes(parts.skip(1))
    }
}

/// What a part of a string stands for.
pub open spec fn part_value(part: LiteralPart) -> Seq<u8> {
    match part {
        LiteralPart::Plain(byte) => seq![byte],
        LiteralPart::Escaped(byte) => if byte == 0x6e {
            seq![0x0au8]
        } else if byte == 0x72 {
            seq![0x0du8]
        } else if byte == 0x74 {
            seq![0x09u8]
        } else if byte == 0x62 {
            seq![0x08u8]
        } else if byte == 0x66 {
            seq![0x0cu8]
        } else {
            seq![byte]
        },
        LiteralPart::Octal(byte) => seq![byte],
        LiteralPart::Folded => Seq::empty(),
        LiteralPart::Open => seq![0x28u8],
        LiteralPart::Close => seq![0x29u8],
    }
}

/// What the parts of a string stand for.
pub open spec fn parts_value(parts: Seq<LiteralPart>) -> Seq<u8>
    decreases parts.len(),
{
    if parts.len() == 0 {
        Seq::empty()
    } else {
        part_value(parts[0]) + parts_value(parts.skip(1))
    }
}

/// Backslashes and brackets stand for themselves only behind a backslash, and brackets in pairs;
/// `depth` pairs are open.
pub open spec fn literal_written(parts: Seq<LiteralPart>, depth: nat) -> bool
    decreases parts.len(),
{
    if parts.len() == 0 {
        depth == 0
    } else {
        let rest = parts.skip(1);
        match parts[0] {
            LiteralPart::Plain(byte) => byte != 0x5c && byte != 0x28 && byte != 0x29
                && literal_written(rest, depth),
            LiteralPart::Escaped(byte) => byte != 0x0a && byte != 0x0d && !(0x30 <= byte <= 0x37)
                && literal_written(rest, depth),
            LiteralPart::Octal(_) => literal_written(rest, depth),
            LiteralPart::Folded => literal_written(rest, depth),
            LiteralPart::Open => literal_written(rest, depth + 1),
            LiteralPart::Close => depth > 0 && literal_written(rest, (depth - 1) as nat),
        }
    }
}

/// The position behind a string moved by `at`.
spec fn moved(found: Option<(Seq<u8>, int)>, at: int) -> Option<(Seq<u8>, int)> {
    match found {
        Some((bytes, next)) => Some((bytes, at + next)),
        None => None,
    }
}

proof fn lemma_escape_in_the_rest(content: Seq<u8>, at: int, from: int)
    requires
        0 <= at,
        0 <= from,
        at + from < content.len(),
    ensures
        escape_at(content, at + from).0 == escape_at(content.skip(at), from).0,
        escape_at(content, at + from).1 == at + escape_at(content.skip(at), from).1,
{
    let rest = content.skip(at);
    assert(rest[from] == content[at + from]);
    if from + 1 < rest.len() {
        assert(rest[from + 1] == content[at + from + 1]);
    }
    if from + 2 < rest.len() {
        assert(rest[from + 2] == content[at + from + 2]);
    }
}

proof fn lemma_literal_in_the_rest(content: Seq<u8>, at: int, from: int, depth: nat, done: Seq<u8>)
    requires
        0 <= at <= content.len(),
        0 <= from,
    ensures
        literal_from(content, at + from, depth, done) == moved(
            literal_from(content.skip(at), from, depth, done),
            at,
        ),
    decreases content.len() - at - from,
{
    let rest = content.skip(at);
    if at + from < content.len() {
        let byte = content[at + from];
        assert(rest[from] == byte);
        if byte == 0x5c {
            if at + from + 1 < content.len() {
                lemma_escape_in_the_rest(content, at, from + 1);
                let (more, next) = escape_at(rest, from + 1);
                lemma_literal_in_the_rest(content, at, next, depth, done + more);
            }
        } else if byte == 0x28 {
            lemma_literal_in_the_rest(content, at, from + 1, depth + 1, done.push(byte));
        } else if byte == 0x29 {
            if depth > 1 {
                lemma_literal_in_the_rest(content, at, from + 1, (depth - 1) as nat, done.push(byte));
            }
        } else {
            lemma_literal_in_the_rest(content, at, from + 1, depth, done.push(byte));
        }
    }
}

proof fn lemma_read_parts(parts: Seq<LiteralPart>, rest: Seq<u8>, depth: nat, done: Seq<u8>)
    requires
        literal_written(parts, depth),
    ensures
        literal_from(parts_bytes(parts) + (seq![0x29u8] + rest), 0, depth + 1, done) == Some(
            (done + parts_value(parts), parts_bytes(parts).len() as int + 1),
        ),
    decreases parts.len(),
{
    let content = parts_bytes(parts) + (seq![0x29u8] + rest);
    if parts.len() == 0 {
        assert(content[0] == 0x29);
        assert(done + parts_value(parts) =~= done);
    } else {
        let others = parts.skip(1);
        let first = part_bytes(parts[0]);
        let behind = parts_bytes(others) + (seq![0x29u8] + rest);
        let size: int = first.len() as int;
        let next = done + part_value(parts[0]);
        let deeper: nat = match parts[0] {
            LiteralPart::Open => depth + 1,
            LiteralPart::Close => (depth - 1) as nat,
            _ => depth,
        };
        assert(content =~= first + behind);
        assert(content.skip(size) =~= behind);
        assert(content[0] == first[0]);
        lemma_read_parts(others, rest, deeper, next);
        lemma_literal_in_the_rest(content, size, 0, deeper + 1, next);
        assert(next + parts_value(others) =~= done + parts_value(parts));
        match parts[0] {
            LiteralPart::Plain(byte) => {
                assert(next =~= done.push(byte));
            },
            LiteralPart::Escaped(byte) => {
                assert(content[1] == byte);
                assert(escape_at(content, 1).0 =~= part_value(parts[0]));
            },
            LiteralPart::Octal(byte) => {
                assert(content[1] == first[1] && content[2] == first[2] && content[3] == first[3]);
                assert(escape_at(content, 1).0 =~= seq![byte]);
            },
            LiteralPart::Folded => {
                assert(content[1] == 0x0a);
                assert(escape_at(content, 1).0 =~= Seq::empty());
            },
            LiteralPart::Open => {
                assert(next =~= done.push(0x28));
            },
            LiteralPart::Close => {
                assert(next =~= done.push(0x29));
            },
        }
    }
}

/// A byte in hexadecimal notation, with white space before each digit.
#[verifier::ext_equal]
pub struct HexByte {
    pub before_high: Seq<u8>,
    pub high: u8,
    pub before_low: Seq<u8>,
    pub low: u8,
}

/// What a hexadecimal digit stands for.
pub open spec fn digit_meaning(digit: u8) -> int {
    if 0x30 <= digit <= 0x39 {
        digit - 0x30
    } else if 0x61 <= digit <= 0x66 {
        digit - 0x61 + 10
    } else {
        digit - 0x41 + 10
    }
}

/// A hexadecimal digit, in either case.
pub open spec fn is_hex_digit(digit: u8) -> bool {
    0x30 <= digit <= 0x39 || 0x61 <= digit <= 0x66 || 0x41 <= digit <= 0x46
}

/// White space between digits: a tab, a line feed, a form feed, a carriage return, a blank.
pub open spec fn is_blank(bytes: Seq<u8>) -> bool {
    forall|i: int|
        0 <= i < bytes.len() ==> (#[trigger] bytes[i]) == 0x09 || bytes[i] == 0x0a
            || bytes[i] == 0x0c || bytes[i] == 0x0d || bytes[i] == 0x20
}

/// A byte is written as two digits.
pub open spec fn hex_written(list: Seq<HexByte>) -> bool {
    forall|i: int|
        0 <= i < list.len() ==> is_hex_digit((#[trigger] list[i]).high) && is_hex_digit(list[i].low)
            && is_blank(list[i].before_high) && is_blank(list[i].before_low)
}

/// The bytes of a string between angle brackets.
pub open spec fn hex_bytes(list: Seq<HexByte>) -> Seq<u8>
    decreases list.len(),
{
    if list.len() == 0 {
        Seq::empty()
    } else {
        list[0].before_high + (seq![list[0].high] + (list[0].before_low + (seq![list[0].low] + hex_bytes(
            list.skip(1),
        ))))
    }
}

/// What a string between angle brackets stands for.
pub open spec fn hex_value(list: Seq<HexByte>) -> Seq<u8> {
    Seq::new(
        list.len(),
        |i: int| (digit_meaning(list[i].high) * 16 + digit_meaning(list[i].low)) as u8,
    )
}

proof fn lemma_hex_in_the_rest(content: Seq<u8>, at: int, from: int, digits: Seq<u8>)
    requires
        0 <= at <= content.len(),
        0 <= from,
    ensures
        hex_from(content, at + from, digits) == moved(hex_from(content.skip(at), from, digits), at),
    decreases content.len() - at - from,
{
    if at + from < content.len() {
        let byte = content[at + from];
        assert(content.skip(at)[from] == byte);
        lemma_hex_in_the_rest(content, at, from + 1, digits);
        if let Some(value) = hex_digit_value(byte) {
            lemma_hex_in_the_rest(content, at, from + 1, digits.push(value));
        }
    }
}

proof fn lemma_read_blank(blank: Seq<u8>, rest: Seq<u8>, digits: Seq<u8>)
    requires
        is_blank(blank),
    ensures
        hex_from(blank + rest, 0, digits) == moved(hex_from(rest, 0, digits), blank.len() as int),
    decreases blank.len(),
{
    let content = blank + rest;
    if blank.len() == 0 {
        assert(content =~= rest);
    } else {
        let others = blank.skip(1);
        assert(content[0] == blank[0]);
        assert(is_blank(others)) by {
            assert forall|i: int| 0 <= i < others.len() implies (#[trigger] others[i]) == 0x09 || others[i] == 0x0a || others[i] == 0x0c || others[i] == 0x0d || others[i]
                == 0x20 by {
                assert(others[i] == blank[i + 1]);
            }
        }
        lemma_hex_in_the_rest(content, 1, 0, digits);
        assert(content.skip(1) =~= others + rest);
        lemma_read_blank(others, rest, digits);
    }
}

proof fn lemma_read_digit(digit: u8, rest: Seq<u8>, digits: Seq<u8>)
    requires
        is_hex_digit(digit),
    ensures
        hex_from(seq![digit] + rest, 0, digits) == moved(
            hex_from(rest, 0, digits.push(digit_meaning(digit) as u8)),
            1,
        ),
{
    let content = seq![digit] + rest;
    assert(content[0] == digit);
    assert(hex_digit_value(digit) == Some(digit_meaning(digit) as u8));
    lemma_hex_in_the_rest(content, 1, 0, digits.push(digit_meaning(digit) as u8));
    assert(content.skip(1) =~= rest);
}

proof fn lemma_read_hex(list: Seq<HexByte>, rest: Seq<u8>, digits: Seq<u8>)
    requires
        hex_written(list),
        digits.len() % 2 == 0,
    ensures
        hex_from(hex_bytes(list) + (seq![0x3eu8] + rest), 0, digits) == Some(
            (paired(digits) + hex_value(list), hex_bytes(list).len() as int + 1),
        ),
    decreases list.len(),
{
    let content = hex_bytes(list) + (seq![0x3eu8] + rest);
    if list.len() == 0 {
        assert(content[0] == 0x3e);
        assert(paired(digits) + hex_value(list) =~= paired(digits));
    } else {
        let others = list.skip(1);
        let first = list[0];
        let behind = hex_bytes(others) + (seq![0x3eu8] + rest);
        let high = digit_meaning(first.high) as u8;
        let low = digit_meaning(first.low) as u8;
        let more = digits.push(high).push(low);
        assert(hex_written(others)) by {
            assert forall|i: int| 0 <= i < others.len() implies is_hex_digit((#[trigger] others[i]).high)
                && is_hex_digit(others[i].low) && is_blank(others[i].before_high) && is_blank(
                others[i].before_low,
            ) by {
                assert(others[i] == list[i + 1]);
            }
        }
        let from_low = seq![first.low] + behind;
        let from_gap = first.before_low + from_low;
        let from_high = seq![first.high] + from_gap;
        assert(content =~= first.before_high + from_high);
        assert(is_hex_digit(list[0].high) && is_hex_digit(list[0].low));
        lemma_read_blank(first.before_high, from_high, digits);
        lemma_read_digit(first.high, from_gap, digits);
        lemma_read_blank(first.before_low, from_low, digits.push(high));
        lemma_read_digit(first.low, behind, digits.push(high));
        lemma_read_hex(others, rest, more);
        assert(paired(more) =~= paired(digits).push((high * 16 + low) as u8));
        assert(paired(more) + hex_value(others) =~= paired(digits) + hex_value(list));
    }
}

/// A string of a page.
#[verifier::ext_equal]
pub enum WrittenString {
    Literal(Seq<LiteralPart>),
    Hex(Seq<HexByte>),
}

/// A string behind operators and numbers.
#[verifier::ext_equal]
pub struct Segment {
    pub gap: Seq<u8>,
    pub string: WrittenString,
}

/// No string starts in these bytes.
pub open spec fn holds_no_string(bytes: Seq<u8>) -> bool {
    forall|i: int| 0 <= i < bytes.len() ==> (#[trigger] bytes[i]) != 0x28 && bytes[i] != 0x3c
}

/// The bytes of a string.
pub open spec fn string_bytes(string: WrittenString) -> Seq<u8> {
    match string {
        WrittenString::Literal(parts) => seq![0x28u8] + (parts_bytes(parts) + seq![0x29u8]),
        WrittenString::Hex(list) => seq![0x3cu8] + (hex_bytes(list) + seq![0x3eu8]),
    }
}

/// What a string stands for.
pub open spec fn string_value(string: WrittenString) -> Seq<u8> {
    match string {
        WrittenString::Literal(parts) => parts_value(parts),
        WrittenString::Hex(list) => hex_value(list),
    }
}

/// A string is written as one is.
pub open spec fn segment_written(segment: Segment) -> bool {
    holds_no_string(segment.gap) && match segment.string {
        WrittenString::Literal(parts) => literal_written(parts, 0),
        WrittenString::Hex(list) => hex_written(list),
    }
}

/// The bytes of segments.
pub open spec fn segments_bytes(segments: Seq<Segment>) -> Seq<u8>
    decreases segments.len(),
{
    if segments.len() == 0 {
        Seq::empty()
    } else {
        segments[0].gap + (string_bytes(segments[0].string) + segments_bytes(segments.skip(1)))
    }
}

/// The texts of the strings that are not blank.
pub open spec fn segment_texts(segments: Seq<Segment>) -> Seq<Seq<char>>
    decreases segments.len(),
{
    if segments.len() == 0 {
        Seq::empty()
    } else {
        let text = string_text(string_value(segments[0].string));
        (if trim(text).len() > 0 {
            seq![text]
        } else {
            Seq::empty()
        }) + segment_texts(segments.skip(1))
    }
}

proof fn lemma_strings_of_the_rest(content: Seq<u8>, at: int, from: int, parts: Seq<Seq<char>>)
    requires
        0 <= at <= content.len(),
        0 <= from,
    ensures
        strings_from(content, at + from, parts) == strings_from(content.skip(at), from, parts),
    decreases content.len() - at - from,
{
    let rest = content.skip(at);
    if at + from < content.len() {
        assert(rest[from] == content[at + from]);
        if from + 1 < rest.len() {
            assert(rest[from + 1] == content[at + from + 1]);
        }
        if rest[from] == 0x28 {
            lemma_literal_in_the_rest(content, at, from + 1, 1, Seq::empty());
            crate::pdf_text::lemma_literal_ends_later(rest, from + 1, 1, Seq::empty());
            if let Some((bytes, next)) = literal_from(rest, from + 1, 1, Seq::empty()) {
                lemma_strings_of_the_rest(content, at, next, with_part(parts, bytes));
            }
        } else if rest[from] == 0x3c && !(from + 1 < rest.len() && rest[from + 1] == 0x3c) {
            lemma_hex_in_the_rest(content, at, from + 1, Seq::empty());
            crate::pdf_text::lemma_hex_ends_later(rest, from + 1, Seq::empty());
            if let Some((bytes, next)) = hex_from(rest, from + 1, Seq::empty()) {
                lemma_strings_of_the_rest(content, at, next, with_part(parts, bytes));
            }
        } else {
            lemma_strings_of_the_rest(content, at, from + 1, parts);
        }
    }
}

proof fn lemma_pass_gap(gap: Seq<u8>, rest: Seq<u8>, parts: Seq<Seq<char>>)
    requires
        holds_no_string(gap),
    ensures
        strings_from(gap + rest, 0, parts) == strings_from(rest, 0, parts),
    decreases gap.len(),
{
    let content = gap + rest;
    if gap.len() == 0 {
        assert(content =~= rest);
    } else {
        let others = gap.skip(1);
        assert(content[0] == gap[0]);
        assert(holds_no_string(others)) by {
            assert forall|i: int| 0 <= i < others.len() implies (#[trigger] others[i]) != 0x28
                && others[i] != 0x3c by {
                assert(others[i] == gap[i + 1]);
            }
        }
        lemma_strings_of_the_rest(content, 1, 0, parts);
        assert(content.skip(1) =~= others + rest);
        lemma_pass_gap(others, rest, parts);
    }
}

proof fn lemma_read_string(string: WrittenString, rest: Seq<u8>, parts: Seq<Seq<char>>)
    requires
        match string {
            WrittenString::Literal(list) => literal_written(list, 0),
            WrittenString::Hex(list) => hex_written(list),
        },
    ensures
        strings_from(string_bytes(string) + rest, 0, parts) == strings_from(
            rest,
            0,
            with_part(parts, string_value(string)),
        ),
{
    let content = string_bytes(string) + rest;
    let size: int = string_bytes(string).len() as int;
    let nothing = Seq::<u8>::empty();
    match string {
        WrittenString::Literal(list) => {
            assert(content[0] == 0x28);
            assert(content.skip(1) =~= parts_bytes(list) + (seq![0x29u8] + rest));
            lemma_read_parts(list, rest, 0, nothing);
            lemma_literal_in_the_rest(content, 1, 0, 1, nothing);
            assert(nothing + parts_value(list) =~= parts_value(list));
        },
        WrittenString::Hex(list) => {
            assert(content[0] == 0x3c);
            assert(content.skip(1) =~= hex_bytes(list) + (seq![0x3eu8] + rest));
            if list.len() > 0 {
                let first = list[0];
                assert(is_hex_digit(list[0].high) && is_blank(list[0].before_high));
                if first.before_high.len() > 0 {
                    assert(hex_bytes(list)[0] == first.before_high[0]);
                } else {
                    assert(hex_bytes(list)[0] == first.high);
                }
                assert(content[1] == hex_bytes(list)[0]);
            } else {
                assert(content[1] == 0x3e);
            }
            lemma_read_hex(list, rest, nothing);
            lemma_hex_in_the_rest(content, 1, 0, nothing);
            assert(paired(nothing) + hex_value(list) =~= hex_value(list));
        },
    }
    lemma_strings_of_the_rest(content, size, 0, with_part(parts, string_value(string)));
    assert(content.skip(size) =~= rest);
}

proof fn lemma_read_segments(segments: Seq<Segment>, rest: Seq<u8>, parts: Seq<Seq<char>>)
    requires
        forall|i: int| 0 <= i < segments.len() ==> segment_written(#[trigger] segments[i]),
    ensures
        strings_from(segments_bytes(segments) + rest, 0, parts) == strings_from(
            rest,
            0,
            parts + segment_texts(segments),
        ),
    decreases segments.len(),
{
    let content = segments_bytes(segments) + rest;
    if segments.len() == 0 {
        assert(content =~= rest);
        assert(parts + segment_texts(segments) =~= parts);
    } else {
        let first = segments[0];
        let others = segments.skip(1);
        let behind = segments_bytes(others) + rest;
        let next = with_part(parts, string_value(first.string));
        assert(segment_written(segments[0]));
        assert forall|i: int| 0 <= i < others.len() implies segment_written(#[trigger] others[i]) by {
            assert(others[i] == segments[i + 1]);
        }
        assert(content =~= first.gap + (string_bytes(first.string) + behind));
        lemma_pass_gap(first.gap, string_bytes(first.string) + behind, parts);
        lemma_read_string(first.string, behind, parts);
        lemma_read_segments(others, rest, next);
        assert(next + segment_texts(others) =~= parts + segment_texts(segments));
    }
}

// ---- Laws ----

/// An operator that begins a text or shows one stands here.
pub open spec fn draws_at(content: Seq<u8>, at: int) -> bool {
    0 <= at < content.len() - 1 && ((content[at] == 0x42 && content[at + 1] == 0x54) || (content[at]
        == 0x54 && (content[at + 1] == 0x6a || content[at + 1] == 0x4a)))
}

/// The text of a page is that of its strings, in their order and with a blank between each two,
/// without those that are blank: in a string between round brackets a backslash gives the next byte
/// its meaning and pairs of brackets stand for themselves, between angle brackets two digits are a
/// byte. Everything between the strings counts for nothing.
pub proof fn pages_say_their_strings(segments: Seq<Segment>, tail: Seq<u8>)
    requires
        forall|i: int| 0 <= i < segments.len() ==> segment_written(#[trigger] segments[i]),
        holds_no_string(tail),
        exists|at: int| draws_at(segments_bytes(segments) + tail, at),
    ensures
        content_text(segments_bytes(segments) + tail) == join(segment_texts(segments), seq![' ']),
{
    let content = segments_bytes(segments) + tail;
    let nothing = Seq::<Seq<char>>::empty();
    let texts = segment_texts(segments);
    lemma_read_segments(segments, tail, nothing);
    assert(nothing + texts =~= texts);
    lemma_pass_gap(tail, Seq::empty(), texts);
    assert(tail + Seq::<u8>::empty() =~= tail);
    let at = choose|at: int| draws_at(content, at);
    let two = content.subrange(at, at + 2);
    assert(two[0] == content[at] && two[1] == content[at + 1]);
    if content[at] == 0x42 {
        assert(two =~= seq![0x42u8, 0x54]);
        assert(occurs_at(content, seq![0x42u8, 0x54], at));
    } else if content[at + 1] == 0x6a {
        assert(two =~= seq![0x54u8, 0x6a]);
        assert(occurs_at(content, seq![0x54u8, 0x6a], at));
    } else {
        assert(two =~= seq![0x54u8, 0x4a]);
        assert(occurs_at(content, seq![0x54u8, 0x4a], at));
    }
    reveal_strlit(" ");
    assert(" "@ =~= seq![' ']);
}

/// The UTF-16 form of a text.
pub open spec fn utf16_units(text: Seq<char>) -> Seq<u16>
    decreases text.len(),
{
    if text.len() == 0 {
        Seq::empty()
    } else {
        let n = text[0] as u32;
        (if n < 0x1_0000 {
            seq![n as u16]
        } else {
            seq![
                (0xd800 + (n - 0x1_0000) / 0x400) as u16,
                (0xdc00 + (n - 0x1_0000) % 0x400) as u16,
            ]
        }) + utf16_units(text.skip(1))
    }
}

/// The bytes of units, the high byte first or last.
pub open spec fn unit_bytes(units: Seq<u16>, high_first: bool) -> Seq<u8> {
    Seq::new(
        2 * units.len(),
        |i: int|
            if (i % 2 == 0) == high_first {
                (units[i / 2] / 256) as u8
            } else {
                (units[i / 2] % 256) as u8
            },
    )
}

proof fn lemma_units_come_back(units: Seq<u16>, high_first: bool)
    ensures
        units_of(unit_bytes(units, high_first), high_first) == units,
{
    let bytes = unit_bytes(units, high_first);
    let back = units_of(bytes, high_first);
    assert forall|i: int| 0 <= i < units.len() implies back[i] == units[i] by {
        assert((2 * i) / 2 == i && (2 * i + 1) / 2 == i && (2 * i) % 2 == 0 && (2 * i + 1) % 2 == 1);
    }
    assert(back =~= units);
}

proof fn lemma_utf16_reads_back(text: Seq<char>)
    ensures
        utf16_text(utf16_units(text)) == text,
    decreases text.len(),
{
    let units = utf16_units(text);
    if text.len() == 0 {
        assert(utf16_text(units) =~= text);
    } else {
        let rest = text.skip(1);
        let c = text[0];
        let n = c as u32;
        vstd::utf8::char_is_scalar(c);
        vstd::utf8::char_u32_cast(c, n);
        lemma_utf16_reads_back(rest);
        if n < 0x1_0000 {
            assert(units.skip(1) =~= utf16_units(rest));
            assert(units[0] == n as u16);
            assert(units[0] as char == c);
        } else {
            assert(units.skip(2) =~= utf16_units(rest));
            assert(0xd800 <= units[0] <= 0xdbff && 0xdc00 <= units[1] <= 0xdfff);
            assert((0x1_0000 + (units[0] - 0xd800) * 0x400 + (units[1] - 0xdc00)) == n);
        }
        assert(utf16_text(units) =~= text);
    }
}

/// A string behind a mark of UTF-16 is read as the text that it encodes, in either order of bytes.
pub proof fn marked_strings_are_decoded(text: Seq<char>)
    ensures
        string_text(seq![0xfeu8, 0xff] + unit_bytes(utf16_units(text), true)) == text,
        string_text(seq![0xffu8, 0xfe] + unit_bytes(utf16_units(text), false)) == text,
{
    let units = utf16_units(text);
    lemma_utf16_reads_back(text);
    lemma_marked(units, true);
    lemma_marked(units, false);
}

proof fn lemma_marked(units: Seq<u16>, high_first: bool)
    ensures
        string_text(
            (if high_first {
                seq![0xfeu8, 0xff]
            } else {
                seq![0xffu8, 0xfe]
            }) + unit_bytes(units, high_first),
        ) == utf16_text(units),
{
    let mark = if high_first {
        seq![0xfeu8, 0xff]
    } else {
        seq![0xffu8, 0xfe]
    };
    let bytes = mark + unit_bytes(units, high_first);
    lemma_units_come_back(units, high_first);
    assert(bytes[0] == mark[0] && bytes[1] == mark[1]);
    assert(bytes.skip(2) =~= unit_bytes(units, high_first));
}

/// A string of UTF-8 without a mark is read as the text that it encodes.
pub proof fn plain_strings_are_decoded(text: Seq<char>)
    requires
        ({
            let bytes = vstd::utf8::encode_utf8(text);
            bytes.len() >= 2 ==> !(bytes[0] == 0xfe && bytes[1] == 0xff) && !(bytes[0] == 0xff && bytes[1]
                == 0xfe)
        }),
    ensures
        string_text(vstd::utf8::encode_utf8(text)) == text,
{
    vstd::utf8::encode_utf8_valid_utf8(text);
    vstd::utf8::encode_utf8_decode_utf8(text);
}

} // verus!
