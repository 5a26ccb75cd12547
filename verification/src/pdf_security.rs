//! The check that a PDF file holds nothing that acts on its own before it is previewed.

use vstd::prelude::*;
use crate::archive::{decoded, zlib_inflate, zlib_inflated};
use crate::bytes::{
    ascii_lower_byte, ascii_lowercase_bytes, find_byte, find_bytes_from, hex_digit_value, hex_value,
    lower_byte, bytes_at,
};
use crate::error::{failure, outcome, ErrorKind, Failure, LibraryError, LibraryResult};
use crate::text::{
    chars, find_from, first_at, from_utf8_lossy, index_from, lemma_find_meaning, lemma_find_some,
    occurs_at, rfind, rfind_before, utf8_lossy,
};

verus! {

/// The size to which an object stream may expand (64 MiB).
pub const MAX_OBJECT_STREAM_BYTES: u64 = 64 * 1024 * 1024;

/// An error of the check.
pub open spec fn unsafe_pdf(detail: Seq<char>) -> Failure {
    failure(ErrorKind::UnsafePreview, detail)
}

fn unsafe_pdf_error(detail: &str) -> (error: LibraryError)
    ensures
        error@ == unsafe_pdf(detail@),
{
    LibraryError::UnsafePreview(detail.to_owned())
}

// ---- Bytes ----

/// White space of ASCII.
pub open spec fn pdf_white(byte: u8) -> bool {
    byte == 0x20 || byte == 0x09 || byte == 0x0a || byte == 0x0c || byte == 0x0d
}

/// The bytes that end a name or a word.
pub open spec fn pdf_delimiter(byte: u8) -> bool {
    byte == 0x28 || byte == 0x29 || byte == 0x3c || byte == 0x3e || byte == 0x5b || byte == 0x5d
        || byte == 0x7b || byte == 0x7d || byte == 0x2f || byte == 0x25
}

/// The bytes of a word.
pub open spec fn pdf_regular(byte: u8) -> bool {
    !pdf_delimiter(byte) && !pdf_white(byte)
}

/// Whether the byte is white space.
pub fn is_pdf_white(byte: u8) -> (found: bool)
    ensures
        found == pdf_white(byte),
{
    byte == 0x20 || byte == 0x09 || byte == 0x0a || byte == 0x0c || byte == 0x0d
}

/// Whether the byte ends a name or a word.
pub fn is_pdf_delimiter(byte: u8) -> (found: bool)
    ensures
        found == pdf_delimiter(byte),
{
    byte == 0x28 || byte == 0x29 || byte == 0x3c || byte == 0x3e || byte == 0x5b || byte == 0x5d
        || byte == 0x7b || byte == 0x7d || byte == 0x2f || byte == 0x25
}

/// Whether the byte belongs to a word.
pub fn is_pdf_regular(byte: u8) -> (found: bool)
    ensures
        found == pdf_regular(byte),
{
    !is_pdf_delimiter(byte) && !is_pdf_white(byte)
}

/// The characters of an ASCII text as bytes.
pub open spec fn ascii_bytes(text: Seq<char>) -> Seq<u8> {
    text.map_values(|c: char| c as u8)
}

/// The bytes spell the text, but for the case of letters.
pub open spec fn spells(bytes: Seq<u8>, text: Seq<char>) -> bool {
    ascii_lowercase_bytes(bytes) == ascii_lowercase_bytes(ascii_bytes(text))
}

/// Whether the bytes spell the text, but for the case of letters.
pub fn is_spelled(bytes: &[u8], text: &str) -> (found: bool)
    ensures
        found == spells(bytes@, text@),
{
    let letters = chars(text);
    let ghost left = ascii_lowercase_bytes(bytes@);
    let ghost right = ascii_lowercase_bytes(ascii_bytes(text@));
    if bytes.len() != letters.len() {
        assert(left.len() != right.len());
        return false;
    }
    let mut i: usize = 0;
    while i < bytes.len()
        invariant
            i <= bytes@.len(),
            bytes@.len() == letters@.len(),
            letters@ == text@,
            left == ascii_lowercase_bytes(bytes@),
            right == ascii_lowercase_bytes(ascii_bytes(text@)),
            forall|j: int| 0 <= j < i ==> left[j] == right[j],
        decreases bytes@.len() - i,
    {
        assert(left[i as int] == ascii_lower_byte(bytes@[i as int]));
        assert(right[i as int] == ascii_lower_byte(letters@[i as int] as u8));
        if lower_byte(bytes[i]) != lower_byte(letters[i] as u8) {
            return false;
        }
        i = i + 1;
    }
    assert(left =~= right);
    true
}

// ---- Names ----

/// The name `found` and what follows it from `cursor` on, with its escapes resolved and the
/// letters outside escapes in lower case, and the position behind it.
pub open spec fn name_from(bytes: Seq<u8>, cursor: int, found: Seq<u8>) -> Result<
    (Seq<u8>, int),
    Failure,
>
    decreases bytes.len() - cursor,
{
    if cursor < 0 || cursor >= bytes.len() || pdf_white(bytes[cursor]) || pdf_delimiter(
        bytes[cursor],
    ) {
        if found.len() == 0 {
            Err(unsafe_pdf("PDF 名称 token 为空，无法验证安全性。"@))
        } else {
            Ok((found, cursor))
        }
    } else if bytes[cursor] == 0x23 {
        if cursor + 2 < bytes.len() && hex_digit_value(bytes[cursor + 1]) is Some
            && hex_digit_value(bytes[cursor + 2]) is Some {
            let high = hex_digit_value(bytes[cursor + 1])->0;
            let low = hex_digit_value(bytes[cursor + 2])->0;
            name_from(bytes, cursor + 3, found.push((high * 16 + low) as u8))
        } else {
            Err(unsafe_pdf("PDF 名称包含无效转义，无法验证安全性。"@))
        }
    } else {
        name_from(bytes, cursor + 1, found.push(ascii_lower_byte(bytes[cursor])))
    }
}

/// The name whose slash stands at `start`, and the position behind it.
pub open spec fn name_at(bytes: Seq<u8>, start: int) -> Result<(Seq<u8>, int), Failure> {
    name_from(bytes, start + 1, Seq::empty())
}

/// A name ends behind the place where it starts.
pub proof fn lemma_name_moves_ahead(bytes: Seq<u8>, cursor: int, found: Seq<u8>)
    requires
        cursor <= bytes.len(),
    ensures
        name_from(bytes, cursor, found) matches Ok((name, next)) ==> cursor <= next <= bytes.len(),
    decreases bytes.len() - cursor,
{
    if 0 <= cursor < bytes.len() && !pdf_white(bytes[cursor]) && !pdf_delimiter(bytes[cursor]) {
        if bytes[cursor] == 0x23 {
            if cursor + 2 < bytes.len() && hex_digit_value(bytes[cursor + 1]) is Some
                && hex_digit_value(bytes[cursor + 2]) is Some {
                let high = hex_digit_value(bytes[cursor + 1])->0;
                let low = hex_digit_value(bytes[cursor + 2])->0;
                lemma_name_moves_ahead(bytes, cursor + 3, found.push((high * 16 + low) as u8));
            }
        } else {
            lemma_name_moves_ahead(
                bytes,
                cursor + 1,
                found.push(ascii_lower_byte(bytes[cursor])),
            );
        }
    }
}

/// The name whose slash stands at `start`, and the position behind it.
pub fn parse_pdf_name(bytes: &[u8], start: usize) -> (result: LibraryResult<(Vec<u8>, usize)>)
    requires
        start < usize::MAX,
    ensures
        (match result {
            Ok((name, next)) => Ok((name@, next as int)),
            Err(error) => Err(error@),
        }) == name_at(bytes@, start as int),
        result matches Ok((name, next)) ==> start < next <= bytes@.len(),
{
    let size: usize = bytes.len();
    let mut cursor: usize = start + 1;
    let mut name: Vec<u8> = Vec::new();
    while cursor < size && !is_pdf_white(bytes[cursor]) && !is_pdf_delimiter(bytes[cursor])
        invariant
            size == bytes@.len(),
            start < cursor,
            cursor <= size || name@.len() == 0,
            name_from(bytes@, cursor as int, name@) == name_at(bytes@, start as int),
        decreases size - cursor,
    {
        if bytes[cursor] == 0x23 {
            let digits: (Option<u8>, Option<u8>) = if size - cursor > 2 {
                (hex_value(bytes[cursor + 1]), hex_value(bytes[cursor + 2]))
            } else {
                (None, None)
            };
            match digits {
                (Some(high), Some(low)) => {
                    name.push(high * 16 + low);
                    cursor = cursor + 3;
                },
                _ => {
                    return Err(unsafe_pdf_error("PDF 名称包含无效转义，无法验证安全性。"));
                },
            }
        } else {
            name.push(lower_byte(bytes[cursor]));
            cursor = cursor + 1;
        }
    }
    if name.len() == 0 {
        return Err(unsafe_pdf_error("PDF 名称 token 为空，无法验证安全性。"));
    }
    Ok((name, cursor))
}

/// The names of objects that act on their own, lead outside, or hide their content.
pub open spec fn dangerous_names() -> Seq<Seq<char>> {
    seq![
        "openaction"@,
        "aa"@,
        "javascript"@,
        "js"@,
        "launch"@,
        "uri"@,
        "embeddedfile"@,
        "richmedia"@,
        "xfa"@,
        "gotoR"@,
        "gotoE"@,
        "submitform"@,
        "importdata"@,
        "rendition"@,
        "movie"@,
        "sound"@,
        "3d"@,
        "encrypt"@,
    ]
}

/// The name is that of an object that must not be previewed.
pub open spec fn dangerous(name: Seq<u8>) -> bool {
    exists|i: int| 0 <= i < dangerous_names().len() && spells(name, #[trigger] dangerous_names()[i])
}

/// Whether the name is that of an object that must not be previewed.
pub fn dangerous_name(name: &[u8]) -> (found: bool)
    ensures
        found == dangerous(name@),
{
    let names: [&str; 18] = [
        "openaction",
        "aa",
        "javascript",
        "js",
        "launch",
        "uri",
        "embeddedfile",
        "richmedia",
        "xfa",
        "gotoR",
        "gotoE",
        "submitform",
        "importdata",
        "rendition",
        "movie",
        "sound",
        "3d",
        "encrypt",
    ];
    let mut i: usize = 0;
    while i < 18
        invariant
            i <= 18,
            forall|j: int| 0 <= j < 18 ==> (#[trigger] names@[j])@ == dangerous_names()[j],
            forall|j: int| 0 <= j < i ==> !spells(name@, #[trigger] dangerous_names()[j]),
        decreases 18 - i,
    {
        assert(names@[i as int]@ == dangerous_names()[i as int]);
        if is_spelled(name, names[i]) {
            return true;
        }
        i = i + 1;
    }
    false
}

/// A name as it is shown to the user.
pub fn display_pdf_name(name: &[u8]) -> (text: String)
    ensures
        text@ == utf8_lossy(name@),
{
    from_utf8_lossy(name)
}

// ---- Strings and words ----

/// The position behind a string in parentheses; `depth` parentheses are open at `cursor`.
pub open spec fn string_end(bytes: Seq<u8>, cursor: int, depth: nat) -> Result<int, Failure>
    decreases bytes.len() - cursor,
{
    if cursor < 0 || cursor >= bytes.len() {
        Err(unsafe_pdf("PDF 字符串未闭合，无法验证安全性。"@))
    } else if bytes[cursor] == 0x5c {
        if cursor + 2 > bytes.len() {
            Err(unsafe_pdf("PDF 字符串未闭合，无法验证安全性。"@))
        } else {
            string_end(bytes, cursor + 2, depth)
        }
    } else if bytes[cursor] == 0x28 {
        string_end(bytes, cursor + 1, depth + 1)
    } else if bytes[cursor] == 0x29 {
        if depth <= 1 {
            Ok(cursor + 1)
        } else {
            string_end(bytes, cursor + 1, (depth - 1) as nat)
        }
    } else {
        string_end(bytes, cursor + 1, depth)
    }
}

/// A string ends behind the place where it starts.
pub proof fn lemma_string_moves_ahead(bytes: Seq<u8>, cursor: int, depth: nat)
    ensures
        string_end(bytes, cursor, depth) matches Ok(next) ==> cursor < next <= bytes.len(),
    decreases bytes.len() - cursor,
{
    if 0 <= cursor < bytes.len() {
        if cursor + 2 <= bytes.len() {
            lemma_string_moves_ahead(bytes, cursor + 2, depth);
        }
        lemma_string_moves_ahead(bytes, cursor + 1, depth + 1);
        if depth > 1 {
            lemma_string_moves_ahead(bytes, cursor + 1, (depth - 1) as nat);
        }
        lemma_string_moves_ahead(bytes, cursor + 1, depth);
    }
}

/// The position behind the string whose opening parenthesis stands at `start`.
fn skip_literal_string(bytes: &[u8], start: usize) -> (result: LibraryResult<usize>)
    requires
        start < bytes@.len(),
    ensures
        (match result {
            Ok(next) => Ok(next as int),
            Err(error) => Err(error@),
        }) == string_end(bytes@, start + 1, 1),
        result matches Ok(next) ==> start < next <= bytes@.len(),
{
    let size: usize = bytes.len();
    let mut cursor: usize = start + 1;
    let mut depth: usize = 1;
    while cursor < size
        invariant
            size == bytes@.len(),
            start < cursor <= size,
            1 <= depth <= cursor,
            string_end(bytes@, cursor as int, depth as nat) == string_end(bytes@, start + 1, 1),
        decreases size - cursor,
    {
        let byte = bytes[cursor];
        if byte == 0x5c {
            if size - cursor < 2 {
                return Err(unsafe_pdf_error("PDF 字符串未闭合，无法验证安全性。"));
            }
            cursor = cursor + 2;
        } else if byte == 0x28 {
            depth = depth + 1;
            cursor = cursor + 1;
        } else if byte == 0x29 {
            cursor = cursor + 1;
            if depth == 1 {
                return Ok(cursor);
            }
            depth = depth - 1;
        } else {
            cursor = cursor + 1;
        }
    }
    Err(unsafe_pdf_error("PDF 字符串未闭合，无法验证安全性。"))
}

/// The position behind a word.
pub open spec fn word_end(bytes: Seq<u8>, cursor: int) -> int
    decreases bytes.len() - cursor,
{
    if 0 <= cursor < bytes.len() && pdf_regular(bytes[cursor]) {
        word_end(bytes, cursor + 1)
    } else {
        cursor
    }
}

/// A word ends where it starts or behind.
pub proof fn lemma_word_moves_ahead(bytes: Seq<u8>, cursor: int)
    requires
        0 <= cursor <= bytes.len(),
    ensures
        cursor <= word_end(bytes, cursor) <= bytes.len(),
        cursor < bytes.len() && pdf_regular(bytes[cursor]) ==> cursor < word_end(bytes, cursor),
    decreases bytes.len() - cursor,
{
    if cursor < bytes.len() && pdf_regular(bytes[cursor]) {
        lemma_word_moves_ahead(bytes, cursor + 1);
    }
}

/// The position behind the word that starts at `start`.
pub fn parse_pdf_keyword(bytes: &[u8], start: usize) -> (end: usize)
    requires
        start <= bytes@.len(),
    ensures
        end == word_end(bytes@, start as int),
        start <= end <= bytes@.len(),
        start < bytes@.len() && pdf_regular(bytes@[start as int]) ==> start < end,
{
    let mut cursor: usize = start;
    while cursor < bytes.len() && is_pdf_regular(bytes[cursor])
        invariant
            start <= cursor <= bytes@.len(),
            word_end(bytes@, cursor as int) == word_end(bytes@, start as int),
            cursor == start ==> (start < bytes@.len() && pdf_regular(bytes@[start as int]) ==> true),
        decreases bytes@.len() - cursor,
    {
        cursor = cursor + 1;
    }
    proof {
        lemma_word_moves_ahead(bytes@, start as int);
    }
    cursor
}

// ---- Streams ----

/// Where the dictionary and the data of a stream stand.
#[derive(Debug, Clone, Copy, PartialEq, Eq, Structural)]
pub struct PdfStream {
    pub dictionary_start: usize,
    pub dictionary_end: usize,
    pub data_start: usize,
    pub data_end: usize,
}

/// [`PdfStream`] by positions.
pub struct Span {
    pub dictionary_start: int,
    pub dictionary_end: int,
    pub data_start: int,
    pub data_end: int,
}

impl View for PdfStream {
    type V = Span;

    open spec fn view(&self) -> Span {
        Span {
            dictionary_start: self.dictionary_start as int,
            dictionary_end: self.dictionary_end as int,
            data_start: self.data_start as int,
            data_end: self.data_end as int,
        }
    }
}

/// The streams by positions.
pub open spec fn spans(streams: Seq<PdfStream>) -> Seq<Span> {
    streams.map_values(|stream: PdfStream| stream@)
}

/// The bytes that open a dictionary.
pub open spec fn dictionary_mark() -> Seq<u8> {
    seq![0x3cu8, 0x3c]
}

/// The last place before `at` where a dictionary opens, or the start of the file.
pub open spec fn dictionary_before(bytes: Seq<u8>, at: int) -> int {
    match rfind(bytes.take(at), dictionary_mark()) {
        Some(found) => found,
        None => 0,
    }
}

/// The last place before `at` where a dictionary opens, or the start of the file.
pub fn dictionary_start_before(bytes: &[u8], at: usize) -> (start: usize)
    requires
        at <= bytes@.len(),
    ensures
        start == dictionary_before(bytes@, at as int),
        start <= at,
{
    let mark: [u8; 2] = [0x3c, 0x3c];
    assert(mark@ =~= dictionary_mark());
    let head = vstd::slice::slice_subrange(bytes, 0, at);
    assert(head@ =~= bytes@.take(at as int));
    let mut i: usize = at;
    assert(!occurs_at(head@, mark@, at as int));
    while i > 0
        invariant
            i <= at,
            at <= bytes@.len(),
            mark@ == dictionary_mark(),
            head@ == bytes@.take(at as int),
            rfind_before(head@, mark@, i - 1) == rfind(head@, mark@),
        decreases i,
    {
        i = i - 1;
        if bytes_at(head, vstd::array::array_as_slice(&mark), i) {
            return i;
        }
    }
    0
}

/// The word that closes the data of a stream.
pub open spec fn stream_close() -> Seq<u8> {
    seq![0x65u8, 0x6e, 0x64, 0x73, 0x74, 0x72, 0x65, 0x61, 0x6d]
}

/// Where the data of a stream starts when its keyword ends at `at`: behind one line end.
pub open spec fn data_after(bytes: Seq<u8>, at: int) -> int {
    let first = if at < bytes.len() && bytes[at] == 0x0d {
        at + 1
    } else {
        at
    };
    if first < bytes.len() && bytes[first] == 0x0a {
        first + 1
    } else {
        first
    }
}

/// The stream whose keyword stands at `start`, or that its end is missing.
pub open spec fn stream_at(bytes: Seq<u8>, start: int) -> Result<Span, Failure> {
    let data_start = data_after(bytes, word_end(bytes, start));
    match find_from(bytes, stream_close(), data_start) {
        None => Err(unsafe_pdf("PDF 对象流缺少结束标记，无法验证安全性。"@)),
        Some(data_end) => Ok(
            Span {
                dictionary_start: dictionary_before(bytes, start),
                dictionary_end: start,
                data_start,
                data_end,
            },
        ),
    }
}

/// The stream stands within the bytes.
pub open spec fn stream_fits(stream: PdfStream, size: nat) -> bool {
    stream.dictionary_start <= stream.dictionary_end && stream.dictionary_end <= stream.data_start
        && stream.data_start <= stream.data_end && stream.data_end + 9 <= size
}

/// The stream whose keyword stands at `start` and ends at `end`, or that its end is missing.
fn read_stream(bytes: &[u8], start: usize, end: usize) -> (result: LibraryResult<PdfStream>)
    requires
        start < end <= bytes@.len(),
        end == word_end(bytes@, start as int),
    ensures
        (match result {
            Ok(stream) => Ok(stream@),
            Err(error) => Err(error@),
        }) == stream_at(bytes@, start as int),
        result matches Ok(stream) ==> stream_fits(stream, bytes@.len()) && start < stream.data_end,
{
    let close: [u8; 9] = [0x65, 0x6e, 0x64, 0x73, 0x74, 0x72, 0x65, 0x61, 0x6d];
    assert(close@ =~= stream_close());
    let size: usize = bytes.len();
    let dictionary_start = dictionary_start_before(bytes, start);
    let mut data_start: usize = end;
    if data_start < size && bytes[data_start] == 0x0d {
        data_start = data_start + 1;
    }
    if data_start < size && bytes[data_start] == 0x0a {
        data_start = data_start + 1;
    }
    match find_bytes_from(bytes, vstd::array::array_as_slice(&close), data_start) {
        None => Err(unsafe_pdf_error("PDF 对象流缺少结束标记，无法验证安全性。")),
        Some(data_end) => Ok(
            PdfStream { dictionary_start, dictionary_end: start, data_start, data_end },
        ),
    }
}

// ---- Tokens ----

/// What stands at `cursor`: the position behind it, and the stream where it is one; or why the
/// file is refused.
pub open spec fn token_at(bytes: Seq<u8>, cursor: int) -> Result<(int, Option<Span>), Failure> {
    let byte = bytes[cursor];
    if byte == 0x25 {
        Ok((line_end(bytes, cursor), None))
    } else if byte == 0x28 {
        match string_end(bytes, cursor + 1, 1) {
            Err(error) => Err(error),
            Ok(next) => Ok((next, None)),
        }
    } else if byte == 0x3c && cursor + 1 < bytes.len() && bytes[cursor + 1] == 0x3c {
        Ok((cursor + 2, None))
    } else if byte == 0x3c {
        match index_from(bytes, 0x3e, cursor + 1) {
            None => Err(unsafe_pdf("PDF 十六进制字符串未闭合，无法验证安全性。"@)),
            Some(at) => Ok((at + 1, None)),
        }
    } else if byte == 0x2f {
        match name_at(bytes, cursor) {
            Err(error) => Err(error),
            Ok((name, next)) => if dangerous(name) {
                Err(
                    unsafe_pdf(
                        "PDF 包含会在预览时被禁止的对象：/"@ + utf8_lossy(name) + "。"@,
                    ),
                )
            } else {
                Ok((next, None))
            },
        }
    } else if pdf_regular(byte) {
        let end = word_end(bytes, cursor);
        if spells(bytes.subrange(cursor, end), "stream"@) {
            match stream_at(bytes, cursor) {
                Err(error) => Err(error),
                Ok(stream) => Ok((stream.data_end + 9, Some(stream))),
            }
        } else {
            Ok((end, None))
        }
    } else {
        Ok((cursor + 1, None))
    }
}

/// The position behind the end of the line.
pub open spec fn line_end(bytes: Seq<u8>, cursor: int) -> int
    decreases bytes.len() - cursor,
{
    if cursor < 0 || cursor >= bytes.len() {
        bytes.len() as int
    } else if bytes[cursor] == 0x0d || bytes[cursor] == 0x0a {
        cursor + 1
    } else {
        line_end(bytes, cursor + 1)
    }
}

fn skip_line(bytes: &[u8], from: usize) -> (next: usize)
    requires
        from < bytes@.len(),
    ensures
        next == line_end(bytes@, from as int),
        from < next <= bytes@.len(),
{
    let size: usize = bytes.len();
    let mut i: usize = from;
    while i < size
        invariant
            size == bytes@.len(),
            from <= i <= size,
            from < size,
            line_end(bytes@, i as int) == line_end(bytes@, from as int),
        decreases size - i,
    {
        if bytes[i] == 0x0d || bytes[i] == 0x0a {
            return i + 1;
        }
        i = i + 1;
    }
    size
}

/// What stands at `cursor`: the position behind it, and the stream where it is one.
fn read_token(bytes: &[u8], cursor: usize) -> (result: LibraryResult<(usize, Option<PdfStream>)>)
    requires
        cursor < bytes@.len(),
    ensures
        (match result {
            Ok((next, Some(stream))) => Ok((next as int, Some(stream@))),
            Ok((next, None)) => Ok((next as int, None)),
            Err(error) => Err(error@),
        }) == token_at(bytes@, cursor as int),
        result matches Ok((next, stream)) ==> cursor < next <= bytes@.len(),
        result matches Ok((_, Some(stream))) ==> stream_fits(stream, bytes@.len()),
{
    let size: usize = bytes.len();
    let byte = bytes[cursor];
    if byte == 0x25 {
        return Ok((skip_line(bytes, cursor), None));
    }
    if byte == 0x28 {
        return match skip_literal_string(bytes, cursor) {
            Err(error) => Err(error),
            Ok(next) => Ok((next, None)),
        };
    }
    if byte == 0x3c && cursor + 1 < size && bytes[cursor + 1] == 0x3c {
        return Ok((cursor + 2, None));
    }
    if byte == 0x3c {
        return match find_byte(bytes, 0x3e, cursor + 1) {
            None => Err(unsafe_pdf_error("PDF 十六进制字符串未闭合，无法验证安全性。")),
            Some(at) => Ok((at + 1, None)),
        };
    }
    if byte == 0x2f {
        return match parse_pdf_name(bytes, cursor) {
            Err(error) => Err(error),
            Ok((name, next)) => {
                if dangerous_name(name.as_slice()) {
                    let mut detail = "PDF 包含会在预览时被禁止的对象：/".to_owned();
                    detail.append(display_pdf_name(name.as_slice()).as_str());
                    detail.append("。");
                    Err(LibraryError::UnsafePreview(detail))
                } else {
                    Ok((next, None))
                }
            },
        };
    }
    if is_pdf_regular(byte) {
        let end = parse_pdf_keyword(bytes, cursor);
        if is_spelled(vstd::slice::slice_subrange(bytes, cursor, end), "stream") {
            return match read_stream(bytes, cursor, end) {
                Err(error) => Err(error),
                Ok(stream) => Ok((stream.data_end + 9, Some(stream))),
            };
        }
        return Ok((end, None));
    }
    Ok((cursor + 1, None))
}

/// A token ends behind the place where it starts.
pub proof fn lemma_token_moves_ahead(bytes: Seq<u8>, cursor: int)
    requires
        0 <= cursor < bytes.len(),
    ensures
        token_at(bytes, cursor) matches Ok((next, stream)) ==> cursor < next <= bytes.len(),
{
    lemma_line_moves_ahead(bytes, cursor);
    lemma_string_moves_ahead(bytes, cursor + 1, 1);
    lemma_byte_found_ahead(bytes, 0x3e, cursor + 1);
    lemma_name_moves_ahead(bytes, cursor + 1, Seq::empty());
    lemma_word_moves_ahead(bytes, cursor);
    lemma_find_meaning(bytes, stream_close(), data_after(bytes, word_end(bytes, cursor)));
}

proof fn lemma_line_moves_ahead(bytes: Seq<u8>, cursor: int)
    requires
        0 <= cursor <= bytes.len(),
    ensures
        cursor <= line_end(bytes, cursor) <= bytes.len(),
        cursor < bytes.len() ==> cursor < line_end(bytes, cursor),
    decreases bytes.len() - cursor,
{
    if cursor < bytes.len() {
        lemma_line_moves_ahead(bytes, cursor + 1);
    }
}

proof fn lemma_byte_found_ahead(bytes: Seq<u8>, byte: u8, from: int)
    requires
        0 <= from,
    ensures
        index_from(bytes, byte, from) matches Some(at) ==> from <= at < bytes.len(),
    decreases bytes.len() - from,
{
    if from < bytes.len() {
        lemma_byte_found_ahead(bytes, byte, from + 1);
    }
}

/// The streams `found` and those from `cursor` on, or why the file is refused.
pub open spec fn streams_from(bytes: Seq<u8>, cursor: int, found: Seq<Span>) -> Result<
    Seq<Span>,
    Failure,
>
    decreases bytes.len() - cursor,
{
    if cursor < 0 || cursor >= bytes.len() {
        Ok(found)
    } else {
        match token_at(bytes, cursor) {
            Err(error) => Err(error),
            Ok((next, stream)) => {
                proof {
                    lemma_token_moves_ahead(bytes, cursor);
                }
                streams_from(
                    bytes,
                    next,
                    match stream {
                        Some(one) => found.push(one),
                        None => found,
                    },
                )
            },
        }
    }
}

/// The streams of a file in which no dangerous name stands, or why it is refused.
pub fn scan_pdf_names(bytes: &[u8]) -> (result: LibraryResult<Vec<PdfStream>>)
    ensures
        (match result {
            Ok(streams) => Ok(spans(streams@)),
            Err(error) => Err(error@),
        }) == streams_from(bytes@, 0, Seq::empty()),
        result matches Ok(streams) ==> forall|i: int|
            0 <= i < streams@.len() ==> stream_fits(#[trigger] streams@[i], bytes@.len()),
{
    let mut streams: Vec<PdfStream> = Vec::new();
    assert(spans(streams@) =~= Seq::empty());
    let mut cursor: usize = 0;
    while cursor < bytes.len()
        invariant
            cursor <= bytes@.len(),
            streams_from(bytes@, cursor as int, spans(streams@)) == streams_from(
                bytes@,
                0,
                Seq::empty(),
            ),
            forall|i: int|
                0 <= i < streams@.len() ==> stream_fits(#[trigger] streams@[i], bytes@.len()),
        decreases bytes@.len() - cursor,
    {
        match read_token(bytes, cursor) {
            Err(error) => {
                return Err(error);
            },
            Ok((next, stream)) => {
                if let Some(one) = stream {
                    let ghost before = spans(streams@);
                    streams.push(one);
                    assert(spans(streams@) =~= before.push(one@));
                }
                cursor = next;
            },
        }
    }
    Ok(streams)
}

// ---- Object streams ----

/// The name stands in the bytes from `cursor` on, but for the case of letters.
pub open spec fn names_from(bytes: Seq<u8>, cursor: int, expected: Seq<char>) -> bool
    decreases bytes.len() - cursor,
{
    if cursor < 0 || cursor >= bytes.len() {
        false
    } else if bytes[cursor] == 0x2f {
        match name_at(bytes, cursor) {
            Ok((name, next)) => {
                proof {
                    lemma_name_moves_ahead(bytes, cursor + 1, Seq::empty());
                }
                spells(name, expected) || names_from(bytes, next, expected)
            },
            Err(_) => names_from(bytes, cursor + 1, expected),
        }
    } else {
        names_from(bytes, cursor + 1, expected)
    }
}

/// Whether the name stands in the bytes, but for the case of letters.
pub fn contains_pdf_name(bytes: &[u8], expected: &str) -> (found: bool)
    ensures
        found == names_from(bytes@, 0, expected@),
{
    let mut cursor: usize = 0;
    while cursor < bytes.len()
        invariant
            cursor <= bytes@.len(),
            names_from(bytes@, cursor as int, expected@) == names_from(bytes@, 0, expected@),
        decreases bytes@.len() - cursor,
    {
        if bytes[cursor] == 0x2f {
            match parse_pdf_name(bytes, cursor) {
                Ok((name, next)) => {
                    if is_spelled(name.as_slice(), expected) {
                        return true;
                    }
                    cursor = next;
                },
                Err(_) => {
                    cursor = cursor + 1;
                },
            }
        } else {
            cursor = cursor + 1;
        }
    }
    false
}

/// The dictionary is that of an object stream.
pub open spec fn object_stream(dictionary: Seq<u8>) -> bool {
    names_from(dictionary, 0, "objstm"@) && names_from(dictionary, 0, "type"@)
}

/// Whether the dictionary is that of an object stream.
pub fn dictionary_is_object_stream(dictionary: &[u8]) -> (found: bool)
    ensures
        found == object_stream(dictionary@),
{
    contains_pdf_name(dictionary, "objstm") && contains_pdf_name(dictionary, "type")
}

/// The content of an object stream, given what its data expand to, or why it is refused.
pub open spec fn object_stream_content(
    dictionary: Seq<u8>,
    expanded: Result<Seq<u8>, Seq<char>>,
) -> Result<Seq<u8>, Failure> {
    if !names_from(dictionary, 0, "flatedecode"@) && !names_from(dictionary, 0, "fl"@) {
        Err(unsafe_pdf("PDF 对象流使用了无法安全解析的编码。"@))
    } else {
        match expanded {
            Err(reason) => Err(unsafe_pdf("无法解压 PDF 对象流："@ + reason)),
            Ok(content) => if content.len() > MAX_OBJECT_STREAM_BYTES {
                Err(unsafe_pdf("PDF 对象流过大，无法安全验证。"@))
            } else {
                Ok(content)
            },
        }
    }
}

/// The content of an object stream, given what its data expand to, or why it is refused.
pub fn accept_object_stream(dictionary: &[u8], expanded: Result<Vec<u8>, String>) -> (result:
    LibraryResult<Vec<u8>>)
    ensures
        outcome(result) == object_stream_content(dictionary@, decoded(expanded)),
{
    if !contains_pdf_name(dictionary, "flatedecode") && !contains_pdf_name(dictionary, "fl") {
        return Err(unsafe_pdf_error("PDF 对象流使用了无法安全解析的编码。"));
    }
    match expanded {
        Err(reason) => {
            let mut detail = "无法解压 PDF 对象流：".to_owned();
            detail.append(reason.as_str());
            Err(LibraryError::UnsafePreview(detail))
        },
        Ok(content) => {
            if content.len() as u64 > MAX_OBJECT_STREAM_BYTES {
                Err(unsafe_pdf_error("PDF 对象流过大，无法安全验证。"))
            } else {
                Ok(content)
            }
        },
    }
}

/// The content of an object stream, or why it is refused.
pub open spec fn decoded_object_stream(dictionary: Seq<u8>, data: Seq<u8>) -> Result<
    Seq<u8>,
    Failure,
> {
    object_stream_content(dictionary, zlib_inflated(data, (MAX_OBJECT_STREAM_BYTES + 1) as u64))
}

/// The content of an object stream, or why it is refused.
fn decode_object_stream(dictionary: &[u8], data: &[u8]) -> (result: LibraryResult<Vec<u8>>)
    ensures
        outcome(result) == decoded_object_stream(dictionary@, data@),
{
    accept_object_stream(dictionary, zlib_inflate(data, MAX_OBJECT_STREAM_BYTES + 1))
}

// ---- A whole file ----

/// No object stream from `at` on holds a dangerous name, or why the file is refused.
pub open spec fn safe_streams(bytes: Seq<u8>, streams: Seq<Span>, at: int) -> Result<(), Failure>
    decreases streams.len() - at,
{
    if at < 0 || at >= streams.len() {
        Ok(())
    } else {
        let stream = streams[at];
        let dictionary = bytes.subrange(stream.dictionary_start, stream.dictionary_end);
        if !object_stream(dictionary) {
            safe_streams(bytes, streams, at + 1)
        } else {
            match decoded_object_stream(
                dictionary,
                bytes.subrange(stream.data_start, stream.data_end),
            ) {
                Err(error) => Err(error),
                Ok(content) => match streams_from(content, 0, Seq::empty()) {
                    Err(error) => Err(error),
                    Ok(_) => safe_streams(bytes, streams, at + 1),
                },
            }
        }
    }
}

/// A PDF file may be previewed, or why not.
pub open spec fn safe_pdf(bytes: Seq<u8>) -> Result<(), Failure> {
    match streams_from(bytes, 0, Seq::empty()) {
        Err(error) => Err(error),
        Ok(streams) => safe_streams(bytes, streams, 0),
    }
}

/// Checks that a PDF file may be previewed.
pub fn ensure_safe_pdf_preview(bytes: &[u8]) -> (result: LibraryResult<()>)
    ensures
        outcome(result) == safe_pdf(bytes@),
{
    let streams = match scan_pdf_names(bytes) {
        Err(error) => {
            return Err(error);
        },
        Ok(streams) => streams,
    };
    let mut i: usize = 0;
    while i < streams.len()
        invariant
            i <= streams@.len(),
            safe_streams(bytes@, spans(streams@), i as int) == safe_pdf(bytes@),
            forall|j: int|
                0 <= j < streams@.len() ==> stream_fits(#[trigger] streams@[j], bytes@.len()),
        decreases streams@.len() - i,
    {
        let stream = streams[i];
        assert(stream_fits(streams@[i as int], bytes@.len()));
        assert(spans(streams@)[i as int] == stream@);
        let dictionary = vstd::slice::slice_subrange(
            bytes,
            stream.dictionary_start,
            stream.dictionary_end,
        );
        if dictionary_is_object_stream(dictionary) {
            let data = vstd::slice::slice_subrange(bytes, stream.data_start, stream.data_end);
            match decode_object_stream(dictionary, data) {
                Err(error) => {
                    return Err(error);
                },
                Ok(content) => {
                    if let Err(error) = scan_pdf_names(content.as_slice()) {
                        return Err(error);
                    }
                },
            }
        }
        i = i + 1;
    }
    Ok(())
}

// ---- Laws ----

/// The names that stand as tokens of their own from `cursor` on: not in comments, strings or the
/// data of streams.
pub open spec fn token_names(bytes: Seq<u8>, cursor: int) -> Seq<Seq<u8>>
    decreases bytes.len() - cursor,
{
    if cursor < 0 || cursor >= bytes.len() {
        Seq::empty()
    } else {
        match token_at(bytes, cursor) {
            Err(_) => Seq::empty(),
            Ok((next, _)) => {
                proof {
                    lemma_token_moves_ahead(bytes, cursor);
                }
                if bytes[cursor] == 0x2f {
                    seq![name_at(bytes, cursor)->Ok_0.0] + token_names(bytes, next)
                } else {
                    token_names(bytes, next)
                }
            },
        }
    }
}

proof fn lemma_scanned_names_are_harmless(bytes: Seq<u8>, cursor: int, found: Seq<Span>)
    requires
        streams_from(bytes, cursor, found) is Ok,
    ensures
        forall|i: int|
            0 <= i < token_names(bytes, cursor).len() ==> !dangerous(
                #[trigger] token_names(bytes, cursor)[i],
            ),
    decreases bytes.len() - cursor,
{
    if 0 <= cursor < bytes.len() {
        if let Ok((next, stream)) = token_at(bytes, cursor) {
            lemma_token_moves_ahead(bytes, cursor);
            if next > cursor {
                let more = match stream {
                    Some(one) => found.push(one),
                    None => found,
                };
                lemma_scanned_names_are_harmless(bytes, next, more);
                let rest = token_names(bytes, next);
                let all = token_names(bytes, cursor);
                assert forall|i: int| 0 <= i < all.len() implies !dangerous(#[trigger] all[i]) by {
                    if bytes[cursor] == 0x2f {
                        if i > 0 {
                            assert(all[i] == rest[i - 1]);
                        }
                    }
                }
            }
        }
    }
}

/// A file that may be previewed has no dangerous name outside comments, strings and the data of
/// streams; escapes in names hide none.
pub proof fn accepted_files_hold_no_dangerous_name(bytes: Seq<u8>)
    requires
        safe_pdf(bytes) is Ok,
    ensures
        forall|i: int|
            0 <= i < token_names(bytes, 0).len() ==> !dangerous(#[trigger] token_names(bytes, 0)[i]),
{
    lemma_scanned_names_are_harmless(bytes, 0, Seq::empty());
}

/// Nor has any object stream of such a file: each could be expanded within its limit, and no
/// dangerous name stands in what it expands to.
pub proof fn accepted_object_streams_hold_no_dangerous_name(
    bytes: Seq<u8>,
    streams: Seq<Span>,
    at: int,
    i: int,
)
    requires
        safe_streams(bytes, streams, at) is Ok,
        0 <= at <= i < streams.len(),
        object_stream(
            bytes.subrange(
                streams[i].dictionary_start,
                streams[i].dictionary_end,
            ),
        ),
    ensures
        decoded_object_stream(
            bytes.subrange(
                streams[i].dictionary_start,
                streams[i].dictionary_end,
            ),
            bytes.subrange(streams[i].data_start, streams[i].data_end),
        ) matches Ok(content) && content.len() <= MAX_OBJECT_STREAM_BYTES && forall|j: int|
            0 <= j < token_names(content, 0).len() ==> !dangerous(
                #[trigger] token_names(content, 0)[j],
            ),
    decreases i - at,
{
    if at < i {
        accepted_object_streams_hold_no_dangerous_name(bytes, streams, at + 1, i);
    } else {
        let content = decoded_object_stream(
            bytes.subrange(
                streams[i].dictionary_start,
                streams[i].dictionary_end,
            ),
            bytes.subrange(streams[i].data_start, streams[i].data_end),
        )->Ok_0;
        lemma_scanned_names_are_harmless(content, 0, Seq::empty());
    }
}

/// A name ends with the file, or before white space or a delimiter.
pub open spec fn ends_name(after: Seq<u8>) -> bool {
    after.len() == 0 || pdf_white(after[0]) || pdf_delimiter(after[0])
}

/// The bytes are those of a name that needs no escapes.
pub open spec fn plain_name(name: Seq<u8>) -> bool {
    &&& name.len() > 0
    &&& forall|i: int| 0 <= i < name.len() ==> pdf_regular(#[trigger] name[i]) && name[i] != 0x23
}

/// A hexadecimal digit.
pub open spec fn hex_digit_of(value: int) -> u8 {
    if value < 10 {
        (0x30 + value) as u8
    } else {
        (0x61 + value - 10) as u8
    }
}

/// A name with an escape for each of its bytes.
pub open spec fn escaped_name(name: Seq<u8>) -> Seq<u8>
    decreases name.len(),
{
    if name.len() == 0 {
        Seq::empty()
    } else {
        seq![0x23u8, hex_digit_of(name[0] as int / 16), hex_digit_of(name[0] as int % 16)]
            + escaped_name(name.skip(1))
    }
}

/// A name is read up to its end, but for the case of letters.
pub proof fn names_are_read_to_their_end(before: Seq<u8>, name: Seq<u8>, after: Seq<u8>)
    requires
        plain_name(name),
        ends_name(after),
    ensures
        name_at(before + seq![0x2fu8] + name + after, before.len() as int) == Ok::<
            (Seq<u8>, int),
            Failure,
        >((ascii_lowercase_bytes(name), before.len() as int + 1 + name.len())),
{
    let bytes = before + seq![0x2fu8] + name + after;
    let start = before.len() as int + 1;
    assert(bytes.skip(start) =~= name + after);
    lemma_plain_name(bytes, start, name, after, Seq::empty());
    assert(Seq::<u8>::empty() + ascii_lowercase_bytes(name) =~= ascii_lowercase_bytes(name));
}

proof fn lemma_plain_name(
    bytes: Seq<u8>,
    cursor: int,
    name: Seq<u8>,
    after: Seq<u8>,
    found: Seq<u8>,
)
    requires
        0 <= cursor <= bytes.len(),
        bytes.skip(cursor) == name + after,
        found.len() + name.len() > 0,
        forall|i: int| 0 <= i < name.len() ==> pdf_regular(#[trigger] name[i]) && name[i] != 0x23,
        ends_name(after),
    ensures
        name_from(bytes, cursor, found) == Ok::<(Seq<u8>, int), Failure>(
            (found + ascii_lowercase_bytes(name), cursor + name.len()),
        ),
    decreases name.len(),
{
    assert(bytes.skip(cursor).len() == name.len() + after.len());
    if name.len() == 0 {
        if after.len() > 0 {
            assert(bytes[cursor] == bytes.skip(cursor)[0]);
        }
        assert(found + ascii_lowercase_bytes(name) =~= found);
    } else {
        assert(bytes[cursor] == bytes.skip(cursor)[0]);
        assert(bytes[cursor] == name[0]);
        let rest = name.skip(1);
        let more = found.push(ascii_lower_byte(name[0]));
        assert(bytes.skip(cursor + 1) =~= bytes.skip(cursor).skip(1));
        assert((name + after).skip(1) =~= rest + after);
        lemma_plain_name(bytes, cursor + 1, rest, after, more);
        assert(more + ascii_lowercase_bytes(rest) =~= found + ascii_lowercase_bytes(name));
    }
}

/// Escapes hide nothing: a name that is written with an escape for each byte is read as that name.
pub proof fn escaped_names_are_read(before: Seq<u8>, name: Seq<u8>, after: Seq<u8>)
    requires
        name.len() > 0,
        ends_name(after),
    ensures
        name_at(before + seq![0x2fu8] + escaped_name(name) + after, before.len() as int) == Ok::<
            (Seq<u8>, int),
            Failure,
        >((name, before.len() as int + 1 + 3 * name.len())),
{
    let bytes = before + seq![0x2fu8] + escaped_name(name) + after;
    let start = before.len() as int + 1;
    assert(bytes.skip(start) =~= escaped_name(name) + after);
    lemma_escaped_name(bytes, start, name, after, Seq::empty());
    assert(Seq::<u8>::empty() + name =~= name);
}

proof fn lemma_escaped_name(
    bytes: Seq<u8>,
    cursor: int,
    name: Seq<u8>,
    after: Seq<u8>,
    found: Seq<u8>,
)
    requires
        0 <= cursor <= bytes.len(),
        bytes.skip(cursor) == escaped_name(name) + after,
        found.len() + name.len() > 0,
        ends_name(after),
    ensures
        name_from(bytes, cursor, found) == Ok::<(Seq<u8>, int), Failure>(
            (found + name, cursor + 3 * name.len()),
        ),
    decreases name.len(),
{
    let tail = bytes.skip(cursor);
    assert(tail.len() == escaped_name(name).len() + after.len());
    if name.len() == 0 {
        if after.len() > 0 {
            assert(bytes[cursor] == tail[0]);
        }
        assert(found + name =~= found);
    } else {
        let rest = name.skip(1);
        let high = name[0] as int / 16;
        let low = name[0] as int % 16;
        assert(bytes[cursor] == tail[0] && bytes[cursor + 1] == tail[1] && bytes[cursor + 2]
            == tail[2]);
        assert(tail[0] == 0x23 && tail[1] == hex_digit_of(high) && tail[2] == hex_digit_of(low));
        assert(hex_digit_value(hex_digit_of(high)) == Some(high as u8));
        assert(hex_digit_value(hex_digit_of(low)) == Some(low as u8));
        assert((high * 16 + low) as u8 == name[0]);
        let more = found.push(name[0]);
        assert(bytes.skip(cursor + 3) =~= tail.skip(3));
        assert(tail.skip(3) =~= escaped_name(rest) + after);
        lemma_escaped_name(bytes, cursor + 3, rest, after, more);
        assert(more + rest =~= found + name);
    }
}

/// The names that are refused: those of objects that act on their own, lead outside or carry other
/// files, in whatever case they are written, and no others.
pub proof fn acting_objects_are_dangerous(name: Seq<u8>)
    ensures
        dangerous(name) <==> (spells(name, "openaction"@) || spells(name, "aa"@) || spells(
            name,
            "javascript"@,
        ) || spells(name, "js"@) || spells(name, "launch"@) || spells(name, "uri"@) || spells(
            name,
            "embeddedfile"@,
        ) || spells(name, "richmedia"@) || spells(name, "xfa"@) || spells(name, "gotoR"@) || spells(
            name,
            "gotoE"@,
        ) || spells(name, "submitform"@) || spells(name, "importdata"@) || spells(name, "rendition"@)
            || spells(name, "movie"@) || spells(name, "sound"@) || spells(name, "3d"@) || spells(
            name,
            "encrypt"@,
        )),
        dangerous(ascii_lowercase_bytes(name)) <==> dangerous(name),
{
    let names = dangerous_names();
    assert(names[0] == "openaction"@ && names[1] == "aa"@ && names[2] == "javascript"@);
    assert(names[3] == "js"@ && names[4] == "launch"@ && names[5] == "uri"@);
    assert(names[6] == "embeddedfile"@ && names[7] == "richmedia"@ && names[8] == "xfa"@);
    assert(names[9] == "gotoR"@ && names[10] == "gotoE"@ && names[11] == "submitform"@);
    assert(names[12] == "importdata"@ && names[13] == "rendition"@ && names[14] == "movie"@);
    assert(names[15] == "sound"@ && names[16] == "3d"@ && names[17] == "encrypt"@);
    let lower = ascii_lowercase_bytes(name);
    assert(ascii_lowercase_bytes(lower) =~= lower);
    assert forall|i: int| 0 <= i < names.len() implies spells(lower, #[trigger] names[i]) == spells(
        name,
        names[i],
    ) by {}
}

/// A piece of a file, with a line end behind it.
pub enum PdfPiece {
    Word(Seq<u8>),
    Name(Seq<u8>),
    Comment(Seq<u8>),
    Text(Seq<u8>),
    Hex(Seq<u8>),
    Open,
    Close,
}

/// The piece can be written as it is.
pub open spec fn piece_fits(piece: PdfPiece) -> bool {
    match piece {
        PdfPiece::Word(word) => word.len() > 0 && !spells(word, "stream"@) && forall|i: int|
            0 <= i < word.len() ==> pdf_regular(#[trigger] word[i]),
        PdfPiece::Name(name) => plain_name(name),
        PdfPiece::Comment(comment) => forall|i: int|
            0 <= i < comment.len() ==> #[trigger] comment[i] != 0x0d && comment[i] != 0x0a,
        PdfPiece::Text(text) => forall|i: int|
            0 <= i < text.len() ==> #[trigger] text[i] != 0x28 && text[i] != 0x29 && text[i] != 0x5c,
        PdfPiece::Hex(digits) => forall|i: int|
            0 <= i < digits.len() ==> #[trigger] digits[i] != 0x3c && digits[i] != 0x3e,
        _ => true,
    }
}

/// The bytes of a piece.
pub open spec fn piece_bytes(piece: PdfPiece) -> Seq<u8> {
    match piece {
        PdfPiece::Word(word) => word + seq![0x0au8],
        PdfPiece::Name(name) => seq![0x2fu8] + name + seq![0x0au8],
        PdfPiece::Comment(comment) => seq![0x25u8] + comment + seq![0x0au8],
        PdfPiece::Text(text) => seq![0x28u8] + text + seq![0x29u8, 0x0a],
        PdfPiece::Hex(digits) => seq![0x3cu8] + digits + seq![0x3eu8, 0x0a],
        PdfPiece::Open => seq![0x3cu8, 0x3c, 0x0a],
        PdfPiece::Close => seq![0x3eu8, 0x3e, 0x0a],
    }
}

/// The bytes of a file of these pieces.
pub open spec fn file_bytes(pieces: Seq<PdfPiece>) -> Seq<u8>
    decreases pieces.len(),
{
    if pieces.len() == 0 {
        Seq::empty()
    } else {
        piece_bytes(pieces[0]) + file_bytes(pieces.skip(1))
    }
}

/// The piece is a name that must not occur.
pub open spec fn piece_acts(piece: PdfPiece) -> bool {
    piece matches PdfPiece::Name(name) && dangerous(name)
}

/// A file of words, names, comments, strings and dictionaries may be shown exactly where no name in it is
/// dangerous: what stands in comments and strings does no harm.
pub proof fn files_of_harmless_objects_are_shown(pieces: Seq<PdfPiece>)
    requires
        forall|i: int| 0 <= i < pieces.len() ==> piece_fits(#[trigger] pieces[i]),
    ensures
        safe_pdf(file_bytes(pieces)) is Ok <==> forall|i: int|
            0 <= i < pieces.len() ==> !piece_acts(#[trigger] pieces[i]),
        safe_pdf(file_bytes(pieces)) matches Err(error) ==> error.kind == ErrorKind::UnsafePreview,
{
    let bytes = file_bytes(pieces);
    assert(bytes.skip(0) =~= bytes);
    lemma_pieces(bytes, 0, pieces, Seq::empty());
}

proof fn lemma_pieces(bytes: Seq<u8>, cursor: int, pieces: Seq<PdfPiece>, found: Seq<Span>)
    requires
        0 <= cursor <= bytes.len(),
        bytes.skip(cursor) == file_bytes(pieces),
        forall|i: int| 0 <= i < pieces.len() ==> piece_fits(#[trigger] pieces[i]),
    ensures
        streams_from(bytes, cursor, found) is Ok <==> forall|i: int|
            0 <= i < pieces.len() ==> !piece_acts(#[trigger] pieces[i]),
        streams_from(bytes, cursor, found) matches Ok(streams) ==> streams == found,
        streams_from(bytes, cursor, found) matches Err(error) ==> error.kind
            == ErrorKind::UnsafePreview,
    decreases pieces.len(),
{
    let tail = bytes.skip(cursor);
    if pieces.len() == 0 {
        assert(tail.len() == 0);
    } else {
        let piece = pieces[0];
        let rest = pieces.skip(1);
        let size = piece_bytes(piece).len() as int;
        assert(tail.len() == size + file_bytes(rest).len());
        assert(bytes.subrange(cursor, cursor + size) =~= piece_bytes(piece)) by {
            assert(bytes.subrange(cursor, cursor + size) =~= tail.take(size));
        }
        lemma_piece_is_passed(bytes, cursor, piece, found);
        assert(bytes.skip(cursor + size) =~= tail.skip(size));
        assert(tail.skip(size) =~= file_bytes(rest));
        assert forall|i: int| 0 <= i < rest.len() implies piece_fits(#[trigger] rest[i]) by {
            assert(rest[i] == pieces[i + 1]);
        }
        lemma_pieces(bytes, cursor + size, rest, found);
        if piece_acts(piece) {
            assert(piece_acts(pieces[0]));
        } else {
            assert forall|i: int| 0 <= i < pieces.len() implies piece_acts(#[trigger] pieces[i]) == (i
                > 0 && piece_acts(rest[i - 1])) by {
                if i > 0 {
                    assert(rest[i - 1] == pieces[i]);
                }
            }
            if forall|i: int| 0 <= i < pieces.len() ==> !piece_acts(#[trigger] pieces[i]) {
                assert forall|i: int| 0 <= i < rest.len() implies !piece_acts(#[trigger] rest[i]) by {
                    assert(rest[i] == pieces[i + 1]);
                }
            }
        }
    }
}

proof fn lemma_step(bytes: Seq<u8>, cursor: int, next: int, found: Seq<Span>)
    requires
        0 <= cursor < bytes.len(),
        token_at(bytes, cursor) == Ok::<(int, Option<Span>), Failure>((next, None)),
    ensures
        streams_from(bytes, cursor, found) == streams_from(bytes, next, found),
{
}

proof fn lemma_piece_is_passed(bytes: Seq<u8>, cursor: int, piece: PdfPiece, found: Seq<Span>)
    requires
        0 <= cursor,
        cursor + piece_bytes(piece).len() <= bytes.len(),
        bytes.subrange(cursor, cursor + piece_bytes(piece).len()) == piece_bytes(piece),
        piece_fits(piece),
    ensures
        piece_acts(piece) ==> (streams_from(bytes, cursor, found) matches Err(error) && error.kind
            == ErrorKind::UnsafePreview),
        !piece_acts(piece) ==> streams_from(bytes, cursor, found) == streams_from(
            bytes,
            cursor + piece_bytes(piece).len(),
            found,
        ),
{
    let own = piece_bytes(piece);
    let end = cursor + own.len();
    assert forall|i: int| 0 <= i < own.len() implies #[trigger] own[i] == bytes[cursor + i] by {
        assert(bytes.subrange(cursor, end)[i] == bytes[cursor + i]);
    }
    assert(own[own.len() - 1] == 0x0a);
    assert(bytes[end - 1] == 0x0a);
    assert(bytes[cursor] == own[0]);
    lemma_step(bytes, end - 1, end, found);
    match piece {
        PdfPiece::Word(word) => {
            assert(own[0] == word[0]);
            assert(pdf_regular(word[0]));
            assert forall|i: int| cursor <= i < end - 1 implies pdf_regular(#[trigger] bytes[i]) by {
                assert(own[i - cursor] == word[i - cursor]);
            }
            lemma_word_ends(bytes, cursor, end - 1);
            assert(bytes.subrange(cursor, end - 1) =~= word) by {
                assert forall|i: int| 0 <= i < word.len() implies bytes.subrange(cursor, end - 1)[i]
                    == #[trigger] word[i] by {
                    assert(own[i] == word[i]);
                }
            }
            lemma_step(bytes, cursor, end - 1, found);
        },
        PdfPiece::Name(name) => {
            let after = bytes.skip(end - 1);
            assert(after[0] == 0x0a);
            assert(bytes.skip(cursor + 1) =~= name + after) by {
                assert forall|i: int| 0 <= i < name.len() implies bytes.skip(cursor + 1)[i]
                    == #[trigger] name[i] by {
                    assert(own[i + 1] == name[i]);
                }
            }
            lemma_plain_name(bytes, cursor + 1, name, after, Seq::empty());
            assert(Seq::<u8>::empty() + ascii_lowercase_bytes(name) =~= ascii_lowercase_bytes(name));
            acting_objects_are_dangerous(name);
            if !piece_acts(piece) {
                lemma_step(bytes, cursor, end - 1, found);
            }
        },
        PdfPiece::Comment(comment) => {
            assert forall|i: int| cursor <= i < end - 1 implies #[trigger] bytes[i] != 0x0d
                && bytes[i] != 0x0a by {
                if i > cursor {
                    assert(own[i - cursor] == comment[i - cursor - 1]);
                }
            }
            lemma_line_ends(bytes, cursor, end - 1);
            lemma_step(bytes, cursor, end, found);
        },
        PdfPiece::Text(text) => {
            assert(own[own.len() - 2] == 0x29);
            assert(bytes[end - 2] == 0x29);
            assert forall|i: int| cursor + 1 <= i < end - 2 implies #[trigger] bytes[i] != 0x28
                && bytes[i] != 0x29 && bytes[i] != 0x5c by {
                assert(own[i - cursor] == text[i - cursor - 1]);
            }
            lemma_text_ends(bytes, cursor + 1, end - 2);
            lemma_step(bytes, cursor, end - 1, found);
        },
        PdfPiece::Hex(digits) => {
            assert(own[own.len() - 2] == 0x3e);
            assert(bytes[end - 2] == 0x3e);
            assert forall|i: int| cursor + 1 <= i < end - 2 implies #[trigger] bytes[i] != 0x3e
                && bytes[i] != 0x3c by {
                assert(own[i - cursor] == digits[i - cursor - 1]);
            }
            lemma_hex_ends(bytes, cursor + 1, end - 2);
            lemma_step(bytes, cursor, end - 1, found);
        },
        PdfPiece::Open => {
            assert(bytes[cursor + 1] == own[1]);
            lemma_step(bytes, cursor, end - 1, found);
        },
        PdfPiece::Close => {
            assert(bytes[cursor + 1] == own[1]);
            lemma_step(bytes, cursor, cursor + 1, found);
            lemma_step(bytes, cursor + 1, cursor + 2, found);
        },
    }
}

proof fn lemma_word_ends(bytes: Seq<u8>, cursor: int, end: int)
    requires
        0 <= cursor <= end < bytes.len(),
        !pdf_regular(bytes[end]),
        forall|i: int| cursor <= i < end ==> pdf_regular(#[trigger] bytes[i]),
    ensures
        word_end(bytes, cursor) == end,
    decreases end - cursor,
{
    if cursor < end {
        lemma_word_ends(bytes, cursor + 1, end);
    }
}

proof fn lemma_line_ends(bytes: Seq<u8>, cursor: int, end: int)
    requires
        0 <= cursor <= end < bytes.len(),
        bytes[end] == 0x0a,
        forall|i: int| cursor <= i < end ==> #[trigger] bytes[i] != 0x0d && bytes[i] != 0x0a,
    ensures
        line_end(bytes, cursor) == end + 1,
    decreases end - cursor,
{
    if cursor < end {
        lemma_line_ends(bytes, cursor + 1, end);
    }
}

proof fn lemma_text_ends(bytes: Seq<u8>, cursor: int, end: int)
    requires
        0 <= cursor <= end < bytes.len(),
        bytes[end] == 0x29,
        forall|i: int|
            cursor <= i < end ==> #[trigger] bytes[i] != 0x28 && bytes[i] != 0x29 && bytes[i] != 0x5c,
    ensures
        string_end(bytes, cursor, 1) == Ok::<int, Failure>(end + 1),
    decreases end - cursor,
{
    if cursor < end {
        lemma_text_ends(bytes, cursor + 1, end);
    }
}

proof fn lemma_hex_ends(bytes: Seq<u8>, cursor: int, end: int)
    requires
        0 <= cursor <= end < bytes.len(),
        bytes[end] == 0x3e,
        forall|i: int| cursor <= i < end ==> #[trigger] bytes[i] != 0x3e,
    ensures
        index_from(bytes, 0x3e, cursor) == Some(end),
    decreases end - cursor,
{
    if cursor < end {
        lemma_hex_ends(bytes, cursor + 1, end);
    }
}

/// The word that opens the data of a stream.
pub open spec fn stream_open() -> Seq<u8> {
    seq![0x73u8, 0x74, 0x72, 0x65, 0x61, 0x6d]
}

/// The data of a stream stand between the line end behind its keyword and the first word that closes it.
/// Its dictionary starts at the last opening before the keyword.
pub proof fn streams_hold_their_data(
    before: Seq<u8>,
    line: Seq<u8>,
    data: Seq<u8>,
    rest: Seq<u8>,
    dictionary: int,
)
    requires
        line == seq![0x0au8] || line == seq![0x0du8, 0x0a],
        occurs_at(before, dictionary_mark(), dictionary),
        forall|j: int| dictionary < j ==> !occurs_at(before, dictionary_mark(), j),
        forall|j: int|
            before.len() + 6 + line.len() <= j < before.len() + 6 + line.len() + data.len()
                ==> !occurs_at(
                before + stream_open() + line + data + stream_close() + rest,
                stream_close(),
                j,
            ),
    ensures
        stream_at(
            before + stream_open() + line + data + stream_close() + rest,
            before.len() as int,
        ) == Ok::<Span, Failure>(
            Span {
                dictionary_start: dictionary,
                dictionary_end: before.len() as int,
                data_start: before.len() as int + 6 + line.len(),
                data_end: before.len() as int + 6 + line.len() + data.len(),
            },
        ),
{
    let bytes = before + stream_open() + line + data + stream_close() + rest;
    let start = before.len() as int;
    let data_start = start + 6 + line.len();
    let data_end = data_start + data.len();
    assert forall|i: int| start <= i < start + 6 implies pdf_regular(#[trigger] bytes[i]) by {
        assert(bytes[i] == stream_open()[i - start]);
    }
    assert(bytes[start + 6] == line[0]);
    lemma_word_ends(bytes, start, start + 6);
    assert(line.len() == 2 ==> bytes[start + 7] == line[1]);
    assert(data_after(bytes, start + 6) == data_start);
    assert(bytes.subrange(data_end, data_end + 9) =~= stream_close());
    assert(first_at(bytes, stream_close(), data_start, data_end));
    lemma_find_some(bytes, stream_close(), data_start, data_end);
    assert(bytes.take(start) =~= before);
    lemma_last_occurrence(before, dictionary_mark(), before.len() as int, dictionary);
}

proof fn lemma_last_occurrence(hay: Seq<u8>, needle: Seq<u8>, before: int, at: int)
    requires
        0 <= at <= before,
        occurs_at(hay, needle, at),
        forall|j: int| at < j ==> !occurs_at(hay, needle, j),
    ensures
        rfind_before(hay, needle, before) == Some(at),
    decreases before - at,
{
    if at < before {
        assert(!occurs_at(hay, needle, before));
        lemma_last_occurrence(hay, needle, before - 1, at);
    }
}

/// No slash stands in the piece but that of a name.
pub open spec fn piece_is_clear(piece: PdfPiece) -> bool {
    match piece {
        PdfPiece::Comment(inner) => !inner.contains(0x2f),
        PdfPiece::Text(inner) => !inner.contains(0x2f),
        PdfPiece::Hex(inner) => !inner.contains(0x2f),
        _ => true,
    }
}

/// The piece is this name, but for the case of letters.
pub open spec fn piece_names(piece: PdfPiece, expected: Seq<char>) -> bool {
    piece matches PdfPiece::Name(name) && spells(name, expected)
}

/// A dictionary names what stands in it as a name, but for the case of letters; a word or a part of a
/// longer name does not count.
pub proof fn dictionaries_name_what_stands_in_them(pieces: Seq<PdfPiece>, expected: Seq<char>)
    requires
        forall|i: int|
            0 <= i < pieces.len() ==> piece_fits(#[trigger] pieces[i]) && piece_is_clear(pieces[i]),
    ensures
        names_from(file_bytes(pieces), 0, expected) <==> exists|i: int|
            0 <= i < pieces.len() && piece_names(#[trigger] pieces[i], expected),
{
    let bytes = file_bytes(pieces);
    assert(bytes.skip(0) =~= bytes);
    lemma_names_in_pieces(bytes, 0, pieces, expected);
}

proof fn lemma_names_in_pieces(
    bytes: Seq<u8>,
    cursor: int,
    pieces: Seq<PdfPiece>,
    expected: Seq<char>,
)
    requires
        0 <= cursor <= bytes.len(),
        bytes.skip(cursor) == file_bytes(pieces),
        forall|i: int|
            0 <= i < pieces.len() ==> piece_fits(#[trigger] pieces[i]) && piece_is_clear(pieces[i]),
    ensures
        names_from(bytes, cursor, expected) <==> exists|i: int|
            0 <= i < pieces.len() && piece_names(#[trigger] pieces[i], expected),
    decreases pieces.len(),
{
    let tail = bytes.skip(cursor);
    if pieces.len() == 0 {
        assert(tail.len() == 0);
    } else {
        let piece = pieces[0];
        let rest = pieces.skip(1);
        let own = piece_bytes(piece);
        let size = own.len() as int;
        assert(tail.len() == size + file_bytes(rest).len());
        assert forall|i: int| 0 <= i < size implies #[trigger] own[i] == bytes[cursor + i] by {
            assert(tail[i] == bytes[cursor + i]);
        }
        assert(bytes.skip(cursor + size) =~= tail.skip(size));
        assert(tail.skip(size) =~= file_bytes(rest));
        assert forall|i: int| 0 <= i < rest.len() implies piece_fits(#[trigger] rest[i])
            && piece_is_clear(rest[i]) by {
            assert(rest[i] == pieces[i + 1]);
        }
        lemma_names_in_pieces(bytes, cursor + size, rest, expected);
        lemma_piece_names(bytes, cursor, piece, expected);
        if exists|i: int| 0 <= i < rest.len() && piece_names(#[trigger] rest[i], expected) {
            let i = choose|i: int| 0 <= i < rest.len() && piece_names(#[trigger] rest[i], expected);
            assert(piece_names(pieces[i + 1], expected));
        }
        if exists|i: int| 0 <= i < pieces.len() && piece_names(#[trigger] pieces[i], expected) {
            let i = choose|i: int|
                0 <= i < pieces.len() && piece_names(#[trigger] pieces[i], expected);
            if i > 0 {
                assert(rest[i - 1] == pieces[i]);
            }
        }
    }
}

proof fn lemma_piece_names(bytes: Seq<u8>, cursor: int, piece: PdfPiece, expected: Seq<char>)
    requires
        0 <= cursor,
        cursor + piece_bytes(piece).len() <= bytes.len(),
        forall|i: int|
            0 <= i < piece_bytes(piece).len() ==> #[trigger] piece_bytes(piece)[i] == bytes[cursor
                + i],
        piece_fits(piece),
        piece_is_clear(piece),
    ensures
        names_from(bytes, cursor, expected) == (piece_names(piece, expected) || names_from(
            bytes,
            cursor + piece_bytes(piece).len(),
            expected,
        )),
{
    let own = piece_bytes(piece);
    let end = cursor + own.len();
    match piece {
        PdfPiece::Name(name) => {
            let after = bytes.skip(end - 1);
            assert(own[own.len() - 1] == 0x0a);
            assert(own[0] == 0x2f);
            assert(bytes[cursor + 0] == 0x2f);
            assert(bytes[end - 1] == 0x0a);
            assert(after[0] == 0x0a);
            assert(bytes.skip(cursor + 1) =~= name + after) by {
                assert forall|i: int| 0 <= i < name.len() implies bytes.skip(cursor + 1)[i]
                    == #[trigger] name[i] by {
                    assert(own[i + 1] == name[i]);
                }
            }
            lemma_plain_name(bytes, cursor + 1, name, after, Seq::empty());
            let lower = ascii_lowercase_bytes(name);
            assert(Seq::<u8>::empty() + lower =~= lower);
            assert(ascii_lowercase_bytes(lower) =~= lower);
            lemma_slashes_are_passed(bytes, end - 1, end, expected);
        },
        _ => {
            assert forall|i: int| cursor <= i < end implies #[trigger] bytes[i] != 0x2f by {
                let k = i - cursor;
                assert(own[k] == bytes[cursor + k]);
                match piece {
                    PdfPiece::Word(word) => {
                        if k < word.len() {
                            assert(own[k] == word[k]);
                            assert(pdf_regular(word[k]));
                        }
                    },
                    PdfPiece::Comment(inner) => {
                        if 0 < k <= inner.len() {
                            assert(own[k] == inner[k - 1]);
                        }
                    },
                    PdfPiece::Text(inner) => {
                        if 0 < k <= inner.len() {
                            assert(own[k] == inner[k - 1]);
                        }
                    },
                    PdfPiece::Hex(inner) => {
                        if 0 < k <= inner.len() {
                            assert(own[k] == inner[k - 1]);
                        }
                    },
                    _ => {},
                }
            }
            lemma_slashes_are_passed(bytes, cursor, end, expected);
        },
    }
}

proof fn lemma_slashes_are_passed(bytes: Seq<u8>, cursor: int, end: int, expected: Seq<char>)
    requires
        0 <= cursor <= end <= bytes.len(),
        forall|i: int| cursor <= i < end ==> #[trigger] bytes[i] != 0x2f,
    ensures
        names_from(bytes, cursor, expected) == names_from(bytes, end, expected),
    decreases end - cursor,
{
    if cursor < end {
        assert(bytes[cursor] != 0x2f);
        lemma_slashes_are_passed(bytes, cursor + 1, end, expected);
    }
}

/// An object stream is one whose dictionary names both its kind and that it has one. It is looked into
/// where it is compressed in the known way and expands within its limit; otherwise the file is refused.
pub proof fn object_streams_are_looked_into(
    dictionary: Seq<u8>,
    expanded: Result<Seq<u8>, Seq<char>>,
)
    ensures
        object_stream(dictionary) <==> names_from(dictionary, 0, "objstm"@) && names_from(
            dictionary,
            0,
            "type"@,
        ),
        object_stream_content(dictionary, expanded) is Ok <==> (names_from(
            dictionary,
            0,
            "flatedecode"@,
        ) || names_from(dictionary, 0, "fl"@)) && (expanded matches Ok(content) && content.len()
            <= MAX_OBJECT_STREAM_BYTES),
        object_stream_content(dictionary, expanded) matches Ok(content) ==> expanded == Ok::<
            Seq<u8>,
            Seq<char>,
        >(content),
        object_stream_content(dictionary, expanded) matches Err(error) ==> error.kind
            == ErrorKind::UnsafePreview,
{
}

/// A file may be shown exactly where each of its object streams can be looked into and holds nothing that
/// is refused; its other streams are not looked into.
pub proof fn streams_are_safe_one_by_one(bytes: Seq<u8>, streams: Seq<Span>, at: int)
    requires
        0 <= at <= streams.len(),
    ensures
        safe_streams(bytes, streams, at) is Ok <==> forall|i: int|
            at <= i < streams.len() ==> stream_is_safe(bytes, #[trigger] streams[i]),
    decreases streams.len() - at,
{
    if at < streams.len() {
        streams_are_safe_one_by_one(bytes, streams, at + 1);
        assert(stream_is_safe(bytes, streams[at]) || !stream_is_safe(bytes, streams[at]));
        if safe_streams(bytes, streams, at) is Ok {
            assert forall|i: int| at <= i < streams.len() implies stream_is_safe(
                bytes,
                #[trigger] streams[i],
            ) by {}
        }
    }
}

/// The stream holds no objects, or only such as may be shown.
pub open spec fn stream_is_safe(bytes: Seq<u8>, stream: Span) -> bool {
    object_stream(bytes.subrange(stream.dictionary_start, stream.dictionary_end)) ==> (
    decoded_object_stream(
        bytes.subrange(stream.dictionary_start, stream.dictionary_end),
        bytes.subrange(stream.data_start, stream.data_end),
    ) matches Ok(content) && streams_from(content, 0, Seq::empty()) is Ok)
}

} // verus!
