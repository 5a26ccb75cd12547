//! Pictures: their sizes, the links that carry them, and the names under which small pictures of
//! documents are kept.

use base64::engine::general_purpose::STANDARD;
use base64::Engine;
use vstd::prelude::*;
use crate::bytes::bytes_at;
use crate::error::{failure, ErrorKind, Failure, LibraryError, LibraryResult};
use crate::text::{
    chars, ends_with, has_prefix, has_suffix, occurs_at, same, starts_with, text_between,
};

verus! {

// ---- Sizes ----

/// The number in two bytes, the high byte first.
pub open spec fn be16(bytes: Seq<u8>, at: int) -> nat {
    (bytes[at] * 256 + bytes[at + 1]) as nat
}

/// The number in four bytes, the high byte first.
pub open spec fn be32(bytes: Seq<u8>, at: int) -> nat {
    be16(bytes, at) * 0x1_0000 + be16(bytes, at + 2)
}

/// The bytes that a PNG file starts with.
pub open spec fn png_signature() -> Seq<u8> {
    seq![0x89u8, 0x50, 0x4e, 0x47, 0x0d, 0x0a, 0x1a, 0x0a]
}

/// The kind of the first block of a PNG file.
pub open spec fn png_header_kind() -> Seq<u8> {
    seq![0x49u8, 0x48, 0x44, 0x52]
}

/// Width and height, where both are more than zero.
pub open spec fn size_of(width: nat, height: nat) -> Option<(nat, nat)> {
    if width > 0 && height > 0 {
        Some((width, height))
    } else {
        None
    }
}

/// Width and height of a PNG picture, as its first block tells them.
pub open spec fn png_size(bytes: Seq<u8>) -> Option<(nat, nat)> {
    if starts_with(bytes, png_signature()) && bytes.len() >= 24 && occurs_at(
        bytes,
        png_header_kind(),
        12,
    ) {
        size_of(be32(bytes, 16), be32(bytes, 20))
    } else {
        None
    }
}

/// A marker of a JPEG file that stands alone, without a segment.
pub open spec fn lone_marker(marker: u8) -> bool {
    marker == 0x01 || 0xd0 <= marker <= 0xd7
}

/// A marker whose segment tells width and height.
pub open spec fn frame_marker(marker: u8) -> bool {
    0xc0 <= marker <= 0xcf && marker != 0xc4 && marker != 0xc8 && marker != 0xcc
}

/// The first position from `at` on that holds no filling byte.
pub open spec fn after_fill(bytes: Seq<u8>, at: int) -> int
    decreases bytes.len() - at,
{
    if 0 <= at < bytes.len() && bytes[at] == 0xff {
        after_fill(bytes, at + 1)
    } else {
        at
    }
}

/// The filling bytes end behind where they start.
pub proof fn lemma_fill_ends(bytes: Seq<u8>, at: int)
    requires
        0 <= at <= bytes.len(),
    ensures
        at <= after_fill(bytes, at) <= bytes.len(),
        at < bytes.len() && bytes[at] == 0xff ==> at < after_fill(bytes, at),
    decreases bytes.len() - at,
{
    if at < bytes.len() && bytes[at] == 0xff {
        lemma_fill_ends(bytes, at + 1);
    }
}

/// Width and height that the segments of a JPEG file from `cursor` on tell.
pub open spec fn jpeg_size_from(bytes: Seq<u8>, cursor: int) -> Option<(nat, nat)>
    decreases bytes.len() - cursor,
{
    if cursor < 0 || cursor + 4 > bytes.len() {
        None
    } else if bytes[cursor] != 0xff {
        jpeg_size_from(bytes, cursor + 1)
    } else {
        proof {
            lemma_fill_ends(bytes, cursor);
        }
        let at = after_fill(bytes, cursor);
        let next = at + 1;
        if at >= bytes.len() || bytes[at] == 0xd9 || bytes[at] == 0xda {
            None
        } else if lone_marker(bytes[at]) {
            jpeg_size_from(bytes, next)
        } else if next + 2 > bytes.len() {
            None
        } else {
            let length = be16(bytes, next);
            if length < 2 || next + length > bytes.len() {
                None
            } else if frame_marker(bytes[at]) {
                if length < 7 {
                    None
                } else {
                    size_of(be16(bytes, next + 5), be16(bytes, next + 3))
                }
            } else {
                jpeg_size_from(bytes, next + length)
            }
        }
    }
}

/// Width and height of a PNG or JPEG picture.
pub open spec fn picture_size(bytes: Seq<u8>) -> Option<(nat, nat)> {
    if starts_with(bytes, png_signature()) {
        png_size(bytes)
    } else if bytes.len() >= 2 && bytes[0] == 0xff && bytes[1] == 0xd8 {
        jpeg_size_from(bytes, 2)
    } else {
        None
    }
}

/// A picture that can stand for a document: neither tiny nor huge, and at most twice as high and
/// three times as wide as the other side.
pub open spec fn fit_thumbnail(bytes: Seq<u8>) -> bool {
    match picture_size(bytes) {
        None => false,
        Some((width, height)) => 160 <= width <= 4096 && 90 <= height <= 4096 && height <= 2 * width
            && width <= 3 * height,
    }
}

/// Width and height by views.
pub open spec fn size_view(size: Option<(u32, u32)>) -> Option<(nat, nat)> {
    match size {
        Some((width, height)) => Some((width as nat, height as nat)),
        None => None,
    }
}

fn read_be16(bytes: &[u8], at: usize) -> (value: u32)
    requires
        at + 2 <= bytes@.len(),
    ensures
        value == be16(bytes@, at as int),
        value < 0x1_0000,
{
    bytes[at] as u32 * 256 + bytes[at + 1] as u32
}

fn positive_size(width: u32, height: u32) -> (size: Option<(u32, u32)>)
    ensures
        size_view(size) == size_of(width as nat, height as nat),
{
    if width > 0 && height > 0 {
        Some((width, height))
    } else {
        None
    }
}

/// Whether a file starts as a PNG file does.
fn has_png_signature(bytes: &[u8]) -> (found: bool)
    ensures
        found == starts_with(bytes@, png_signature()),
{
    let signature: [u8; 8] = [0x89, 0x50, 0x4e, 0x47, 0x0d, 0x0a, 0x1a, 0x0a];
    assert(signature@ =~= png_signature());
    bytes_at(bytes, vstd::array::array_as_slice(&signature), 0)
}

/// Width and height of a PNG picture.
fn png_dimensions(bytes: &[u8]) -> (size: Option<(u32, u32)>)
    ensures
        size_view(size) == png_size(bytes@),
{
    let kind: [u8; 4] = [0x49, 0x48, 0x44, 0x52];
    assert(kind@ =~= png_header_kind());
    if bytes.len() < 24 || !has_png_signature(bytes) || !bytes_at(
        bytes,
        vstd::array::array_as_slice(&kind),
        12,
    ) {
        return None;
    }
    let width: u32 = read_be16(bytes, 16) * 0x1_0000 + read_be16(bytes, 18);
    let height: u32 = read_be16(bytes, 20) * 0x1_0000 + read_be16(bytes, 22);
    positive_size(width, height)
}

/// Whether the bytes are a PNG picture with a size.
pub fn is_png(bytes: &[u8]) -> (found: bool)
    ensures
        found == (png_size(bytes@) is Some),
{
    png_dimensions(bytes).is_some()
}

/// Width and height of a JPEG picture.
pub fn jpeg_dimensions(bytes: &[u8]) -> (size: Option<(u32, u32)>)
    ensures
        size_view(size) == (if bytes@.len() >= 2 && bytes@[0] == 0xff && bytes@[1] == 0xd8 {
            jpeg_size_from(bytes@, 2)
        } else {
            None
        }),
{
    let total: usize = bytes.len();
    if total < 2 || bytes[0] != 0xff || bytes[1] != 0xd8 {
        return None;
    }
    let mut cursor: usize = 2;
    while total - cursor >= 4
        invariant
            2 <= cursor <= total,
            total == bytes@.len(),
            bytes@[0] == 0xff && bytes@[1] == 0xd8,
            jpeg_size_from(bytes@, cursor as int) == jpeg_size_from(bytes@, 2),
        decreases total - cursor,
    {
        if bytes[cursor] != 0xff {
            cursor = cursor + 1;
        } else {
            let mut at: usize = cursor;
            proof {
                lemma_fill_ends(bytes@, cursor as int);
            }
            while at < total && bytes[at] == 0xff
                invariant
                    cursor <= at <= total,
                    total == bytes@.len(),
                    after_fill(bytes@, at as int) == after_fill(bytes@, cursor as int),
                decreases total - at,
            {
                at = at + 1;
            }
            if at >= total {
                return None;
            }
            let marker: u8 = bytes[at];
            let next: usize = at + 1;
            if marker == 0xd9 || marker == 0xda {
                return None;
            }
            if marker == 0x01 || (0xd0 <= marker && marker <= 0xd7) {
                cursor = next;
            } else {
                if total - next < 2 {
                    return None;
                }
                let length: usize = read_be16(bytes, next) as usize;
                if length < 2 || length > total - next {
                    return None;
                }
                if 0xc0 <= marker && marker <= 0xcf && marker != 0xc4 && marker != 0xc8 && marker
                    != 0xcc {
                    if length < 7 {
                        return None;
                    }
                    let height: u32 = read_be16(bytes, next + 3);
                    let width: u32 = read_be16(bytes, next + 5);
                    return positive_size(width, height);
                }
                cursor = next + length;
            }
        }
    }
    None
}

/// Width and height of a PNG or JPEG picture.
pub fn image_dimensions(bytes: &[u8]) -> (size: Option<(u32, u32)>)
    ensures
        size_view(size) == picture_size(bytes@),
{
    if has_png_signature(bytes) {
        png_dimensions(bytes)
    } else {
        jpeg_dimensions(bytes)
    }
}

/// Whether a picture can stand for a document.
pub fn is_supported_thumbnail_image(bytes: &[u8]) -> (found: bool)
    ensures
        found == fit_thumbnail(bytes@),
{
    match image_dimensions(bytes) {
        None => false,
        Some((width, height)) => 160 <= width && width <= 4096 && 90 <= height && height <= 4096
            && height <= 2 * width && width <= 3 * height,
    }
}

// ---- Links that carry data ----

/// The character that stands for six bits.
pub open spec fn base64_char(bits: int) -> char {
    if bits < 26 {
        (0x41 + bits) as char
    } else if bits < 52 {
        (0x61 + bits - 26) as char
    } else if bits < 62 {
        (0x30 + bits - 52) as char
    } else if bits == 62 {
        '+'
    } else {
        '/'
    }
}

/// The text that base64 makes of bytes: four characters for each three of them, the last four padded.
pub open spec fn base64_text(bytes: Seq<u8>) -> Seq<char>
    decreases bytes.len(),
{
    if bytes.len() == 0 {
        Seq::empty()
    } else if bytes.len() == 1 {
        seq![base64_char(bytes[0] as int / 4), base64_char(bytes[0] % 4 * 16), '=', '=']
    } else if bytes.len() == 2 {
        seq![
            base64_char(bytes[0] as int / 4),
            base64_char(bytes[0] % 4 * 16 + bytes[1] / 16),
            base64_char(bytes[1] % 16 * 4),
            '=',
        ]
    } else {
        seq![
            base64_char(bytes[0] as int / 4),
            base64_char(bytes[0] % 4 * 16 + bytes[1] / 16),
            base64_char(bytes[1] % 16 * 4 + bytes[2] / 64),
            base64_char(bytes[2] as int % 64),
        ] + base64_text(bytes.skip(3))
    }
}

/// The bytes that a base64 text holds, where it is one.
pub open spec fn base64_bytes(text: Seq<char>) -> Option<Seq<u8>> {
    if exists|bytes: Seq<u8>| base64_text(bytes) == text {
        Some(choose|bytes: Seq<u8>| base64_text(bytes) == text)
    } else {
        None
    }
}

/// `base64::Engine::encode` of the standard alphabet with padding.
#[verifier::external_body]
fn base64_encode(bytes: &[u8]) -> (text: String)
    ensures
        text@ == base64_text(bytes@),
{
    STANDARD.encode(bytes)
}

/// `base64::Engine::decode` of the standard alphabet with padding: takes exactly the texts that
/// encoding gives (no other padding, no bits left over), and gives back what was encoded.
#[verifier::external_body]
fn base64_decode(text: &str) -> (bytes: Option<Vec<u8>>)
    ensures
        match bytes {
            Some(bytes) => base64_text(bytes@) == text@,
            None => forall|other: Seq<u8>| base64_text(other) != text@,
        },
{
    STANDARD.decode(text).ok()
}

/// Different bits have different characters, and none is the padding.
proof fn lemma_base64_chars_differ(left: int, right: int)
    requires
        0 <= left < 64,
        0 <= right < 64,
    ensures
        base64_char(left) == base64_char(right) ==> left == right,
        base64_char(left) != '=',
{
}

/// Different bytes have different texts.
proof fn lemma_base64_texts_differ(left: Seq<u8>, right: Seq<u8>)
    requires
        base64_text(left) == base64_text(right),
    ensures
        left == right,
    decreases left.len(),
{
    let text = base64_text(left);
    let other = base64_text(right);
    if left.len() == 0 || right.len() == 0 {
        assert(text.len() == other.len());
        assert(left =~= right);
    } else {
        let (a, b) = (left[0], right[0]);
        lemma_base64_chars_differ(a as int / 4, b as int / 4);
        assert(text[0] == other[0]);
        let a1: int = if left.len() > 1 { left[1] as int } else { 0 };
        let b1: int = if right.len() > 1 { right[1] as int } else { 0 };
        let a2: int = if left.len() > 2 { left[2] as int } else { 0 };
        let b2: int = if right.len() > 2 { right[2] as int } else { 0 };
        assert(text[1] == base64_char(a as int % 4 * 16 + a1 / 16));
        assert(other[1] == base64_char(b as int % 4 * 16 + b1 / 16));
        assert(text[1] == other[1]);
        lemma_base64_chars_differ(a as int % 4 * 16 + a1 / 16, b as int % 4 * 16 + b1 / 16);
        lemma_base64_chars_differ(a1 % 16 * 4 + a2 / 64, b1 % 16 * 4 + b2 / 64);
        lemma_base64_chars_differ(a2 % 64, b2 % 64);
        assert(text[2] == other[2]);
        assert(text[3] == other[3]);
        assert(left.len() > 1 ==> text[2] == base64_char(a1 % 16 * 4 + a2 / 64));
        assert(right.len() > 1 ==> other[2] == base64_char(b1 % 16 * 4 + b2 / 64));
        assert(left.len() > 2 ==> text[3] == base64_char(a2 % 64));
        assert(right.len() > 2 ==> other[3] == base64_char(b2 % 64));
        assert(left.len() > 1 <==> right.len() > 1);
        assert(left.len() > 2 <==> right.len() > 2);
        if left.len() > 2 {
            assert(base64_text(left.skip(3)) =~= text.skip(4));
            assert(base64_text(right.skip(3)) =~= other.skip(4));
            lemma_base64_texts_differ(left.skip(3), right.skip(3));
            assert(left =~= left.take(3) + left.skip(3));
            assert(right =~= right.take(3) + right.skip(3));
            assert(left.take(3) =~= right.take(3));
        } else {
            assert(left =~= right);
        }
    }
}

/// The bytes that a base64 text holds, where it is one.
fn decode_base64(text: &str) -> (bytes: Option<Vec<u8>>)
    ensures
        bytes_view(bytes) == base64_bytes(text@),
{
    let bytes = base64_decode(text);
    proof {
        if bytes is Some {
            base64_texts_read_back(bytes->Some_0@);
        }
    }
    bytes
}

/// Bytes that may be missing, by views.
pub open spec fn bytes_view(bytes: Option<Vec<u8>>) -> Option<Seq<u8>> {
    match bytes {
        Some(bytes) => Some(bytes@),
        None => None,
    }
}

/// The link that carries bytes of a media type.
pub open spec fn link_text(media_type: Seq<char>, encoded: Seq<char>) -> Seq<char> {
    "data:"@ + media_type + ";base64,"@ + encoded
}

/// The link that carries bytes of a media type.
pub fn data_url(media_type: &str, bytes: &[u8]) -> (url: String)
    ensures
        url@ == link_text(media_type@, base64_text(bytes@)),
{
    let mut url = "data:".to_owned();
    url.append(media_type);
    url.append(";base64,");
    url.append(base64_encode(bytes).as_str());
    url
}

/// The size that the picture of a document may have (2 MiB).
pub const MAX_THUMBNAIL_BYTES: usize = 2 * 1024 * 1024;

/// The media type and the base64 text of a link, where it carries a picture.
pub open spec fn picture_link(url: Seq<char>) -> Option<(Seq<char>, Seq<char>)> {
    if starts_with(url, "data:image/jpeg;base64,"@) {
        Some(("image/jpeg"@, url.skip("data:image/jpeg;base64,"@.len() as int)))
    } else if starts_with(url, "data:image/jpg;base64,"@) {
        Some(("image/jpeg"@, url.skip("data:image/jpg;base64,"@.len() as int)))
    } else if starts_with(url, "data:image/png;base64,"@) {
        Some(("image/png"@, url.skip("data:image/png;base64,"@.len() as int)))
    } else {
        None
    }
}

/// The picture that was read from a link, or why it is refused.
pub open spec fn accepted_picture(decoded: Option<Seq<u8>>) -> Result<Seq<u8>, Failure> {
    match decoded {
        None => Err(failure(ErrorKind::Preview, "缩略图图片数据无效。"@)),
        Some(bytes) => if bytes.len() > MAX_THUMBNAIL_BYTES {
            Err(failure(ErrorKind::Preview, "缩略图图片超过 2 MB 限制。"@))
        } else if !fit_thumbnail(bytes) {
            Err(
                failure(
                    ErrorKind::Preview,
                    "缩略图必须是尺寸合理的真实 PNG 或 JPEG 图片，不能使用类型图标。"@,
                ),
            )
        } else {
            Ok(bytes)
        },
    }
}

/// The media type and the picture that a link carries, or why it is refused.
pub open spec fn linked_picture(url: Seq<char>) -> Result<(Seq<char>, Seq<u8>), Failure> {
    match picture_link(url) {
        None => Err(failure(ErrorKind::Preview, "缩略图必须是 PNG 或 JPEG 图片。"@)),
        Some((media_type, encoded)) => match accepted_picture(base64_bytes(encoded)) {
            Err(error) => Err(error),
            Ok(bytes) => Ok((media_type, bytes)),
        },
    }
}

/// The picture that was read from a link, unless it is refused.
pub fn accept_picture(decoded: Option<Vec<u8>>) -> (result: LibraryResult<Vec<u8>>)
    ensures
        crate::error::outcome(result) == accepted_picture(bytes_view(decoded)),
{
    match decoded {
        None => Err(LibraryError::Preview("缩略图图片数据无效。".to_owned())),
        Some(bytes) => {
            if bytes.len() > MAX_THUMBNAIL_BYTES {
                Err(LibraryError::Preview("缩略图图片超过 2 MB 限制。".to_owned()))
            } else if !is_supported_thumbnail_image(bytes.as_slice()) {
                Err(
                    LibraryError::Preview(
                        "缩略图必须是尺寸合理的真实 PNG 或 JPEG 图片，不能使用类型图标。".to_owned(),
                    ),
                )
            } else {
                Ok(bytes)
            }
        },
    }
}

/// The part of a text behind a prefix that it starts with.
fn behind(url: &[char], prefix: &str) -> (rest: Option<String>)
    ensures
        rest is Some <==> starts_with(url@, prefix@),
        rest matches Some(text) ==> text@ == url@.skip(prefix@.len() as int),
{
    if !has_prefix(url, prefix) {
        return None;
    }
    let length: usize = chars(prefix).len();
    let rest = text_between(url, length, url.len());
    assert(rest@ =~= url@.skip(prefix@.len() as int));
    Some(rest)
}

/// The media type and the picture that a link carries.
pub fn decode_validated_thumbnail_data_url(thumbnail_data_url: &str) -> (result: LibraryResult<
    (&'static str, Vec<u8>),
>)
    ensures
        (match result {
            Ok((media_type, bytes)) => Ok((media_type@, bytes@)),
            Err(error) => Err(error@),
        }) == linked_picture(thumbnail_data_url@),
{
    let url = chars(thumbnail_data_url);
    let (media_type, encoded): (&'static str, String) = match behind(
        url.as_slice(),
        "data:image/jpeg;base64,",
    ) {
        Some(encoded) => ("image/jpeg", encoded),
        None => match behind(url.as_slice(), "data:image/jpg;base64,") {
            Some(encoded) => ("image/jpeg", encoded),
            None => match behind(url.as_slice(), "data:image/png;base64,") {
                Some(encoded) => ("image/png", encoded),
                None => {
                    return Err(
                        LibraryError::Preview("缩略图必须是 PNG 或 JPEG 图片。".to_owned()),
                    );
                },
            },
        },
    };
    match accept_picture(decode_base64(encoded.as_str())) {
        Err(error) => Err(error),
        Ok(bytes) => Ok((media_type, bytes)),
    }
}

// ---- Names in the cache ----

/// An ASCII letter or digit.
pub open spec fn ascii_alphanumeric(c: char) -> bool {
    '0' <= c <= '9' || 'a' <= c <= 'z' || 'A' <= c <= 'Z'
}

/// A character that a name in a cache may hold.
pub open spec fn safe_char(c: char, dashes: bool) -> bool {
    ascii_alphanumeric(c) || (dashes && (c == '-' || c == '_'))
}

/// The characters that a name in a cache may hold.
pub open spec fn safe_chars(text: Seq<char>, dashes: bool) -> Seq<char>
    decreases text.len(),
{
    if text.len() == 0 {
        Seq::empty()
    } else if safe_char(text.last(), dashes) {
        safe_chars(text.drop_last(), dashes).push(text.last())
    } else {
        safe_chars(text.drop_last(), dashes)
    }
}

/// At most `most` of the characters that a name in a cache may hold.
pub open spec fn safe_start(text: Seq<char>, dashes: bool, most: nat) -> Seq<char> {
    let all = safe_chars(text, dashes);
    if all.len() > most {
        all.take(most as int)
    } else {
        all
    }
}

/// Longer texts hold the safe characters of their beginnings first.
proof fn lemma_safe_chars_grow(text: Seq<char>, dashes: bool, length: int)
    requires
        0 <= length <= text.len(),
    ensures
        safe_chars(text.take(length), dashes).len() <= safe_chars(text, dashes).len(),
        safe_chars(text, dashes).take(safe_chars(text.take(length), dashes).len() as int)
            == safe_chars(text.take(length), dashes),
    decreases text.len() - length,
{
    if length < text.len() {
        lemma_safe_chars_grow(text, dashes, length + 1);
        let longer = text.take(length + 1);
        assert(longer.drop_last() =~= text.take(length));
        let short = safe_chars(text.take(length), dashes);
        let long = safe_chars(longer, dashes);
        assert(long.take(short.len() as int) =~= short);
        assert(safe_chars(text, dashes).take(short.len() as int) =~= safe_chars(text, dashes).take(
            long.len() as int,
        ).take(short.len() as int));
    } else {
        assert(text.take(length) =~= text);
        assert(safe_chars(text, dashes).take(safe_chars(text, dashes).len() as int) =~= safe_chars(
            text,
            dashes,
        ));
    }
}

/// At most `most` of the characters that a name in a cache may hold.
fn safe_part(value: &str, dashes: bool, most: usize) -> (out: String)
    ensures
        out@ == safe_start(value@, dashes, most as nat),
{
    let text = chars(value);
    let mut out = String::new();
    let mut kept: usize = 0;
    let mut i: usize = 0;
    assert(out@ =~= safe_chars(text@.take(0), dashes));
    while i < text.len() && kept < most
        invariant
            i <= text@.len(),
            kept <= most,
            kept == out@.len(),
            text@ == value@,
            out@ == safe_chars(text@.take(i as int), dashes),
        decreases text@.len() - i,
    {
        assert(text@.take(i + 1).drop_last() =~= text@.take(i as int));
        let c: char = text[i];
        if ('0' <= c && c <= '9') || ('a' <= c && c <= 'z') || ('A' <= c && c <= 'Z') || (dashes && (c
            == '-' || c == '_')) {
            out.push(c);
            kept = kept + 1;
        }
        i = i + 1;
    }
    proof {
        lemma_safe_chars_grow(text@, dashes, i as int);
        assert(text@.take(text@.len() as int) =~= text@);
    }
    out
}

/// The name under which the picture of a version of a document is kept.
pub open spec fn thumbnail_name(
    document_id: Seq<char>,
    version: Seq<char>,
    extension: Seq<char>,
) -> Seq<char> {
    document_id + "-"@ + safe_start(version, false, 64) + "."@ + extension
}

/// The name under which the picture of a version of a document is kept.
pub fn thumbnail_cache_name(document_id: &str, version: &str, extension: &str) -> (name: String)
    ensures
        name@ == thumbnail_name(document_id@, version@, extension@),
{
    let mut name = document_id.to_owned();
    name.append("-");
    name.append(safe_part(version, false, 64).as_str());
    name.append(".");
    name.append(extension);
    name
}

/// The scheme under which the first slides of presentations are drawn.
pub const PPTX_THUMBNAIL_CACHE_SCHEME: &'static str = "first-slide-v2";

/// The version of the picture of a presentation.
pub fn pptx_thumbnail_version(content_version: &str) -> (version: String)
    ensures
        version@ == PPTX_THUMBNAIL_CACHE_SCHEME@ + "-"@ + content_version@,
{
    let mut version = PPTX_THUMBNAIL_CACHE_SCHEME.to_owned();
    version.append("-");
    version.append(content_version);
    version
}

/// The ending of the name of a picture of this media type.
pub fn thumbnail_extension(media_type: &str) -> (extension: &'static str)
    ensures
        extension@ == (if media_type@ == "image/png"@ {
            "png"@
        } else {
            "jpg"@
        }),
{
    if same(media_type, "image/png") {
        "png"
    } else {
        "jpg"
    }
}

/// A file in the cache is a picture of this document.
pub open spec fn pictures_document(name: Seq<char>, document_id: Seq<char>) -> bool {
    starts_with(name, document_id + "-"@) && (ends_with(name, ".png"@) || ends_with(name, ".jpg"@))
}

/// Whether a file in the cache is a picture of this document, and not the one to keep.
pub fn is_thumbnail_to_remove(name: &str, document_id: &str, keep: &Option<String>) -> (found: bool)
    ensures
        found == (pictures_document(name@, document_id@) && crate::text::optional(*keep) != Some(
            name@,
        )),
{
    let kept = match keep {
        Some(keep) => same(keep.as_str(), name),
        None => false,
    };
    let mut prefix = document_id.to_owned();
    prefix.append("-");
    let all = chars(name);
    !kept && has_prefix(all.as_slice(), prefix.as_str()) && (has_suffix(all.as_slice(), ".png")
        || has_suffix(all.as_slice(), ".jpg"))
}

/// A part of a path in the cache of drawn pages.
pub open spec fn cache_component(value: Seq<char>) -> Seq<char> {
    let safe = safe_start(value, true, 80);
    if safe.len() == 0 {
        "unknown"@
    } else {
        safe
    }
}

/// A part of a path in the cache of drawn pages.
pub fn safe_cache_component(value: &str) -> (component: String)
    ensures
        component@ == cache_component(value@),
{
    let safe = safe_part(value, true, 80);
    if chars(safe.as_str()).len() == 0 {
        "unknown".to_owned()
    } else {
        safe
    }
}

// ---- Laws ----

/// A file that is kept for a document under any version is found again as a picture of it.
pub proof fn kept_pictures_are_found(
    document_id: Seq<char>,
    version: Seq<char>,
    extension: Seq<char>,
)
    requires
        extension == "png"@ || extension == "jpg"@,
    ensures
        pictures_document(thumbnail_name(document_id, version, extension), document_id),
{
    reveal_strlit(".png");
    reveal_strlit(".jpg");
    reveal_strlit("png");
    reveal_strlit("jpg");
    reveal_strlit(".");
    let name = thumbnail_name(document_id, version, extension);
    let prefix = document_id + "-"@;
    assert(name.subrange(0, prefix.len() as int) =~= prefix);
    let suffix = "."@ + extension;
    assert(name.subrange(name.len() - suffix.len(), name.len() as int) =~= suffix);
    if extension == "png"@ {
        assert(suffix =~= ".png"@);
    } else {
        assert(suffix =~= ".jpg"@);
    }
}

/// What was written as base64 is read back.
pub proof fn base64_texts_read_back(bytes: Seq<u8>)
    ensures
        base64_bytes(base64_text(bytes)) == Some(bytes),
{
    let text = base64_text(bytes);
    let found = choose|other: Seq<u8>| base64_text(other) == text;
    assert(base64_text(found) == text);
    lemma_base64_texts_differ(found, bytes);
}

/// A picture that may be kept is accepted from the link that carries it.
pub proof fn links_carry_their_pictures(media_type: Seq<char>, bytes: Seq<u8>)
    requires
        media_type == "image/png"@ || media_type == "image/jpeg"@,
        bytes.len() <= MAX_THUMBNAIL_BYTES,
        fit_thumbnail(bytes),
    ensures
        linked_picture(link_text(media_type, base64_text(bytes))) == Ok::<_, Failure>(
            (media_type, bytes),
        ),
{
    reveal_strlit("data:");
    reveal_strlit(";base64,");
    reveal_strlit("image/png");
    reveal_strlit("image/jpeg");
    reveal_strlit("data:image/jpeg;base64,");
    reveal_strlit("data:image/jpg;base64,");
    reveal_strlit("data:image/png;base64,");
    base64_texts_read_back(bytes);
    let encoded = base64_text(bytes);
    let url = link_text(media_type, encoded);
    if media_type == "image/jpeg"@ {
        let prefix = "data:image/jpeg;base64,"@;
        assert("data:"@ + media_type + ";base64,"@ =~= prefix);
        assert(url.subrange(0, prefix.len() as int) =~= prefix);
        assert(url.skip(prefix.len() as int) =~= encoded);
    } else {
        let prefix = "data:image/png;base64,"@;
        assert("data:"@ + media_type + ";base64,"@ =~= prefix);
        assert(url.subrange(0, prefix.len() as int) =~= prefix);
        assert(url.skip(prefix.len() as int) =~= encoded);
        assert(url[11] == 'p');
        assert(url[12] == 'n');
    }
}

/// A part of a path in the cache is never empty, has at most 80 characters and holds no separator:
/// only ASCII letters, digits, hyphens and underscores.
pub proof fn cache_components_are_safe(value: Seq<char>)
    ensures
        0 < cache_component(value).len() <= 80,
        forall|i: int|
            0 <= i < cache_component(value).len() ==> safe_char(#[trigger] cache_component(value)[i], true),
{
    reveal_strlit("unknown");
    lemma_safe_chars_are_safe(value, true);
    let all = safe_chars(value, true);
    assert forall|i: int| 0 <= i < cache_component(value).len() implies safe_char(
        #[trigger] cache_component(value)[i],
        true,
    ) by {
        if safe_start(value, true, 80).len() > 0 {
            assert(cache_component(value)[i] == all[i]);
        }
    }
}

/// Only safe characters are kept.
proof fn lemma_safe_chars_are_safe(text: Seq<char>, dashes: bool)
    ensures
        forall|i: int|
            0 <= i < safe_chars(text, dashes).len() ==> safe_char(
                #[trigger] safe_chars(text, dashes)[i],
                dashes,
            ),
    decreases text.len(),
{
    if text.len() > 0 {
        lemma_safe_chars_are_safe(text.drop_last(), dashes);
        let shorter = safe_chars(text.drop_last(), dashes);
        assert forall|i: int| 0 <= i < safe_chars(text, dashes).len() implies safe_char(
            #[trigger] safe_chars(text, dashes)[i],
            dashes,
        ) by {
            if i < shorter.len() {
                assert(safe_chars(text, dashes)[i] == shorter[i]);
            }
        }
    }
}

/// A number in two bytes, the high byte first.
pub open spec fn two_bytes(n: u16) -> Seq<u8> {
    seq![(n / 256) as u8, (n % 256) as u8]
}

/// A number in four bytes, the high byte first.
pub open spec fn four_bytes(n: u32) -> Seq<u8> {
    seq![
        (n / 0x100_0000) as u8,
        (n / 0x1_0000 % 256) as u8,
        (n / 256 % 256) as u8,
        (n % 256) as u8,
    ]
}

/// A PNG picture has the width and the height that its first block tells, whatever follows.
pub proof fn png_pictures_tell_their_size(length: Seq<u8>, width: u32, height: u32, rest: Seq<u8>)
    requires
        length.len() == 4,
        width > 0,
        height > 0,
    ensures
        picture_size(
            seq![0x89u8, 0x50, 0x4e, 0x47, 0x0d, 0x0a, 0x1a, 0x0a] + length + seq![
                0x49u8,
                0x48,
                0x44,
                0x52,
            ] + four_bytes(width) + four_bytes(height) + rest,
        ) == Some((width as nat, height as nat)),
{
    let bytes = seq![0x89u8, 0x50, 0x4e, 0x47, 0x0d, 0x0a, 0x1a, 0x0a] + length + seq![
        0x49u8,
        0x48,
        0x44,
        0x52,
    ] + four_bytes(width) + four_bytes(height) + rest;
    assert(bytes.subrange(0, 8) =~= png_signature());
    assert(bytes.subrange(12, 16) =~= png_header_kind());
    let w = four_bytes(width);
    let h = four_bytes(height);
    assert(bytes[16] == w[0] && bytes[17] == w[1] && bytes[18] == w[2] && bytes[19] == w[3]);
    assert(bytes[20] == h[0] && bytes[21] == h[1] && bytes[22] == h[2] && bytes[23] == h[3]);
    lemma_four_bytes(width);
    lemma_four_bytes(height);
    assert(be32(bytes, 16) == width);
    assert(be32(bytes, 20) == height);
}

proof fn lemma_four_bytes(n: u32)
    ensures
        (four_bytes(n)[0] * 256 + four_bytes(n)[1]) * 0x1_0000 + four_bytes(n)[2] * 256 + four_bytes(n)[3]
            == n,
{
    let b = four_bytes(n);
    assert(b[0] == n / 0x100_0000);
    assert(b[1] == n / 0x1_0000 % 256);
    assert(b[2] == n / 256 % 256);
    assert(b[3] == n % 256);
}

/// A segment of a JPEG file: its marker and what it holds.
#[verifier::ext_equal]
pub struct Segment {
    pub marker: u8,
    pub held: Seq<u8>,
}

/// The bytes of segments.
pub open spec fn segments_bytes(segments: Seq<Segment>) -> Seq<u8>
    decreases segments.len(),
{
    if segments.len() == 0 {
        Seq::empty()
    } else {
        seq![0xffu8, segments[0].marker] + (two_bytes((segments[0].held.len() + 2) as u16) + (
        segments[0].held + segments_bytes(segments.skip(1))))
    }
}

/// A segment that tells nothing of the size and ends nothing.
pub open spec fn tells_no_size(segment: Segment) -> bool {
    &&& segment.held.len() + 2 <= 0xffff
    &&& segment.marker != 0xff && segment.marker != 0xd9 && segment.marker != 0xda && segment.marker
        != 0x01 && !(0xd0 <= segment.marker <= 0xd7)
    &&& !(0xc0 <= segment.marker <= 0xcf) || segment.marker == 0xc4 || segment.marker == 0xc8
        || segment.marker == 0xcc
}

proof fn lemma_segments_passed(
    bytes: Seq<u8>,
    cursor: int,
    segments: Seq<Segment>,
    frame: Seq<u8>,
    width: u16,
    height: u16,
)
    requires
        0 <= cursor <= bytes.len(),
        bytes.skip(cursor) == segments_bytes(segments) + frame,
        forall|i: int| 0 <= i < segments.len() ==> tells_no_size(#[trigger] segments[i]),
        width > 0,
        height > 0,
        frame.len() >= 10,
        frame[0] == 0xff,
        0xc0 <= frame[1] <= 0xcf,
        frame[1] != 0xc4 && frame[1] != 0xc8 && frame[1] != 0xcc,
        frame[2] * 256 + frame[3] >= 7,
        frame[2] * 256 + frame[3] + 2 <= frame.len(),
        frame[5] * 256 + frame[6] == height,
        frame[7] * 256 + frame[8] == width,
    ensures
        jpeg_size_from(bytes, cursor) == Some((width as nat, height as nat)),
    decreases segments.len(),
{
    let rest = bytes.skip(cursor);
    if segments.len() == 0 {
        assert(rest =~= frame);
        assert(bytes[cursor] == rest[0] && bytes[cursor + 1] == rest[1]);
        assert(bytes[cursor + 2] == rest[2] && bytes[cursor + 3] == rest[3]);
        assert(bytes[cursor + 5] == rest[5] && bytes[cursor + 6] == rest[6]);
        assert(bytes[cursor + 7] == rest[7] && bytes[cursor + 8] == rest[8]);
        assert(after_fill(bytes, cursor + 1) == cursor + 1);
        assert(after_fill(bytes, cursor) == cursor + 1);
    } else {
        let first = segments[0];
        let others = segments.skip(1);
        assert(tells_no_size(segments[0]));
        let length = two_bytes((first.held.len() + 2) as u16);
        let next: int = cursor + 4 + first.held.len();
        assert(rest.len() == 4 + first.held.len() + segments_bytes(others).len() + frame.len());
        assert(rest[0] == 0xff && rest[1] == first.marker && rest[2] == length[0] && rest[3] == length[1]);
        assert(bytes[cursor] == rest[0] && bytes[cursor + 1] == rest[1]);
        assert(bytes[cursor + 2] == rest[2] && bytes[cursor + 3] == rest[3]);
        assert(after_fill(bytes, cursor + 1) == cursor + 1);
        assert(after_fill(bytes, cursor) == cursor + 1);
        assert(be16(bytes, cursor + 2) == first.held.len() + 2);
        assert(bytes.skip(next) =~= rest.skip(4 + first.held.len() as int));
        assert(bytes.skip(next) =~= segments_bytes(others) + frame);
        assert forall|i: int| 0 <= i < others.len() implies tells_no_size(#[trigger] others[i]) by {
            assert(others[i] == segments[i + 1]);
        }
        lemma_segments_passed(bytes, next, others, frame, width, height);
    }
}

/// A JPEG picture has the width and the height that its frame tells, whatever segments come before
/// and whatever follows.
pub proof fn jpeg_pictures_tell_their_size(
    segments: Seq<Segment>,
    marker: u8,
    precision: u8,
    width: u16,
    height: u16,
    held: Seq<u8>,
    rest: Seq<u8>,
)
    requires
        forall|i: int| 0 <= i < segments.len() ==> tells_no_size(#[trigger] segments[i]),
        0xc0 <= marker <= 0xcf,
        marker != 0xc4 && marker != 0xc8 && marker != 0xcc,
        width > 0,
        height > 0,
        held.len() + 7 <= 0xffff,
        held.len() + rest.len() > 0,
    ensures
        picture_size(
            seq![0xffu8, 0xd8] + (segments_bytes(segments) + (seq![0xffu8, marker] + two_bytes(
                (held.len() + 7) as u16,
            ) + seq![precision] + two_bytes(height) + two_bytes(width) + held + rest)),
        ) == Some((width as nat, height as nat)),
{
    let frame = seq![0xffu8, marker] + two_bytes((held.len() + 7) as u16) + seq![precision] + two_bytes(
        height,
    ) + two_bytes(width) + held + rest;
    let bytes = seq![0xffu8, 0xd8] + (segments_bytes(segments) + frame);
    assert(bytes.skip(2) =~= segments_bytes(segments) + frame);
    let length = two_bytes((held.len() + 7) as u16);
    let h = two_bytes(height);
    let w = two_bytes(width);
    assert(frame[2] == length[0] && frame[3] == length[1]);
    assert(frame[5] == h[0] && frame[6] == h[1] && frame[7] == w[0] && frame[8] == w[1]);
    assert(h[0] * 256 + h[1] == height);
    assert(w[0] * 256 + w[1] == width);
    assert(length[0] * 256 + length[1] == held.len() + 7);
    lemma_segments_passed(bytes, 2, segments, frame, width, height);
    assert(bytes[0] == 0xff && bytes[1] == 0xd8);
    if starts_with(bytes, png_signature()) {
        assert(bytes.subrange(0, 8)[0] == bytes[0]);
        assert(png_signature()[0] == 0x89);
    }
}

/// A picture can stand for a document where its sides keep the bounds and neither is much longer than
/// the other.
pub proof fn thumbnails_keep_their_bounds(bytes: Seq<u8>)
    ensures
        fit_thumbnail(bytes) <==> picture_size(bytes) is Some && 160 <= picture_size(bytes)->Some_0.0
            <= 4096 && 90 <= picture_size(bytes)->Some_0.1 <= 4096 && picture_size(bytes)->Some_0.1 <= 2
            * picture_size(bytes)->Some_0.0 && picture_size(bytes)->Some_0.0 <= 3 * picture_size(
            bytes,
        )->Some_0.1,
        accepted_picture(Some(bytes)) is Ok <==> bytes.len() <= MAX_THUMBNAIL_BYTES && fit_thumbnail(
            bytes,
        ),
        accepted_picture(Some(bytes)) matches Ok(kept) ==> kept == bytes,
        accepted_picture(None) is Err,
{
}

} // verus!
