//! Edits on the markup of package parts: writing relationships, taking out references to
//! relationships that are gone, taking out content types of parts that are gone.

use vstd::prelude::*;
use crate::bytes::{bytes_at, copy_between, find_byte, find_bytes_from, push_bytes};
use crate::parts::{ascii_alphanumeric, normalize_part_name, normalized_part_name};
use crate::relations::{
    after_prefix, is_reference_name, links, reference_name, Link, Relationship,
};
use crate::text::{
    chars, contains, find_char, find_chars, find_from, from_utf8_lossy, has_prefix, has_text,
    index_from, last_index, lemma_find_meaning, list_contains, occurs_at, starts_with, text_between, text_of,
    trim_start, utf8_lossy, views,
};

verus! {

// ---- Writing relationships ----

/// A character as it stands in an attribute value.
pub open spec fn escaped_char(c: char) -> Seq<char> {
    if c == '&' {
        "&amp;"@
    } else if c == '"' {
        "&quot;"@
    } else if c == '<' {
        "&lt;"@
    } else if c == '>' {
        "&gt;"@
    } else {
        seq![c]
    }
}

/// A text as it stands in an attribute value.
pub open spec fn escaped(value: Seq<char>) -> Seq<char>
    decreases value.len(),
{
    if value.len() == 0 {
        Seq::empty()
    } else {
        escaped(value.drop_last()) + escaped_char(value.last())
    }
}

/// A text as it stands in an attribute value.
pub fn escape_xml_attribute(value: &str) -> (out: String)
    ensures
        out@ == escaped(value@),
{
    let all = chars(value);
    let mut out = String::new();
    let mut i: usize = 0;
    while i < all.len()
        invariant
            i <= all@.len(),
            all@ == value@,
            out@ == escaped(value@.take(i as int)),
        decreases all@.len() - i,
    {
        assert(value@.take(i + 1).drop_last() =~= value@.take(i as int));
        let ghost before = out@;
        let c = all[i];
        if c == '&' {
            out.append("&amp;");
        } else if c == '"' {
            out.append("&quot;");
        } else if c == '<' {
            out.append("&lt;");
        } else if c == '>' {
            out.append("&gt;");
        } else {
            out.push(c);
            assert(out@ =~= before + seq![c]);
        }
        i = i + 1;
    }
    assert(value@.take(i as int) =~= value@);
    out
}

/// A relationship in markup.
pub open spec fn link_markup(link: Link) -> Seq<char> {
    "<Relationship Id=\""@ + escaped(link.id) + "\" Type=\""@ + escaped(link.relationship_type)
        + "\" Target=\""@ + escaped(link.target) + "\""@ + (if link.external {
        " TargetMode=\"External\""@
    } else {
        Seq::empty()
    }) + "/>"@
}

/// The start of a part that holds relationships.
pub open spec fn links_opening() -> Seq<char> {
    "<?xml version=\"1.0\" encoding=\"UTF-8\"?><Relationships xmlns=\"http://schemas.openxmlformats.org/package/2006/relationships\">"@
}

/// The opening and the relationships in markup.
pub open spec fn links_body(found: Seq<Link>) -> Seq<char>
    decreases found.len(),
{
    if found.len() == 0 {
        links_opening()
    } else {
        links_body(found.drop_last()) + link_markup(found.last())
    }
}

/// The relationships in markup.
pub open spec fn links_markup(found: Seq<Link>) -> Seq<char> {
    links_body(found) + "</Relationships>"@
}

/// The bytes of a text.
pub fn text_bytes(text: &str) -> (bytes: Vec<u8>)
    ensures
        bytes@ == vstd::utf8::encode_utf8(text@),
{
    let all = text.as_bytes();
    let size: usize = all.len();
    let bytes = copy_between(all, 0, size);
    assert(bytes@ =~= all@);
    bytes
}

/// Writes a part that holds these relationships.
pub fn write_relationships(relationships: &[Relationship]) -> (xml: Vec<u8>)
    ensures
        xml@ == vstd::utf8::encode_utf8(links_markup(links(relationships@))),
{
    let ghost all = links(relationships@);
    let mut xml =
        "<?xml version=\"1.0\" encoding=\"UTF-8\"?><Relationships xmlns=\"http://schemas.openxmlformats.org/package/2006/relationships\">".to_owned();
    let mut i: usize = 0;
    while i < relationships.len()
        invariant
            i <= relationships@.len(),
            all == links(relationships@),
            xml@ == links_body(all.take(i as int)),
        decreases relationships@.len() - i,
    {
        assert(all.take(i + 1).drop_last() =~= all.take(i as int));
        let relationship = &relationships[i];
        assert(all.take(i + 1).last() == relationship@);
        let ghost before = xml@;
        xml.append("<Relationship Id=\"");
        xml.append(escape_xml_attribute(relationship.id.as_str()).as_str());
        xml.append("\" Type=\"");
        xml.append(escape_xml_attribute(relationship.relationship_type.as_str()).as_str());
        xml.append("\" Target=\"");
        xml.append(escape_xml_attribute(relationship.target.as_str()).as_str());
        xml.append("\"");
        if relationship.external {
            xml.append(" TargetMode=\"External\"");
        }
        xml.append("/>");
        assert(xml@ =~= before + link_markup(relationship@));
        i = i + 1;
    }
    assert(all.take(i as int) =~= all);
    xml.append("</Relationships>");
    text_bytes(xml.as_str())
}

// ---- The end of a tag ----

/// The position of the `>` that closes a tag, from `at` on; `quote` is the quotation mark that is
/// open there.
pub open spec fn tag_end(bytes: Seq<u8>, at: int, quote: Option<u8>) -> Option<int>
    decreases bytes.len() - at,
{
    if at < 0 || at >= bytes.len() {
        None
    } else {
        match quote {
            None => if bytes[at] == 0x22 || bytes[at] == 0x27 {
                tag_end(bytes, at + 1, Some(bytes[at]))
            } else if bytes[at] == 0x3e {
                Some(at)
            } else {
                tag_end(bytes, at + 1, None)
            },
            Some(open) => if bytes[at] == open {
                tag_end(bytes, at + 1, None)
            } else {
                tag_end(bytes, at + 1, quote)
            },
        }
    }
}

/// The closing `>` stands where the search began, or later.
pub proof fn lemma_tag_end_is_ahead(bytes: Seq<u8>, at: int, quote: Option<u8>)
    ensures
        tag_end(bytes, at, quote) matches Some(end) ==> at <= end < bytes.len(),
    decreases bytes.len() - at,
{
    if 0 <= at < bytes.len() {
        lemma_tag_end_is_ahead(bytes, at + 1, None);
        lemma_tag_end_is_ahead(bytes, at + 1, Some(bytes[at]));
        lemma_tag_end_is_ahead(bytes, at + 1, quote);
    }
}

/// The position of the `>` that closes a tag, from `from` on.
pub fn find_tag_end(bytes: &[u8], from: usize) -> (found: Option<usize>)
    ensures
        found matches Some(end) ==> from <= end < bytes@.len(),
        tag_end(bytes@, from as int, None) == (match found {
            Some(end) => Some(end as int),
            None => None,
        }),
{
    let mut quote: Option<u8> = None;
    let mut i: usize = from;
    while i < bytes.len()
        invariant
            from <= i,
            tag_end(bytes@, i as int, quote) == tag_end(bytes@, from as int, None),
        decreases bytes@.len() - i,
    {
        let byte = bytes[i];
        match quote {
            None => {
                if byte == 0x22 || byte == 0x27 {
                    quote = Some(byte);
                } else if byte == 0x3e {
                    return Some(i);
                }
            },
            Some(open) => {
                if byte == open {
                    quote = None;
                }
            },
        }
        i = i + 1;
    }
    None
}

// ---- References inside a tag ----

/// White space of ASCII.
pub open spec fn ascii_white(c: char) -> bool {
    c == ' ' || c == '\t' || c == '\n' || c == '\r' || c == '\x0c'
}

/// Whether `c` is white space of ASCII.
pub fn is_ascii_white(c: char) -> (found: bool)
    ensures
        found == ascii_white(c),
{
    c == ' ' || c == '\t' || c == '\n' || c == '\r' || c == '\x0c'
}

/// The first white space from `at` on.
pub open spec fn white_from(text: Seq<char>, at: int) -> Option<int>
    decreases text.len() - at,
{
    if at < 0 || at >= text.len() {
        None
    } else if ascii_white(text[at]) {
        Some(at)
    } else {
        white_from(text, at + 1)
    }
}

/// The first position from `at` on that is no white space, or the end.
pub open spec fn past_white(text: Seq<char>, at: int) -> int
    decreases text.len() - at,
{
    if 0 <= at < text.len() && ascii_white(text[at]) {
        past_white(text, at + 1)
    } else {
        at
    }
}

fn find_white(text: &[char], from: usize) -> (found: Option<usize>)
    ensures
        found matches Some(at) ==> from <= at < text@.len(),
        white_from(text@, from as int) == (match found {
            Some(at) => Some(at as int),
            None => None,
        }),
{
    let mut i: usize = from;
    while i < text.len()
        invariant
            from <= i,
            white_from(text@, i as int) == white_from(text@, from as int),
        decreases text@.len() - i,
    {
        if is_ascii_white(text[i]) {
            return Some(i);
        }
        i = i + 1;
    }
    None
}

fn skip_white(text: &[char], from: usize) -> (at: usize)
    requires
        from <= text@.len(),
    ensures
        from <= at <= text@.len(),
        at == past_white(text@, from as int),
{
    let mut i: usize = from;
    while i < text.len() && is_ascii_white(text[i])
        invariant
            from <= i <= text@.len(),
            past_white(text@, i as int) == past_white(text@, from as int),
        decreases text@.len() - i,
    {
        i = i + 1;
    }
    i
}

/// `past_white` moves forward, at most to the end; `white_from` and `index_from` find what is ahead.
pub proof fn lemma_searches_move_ahead(text: Seq<char>, c: char, at: int)
    requires
        0 <= at,
    ensures
        at <= past_white(text, at),
        at <= text.len() ==> past_white(text, at) <= text.len(),
        white_from(text, at) matches Some(found) ==> at <= found < text.len(),
        index_from(text, c, at) matches Some(found) ==> at <= found < text.len(),
    decreases text.len() - at,
{
    if at < text.len() {
        lemma_searches_move_ahead(text, c, at + 1);
    }
}

/// The text of a tag from `cursor` on without the references to the relationships in `removed`.
pub open spec fn tag_without(text: Seq<char>, cursor: int, removed: Seq<Seq<char>>) -> Seq<char>
    decreases text.len() - cursor,
{
    if cursor < 0 || cursor >= text.len() {
        Seq::empty()
    } else {
        match white_from(text, cursor) {
            None => text.skip(cursor),
            Some(space) => {
                let head = text.subrange(cursor, space);
                let start = past_white(text, space);
                if space == text.len() - 1 {
                    head.push(' ')
                } else {
                    match index_from(text, '=', start) {
                        None => head + text.skip(space),
                        Some(equal) => {
                            let value = past_white(text, equal + 1);
                            proof {
                                lemma_searches_move_ahead(text, '=', cursor);
                                lemma_searches_move_ahead(text, '=', space);
                                lemma_searches_move_ahead(text, '=', start);
                                lemma_searches_move_ahead(text, '=', equal + 1);
                                lemma_searches_move_ahead(text, text[value], value + 1);
                            }
                            if value >= text.len() || (text[value] != '"' && text[value] != '\'') {
                                head + text.subrange(space, equal + 1) + tag_without(
                                    text,
                                    equal + 1,
                                    removed,
                                )
                            } else {
                                match index_from(text, text[value], value + 1) {
                                    None => head + text.skip(space),
                                    Some(end) => head + (if is_gone(
                                        text.subrange(start, equal),
                                        text.subrange(value + 1, end),
                                        removed,
                                    ) {
                                        Seq::empty()
                                    } else {
                                        text.subrange(space, end + 1)
                                    }) + tag_without(text, end + 1, removed),
                                }
                            }
                        },
                    }
                }
            },
        }
    }
}

/// The attribute refers to a relationship in `removed`.
pub open spec fn is_gone(name: Seq<char>, value: Seq<char>, removed: Seq<Seq<char>>) -> bool {
    reference_name(after_prefix(name)) && name.contains(':') && removed.contains(value)
}

/// The marks of attributes that can refer to a relationship.
pub open spec fn may_refer(text: Seq<char>) -> bool {
    contains(text, ":id="@) || contains(text, ":embed="@) || contains(text, ":link="@) || contains(
        text,
        ":pict="@,
    ) || contains(text, ":dm="@) || contains(text, ":lo="@)
}

/// A tag, read as `text`, without the references to the relationships in `removed`.
pub open spec fn stripped_tag(tag: Seq<u8>, text: Seq<char>, removed: Seq<Seq<char>>) -> Seq<u8> {
    if may_refer(text) {
        vstd::utf8::encode_utf8(tag_without(text, 0, removed))
    } else {
        tag
    }
}

/// The text of a tag without the references to the relationships in `removed`.
fn strip_tag_text(text: &[char], removed: &Vec<String>) -> (out: Vec<char>)
    ensures
        out@ == tag_without(text@, 0, views(removed@)),
{
    let ghost gone = views(removed@);
    let mut out: Vec<char> = Vec::new();
    let mut cursor: usize = 0;
    let size: usize = text.len();
    while cursor < size
        invariant
            size == text@.len(),
            cursor <= size,
            gone == views(removed@),
            out@ + tag_without(text@, cursor as int, gone) =~= tag_without(text@, 0, gone),
        decreases size - cursor,
    {
        let ghost before = out@;
        let space: usize = match find_white(text, cursor) {
            None => {
                push_slice(&mut out, text, cursor, size);
                assert(text@.subrange(cursor as int, size as int) =~= text@.skip(cursor as int));
                return out;
            },
            Some(space) => space,
        };
        push_slice(&mut out, text, cursor, space);
        if space == size - 1 {
            out.push(' ');
            assert(out@ =~= before + text@.subrange(cursor as int, space as int).push(' '));
            return out;
        }
        let start: usize = skip_white(text, space);
        let equal: usize = match find_char(text, '=', start) {
            None => {
                push_slice(&mut out, text, space, size);
                assert(text@.subrange(space as int, size as int) =~= text@.skip(space as int));
                assert(out@ =~= before + (text@.subrange(cursor as int, space as int) + text@.skip(
                    space as int,
                )));
                return out;
            },
            Some(equal) => equal,
        };
        let value: usize = skip_white(text, equal + 1);
        if value >= size || (text[value] != '"' && text[value] != '\'') {
            push_slice(&mut out, text, space, equal + 1);
            assert(out@ + tag_without(text@, equal + 1, gone) =~= before + (text@.subrange(
                cursor as int,
                space as int,
            ) + text@.subrange(space as int, equal + 1) + tag_without(text@, equal + 1, gone)));
            cursor = equal + 1;
            continue;
        }
        let quote = text[value];
        let end: usize = match find_char(text, quote, value + 1) {
            None => {
                push_slice(&mut out, text, space, size);
                assert(text@.subrange(space as int, size as int) =~= text@.skip(space as int));
                assert(out@ =~= before + (text@.subrange(cursor as int, space as int) + text@.skip(
                    space as int,
                )));
                return out;
            },
            Some(end) => end,
        };
        let name = vstd::slice::slice_subrange(text, start, equal);
        let referred = text_between(text, value + 1, end);
        let has_colon = match find_char(name, ':', 0) {
            Some(_) => true,
            None => false,
        };
        proof {
            lemma_index_is_membership(name@, ':', 0);
        }
        let gone_here = is_reference_name(name) && has_colon && list_contains(
            removed,
            referred.as_str(),
        );
        if !gone_here {
            push_slice(&mut out, text, space, end + 1);
        }
        assert(out@ + tag_without(text@, end + 1, gone) =~= before + (text@.subrange(
            cursor as int,
            space as int,
        ) + (if gone_here {
            Seq::empty()
        } else {
            text@.subrange(space as int, end + 1)
        }) + tag_without(text@, end + 1, gone)));
        cursor = end + 1;
    }
    out
}

proof fn lemma_index_is_membership(text: Seq<char>, c: char, from: int)
    requires
        0 <= from,
    ensures
        index_from(text, c, from) is None ==> forall|i: int| from <= i < text.len() ==> text[i] != c,
        index_from(text, c, from) matches Some(at) ==> from <= at < text.len() && text[at] == c,
    decreases text.len() - from,
{
    if from < text.len() && text[from] != c {
        lemma_index_is_membership(text, c, from + 1);
    }
}

/// Appends the characters `text[from..to]`.
fn push_slice(out: &mut Vec<char>, text: &[char], from: usize, to: usize)
    requires
        from <= to <= text@.len(),
    ensures
        final(out)@ == old(out)@ + text@.subrange(from as int, to as int),
{
    let ghost before = out@;
    let mut i: usize = from;
    while i < to
        invariant
            from <= i <= to <= text@.len(),
            out@ == before + text@.subrange(from as int, i as int),
        decreases to - i,
    {
        out.push(text[i]);
        i = i + 1;
        assert(out@ =~= before + text@.subrange(from as int, i as int));
    }
}

/// A tag, read as `text`, without the references to the relationships in `removed`.
pub fn strip_tag(tag: &[u8], text: &str, removed: &Vec<String>) -> (out: Vec<u8>)
    ensures
        out@ == stripped_tag(tag@, text@, views(removed@)),
{
    let all = chars(text);
    let marked = has_text(all.as_slice(), ":id=") || has_text(all.as_slice(), ":embed=")
        || has_text(all.as_slice(), ":link=") || has_text(all.as_slice(), ":pict=") || has_text(
        all.as_slice(),
        ":dm=",
    ) || has_text(all.as_slice(), ":lo=");
    if !marked {
        let size: usize = tag.len();
        let out = copy_between(tag, 0, size);
        assert(out@ =~= tag@);
        return out;
    }
    let kept = strip_tag_text(all.as_slice(), removed);
    text_bytes(text_of(kept.as_slice()).as_str())
}

/// A tag without the references to the relationships in `removed`.
pub fn strip_relationship_attributes(tag: &[u8], removed: &Vec<String>) -> (out: Vec<u8>)
    ensures
        out@ == stripped_tag(tag@, utf8_lossy(tag@), views(removed@)),
{
    let text = from_utf8_lossy(tag);
    strip_tag(tag, text.as_str(), removed)
}

// ---- References inside a part ----

/// The bytes that open a comment.
pub open spec fn comment_start() -> Seq<u8> {
    seq![0x3cu8, 0x21, 0x2d, 0x2d]
}

/// The bytes that close a comment.
pub open spec fn comment_end() -> Seq<u8> {
    seq![0x2du8, 0x2d, 0x3e]
}

/// The bytes that open character data.
pub open spec fn data_start() -> Seq<u8> {
    seq![0x3cu8, 0x21, 0x5b, 0x43, 0x44, 0x41, 0x54, 0x41, 0x5b]
}

/// The bytes that close character data.
pub open spec fn data_end() -> Seq<u8> {
    seq![0x5du8, 0x5d, 0x3e]
}

/// Where the comment or the character data that opens at `start` ends, where one does.
pub open spec fn verbatim_end(xml: Seq<u8>, start: int) -> Option<int> {
    if occurs_at(xml, comment_start(), start) && find_from(xml, comment_end(), start + 4) is Some {
        Some(find_from(xml, comment_end(), start + 4)->0 + 3)
    } else if occurs_at(xml, data_start(), start) && find_from(xml, data_end(), start + 9) is Some {
        Some(find_from(xml, data_end(), start + 9)->0 + 3)
    } else {
        None
    }
}

/// Comments and character data end after they start.
pub proof fn lemma_verbatim_end_is_ahead(xml: Seq<u8>, start: int)
    requires
        0 <= start,
    ensures
        verbatim_end(xml, start) matches Some(end) ==> start < end <= xml.len(),
{
    lemma_find_meaning(xml, comment_end(), start + 4);
    lemma_find_meaning(xml, data_end(), start + 9);
}

/// The first position of a byte is not before the search began.
pub proof fn lemma_byte_is_ahead(bytes: Seq<u8>, byte: u8, at: int)
    requires
        0 <= at,
    ensures
        index_from(bytes, byte, at) matches Some(found) ==> at <= found < bytes.len(),
    decreases bytes.len() - at,
{
    if at < bytes.len() {
        lemma_byte_is_ahead(bytes, byte, at + 1);
    }
}

/// A part from `cursor` on without the references to the relationships in `removed`. Comments and
/// character data are kept as they are.
pub open spec fn part_without(xml: Seq<u8>, cursor: int, removed: Seq<Seq<char>>) -> Seq<u8>
    decreases xml.len() - cursor,
{
    if cursor < 0 || cursor >= xml.len() {
        Seq::empty()
    } else {
        match index_from(xml, 0x3c, cursor) {
            None => xml.skip(cursor),
            Some(start) => {
                let head = xml.subrange(cursor, start);
                proof {
                    lemma_byte_is_ahead(xml, 0x3c, cursor);
                    lemma_verbatim_end_is_ahead(xml, start);
                    lemma_tag_end_is_ahead(xml, start + 1, None);
                }
                match verbatim_end(xml, start) {
                    Some(end) => head + xml.subrange(start, end) + part_without(xml, end, removed),
                    None => match tag_end(xml, start + 1, None) {
                        None => head + xml.skip(start),
                        Some(end) => head + stripped_tag(
                            xml.subrange(start, end + 1),
                            utf8_lossy(xml.subrange(start, end + 1)),
                            removed,
                        ) + part_without(xml, end + 1, removed),
                    },
                }
            },
        }
    }
}

/// A part without the references to the relationships in `removed`.
pub open spec fn stripped_part(xml: Seq<u8>, removed: Seq<Seq<char>>) -> Seq<u8> {
    if removed.len() == 0 {
        xml
    } else {
        part_without(xml, 0, removed)
    }
}

/// Where the comment or the character data that opens at `start` ends, where one does.
fn find_verbatim_end(xml: &[u8], start: usize) -> (found: Option<usize>)
    requires
        start < xml@.len(),
    ensures
        verbatim_end(xml@, start as int) == (match found {
            Some(end) => Some(end as int),
            None => None,
        }),
        found matches Some(end) ==> start < end <= xml@.len(),
{
    let comment_open: [u8; 4] = [0x3c, 0x21, 0x2d, 0x2d];
    let comment_close: [u8; 3] = [0x2d, 0x2d, 0x3e];
    let data_open: [u8; 9] = [0x3c, 0x21, 0x5b, 0x43, 0x44, 0x41, 0x54, 0x41, 0x5b];
    let data_close: [u8; 3] = [0x5d, 0x5d, 0x3e];
    assert(comment_open@ =~= comment_start());
    assert(comment_close@ =~= comment_end());
    assert(data_open@ =~= data_start());
    assert(data_close@ =~= data_end());
    let size: usize = xml.len();
    if bytes_at(xml, vstd::array::array_as_slice(&comment_open), start) {
        if let Some(at) = find_bytes_from(
            xml,
            vstd::array::array_as_slice(&comment_close),
            start + 4,
        ) {
            return Some(at + 3);
        }
    }
    if bytes_at(xml, vstd::array::array_as_slice(&data_open), start) {
        if let Some(at) = find_bytes_from(
            xml,
            vstd::array::array_as_slice(&data_close),
            start + 9,
        ) {
            return Some(at + 3);
        }
    }
    None
}

/// A part without the references to the relationships in `removed`.
pub fn strip_relationship_references(xml: &[u8], removed: &Vec<String>) -> (out: Vec<u8>)
    ensures
        out@ == stripped_part(xml@, views(removed@)),
{
    let ghost gone = views(removed@);
    let size: usize = xml.len();
    if removed.len() == 0 {
        let out = copy_between(xml, 0, size);
        assert(out@ =~= xml@);
        return out;
    }
    let mut out: Vec<u8> = Vec::new();
    let mut cursor: usize = 0;
    while cursor < size
        invariant
            size == xml@.len(),
            cursor <= size,
            gone == views(removed@),
            removed@.len() > 0,
            out@ + part_without(xml@, cursor as int, gone) =~= part_without(xml@, 0, gone),
        decreases size - cursor,
    {
        let ghost before = out@;
        let start: usize = match find_byte(xml, 0x3c, cursor) {
            None => {
                push_bytes(&mut out, vstd::slice::slice_subrange(xml, cursor, size));
                assert(xml@.subrange(cursor as int, size as int) =~= xml@.skip(cursor as int));
                return out;
            },
            Some(start) => start,
        };
        push_bytes(&mut out, vstd::slice::slice_subrange(xml, cursor, start));
        let ghost head = xml@.subrange(cursor as int, start as int);
        match find_verbatim_end(xml, start) {
            Some(end) => {
                push_bytes(&mut out, vstd::slice::slice_subrange(xml, start, end));
                assert(out@ + part_without(xml@, end as int, gone) =~= before + (head
                    + xml@.subrange(start as int, end as int) + part_without(
                    xml@,
                    end as int,
                    gone,
                )));
                cursor = end;
            },
            None => match find_tag_end(xml, start + 1) {
                None => {
                    push_bytes(&mut out, vstd::slice::slice_subrange(xml, start, size));
                    assert(xml@.subrange(start as int, size as int) =~= xml@.skip(start as int));
                    assert(out@ =~= before + (head + xml@.skip(start as int)));
                    return out;
                },
                Some(end) => {
                    let tag = vstd::slice::slice_subrange(xml, start, end + 1);
                    let kept = strip_relationship_attributes(tag, removed);
                    push_bytes(&mut out, kept.as_slice());
                    assert(out@ + part_without(xml@, end + 1, gone) =~= before + (head
                        + stripped_tag(tag@, utf8_lossy(tag@), gone) + part_without(
                        xml@,
                        end + 1,
                        gone,
                    )));
                    cursor = end + 1;
                },
            },
        }
    }
    out
}

// ---- Content types of parts that are gone ----

/// The value of an attribute that a tag gives with white space behind its name, searched from
/// `from` on.
pub open spec fn spaced_value(tag: Seq<char>, name: Seq<char>, from: int) -> Option<Seq<char>>
    decreases tag.len() - from,
{
    if name.len() == 0 || from < 0 {
        None
    } else {
        match find_from(tag, name, from) {
            None => None,
            Some(start) => {
                let after = start + name.len();
                let value = past_white(tag, after);
                proof {
                    lemma_find_meaning(tag, name, from);
                }
                if (start == 0 || !ascii_alphanumeric(tag[start - 1])) && after < tag.len()
                    && ascii_white(tag[after]) {
                    if value >= tag.len() || tag[value] != '=' {
                        spaced_value(tag, name, after)
                    } else {
                        let opening = past_white(tag, value + 1);
                        if opening >= tag.len() || (tag[opening] != '"' && tag[opening] != '\'') {
                            None
                        } else {
                            match index_from(tag, tag[opening], opening + 1) {
                                None => None,
                                Some(end) => Some(tag.subrange(opening + 1, end)),
                            }
                        }
                    }
                } else {
                    spaced_value(tag, name, after)
                }
            },
        }
    }
}

/// The value of an attribute that a tag gives with white space behind its name.
pub fn extract_attribute(tag: &str, name: &str) -> (value: Option<String>)
    requires
        name@.len() > 0,
    ensures
        (match value {
            Some(text) => Some(text@),
            None => None,
        }) == spaced_value(tag@, name@, 0),
{
    let all = chars(tag);
    let key = chars(name);
    let size: usize = all.len();
    let mut from: usize = 0;
    while from <= size
        invariant
            size == all@.len(),
            all@ == tag@,
            key@ == name@,
            name@.len() > 0,
            from <= size,
            spaced_value(tag@, name@, from as int) == spaced_value(tag@, name@, 0),
        decreases size - from,
    {
        let start: usize = match find_chars(all.as_slice(), key.as_slice(), from) {
            None => {
                return None;
            },
            Some(start) => start,
        };
        let after: usize = start + key.len();
        let free = start == 0 || !is_alphanumeric(all[start - 1]);
        if free && after < size && is_ascii_white(all[after]) {
            let value: usize = skip_white(all.as_slice(), after);
            if value < size && all[value] == '=' {
                let opening: usize = skip_white(all.as_slice(), value + 1);
                if opening >= size || (all[opening] != '"' && all[opening] != '\'') {
                    return None;
                }
                return match find_char(all.as_slice(), all[opening], opening + 1) {
                    None => None,
                    Some(end) => Some(text_between(all.as_slice(), opening + 1, end)),
                };
            }
        }
        from = after;
    }
    None
}

/// Whether `c` is a letter or digit of ASCII.
pub fn is_alphanumeric(c: char) -> (found: bool)
    ensures
        found == ascii_alphanumeric(c),
{
    ('0' <= c && c <= '9') || ('a' <= c && c <= 'z') || ('A' <= c && c <= 'Z')
}

/// The tag, read as `text`, declares the content type of a part that is not in `retained`.
pub open spec fn declares_gone_part(text: Seq<char>, retained: Seq<Seq<char>>) -> bool {
    &&& starts_with(trim_start(text), "<Override"@)
    &&& spaced_value(text, "PartName"@, 0) matches Some(value) && normalized_part_name(
        value,
        "OOXML"@,
    ) matches Ok(part) && !retained.contains(part)
}

/// Whether the tag, read as `text`, declares the content type of a part that is not in `retained`.
pub fn is_gone_override(text: &str, retained: &Vec<String>) -> (gone: bool)
    ensures
        gone == declares_gone_part(text@, views(retained@)),
{
    proof {
        reveal_strlit("PartName");
    }
    let all = chars(text);
    let mut start: usize = 0;
    let size: usize = all.len();
    assert(all@.skip(0) =~= all@);
    while start < size && crate::text::is_white(all[start])
        invariant
            size == all@.len(),
            start <= size,
            trim_start(all@.skip(start as int)) == trim_start(all@),
        decreases size - start,
    {
        assert(all@.skip(start as int).skip(1) =~= all@.skip(start + 1));
        start = start + 1;
    }
    let rest = vstd::slice::slice_subrange(all.as_slice(), start, size);
    assert(rest@ =~= all@.skip(start as int));
    if !has_prefix(rest, "<Override") {
        return false;
    }
    match extract_attribute(text, "PartName") {
        None => false,
        Some(value) => match normalize_part_name(value.as_str(), "OOXML") {
            Err(_) => false,
            Ok(part) => !list_contains(retained, part.as_str()),
        },
    }
}

/// The content types from `cursor` on without those of parts that are not in `retained`.
pub open spec fn types_without(xml: Seq<u8>, cursor: int, retained: Seq<Seq<char>>) -> Seq<u8>
    decreases xml.len() - cursor,
{
    if cursor < 0 || cursor >= xml.len() {
        Seq::empty()
    } else {
        match index_from(xml, 0x3c, cursor) {
            None => xml.skip(cursor),
            Some(start) => {
                let head = xml.subrange(cursor, start);
                proof {
                    lemma_byte_is_ahead(xml, 0x3c, cursor);
                    lemma_tag_end_is_ahead(xml, start + 1, None);
                }
                match tag_end(xml, start + 1, None) {
                    None => head + xml.skip(start),
                    Some(end) => {
                        let tag = xml.subrange(start, end + 1);
                        head + (if declares_gone_part(utf8_lossy(tag), retained) {
                            Seq::empty()
                        } else {
                            tag
                        }) + types_without(xml, end + 1, retained)
                    },
                }
            },
        }
    }
}

/// The content types without those of parts that are not in `retained`.
pub fn remove_content_type_overrides(xml: &[u8], retained: &Vec<String>) -> (out: Vec<u8>)
    ensures
        out@ == types_without(xml@, 0, views(retained@)),
{
    let ghost kept = views(retained@);
    let size: usize = xml.len();
    let mut out: Vec<u8> = Vec::new();
    let mut cursor: usize = 0;
    while cursor < size
        invariant
            size == xml@.len(),
            cursor <= size,
            kept == views(retained@),
            out@ + types_without(xml@, cursor as int, kept) =~= types_without(xml@, 0, kept),
        decreases size - cursor,
    {
        let ghost before = out@;
        let start: usize = match find_byte(xml, 0x3c, cursor) {
            None => {
                push_bytes(&mut out, vstd::slice::slice_subrange(xml, cursor, size));
                assert(xml@.subrange(cursor as int, size as int) =~= xml@.skip(cursor as int));
                return out;
            },
            Some(start) => start,
        };
        push_bytes(&mut out, vstd::slice::slice_subrange(xml, cursor, start));
        let ghost head = xml@.subrange(cursor as int, start as int);
        match find_tag_end(xml, start + 1) {
            None => {
                push_bytes(&mut out, vstd::slice::slice_subrange(xml, start, size));
                assert(xml@.subrange(start as int, size as int) =~= xml@.skip(start as int));
                assert(out@ =~= before + (head + xml@.skip(start as int)));
                return out;
            },
            Some(end) => {
                let tag = vstd::slice::slice_subrange(xml, start, end + 1);
                let text = from_utf8_lossy(tag);
                let gone = is_gone_override(text.as_str(), retained);
                if !gone {
                    push_bytes(&mut out, tag);
                }
                assert(out@ + types_without(xml@, end + 1, kept) =~= before + (head + (if gone {
                    Seq::empty()
                } else {
                    tag@
                }) + types_without(xml@, end + 1, kept)));
                cursor = end + 1;
            },
        }
    }
    out
}

// ---- Laws ----

/// The text that an attribute value stands for.
pub open spec fn unescaped_value(text: Seq<char>) -> Seq<char>
    decreases text.len(),
{
    if text.len() == 0 {
        Seq::empty()
    } else if text.len() >= 5 && starts_with(text, "&amp;"@) {
        seq!['&'] + unescaped_value(text.skip(5))
    } else if text.len() >= 6 && starts_with(text, "&quot;"@) {
        seq!['"'] + unescaped_value(text.skip(6))
    } else if text.len() >= 4 && starts_with(text, "&lt;"@) {
        seq!['<'] + unescaped_value(text.skip(4))
    } else if text.len() >= 4 && starts_with(text, "&gt;"@) {
        seq!['>'] + unescaped_value(text.skip(4))
    } else {
        seq![text[0]] + unescaped_value(text.skip(1))
    }
}

proof fn lemma_escaped_in_turn(first: Seq<char>, second: Seq<char>)
    ensures
        escaped(first + second) == escaped(first) + escaped(second),
    decreases second.len(),
{
    if second.len() == 0 {
        assert(first + second =~= first);
        assert(escaped(first) + escaped(second) =~= escaped(first));
    } else {
        assert((first + second).drop_last() =~= first + second.drop_last());
        lemma_escaped_in_turn(first, second.drop_last());
        assert(escaped(first + second) =~= escaped(first) + escaped(second));
    }
}

proof fn lemma_opens(text: Seq<char>, start: Seq<char>, rest: Seq<char>)
    requires
        text == start + rest,
    ensures
        starts_with(text, start),
        text.skip(start.len() as int) == rest,
{
    assert(text.subrange(0, start.len() as int) =~= start);
    assert(text.skip(start.len() as int) =~= rest);
}

proof fn lemma_opens_not(text: Seq<char>, start: Seq<char>, at: int)
    requires
        0 <= at < start.len(),
        at < text.len(),
        text[at] != start[at],
    ensures
        !starts_with(text, start),
{
    if starts_with(text, start) {
        assert(text.subrange(0, start.len() as int)[at] == text[at]);
    }
}

/// An attribute value holds neither a quotation mark nor a bracket of a tag, and the text can be read
/// back from it.
pub proof fn attribute_values_are_read_back(value: Seq<char>)
    ensures
        unescaped_value(escaped(value)) == value,
        forall|i: int|
            0 <= i < escaped(value).len() ==> (#[trigger] escaped(value)[i]) != '"' && escaped(value)[i]
                != '<' && escaped(value)[i] != '>',
    decreases value.len(),
{
    reveal_strlit("&amp;");
    reveal_strlit("&quot;");
    reveal_strlit("&lt;");
    reveal_strlit("&gt;");
    if value.len() == 0 {
        assert(unescaped_value(escaped(value)) =~= value);
    } else {
        let c = value[0];
        let rest = value.skip(1);
        let first = escaped_char(c);
        let text = escaped(value);
        attribute_values_are_read_back(rest);
        assert(value =~= seq![c] + rest);
        lemma_escaped_in_turn(seq![c], rest);
        assert(seq![c].drop_last() =~= Seq::empty());
        assert(escaped(seq![c]) =~= first) by {
            assert(escaped(Seq::<char>::empty()) =~= Seq::empty());
            assert(escaped(seq![c].drop_last()) =~= Seq::empty());
        }
        assert(text == first + escaped(rest));
        assert forall|i: int| 0 <= i < text.len() implies (#[trigger] text[i]) != '"' && text[i] != '<'
            && text[i] != '>' by {
            if i >= first.len() {
                assert(text[i] == escaped(rest)[i - first.len()]);
            } else {
                assert(text[i] == first[i]);
            }
        }
        lemma_opens(text, first, escaped(rest));
        if c == '&' {
        } else if c == '"' {
            assert(text[1] == 'q');
            lemma_opens_not(text, "&amp;"@, 1);
        } else if c == '<' {
            assert(text[1] == 'l');
            lemma_opens_not(text, "&amp;"@, 1);
            lemma_opens_not(text, "&quot;"@, 1);
        } else if c == '>' {
            assert(text[1] == 'g');
            lemma_opens_not(text, "&amp;"@, 1);
            lemma_opens_not(text, "&quot;"@, 1);
            lemma_opens_not(text, "&lt;"@, 1);
        } else {
            assert(text[0] == c);
            lemma_opens_not(text, "&amp;"@, 0);
            lemma_opens_not(text, "&quot;"@, 0);
            lemma_opens_not(text, "&lt;"@, 0);
            lemma_opens_not(text, "&gt;"@, 0);
        }
        assert(unescaped_value(text) =~= value);
    }
}

/// An attribute of a tag.
#[verifier::ext_equal]
pub struct WrittenAttribute {
    pub name: Seq<char>,
    pub quote: char,
    pub value: Seq<char>,
}

/// The characters of an attribute.
pub open spec fn attribute_text(attribute: WrittenAttribute) -> Seq<char> {
    seq![' '] + attribute.name + seq!['=', attribute.quote] + attribute.value + seq![attribute.quote]
}

/// The characters of attributes.
pub open spec fn attributes_text(attributes: Seq<WrittenAttribute>) -> Seq<char>
    decreases attributes.len(),
{
    if attributes.len() == 0 {
        Seq::empty()
    } else {
        attribute_text(attributes[0]) + attributes_text(attributes.skip(1))
    }
}

/// White space of ASCII.
pub open spec fn is_space(c: char) -> bool {
    c == ' ' || c == '\t' || c == '\n' || c == '\r' || c == '\x0c'
}

/// An attribute is written as one is.
pub open spec fn attribute_written(attribute: WrittenAttribute) -> bool {
    &&& attribute.name.len() > 0
    &&& forall|i: int|
        0 <= i < attribute.name.len() ==> !is_space(#[trigger] attribute.name[i]) && attribute.name[i] != '='
    &&& attribute.quote == '"' || attribute.quote == '\''
    &&& !attribute.value.contains(attribute.quote)
}

/// The attribute refers to one of the relationships: its name has a prefix and is one of those that
/// refer, and its value is the id.
pub open spec fn refers_to(attribute: WrittenAttribute, removed: Seq<Seq<char>>) -> bool {
    &&& removed.contains(attribute.value)
    &&& exists|at: int|
        0 <= at < attribute.name.len() && (#[trigger] attribute.name[at]) == ':' && {
            let name = attribute.name.skip(at + 1);
            !name.contains(':') && (name == "id"@ || name == "embed"@ || name == "link"@ || name
                == "pict"@ || name == "dm"@ || name == "lo"@)
        }
}

/// The attributes that refer to none of the relationships.
pub open spec fn attributes_kept(attributes: Seq<WrittenAttribute>, removed: Seq<Seq<char>>) -> Seq<
    WrittenAttribute,
>
    decreases attributes.len(),
{
    if attributes.len() == 0 {
        Seq::empty()
    } else if refers_to(attributes[0], removed) {
        attributes_kept(attributes.skip(1), removed)
    } else {
        seq![attributes[0]] + attributes_kept(attributes.skip(1), removed)
    }
}

proof fn lemma_white_is_at(text: Seq<char>, from: int, at: int)
    requires
        0 <= from <= at <= text.len(),
        forall|i: int| from <= i < at ==> !ascii_white(#[trigger] text[i]),
        at < text.len() ==> ascii_white(text[at]),
    ensures
        white_from(text, from) == if at < text.len() {
            Some(at)
        } else {
            None
        },
    decreases at - from,
{
    if from < at {
        lemma_white_is_at(text, from + 1, at);
    }
}

proof fn lemma_char_is_at(text: Seq<char>, c: char, from: int, at: int)
    requires
        0 <= from <= at < text.len(),
        text[at] == c,
        forall|i: int| from <= i < at ==> (#[trigger] text[i]) != c,
    ensures
        index_from(text, c, from) == Some(at),
    decreases at - from,
{
    if from < at {
        lemma_char_is_at(text, c, from + 1, at);
    }
}

proof fn lemma_gone_is_referring(attribute: WrittenAttribute, removed: Seq<Seq<char>>)
    ensures
        is_gone(attribute.name, attribute.value, removed) == refers_to(attribute, removed),
{
    let name = attribute.name;
    if name.contains(':') {
        let at = lemma_last_colon(name);
        assert(name[at] == ':');
        assert(after_prefix(name) == name.skip(at + 1));
        let behind = name.skip(at + 1);
        assert(!behind.contains(':')) by {
            assert forall|i: int| 0 <= i < behind.len() implies behind[i] != ':' by {
                assert(behind[i] == name[at + 1 + i]);
            }
        }
        if refers_to(attribute, removed) {
            let k = choose|k: int|
                0 <= k < name.len() && (#[trigger] name[k]) == ':' && {
                    let rest = name.skip(k + 1);
                    !rest.contains(':') && (rest == "id"@ || rest == "embed"@ || rest == "link"@ || rest
                        == "pict"@ || rest == "dm"@ || rest == "lo"@)
                };
            if k < at {
                assert(name.skip(k + 1)[at - k - 1] == ':');
            } else if at < k {
                assert(name[k] != ':');
            }
        }
    }
}

proof fn lemma_last_colon(name: Seq<char>) -> (at: int)
    requires
        name.contains(':'),
    ensures
        0 <= at < name.len(),
        name[at] == ':',
        forall|i: int| at < i < name.len() ==> (#[trigger] name[i]) != ':',
        last_index(name, ':') == Some(at),
    decreases name.len(),
{
    if name.last() == ':' {
        name.len() - 1
    } else {
        let shorter = name.drop_last();
        let k = choose|k: int| 0 <= k < name.len() && name[k] == ':';
        assert(shorter[k] == ':');
        let at = lemma_last_colon(shorter);
        assert forall|i: int| at < i < name.len() implies (#[trigger] name[i]) != ':' by {
            if i < shorter.len() {
                assert(shorter[i] == name[i]);
            }
        }
        at
    }
}

proof fn lemma_attributes_are_stripped(
    text: Seq<char>,
    cursor: int,
    head: Seq<char>,
    attributes: Seq<WrittenAttribute>,
    tail: Seq<char>,
    removed: Seq<Seq<char>>,
)
    requires
        0 <= cursor <= text.len(),
        text.skip(cursor) == head + (attributes_text(attributes) + tail),
        forall|i: int| 0 <= i < head.len() ==> !is_space(#[trigger] head[i]),
        forall|i: int| 0 <= i < attributes.len() ==> attribute_written(#[trigger] attributes[i]),
        forall|i: int| 0 <= i < tail.len() ==> !is_space(#[trigger] tail[i]),
        tail.len() > 0,
    ensures
        tag_without(text, cursor, removed) == head + (attributes_text(
            attributes_kept(attributes, removed),
        ) + tail),
    decreases attributes.len(),
{
    let rest = text.skip(cursor);
    if attributes.len() == 0 {
        assert(rest =~= head + tail);
        assert forall|i: int| cursor <= i < text.len() implies !ascii_white(#[trigger] text[i]) by {
            assert(rest[i - cursor] == text[i]);
            if i - cursor < head.len() {
                assert(rest[i - cursor] == head[i - cursor]);
            } else {
                assert(rest[i - cursor] == tail[i - cursor - head.len()]);
            }
        }
        lemma_white_is_at(text, cursor, text.len() as int);
        assert(head + (attributes_text(attributes_kept(attributes, removed)) + tail) =~= rest);
    } else {
        let first = attributes[0];
        let others = attributes.skip(1);
        let own = attribute_text(first);
        let later = attributes_text(others) + tail;
        let size: int = first.name.len() as int;
        assert(attribute_written(attributes[0]));
        assert(rest =~= head + (own + later));
        let space: int = cursor + head.len();
        let start = space + 1;
        let equal = start + size;
        let value = equal + 1;
        let end = value + 1 + first.value.len();
        assert forall|i: int| 0 <= i < own.len() implies text[space + i] == #[trigger] own[i] by {
            assert(rest[head.len() + i] == text[space + i]);
        }
        assert(own[0] == ' ');
        assert(text[space + 0] == own[0]);
        assert forall|i: int| start <= i < equal implies #[trigger] text[i] == first.name[i - start] by {
            assert(own[i - space] == first.name[i - start]);
        }
        assert(own[size + 1] == '=' && own[size + 2] == first.quote);
        assert(text[space + (size + 1)] == own[size + 1]);
        assert(text[space + (size + 2)] == own[size + 2]);
        assert(space + (size + 1) == equal && space + (size + 2) == value);
        assert forall|i: int| value < i < end implies #[trigger] text[i] == first.value[i - value - 1] by {
            assert(own[i - space] == first.value[i - value - 1]);
        }
        assert(own[own.len() - 1] == first.quote);
        assert(text[space + (own.len() - 1)] == own[own.len() - 1]);
        assert(space + (own.len() - 1) == end);
        assert forall|i: int| cursor <= i < space implies !ascii_white(#[trigger] text[i]) by {
            assert(rest[i - cursor] == text[i]);
            assert(rest[i - cursor] == head[i - cursor]);
        }
        lemma_white_is_at(text, cursor, space);
        assert(text[start] == first.name[0]);
        assert(!is_space(first.name[0]));
        assert(past_white(text, start) == start);
        assert(past_white(text, space) == start);
        assert forall|i: int| start <= i < equal implies (#[trigger] text[i]) != '=' by {
            assert(text[i] == first.name[i - start]);
        }
        lemma_char_is_at(text, '=', start, equal);
        assert(past_white(text, value) == value);
        assert forall|i: int| value + 1 <= i < end implies (#[trigger] text[i]) != first.quote by {
            assert(text[i] == first.value[i - value - 1]);
        }
        lemma_char_is_at(text, first.quote, value + 1, end);
        assert(text.subrange(start, equal) =~= first.name);
        assert(text.subrange(value + 1, end) =~= first.value);
        assert(text.subrange(space, end + 1) =~= own);
        assert(text.subrange(cursor, space) =~= head) by {
            assert forall|i: int| 0 <= i < head.len() implies text[cursor + i] == head[i] by {
                assert(rest[i] == text[cursor + i]);
            }
        }
        lemma_gone_is_referring(first, removed);
        let nothing = Seq::<char>::empty();
        assert(text.skip(end + 1) =~= rest.skip(head.len() + own.len() as int));
        assert(text.skip(end + 1) =~= nothing + later);
        assert forall|i: int| 0 <= i < others.len() implies attribute_written(#[trigger] others[i]) by {
            assert(others[i] == attributes[i + 1]);
        }
        lemma_attributes_are_stripped(text, end + 1, nothing, others, tail, removed);
        let kept = attributes_kept(attributes, removed);
        let kept_later = attributes_kept(others, removed);
        if !refers_to(first, removed) {
            assert(kept.skip(1) =~= kept_later);
            assert(attributes_text(kept) =~= own + attributes_text(kept_later));
        }
        assert(tag_without(text, cursor, removed) =~= head + (attributes_text(kept) + tail));
    }
}

/// A tag keeps its name, its end and all attributes but those that refer to a relationship that was
/// taken out; of these none stays.
pub proof fn tags_lose_only_references_that_are_gone(
    head: Seq<char>,
    attributes: Seq<WrittenAttribute>,
    tail: Seq<char>,
    removed: Seq<Seq<char>>,
)
    requires
        forall|i: int| 0 <= i < head.len() ==> !is_space(#[trigger] head[i]),
        forall|i: int| 0 <= i < attributes.len() ==> attribute_written(#[trigger] attributes[i]),
        forall|i: int| 0 <= i < tail.len() ==> !is_space(#[trigger] tail[i]),
        tail.len() > 0,
    ensures
        tag_without(head + attributes_text(attributes) + tail, 0, removed) == head + attributes_text(
            attributes_kept(attributes, removed),
        ) + tail,
{
    let whole = head + attributes_text(attributes) + tail;
    assert(whole.skip(0) =~= head + (attributes_text(attributes) + tail));
    lemma_attributes_are_stripped(whole, 0, head, attributes, tail, removed);
    assert(head + (attributes_text(attributes_kept(attributes, removed)) + tail) =~= head
        + attributes_text(attributes_kept(attributes, removed)) + tail);
}

} // verus!
