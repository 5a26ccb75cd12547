//! The text of DOCX and PPTX documents, and what a preview of them cannot show.

use vstd::prelude::*;
use crate::archive::{
    decoded_read, directory_at, find_directory, inflated, local_data_start, read_deflated_limited,
    read_limit, read_stored, stored_read, zip_local_data_start, ArchiveReader, CENTRAL_SIGNATURE,
};
use crate::bytes::{le16, le32, same_bytes};
use crate::error::{failure, outcome, ErrorKind, Failure, LibraryError, LibraryResult};
use crate::limits::{
    entry_check, input_check, limits_for, ratio_check, ArchiveLimits, ExpansionBudget,
    INDEX_ARCHIVE_EXPANDED_BYTES, PREVIEW_ARCHIVE_EXPANDED_BYTES,
};
use crate::package::{header_fields, CentralHeader};
use crate::slides::{pptx_graph, pptx_presentation_graph};
use crate::text::{
    add_new, ascii_lowercase, chars, contains, decimal, ends_with, find_chars, find_from,
    from_utf8_lossy, has_suffix, has_text, join, join_texts, lemma_find_meaning, lemma_with_new_holds_all,
    lines, push_decimal, same, split_lines, to_ascii_lowercase, trim, trim_end, trimmed, trimmed_end, utf8_lossy, views,
    with_new,
};
use crate::xml::{
    element_name, local_name, local_tag_name, read_events, tokens, without_prefix, xml_tokens, Token,
    XmlEvent,
};

verus! {

// ---- Names of entries ----

/// The name of the entry at `cursor` and the cursor behind the entry, or why it is refused.
pub open spec fn listed_name(archive: Seq<u8>, cursor: int, format: Seq<char>) -> Result<
    (Seq<u8>, int),
    Failure,
> {
    let reader = ArchiveReader::Extraction;
    let header = header_fields(archive, cursor);
    let start = cursor + 46;
    let end = start + header.name_length;
    let next = end + header.extra_length + header.comment_length;
    if cursor + 4 > archive.len() {
        Err(reader.ended())
    } else if le32(archive, cursor) != CENTRAL_SIGNATURE {
        Err(reader.broken(format, " 文件结构无效：中央目录项损坏。"@))
    } else if cursor + 34 > archive.len() {
        Err(reader.ended())
    } else if end > usize::MAX {
        Err(reader.broken(format, " 文件结构无效：文件名长度溢出。"@))
    } else if end > archive.len() {
        Err(reader.broken(format, " 文件结构无效：文件名超出文件范围。"@))
    } else if next > usize::MAX {
        Err(reader.broken(format, " 文件结构无效：目录项长度溢出。"@))
    } else {
        Ok((archive.subrange(start, end), next))
    }
}

/// The names `done` and those of `count` more entries from `cursor` on, or why they are refused.
pub open spec fn names_from(
    archive: Seq<u8>,
    count: nat,
    cursor: int,
    done: Seq<Seq<char>>,
    format: Seq<char>,
) -> Result<Seq<Seq<char>>, Failure>
    decreases count,
{
    if count == 0 {
        Ok(done)
    } else {
        match listed_name(archive, cursor, format) {
            Err(error) => Err(error),
            Ok((name, next)) => names_from(
                archive,
                (count - 1) as nat,
                next,
                done.push(utf8_lossy(name)),
                format,
            ),
        }
    }
}

/// The names of all entries, or why the archive is refused.
pub open spec fn entry_names(archive: Seq<u8>, format: Seq<char>, limits: ArchiveLimits) -> Result<
    Seq<Seq<char>>,
    Failure,
> {
    match input_check(limits, archive.len() as u64) {
        Err(error) => Err(error),
        Ok(()) => match directory_at(archive, format, ArchiveReader::Extraction) {
            Err(error) => Err(error),
            Ok((count, cursor)) => names_from(archive, count, cursor as int, Seq::empty(), format),
        },
    }
}

/// Where the name of the entry at `cursor` starts and ends, and the cursor behind the entry.
fn locate_name(archive: &[u8], cursor: usize, format: &str) -> (result: LibraryResult<
    (usize, usize, usize),
>)
    ensures
        match result {
            Ok(place) => {
                &&& place.0 <= place.1 <= archive@.len()
                &&& place.0 == cursor + 46
                &&& listed_name(archive@, cursor as int, format@) == Ok::<_, Failure>(
                    (archive@.subrange(place.0 as int, place.1 as int), place.2 as int),
                )
            },
            Err(error) => listed_name(archive@, cursor as int, format@) == Err::<
                (Seq<u8>, int),
                _,
            >(error@),
        },
{
    let reader = ArchiveReader::Extraction;
    let size: usize = archive.len();
    let signature: u32 = match reader.read_u32(archive, cursor, 0) {
        Err(error) => {
            return Err(error);
        },
        Ok(value) => value,
    };
    if signature != CENTRAL_SIGNATURE {
        return Err(reader.broken_error(format, " 文件结构无效：中央目录项损坏。"));
    }
    let comment_length: u16 = match reader.read_u16(archive, cursor, 32) {
        Err(error) => {
            return Err(error);
        },
        Ok(value) => value,
    };
    let (name_length, extra_length) = match (
        reader.read_u16(archive, cursor, 28),
        reader.read_u16(archive, cursor, 30),
    ) {
        (Ok(name_length), Ok(extra_length)) => (name_length, extra_length),
        _ => {
            return Err(reader.ended_error());
        },
    };
    let end: usize = match cursor.checked_add(46 + name_length as usize) {
        None => {
            return Err(reader.broken_error(format, " 文件结构无效：文件名长度溢出。"));
        },
        Some(end) => end,
    };
    if end > size {
        return Err(reader.broken_error(format, " 文件结构无效：文件名超出文件范围。"));
    }
    match end.checked_add(extra_length as usize + comment_length as usize) {
        None => Err(reader.broken_error(format, " 文件结构无效：目录项长度溢出。")),
        Some(next) => Ok((cursor + 46, end, next)),
    }
}

/// The names of all entries.
pub fn zip_entry_names_for(archive: &[u8], format: &str, limits: ArchiveLimits) -> (result:
    LibraryResult<Vec<String>>)
    ensures
        crate::spreadsheet::strings_outcome(result) == entry_names(archive@, format@, limits),
{
    let reader = ArchiveReader::Extraction;
    if let Err(error) = ExpansionBudget::new(limits).check_input_size(archive.len() as u64) {
        return Err(error);
    }
    let (count, start) = match find_directory(archive, format, reader) {
        Err(error) => {
            return Err(error);
        },
        Ok(found) => found,
    };
    let mut names: Vec<String> = Vec::new();
    let mut cursor: usize = start;
    let mut left: usize = count;
    assert(views(names@) =~= Seq::empty());
    while left > 0
        invariant
            input_check(limits, archive@.len() as u64) is Ok,
            reader == ArchiveReader::Extraction,
            directory_at(archive@, format@, reader) == Ok::<(nat, nat), Failure>(
                (count as nat, start as nat),
            ),
            names_from(archive@, left as nat, cursor as int, views(names@), format@) == names_from(
                archive@,
                count as nat,
                start as int,
                Seq::empty(),
                format@,
            ),
        decreases left,
    {
        let (name_start, name_end, next) = match locate_name(archive, cursor, format) {
            Err(error) => {
                return Err(error);
            },
            Ok(place) => place,
        };
        let ghost before = views(names@);
        let name = from_utf8_lossy(vstd::slice::slice_subrange(archive, name_start, name_end));
        let ghost added = name@;
        names.push(name);
        assert(views(names@) =~= before.push(added));
        cursor = next;
        left = left - 1;
    }
    Ok(names)
}

// ---- One entry ----

/// The cursor of the first of `count` entries from `cursor` on with this name, or why the search
/// ends. The whole header of each entry on the way must be there.
pub open spec fn entry_search(
    archive: Seq<u8>,
    count: nat,
    cursor: int,
    target: Seq<u8>,
    format: Seq<char>,
) -> Result<Option<int>, Failure>
    decreases count,
{
    let reader = ArchiveReader::Extraction;
    if count == 0 {
        Ok(None)
    } else if cursor + 4 > archive.len() {
        Err(reader.ended())
    } else if le32(archive, cursor) != CENTRAL_SIGNATURE {
        Err(reader.broken(format, " 文件结构无效：中央目录项损坏。"@))
    } else if cursor + 46 > archive.len() {
        Err(reader.ended())
    } else {
        let header = header_fields(archive, cursor);
        let end = cursor + 46 + header.name_length;
        let next = end + header.extra_length + header.comment_length;
        if end > usize::MAX {
            Err(reader.broken(format, " 文件结构无效：文件名长度溢出。"@))
        } else if end > archive.len() {
            Err(reader.broken(format, " 文件结构无效：文件名超出文件范围。"@))
        } else if archive.subrange(cursor + 46, end) == target {
            Ok(Some(cursor))
        } else if next > usize::MAX {
            Err(reader.broken(format, " 文件结构无效：目录项长度溢出。"@))
        } else {
            entry_search(archive, (count - 1) as nat, next, target, format)
        }
    }
}

/// What reading the entry at `cursor` gives, and what the account holds after it.
pub open spec fn entry_read(
    archive: Seq<u8>,
    cursor: int,
    name: Seq<char>,
    format: Seq<char>,
    limits: ArchiveLimits,
    spent: u64,
) -> (Result<Seq<u8>, Failure>, u64) {
    let reader = ArchiveReader::Extraction;
    let header = header_fields(archive, cursor);
    if le16(archive, cursor + 8) % 2 == 1 {
        (Err(reader.broken(format, " 中的内容已加密，无法提取。"@)), spent)
    } else if header.compressed_size == u32::MAX || header.size == u32::MAX {
        (
            Err(failure(ErrorKind::Preview, "暂不支持 ZIP64 格式的 "@ + format + " 文件。"@)),
            spent,
        )
    } else {
        match entry_check(limits, name, header.size as u64) {
            Err(error) => (Err(error), spent),
            Ok(()) => match ratio_check(
                limits,
                name,
                header.compressed_size as u64,
                header.size as u64,
            ) {
                Err(error) => (Err(error), spent),
                Ok(()) => match local_data_start(
                    archive,
                    header.local_offset as nat,
                    format,
                    reader,
                ) {
                    Err(error) => (Err(error), spent),
                    Ok(start) => {
                        let end = start + header.compressed_size;
                        if end > usize::MAX {
                            (Err(reader.broken(format, " 文件结构无效：正文长度溢出。"@)), spent)
                        } else if end > archive.len() {
                            (
                                Err(reader.broken(format, " 文件结构无效：正文超出文件范围。"@)),
                                spent,
                            )
                        } else {
                            let data = archive.subrange(start as int, end as int);
                            if header.method == 0 {
                                stored_read(limits, data, name, spent)
                            } else if header.method == 8 {
                                decoded_read(
                                    limits,
                                    inflated(data, read_limit(limits)),
                                    name,
                                    header.size as u64,
                                    spent,
                                )
                            } else {
                                (
                                    Err(
                                        reader.broken(
                                            format,
                                            crate::workbook::unsupported_method(header.method),
                                        ),
                                    ),
                                    spent,
                                )
                            }
                        }
                    },
                },
            },
        }
    }
}

/// What reading the entry with this name gives, and what the account holds after it.
pub open spec fn named_entry(
    archive: Seq<u8>,
    name: Seq<char>,
    format: Seq<char>,
    limits: ArchiveLimits,
    spent: u64,
) -> (Result<Seq<u8>, Failure>, u64) {
    match input_check(limits, archive.len() as u64) {
        Err(error) => (Err(error), spent),
        Ok(()) => match directory_at(archive, format, ArchiveReader::Extraction) {
            Err(error) => (Err(error), spent),
            Ok((count, cursor)) => match entry_search(
                archive,
                count,
                cursor as int,
                vstd::utf8::encode_utf8(name),
                format,
            ) {
                Err(error) => (Err(error), spent),
                Ok(None) => (
                    Err(ArchiveReader::Extraction.broken(format, " 文件缺少 "@ + name + "。"@)),
                    spent,
                ),
                Ok(Some(at)) => entry_read(archive, at, name, format, limits, spent),
            },
        },
    }
}

/// The header at `cursor`, all of which stands in the archive.
fn whole_header(archive: &[u8], cursor: usize) -> (header: CentralHeader)
    requires
        cursor + 46 <= archive@.len(),
    ensures
        header == header_fields(archive@, cursor as int),
{
    let reader = ArchiveReader::Extraction;
    let method = reader.read_u16(archive, cursor, 10);
    let crc = reader.read_u32(archive, cursor, 16);
    let compressed_size = reader.read_u32(archive, cursor, 20);
    let size = reader.read_u32(archive, cursor, 24);
    let name_length = reader.read_u16(archive, cursor, 28);
    let extra_length = reader.read_u16(archive, cursor, 30);
    let comment_length = reader.read_u16(archive, cursor, 32);
    let local_offset = reader.read_u32(archive, cursor, 42);
    match (method, crc, compressed_size, size, name_length, extra_length, comment_length, local_offset) {
        (
            Ok(method),
            Ok(crc),
            Ok(compressed_size),
            Ok(size),
            Ok(name_length),
            Ok(extra_length),
            Ok(comment_length),
            Ok(local_offset),
        ) => CentralHeader {
            method,
            crc,
            compressed_size,
            size,
            name_length,
            extra_length,
            comment_length,
            local_offset,
        },
        _ => CentralHeader {
            method: 0,
            crc: 0,
            compressed_size: 0,
            size: 0,
            name_length: 0,
            extra_length: 0,
            comment_length: 0,
            local_offset: 0,
        },
    }
}

/// The cursor of the first entry with this name.
fn find_entry(archive: &[u8], count: usize, start: usize, target: &[u8], format: &str) -> (result:
    LibraryResult<Option<usize>>)
    ensures
        (match result {
            Ok(Some(at)) => Ok(Some(at as int)),
            Ok(None) => Ok(None),
            Err(error) => Err(error@),
        }) == entry_search(archive@, count as nat, start as int, target@, format@),
        result matches Ok(Some(at)) ==> at + 46 <= archive@.len(),
{
    let reader = ArchiveReader::Extraction;
    let size: usize = archive.len();
    let mut cursor: usize = start;
    let mut left: usize = count;
    while left > 0
        invariant
            size == archive@.len(),
            reader == ArchiveReader::Extraction,
            entry_search(archive@, left as nat, cursor as int, target@, format@) == entry_search(
                archive@,
                count as nat,
                start as int,
                target@,
                format@,
            ),
        decreases left,
    {
        let signature: u32 = match reader.read_u32(archive, cursor, 0) {
            Err(error) => {
                return Err(error);
            },
            Ok(value) => value,
        };
        if signature != CENTRAL_SIGNATURE {
            return Err(reader.broken_error(format, " 文件结构无效：中央目录项损坏。"));
        }
        if let Err(error) = reader.read_u32(archive, cursor, 42) {
            return Err(error);
        }
        let header = whole_header(archive, cursor);
        let end: usize = match cursor.checked_add(46 + header.name_length as usize) {
            None => {
                return Err(reader.broken_error(format, " 文件结构无效：文件名长度溢出。"));
            },
            Some(end) => end,
        };
        if end > size {
            return Err(reader.broken_error(format, " 文件结构无效：文件名超出文件范围。"));
        }
        if same_bytes(vstd::slice::slice_subrange(archive, cursor + 46, end), target) {
            return Ok(Some(cursor));
        }
        cursor = match end.checked_add(header.extra_length as usize + header.comment_length as usize) {
            None => {
                return Err(reader.broken_error(format, " 文件结构无效：目录项长度溢出。"));
            },
            Some(next) => next,
        };
        left = left - 1;
    }
    Ok(None)
}

/// Reads the entry at `cursor`.
fn read_entry_at(
    archive: &[u8],
    cursor: usize,
    name: &str,
    format: &str,
    budget: &mut ExpansionBudget,
) -> (result: LibraryResult<Vec<u8>>)
    requires
        cursor + 46 <= archive@.len(),
    ensures
        final(budget).allowed() == old(budget).allowed(),
        (outcome(result), final(budget).spent()) == entry_read(
            archive@,
            cursor as int,
            name@,
            format@,
            old(budget).allowed(),
            old(budget).spent(),
        ),
{
    let reader = ArchiveReader::Extraction;
    let header = whole_header(archive, cursor);
    let encrypted = match reader.read_u16(archive, cursor, 8) {
        Ok(flags) => flags % 2 == 1,
        Err(_) => false,
    };
    if encrypted {
        return Err(reader.broken_error(format, " 中的内容已加密，无法提取。"));
    }
    if header.compressed_size == u32::MAX || header.size == u32::MAX {
        let mut detail = "暂不支持 ZIP64 格式的 ".to_owned();
        detail.append(format);
        detail.append(" 文件。");
        return Err(LibraryError::Preview(detail));
    }
    if let Err(error) = budget.check_entry_size(name, header.size as u64) {
        return Err(error);
    }
    if let Err(error) = budget.check_compression_ratio(
        name,
        header.compressed_size as u64,
        header.size as u64,
    ) {
        return Err(error);
    }
    let start: usize = match zip_local_data_start(
        archive,
        header.local_offset as usize,
        format,
        reader,
    ) {
        Err(error) => {
            return Err(error);
        },
        Ok(start) => start,
    };
    let end: usize = match start.checked_add(header.compressed_size as usize) {
        None => {
            return Err(reader.broken_error(format, " 文件结构无效：正文长度溢出。"));
        },
        Some(end) => end,
    };
    if end > archive.len() {
        return Err(reader.broken_error(format, " 文件结构无效：正文超出文件范围。"));
    }
    let data = vstd::slice::slice_subrange(archive, start, end);
    if header.method == 0 {
        read_stored(data, name, budget)
    } else if header.method == 8 {
        read_deflated_limited(data, name, header.size as u64, budget)
    } else {
        let mut rest = " 使用了不支持的压缩方式：".to_owned();
        push_decimal(&mut rest, header.method as u64);
        rest.append("。");
        Err(reader.broken_error(format, rest.as_str()))
    }
}

/// Reads the entry with this name within the limits.
pub fn read_zip_entry_for(
    archive: &[u8],
    target_name: &str,
    format: &str,
    budget: &mut ExpansionBudget,
) -> (result: LibraryResult<Vec<u8>>)
    ensures
        final(budget).allowed() == old(budget).allowed(),
        (outcome(result), final(budget).spent()) == named_entry(
            archive@,
            target_name@,
            format@,
            old(budget).allowed(),
            old(budget).spent(),
        ),
{
    if let Err(error) = budget.check_input_size(archive.len() as u64) {
        return Err(error);
    }
    let (count, start) = match find_directory(archive, format, ArchiveReader::Extraction) {
        Err(error) => {
            return Err(error);
        },
        Ok(found) => found,
    };
    match find_entry(archive, count, start, target_name.as_bytes(), format) {
        Err(error) => Err(error),
        Ok(None) => {
            let mut rest = " 文件缺少 ".to_owned();
            rest.append(target_name);
            rest.append("。");
            Err(ArchiveReader::Extraction.broken_error(format, rest.as_str()))
        },
        Ok(Some(at)) => read_entry_at(archive, at, target_name, format, budget),
    }
}

// ---- Text in markup ----

/// What markup the text is taken from.
#[derive(Debug, Clone, Copy, PartialEq, Eq, Structural)]
pub enum TextFlow {
    /// The body of a DOCX document.
    Word,
    /// A slide.
    Slide,
    /// A chart, whose values count too.
    Chart,
}

/// How far the reading of a text is.
#[verifier::ext_equal]
pub struct FlowReading {
    pub text: Seq<char>,
    pub in_text: bool,
    pub in_value: bool,
}

/// The text with a line end, unless one stands last.
pub open spec fn with_line_end(text: Seq<char>) -> Seq<char> {
    if text.len() > 0 && text.last() == '\n' {
        text
    } else {
        text.push('\n')
    }
}

/// What an element adds by itself: a tab or a line end.
pub open spec fn added_by(name: Seq<char>, flow: TextFlow) -> Seq<char> {
    if name == "tab"@ {
        seq!['\t']
    } else if name == "br"@ || (name == "cr"@ && flow == TextFlow::Word) {
        seq!['\n']
    } else {
        Seq::empty()
    }
}

/// After one event that is not the last.
pub open spec fn flow_step(reading: FlowReading, token: Token, flow: TextFlow) -> FlowReading {
    match token {
        Token::Start(tag) => if element_name(tag) == "t"@ {
            FlowReading { in_text: true, ..reading }
        } else if element_name(tag) == "v"@ && flow == TextFlow::Chart {
            FlowReading { in_value: true, ..reading }
        } else {
            FlowReading { text: reading.text + added_by(element_name(tag), flow), ..reading }
        },
        Token::Empty(tag) => FlowReading {
            text: reading.text + added_by(element_name(tag), flow),
            ..reading
        },
        Token::Text(text) | Token::CData(text) => if reading.in_text || reading.in_value {
            FlowReading { text: reading.text + text, ..reading }
        } else {
            reading
        },
        Token::End(name) => if local_name(name) == "t"@ {
            FlowReading { in_text: false, ..reading }
        } else if local_name(name) == "v"@ && flow == TextFlow::Chart {
            FlowReading { in_value: false, text: with_line_end(reading.text), ..reading }
        } else if local_name(name) == "p"@ {
            FlowReading { text: with_line_end(reading.text), ..reading }
        } else {
            reading
        },
        _ => reading,
    }
}

/// The text that the events from `at` on complete, or why they are refused.
pub open spec fn flow_from(list: Seq<Token>, at: int, reading: FlowReading, flow: TextFlow) -> Result<
    Seq<char>,
    Failure,
>
    decreases list.len() - at,
{
    if at < 0 || at >= list.len() {
        Ok(reading.text)
    } else {
        match list[at] {
            Token::Eof => Ok(reading.text),
            Token::Failed(reason) => Err(
                failure(
                    ErrorKind::Preview,
                    (if flow == TextFlow::Word {
                        "无法解析 DOCX 文本："@
                    } else {
                        "无法解析 PPTX 文本："@
                    }) + reason,
                ),
            ),
            _ => flow_from(list, at + 1, flow_step(reading, list[at], flow), flow),
        }
    }
}

/// Nothing was read yet.
pub open spec fn no_flow() -> FlowReading {
    FlowReading { text: Seq::empty(), in_text: false, in_value: false }
}

/// The lines without the white space at their ends.
pub open spec fn ends_trimmed(list: Seq<Seq<char>>) -> Seq<Seq<char>> {
    list.map_values(|line: Seq<char>| trim_end(line))
}

/// A text without white space at the ends of its lines, at its start and at its end.
pub open spec fn tidied(text: Seq<char>) -> Seq<char> {
    trim(join(ends_trimmed(lines(text)), "\n"@))
}

/// The text that events hold, or why they are refused.
pub open spec fn flow_text(list: Seq<Token>, flow: TextFlow) -> Result<Seq<char>, Failure> {
    match flow_from(list, 0, no_flow(), flow) {
        Err(error) => Err(error),
        Ok(text) => Ok(tidied(text)),
    }
}

/// A text without white space at the ends of its lines, at its start and at its end.
pub fn tidy_text(text: &str) -> (out: String)
    ensures
        out@ == tidied(text@),
{
    let list = split_lines(text);
    let ghost all = views(list@);
    let mut kept: Vec<String> = Vec::new();
    let mut i: usize = 0;
    assert(views(kept@) =~= ends_trimmed(all).take(0));
    while i < list.len()
        invariant
            i <= list@.len(),
            all == views(list@),
            views(kept@) == ends_trimmed(all).take(i as int),
        decreases list@.len() - i,
    {
        let line = trimmed_end(list[i].as_str());
        assert(line@ == ends_trimmed(all)[i as int]);
        let ghost before = views(kept@);
        let ghost added = line@;
        kept.push(line);
        assert(views(kept@) =~= before.push(added));
        assert(ends_trimmed(all).take(i + 1) =~= ends_trimmed(all).take(i as int).push(added));
        i = i + 1;
    }
    assert(ends_trimmed(all).take(i as int) =~= ends_trimmed(all));
    trimmed(join_texts(kept.as_slice(), "\n").as_str())
}

/// Takes in the text of markup event by event.
struct FlowReader {
    text: String,
    in_text: bool,
    in_value: bool,
    /// A line end stands last.
    ended: bool,
    flow: TextFlow,
}

impl FlowReader {
    spec fn reading(self) -> FlowReading {
        FlowReading { text: self.text@, in_text: self.in_text, in_value: self.in_value }
    }

    spec fn valid(self) -> bool {
        self.ended == (self.text@.len() > 0 && self.text@.last() == '\n')
    }

    /// Adds a text.
    fn add_text(&mut self, part: &str)
        requires
            old(self).valid(),
        ensures
            final(self).valid(),
            final(self).flow == old(self).flow,
            final(self).reading() == (FlowReading {
                text: old(self).reading().text + part@,
                ..old(self).reading()
            }),
    {
        let all = chars(part);
        let size: usize = all.len();
        self.text.append(part);
        if size > 0 {
            self.ended = all[size - 1] == '\n';
            assert(self.text@.last() == all@[size - 1]);
        } else {
            assert(self.text@ =~= old(self).text@);
        }
    }

    /// Adds what an element adds by itself.
    fn add_element(&mut self, name: &str)
        requires
            old(self).valid(),
        ensures
            final(self).valid(),
            final(self).flow == old(self).flow,
            final(self).reading() == (FlowReading {
                text: old(self).reading().text + added_by(name@, old(self).flow),
                ..old(self).reading()
            }),
    {
        if same(name, "tab") {
            self.text.push('\t');
            self.ended = false;
            assert(self.text@ =~= old(self).text@ + seq!['\t']);
        } else if same(name, "br") || (same(name, "cr") && self.flow == TextFlow::Word) {
            self.text.push('\n');
            self.ended = true;
            assert(self.text@ =~= old(self).text@ + seq!['\n']);
        } else {
            assert(self.text@ =~= old(self).text@ + Seq::<char>::empty());
        }
    }

    /// Ends the line, unless it is ended.
    fn end_line(&mut self)
        requires
            old(self).valid(),
        ensures
            final(self).valid(),
            final(self).flow == old(self).flow,
            final(self).reading() == (FlowReading {
                text: with_line_end(old(self).reading().text),
                ..old(self).reading()
            }),
    {
        if !self.ended {
            self.text.push('\n');
            self.ended = true;
        }
    }

    /// Takes in one event.
    fn step(&mut self, event: &XmlEvent)
        requires
            old(self).valid(),
        ensures
            final(self).valid(),
            final(self).flow == old(self).flow,
            final(self).reading() == flow_step(old(self).reading(), event@, old(self).flow),
    {
        match event {
            XmlEvent::Start(tag) => {
                let name = local_tag_name(tag.as_str());
                if same(name.as_str(), "t") {
                    self.in_text = true;
                } else if same(name.as_str(), "v") && self.flow == TextFlow::Chart {
                    self.in_value = true;
                } else {
                    self.add_element(name.as_str());
                }
            },
            XmlEvent::Empty(tag) => {
                self.add_element(local_tag_name(tag.as_str()).as_str());
            },
            XmlEvent::Text(text) => {
                if self.in_text || self.in_value {
                    self.add_text(text.as_str());
                }
            },
            XmlEvent::CData(text) => {
                if self.in_text || self.in_value {
                    self.add_text(text.as_str());
                }
            },
            XmlEvent::End(tag) => {
                let name = without_prefix(tag.as_str());
                if same(name.as_str(), "t") {
                    self.in_text = false;
                } else if same(name.as_str(), "v") && self.flow == TextFlow::Chart {
                    self.in_value = false;
                    self.end_line();
                } else if same(name.as_str(), "p") {
                    self.end_line();
                }
            },
            _ => {},
        }
    }
}

/// The text that events hold.
pub fn text_of_events(events: &[XmlEvent], flow: TextFlow) -> (result: LibraryResult<String>)
    ensures
        outcome(result) == flow_text(tokens(events@), flow),
{
    let ghost list = tokens(events@);
    let mut reader = FlowReader {
        text: String::new(),
        in_text: false,
        in_value: false,
        ended: false,
        flow,
    };
    assert(reader.reading() =~= no_flow());
    let mut i: usize = 0;
    while i < events.len()
        invariant
            i <= events@.len(),
            list == tokens(events@),
            reader.valid(),
            reader.flow == flow,
            flow_from(list, i as int, reader.reading(), flow) == flow_from(
                list,
                0,
                no_flow(),
                flow,
            ),
        decreases events@.len() - i,
    {
        assert(list[i as int] == events@[i as int]@);
        match &events[i] {
            XmlEvent::Eof => {
                return Ok(tidy_text(reader.text.as_str()));
            },
            XmlEvent::Failed(reason) => {
                let mut detail = if flow == TextFlow::Word {
                    "无法解析 DOCX 文本：".to_owned()
                } else {
                    "无法解析 PPTX 文本：".to_owned()
                };
                detail.append(reason.as_str());
                return Err(LibraryError::Preview(detail));
            },
            _ => {
                reader.step(&events[i]);
            },
        }
        i = i + 1;
    }
    Ok(tidy_text(reader.text.as_str()))
}

/// The text of the body of a DOCX document.
pub fn extract_wordprocessing_text(xml: &[u8]) -> (result: LibraryResult<String>)
    ensures
        outcome(result) == flow_text(xml_tokens(xml@, false), TextFlow::Word),
{
    text_of_events(read_events(xml, false).as_slice(), TextFlow::Word)
}

/// The flow of a part of a presentation.
pub open spec fn powerpoint_flow(chart_values: bool) -> TextFlow {
    if chart_values {
        TextFlow::Chart
    } else {
        TextFlow::Slide
    }
}

/// The text of a slide or a chart.
pub fn extract_powerpoint_text(xml: &[u8], chart_values: bool) -> (result: LibraryResult<String>)
    ensures
        outcome(result) == flow_text(xml_tokens(xml@, false), powerpoint_flow(chart_values)),
{
    let flow = if chart_values {
        TextFlow::Chart
    } else {
        TextFlow::Slide
    };
    text_of_events(read_events(xml, false).as_slice(), flow)
}

// ---- DOCX ----

/// The text of a DOCX document, or why it has none.
pub open spec fn docx_text(archive: Seq<u8>) -> Result<Seq<char>, Failure> {
    match named_entry(
        archive,
        "word/document.xml"@,
        "DOCX"@,
        limits_for(INDEX_ARCHIVE_EXPANDED_BYTES),
        0,
    ).0 {
        Err(error) => Err(error),
        Ok(xml) => match flow_text(xml_tokens(xml, false), TextFlow::Word) {
            Err(error) => Err(error),
            Ok(text) => if trim(text).len() == 0 {
                Ok("文档中没有可提取的文本。"@)
            } else {
                Ok(text)
            },
        },
    }
}

/// The text of a DOCX document.
pub fn extract_docx_text_from_bytes(archive: &[u8]) -> (result: LibraryResult<String>)
    ensures
        outcome(result) == docx_text(archive@),
{
    let mut budget = ExpansionBudget::new(ArchiveLimits::for_index());
    match read_zip_entry_for(archive, "word/document.xml", "DOCX", &mut budget) {
        Err(error) => Err(error),
        Ok(xml) => match extract_wordprocessing_text(xml.as_slice()) {
            Err(error) => Err(error),
            Ok(text) => {
                if chars(trimmed(text.as_str()).as_str()).len() == 0 {
                    Ok("文档中没有可提取的文本。".to_owned())
                } else {
                    Ok(text)
                }
            },
        },
    }
}

// ---- What a preview cannot show ----

/// A relationship from `from` on leads outside the package and is no hyperlink.
pub open spec fn leads_outside(text: Seq<char>, from: int) -> bool
    decreases text.len() - from,
{
    let mark = "<Relationship"@;
    match find_from(text, mark, from) {
        Some(at) if from <= at && at + mark.len() <= text.len() && mark.len() > 0 => {
            let start = at + mark.len() as int;
            let piece = text.subrange(
                start,
                match find_from(text, mark, start) {
                    Some(end) => end,
                    None => text.len() as int,
                },
            );
            (contains(piece, "TargetMode=\"External\""@) && !contains(piece, "/hyperlink\""@))
                || leads_outside(text, start)
        },
        _ => false,
    }
}

/// Whether a relationship leads outside the package and is no hyperlink.
pub fn has_remote_resource(text: &str) -> (found: bool)
    ensures
        found == leads_outside(text@, 0),
{
    let all = chars(text);
    let mark = chars("<Relationship");
    proof {
        reveal_strlit("<Relationship");
        assert("<Relationship"@.len() == 13);
    }
    let size: usize = all.len();
    let mut from: usize = 0;
    while from <= size
        invariant
            from <= size,
            size == all@.len(),
            all@ == text@,
            mark@ == "<Relationship"@,
            mark@.len() == 13,
            leads_outside(text@, from as int) == leads_outside(text@, 0),
        decreases size - from,
    {
        proof {
            lemma_find_meaning(text@, mark@, from as int);
        }
        match find_chars(all.as_slice(), mark.as_slice(), from) {
            None => {
                return false;
            },
            Some(at) => {
                let start: usize = at + 13;
                proof {
                    lemma_find_meaning(text@, mark@, start as int);
                }
                let end: usize = match find_chars(all.as_slice(), mark.as_slice(), start) {
                    Some(end) => end,
                    None => size,
                };
                let piece = vstd::slice::slice_subrange(all.as_slice(), start, end);
                if has_text(piece, "TargetMode=\"External\"") && !has_text(piece, "/hyperlink\"") {
                    return true;
                }
                from = start;
            },
        }
    }
    false
}

/// What the name of an entry of a DOCX document tells.
pub open spec fn docx_name_features(lower: Seq<char>) -> Seq<Seq<char>> {
    let charts: Seq<Seq<char>> = if contains(lower, "word/charts/"@) || contains(
        lower,
        "word/diagrams/"@,
    ) {
        seq!["图表或 SmartArt"@]
    } else {
        Seq::empty()
    };
    let embedded: Seq<Seq<char>> = if contains(lower, "word/embeddings/"@) {
        seq!["嵌入对象"@]
    } else {
        Seq::empty()
    };
    charts + embedded + macro_features(lower)
}

/// What the name of an entry tells of macros.
pub open spec fn macro_features(lower: Seq<char>) -> Seq<Seq<char>> {
    if ends_with(lower, "vbaproject.bin"@) || contains(lower, "activex"@) {
        seq!["宏或 ActiveX"@]
    } else {
        Seq::empty()
    }
}

/// What the markup of an entry of a DOCX document tells.
pub open spec fn docx_markup_features(lower: Seq<char>) -> Seq<Seq<char>> {
    let shapes: Seq<Seq<char>> = if contains(lower, "<w:txbxcontent"@) || contains(
        lower,
        "<wps:txbx"@,
    ) || contains(lower, "<v:textbox"@) || contains(lower, "<v:shape"@) {
        seq!["形状或文本框"@]
    } else {
        Seq::empty()
    };
    let fields: Seq<Seq<char>> = if contains(lower, "<w:fldchar"@) || contains(
        lower,
        "<w:instrtext"@,
    ) || contains(lower, "<w:fldsimple"@) {
        seq!["字段"@]
    } else {
        Seq::empty()
    };
    let objects: Seq<Seq<char>> = if contains(lower, "<w:object"@) || contains(
        lower,
        "<o:oleobject"@,
    ) || contains(lower, "<w:oleobject"@) {
        seq!["嵌入对象"@]
    } else {
        Seq::empty()
    };
    let chunks: Seq<Seq<char>> = if contains(lower, "<w:altchunk"@) {
        seq!["替换内容"@]
    } else {
        Seq::empty()
    };
    shapes + fields + objects + chunks
}

/// What relationships in an entry tell.
pub open spec fn remote_features(lower_name: Seq<char>, markup: Seq<char>) -> Seq<Seq<char>> {
    if ends_with(lower_name, ".rels"@) && leads_outside(markup, 0) {
        seq!["远程资源"@]
    } else {
        Seq::empty()
    }
}

/// What an entry of a DOCX document adds to what cannot be shown, and what the account holds after
/// it. An entry that cannot be read is passed over.
pub open spec fn docx_entry_features(
    archive: Seq<u8>,
    name: Seq<char>,
    features: Seq<Seq<char>>,
    limits: ArchiveLimits,
    spent: u64,
) -> (Seq<Seq<char>>, u64) {
    let lower = ascii_lowercase(name);
    let named = with_new(features, docx_name_features(lower));
    if !(ends_with(lower, ".xml"@) || ends_with(lower, ".rels"@)) {
        (named, spent)
    } else {
        let (contents, total) = named_entry(archive, name, "DOCX"@, limits, spent);
        match contents {
            Err(_) => (named, total),
            Ok(xml) => (
                with_new(
                    with_new(named, docx_markup_features(ascii_lowercase(utf8_lossy(xml)))),
                    remote_features(lower, utf8_lossy(xml)),
                ),
                total,
            ),
        }
    }
}

/// What the entries from `at` on add to what cannot be shown.
pub open spec fn docx_features_from(
    archive: Seq<u8>,
    names: Seq<Seq<char>>,
    at: int,
    features: Seq<Seq<char>>,
    limits: ArchiveLimits,
    spent: u64,
) -> Seq<Seq<char>>
    decreases names.len() - at,
{
    if at < 0 || at >= names.len() {
        features
    } else {
        let (more, total) = docx_entry_features(archive, names[at], features, limits, spent);
        docx_features_from(archive, names, at + 1, more, limits, total)
    }
}

/// What a preview of a DOCX document cannot show.
pub open spec fn docx_features(archive: Seq<u8>) -> Seq<Seq<char>> {
    let limits = limits_for(PREVIEW_ARCHIVE_EXPANDED_BYTES);
    match entry_names(archive, "DOCX"@, limits) {
        Err(_) => Seq::empty(),
        Ok(names) => docx_features_from(archive, names, 0, Seq::empty(), limits, 0),
    }
}

/// Adds one feature that is there.
fn note(list: &mut Vec<String>, found: bool, feature: &str)
    ensures
        views(final(list)@) == (if found {
            views(old(list)@).push(feature@)
        } else {
            views(old(list)@)
        }),
{
    if found {
        let ghost before = views(list@);
        list.push(feature.to_owned());
        assert(views(list@) =~= before.push(feature@));
    }
}

/// Whether the name of an entry tells of macros.
fn tells_macros(lower: &[char]) -> (found: bool)
    ensures
        found == (macro_features(lower@).len() > 0),
{
    has_suffix(lower, "vbaproject.bin") || has_text(lower, "activex")
}

/// What the name of an entry of a DOCX document tells.
fn features_of_docx_name(lower: &[char]) -> (list: Vec<String>)
    ensures
        views(list@) == docx_name_features(lower@),
{
    let mut list: Vec<String> = Vec::new();
    assert(views(list@) =~= Seq::empty());
    note(
        &mut list,
        has_text(lower, "word/charts/") || has_text(lower, "word/diagrams/"),
        "图表或 SmartArt",
    );
    note(&mut list, has_text(lower, "word/embeddings/"), "嵌入对象");
    note(&mut list, tells_macros(lower), "宏或 ActiveX");
    assert(views(list@) =~= docx_name_features(lower@));
    list
}

/// What the markup of an entry of a DOCX document tells.
fn features_of_docx_markup(lower: &[char]) -> (list: Vec<String>)
    ensures
        views(list@) == docx_markup_features(lower@),
{
    let mut list: Vec<String> = Vec::new();
    assert(views(list@) =~= Seq::empty());
    note(
        &mut list,
        has_text(lower, "<w:txbxcontent") || has_text(lower, "<wps:txbx") || has_text(
            lower,
            "<v:textbox",
        ) || has_text(lower, "<v:shape"),
        "形状或文本框",
    );
    note(
        &mut list,
        has_text(lower, "<w:fldchar") || has_text(lower, "<w:instrtext") || has_text(
            lower,
            "<w:fldsimple",
        ),
        "字段",
    );
    note(
        &mut list,
        has_text(lower, "<w:object") || has_text(lower, "<o:oleobject") || has_text(
            lower,
            "<w:oleobject",
        ),
        "嵌入对象",
    );
    note(&mut list, has_text(lower, "<w:altchunk"), "替换内容");
    assert(views(list@) =~= docx_markup_features(lower@));
    list
}

/// What relationships in an entry tell.
fn features_of_relationships(lower_name: &[char], markup: &str) -> (list: Vec<String>)
    ensures
        views(list@) == remote_features(lower_name@, markup@),
{
    let mut list: Vec<String> = Vec::new();
    assert(views(list@) =~= Seq::empty());
    note(&mut list, has_suffix(lower_name, ".rels") && has_remote_resource(markup), "远程资源");
    assert(views(list@) =~= remote_features(lower_name@, markup@));
    list
}

/// Adds what an entry of a DOCX document tells.
fn inspect_docx_entry(
    archive: &[u8],
    name: &str,
    features: &mut Vec<String>,
    budget: &mut ExpansionBudget,
)
    ensures
        final(budget).allowed() == old(budget).allowed(),
        (views(final(features)@), final(budget).spent()) == docx_entry_features(
            archive@,
            name@,
            views(old(features)@),
            old(budget).allowed(),
            old(budget).spent(),
        ),
{
    let lower = chars(to_ascii_lowercase(name).as_str());
    add_new(features, &features_of_docx_name(lower.as_slice()));
    if !(has_suffix(lower.as_slice(), ".xml") || has_suffix(lower.as_slice(), ".rels")) {
        return;
    }
    if let Ok(xml) = read_zip_entry_for(archive, name, "DOCX", budget) {
        let markup = from_utf8_lossy(xml.as_slice());
        let lower_markup = chars(to_ascii_lowercase(markup.as_str()).as_str());
        add_new(features, &features_of_docx_markup(lower_markup.as_slice()));
        add_new(features, &features_of_relationships(lower.as_slice(), markup.as_str()));
    }
}

/// What a preview of a DOCX document cannot show. All parts share one budget; what is left when it is
/// spent is passed over.
pub fn inspect_docx_degradations(archive: &[u8]) -> (features: Vec<String>)
    ensures
        views(features@) == docx_features(archive@),
{
    let mut features: Vec<String> = Vec::new();
    assert(views(features@) =~= Seq::empty());
    let limits = ArchiveLimits::for_preview();
    let names = match zip_entry_names_for(archive, "DOCX", limits) {
        Err(_) => {
            return features;
        },
        Ok(names) => names,
    };
    let ghost list = views(names@);
    let mut budget = ExpansionBudget::new(limits);
    let mut i: usize = 0;
    while i < names.len()
        invariant
            i <= names@.len(),
            list == views(names@),
            budget.allowed() == limits,
            limits == limits_for(PREVIEW_ARCHIVE_EXPANDED_BYTES),
            entry_names(archive@, "DOCX"@, limits) == Ok::<_, Failure>(list),
            docx_features_from(
                archive@,
                list,
                i as int,
                views(features@),
                limits,
                budget.spent(),
            ) == docx_features(archive@),
        decreases names@.len() - i,
    {
        assert(list[i as int] == names@[i as int]@);
        inspect_docx_entry(archive, names[i].as_str(), &mut features, &mut budget);
        i = i + 1;
    }
    features
}

// ---- PPTX ----

/// A text without blank lines and without white space around its lines.
pub open spec fn normalized(text: Seq<char>) -> Seq<char> {
    join(kept_lines(lines(text)), "\n"@)
}

/// The lines without white space around them, but for blank ones.
pub open spec fn kept_lines(list: Seq<Seq<char>>) -> Seq<Seq<char>>
    decreases list.len(),
{
    if list.len() == 0 {
        Seq::empty()
    } else if trim(list.last()).len() > 0 {
        kept_lines(list.drop_last()).push(trim(list.last()))
    } else {
        kept_lines(list.drop_last())
    }
}

/// A text without blank lines and without white space around its lines.
pub fn normalize_extracted_text(text: &str) -> (out: String)
    ensures
        out@ == normalized(text@),
{
    let list = split_lines(text);
    let ghost all = views(list@);
    let mut kept: Vec<String> = Vec::new();
    let mut i: usize = 0;
    assert(views(kept@) =~= kept_lines(all.take(0)));
    while i < list.len()
        invariant
            i <= list@.len(),
            all == views(list@),
            views(kept@) == kept_lines(all.take(i as int)),
        decreases list@.len() - i,
    {
        assert(all.take(i + 1).drop_last() =~= all.take(i as int));
        assert(all.take(i + 1).last() == list@[i as int]@);
        let line = trimmed(list[i].as_str());
        if chars(line.as_str()).len() > 0 {
            let ghost before = views(kept@);
            let ghost added = line@;
            kept.push(line);
            assert(views(kept@) =~= before.push(added));
        }
        i = i + 1;
    }
    assert(all.take(i as int) =~= all);
    join_texts(kept.as_slice(), "\n")
}

/// The texts of parts so far, what could not be read, and what the account holds.
#[verifier::ext_equal]
pub struct PartTexts {
    pub texts: Seq<Seq<char>>,
    pub features: Seq<Seq<char>>,
    pub spent: u64,
}

/// What is told of a part that cannot be read.
pub open spec fn unread_part(index: int, chart_values: bool) -> Seq<char> {
    if chart_values {
        "图表标签 XML"@
    } else {
        "第 "@ + decimal((index + 1) as nat) + " 页 XML"@
    }
}

/// The texts after one more part.
pub open spec fn with_part_text(
    archive: Seq<u8>,
    part: Seq<char>,
    index: int,
    chart_values: bool,
    so_far: PartTexts,
    limits: ArchiveLimits,
) -> PartTexts {
    let (contents, total) = named_entry(archive, part, "PPTX"@, limits, so_far.spent);
    let text = match contents {
        Err(error) => Err(error),
        Ok(xml) => flow_text(xml_tokens(xml, false), powerpoint_flow(chart_values)),
    };
    match text {
        Ok(text) => PartTexts {
            texts: if trim(text).len() > 0 {
                so_far.texts.push(text)
            } else {
                so_far.texts
            },
            features: so_far.features,
            spent: total,
        },
        Err(_) => PartTexts {
            texts: so_far.texts,
            features: with_new(so_far.features, seq![unread_part(index, chart_values)]),
            spent: total,
        },
    }
}

/// The texts after the parts from `at` on.
pub open spec fn part_texts_from(
    archive: Seq<u8>,
    parts: Seq<Seq<char>>,
    at: int,
    chart_values: bool,
    so_far: PartTexts,
    limits: ArchiveLimits,
) -> PartTexts
    decreases parts.len() - at,
{
    if at < 0 || at >= parts.len() {
        so_far
    } else {
        part_texts_from(
            archive,
            parts,
            at + 1,
            chart_values,
            with_part_text(archive, parts[at], at, chart_values, so_far, limits),
            limits,
        )
    }
}

/// The text of a presentation and what could not be read of it.
#[derive(Debug)]
pub struct PptxExtraction {
    pub text: String,
    pub degraded_features: Vec<String>,
}

/// The text of a presentation and what could not be read of it, or why it has none. The slides come
/// first, then the charts on them.
pub open spec fn presentation_text(archive: Seq<u8>) -> Result<(Seq<char>, Seq<Seq<char>>), Failure> {
    let limits = limits_for(INDEX_ARCHIVE_EXPANDED_BYTES);
    match pptx_graph(archive) {
        Err(error) => Err(error),
        Ok(graph) => if graph.slides.len() == 0 {
            Err(failure(ErrorKind::Preview, "PPTX 中没有可提取的幻灯片。"@))
        } else {
            let none = PartTexts { texts: Seq::empty(), features: Seq::empty(), spent: 0 };
            let slides = part_texts_from(archive, graph.slides, 0, false, none, limits);
            let all = part_texts_from(archive, graph.charts, 0, true, slides, limits);
            let text = normalized(join(all.texts, "\n"@));
            Ok(
                (
                    if text.len() == 0 {
                        "演示文稿中没有可提取的文本。"@
                    } else {
                        text
                    },
                    all.features,
                ),
            )
        },
    }
}

/// Adds the text of one part.
fn add_part_text(
    archive: &[u8],
    part: &str,
    index: usize,
    chart_values: bool,
    texts: &mut Vec<String>,
    features: &mut Vec<String>,
    budget: &mut ExpansionBudget,
)
    requires
        index < usize::MAX,
    ensures
        final(budget).allowed() == old(budget).allowed(),
        (PartTexts {
            texts: views(final(texts)@),
            features: views(final(features)@),
            spent: final(budget).spent(),
        }) == with_part_text(
            archive@,
            part@,
            index as int,
            chart_values,
            PartTexts {
                texts: views(old(texts)@),
                features: views(old(features)@),
                spent: old(budget).spent(),
            },
            old(budget).allowed(),
        ),
{
    let text = match read_zip_entry_for(archive, part, "PPTX", budget) {
        Err(error) => Err(error),
        Ok(xml) => extract_powerpoint_text(xml.as_slice(), chart_values),
    };
    match text {
        Ok(text) => {
            if chars(trimmed(text.as_str()).as_str()).len() > 0 {
                let ghost before = views(texts@);
                let ghost added = text@;
                texts.push(text);
                assert(views(texts@) =~= before.push(added));
            }
        },
        Err(_) => {
            let mut told: Vec<String> = Vec::new();
            if chart_values {
                told.push("图表标签 XML".to_owned());
            } else {
                let mut feature = "第 ".to_owned();
                push_decimal(&mut feature, (index + 1) as u64);
                feature.append(" 页 XML");
                told.push(feature);
            }
            assert(views(told@) =~= seq![unread_part(index as int, chart_values)]);
            add_new(features, &told);
        },
    }
}

/// Adds the texts of parts.
fn add_part_texts(
    archive: &[u8],
    parts: &Vec<String>,
    chart_values: bool,
    texts: &mut Vec<String>,
    features: &mut Vec<String>,
    budget: &mut ExpansionBudget,
)
    ensures
        final(budget).allowed() == old(budget).allowed(),
        (PartTexts {
            texts: views(final(texts)@),
            features: views(final(features)@),
            spent: final(budget).spent(),
        }) == part_texts_from(
            archive@,
            views(parts@),
            0,
            chart_values,
            PartTexts {
                texts: views(old(texts)@),
                features: views(old(features)@),
                spent: old(budget).spent(),
            },
            old(budget).allowed(),
        ),
{
    let ghost list = views(parts@);
    let ghost limits = budget.allowed();
    let ghost start = PartTexts {
        texts: views(texts@),
        features: views(features@),
        spent: budget.spent(),
    };
    let size: usize = parts.len();
    let mut i: usize = 0;
    while i < size
        invariant
            i <= size,
            size == parts@.len(),
            list == views(parts@),
            budget.allowed() == limits,
            limits == old(budget).allowed(),
            start == (PartTexts {
                texts: views(old(texts)@),
                features: views(old(features)@),
                spent: old(budget).spent(),
            }),
            part_texts_from(
                archive@,
                list,
                i as int,
                chart_values,
                PartTexts { texts: views(texts@), features: views(features@), spent: budget.spent() },
                limits,
            ) == part_texts_from(archive@, list, 0, chart_values, start, limits),
        decreases size - i,
    {
        assert(list[i as int] == parts@[i as int]@);
        add_part_text(archive, parts[i].as_str(), i, chart_values, texts, features, budget);
        i = i + 1;
    }
}

/// The text of a presentation and what could not be read of it.
pub fn extract_pptx_text_from_bytes(archive: &[u8]) -> (result: LibraryResult<PptxExtraction>)
    ensures
        (match result {
            Ok(extraction) => Ok((extraction.text@, views(extraction.degraded_features@))),
            Err(error) => Err(error@),
        }) == presentation_text(archive@),
{
    let graph = match pptx_presentation_graph(archive) {
        Err(error) => {
            return Err(error);
        },
        Ok(graph) => graph,
    };
    assert(views(graph.slide_parts@).len() == graph.slide_parts@.len());
    if graph.slide_parts.len() == 0 {
        return Err(LibraryError::Preview("PPTX 中没有可提取的幻灯片。".to_owned()));
    }
    let mut budget = ExpansionBudget::new(ArchiveLimits::for_index());
    let mut texts: Vec<String> = Vec::new();
    let mut features: Vec<String> = Vec::new();
    assert(views(texts@) =~= Seq::empty());
    assert(views(features@) =~= Seq::empty());
    add_part_texts(archive, &graph.slide_parts, false, &mut texts, &mut features, &mut budget);
    add_part_texts(archive, &graph.chart_parts, true, &mut texts, &mut features, &mut budget);
    let mut text = normalize_extracted_text(join_texts(texts.as_slice(), "\n").as_str());
    if chars(text.as_str()).len() == 0 {
        text = "演示文稿中没有可提取的文本。".to_owned();
    }
    Ok(PptxExtraction { text, degraded_features: features })
}

/// What the name of an entry of a presentation tells.
pub open spec fn pptx_name_features(lower: Seq<char>) -> Seq<Seq<char>> {
    let diagrams: Seq<Seq<char>> = if contains(lower, "ppt/diagrams/"@) {
        seq!["SmartArt"@]
    } else {
        Seq::empty()
    };
    let charts: Seq<Seq<char>> = if contains(lower, "ppt/charts/"@) {
        seq!["复杂图表"@]
    } else {
        Seq::empty()
    };
    let embedded: Seq<Seq<char>> = if contains(lower, "ppt/embeddings/"@) {
        seq!["嵌入对象"@]
    } else {
        Seq::empty()
    };
    diagrams + charts + embedded + macro_features(lower)
}

/// What an entry of a presentation adds to what cannot be shown, and what the account holds after
/// it.
pub open spec fn pptx_entry_features(
    archive: Seq<u8>,
    name: Seq<char>,
    features: Seq<Seq<char>>,
    limits: ArchiveLimits,
    spent: u64,
) -> (Seq<Seq<char>>, u64) {
    let lower = ascii_lowercase(name);
    let named = with_new(features, pptx_name_features(lower));
    if !ends_with(lower, ".rels"@) {
        (named, spent)
    } else {
        let (contents, total) = named_entry(archive, name, "PPTX"@, limits, spent);
        match contents {
            Err(_) => (named, total),
            Ok(xml) => (with_new(named, remote_features(lower, utf8_lossy(xml))), total),
        }
    }
}

/// What the entries from `at` on add to what cannot be shown.
pub open spec fn pptx_features_from(
    archive: Seq<u8>,
    names: Seq<Seq<char>>,
    at: int,
    features: Seq<Seq<char>>,
    limits: ArchiveLimits,
    spent: u64,
) -> Seq<Seq<char>>
    decreases names.len() - at,
{
    if at < 0 || at >= names.len() {
        features
    } else {
        let (more, total) = pptx_entry_features(archive, names[at], features, limits, spent);
        pptx_features_from(archive, names, at + 1, more, limits, total)
    }
}

/// What a preview of a presentation cannot show.
pub open spec fn pptx_features(archive: Seq<u8>) -> Seq<Seq<char>> {
    let limits = limits_for(PREVIEW_ARCHIVE_EXPANDED_BYTES);
    match entry_names(archive, "PPTX"@, limits) {
        Err(_) => Seq::empty(),
        Ok(names) => pptx_features_from(archive, names, 0, Seq::empty(), limits, 0),
    }
}

/// Adds what an entry of a presentation tells.
fn inspect_pptx_entry(
    archive: &[u8],
    name: &str,
    features: &mut Vec<String>,
    budget: &mut ExpansionBudget,
)
    ensures
        final(budget).allowed() == old(budget).allowed(),
        (views(final(features)@), final(budget).spent()) == pptx_entry_features(
            archive@,
            name@,
            views(old(features)@),
            old(budget).allowed(),
            old(budget).spent(),
        ),
{
    let lower = chars(to_ascii_lowercase(name).as_str());
    let mut told: Vec<String> = Vec::new();
    assert(views(told@) =~= Seq::empty());
    note(&mut told, has_text(lower.as_slice(), "ppt/diagrams/"), "SmartArt");
    note(&mut told, has_text(lower.as_slice(), "ppt/charts/"), "复杂图表");
    note(&mut told, has_text(lower.as_slice(), "ppt/embeddings/"), "嵌入对象");
    note(&mut told, tells_macros(lower.as_slice()), "宏或 ActiveX");
    assert(views(told@) =~= pptx_name_features(lower@));
    add_new(features, &told);
    if !has_suffix(lower.as_slice(), ".rels") {
        return;
    }
    if let Ok(xml) = read_zip_entry_for(archive, name, "PPTX", budget) {
        let markup = from_utf8_lossy(xml.as_slice());
        add_new(features, &features_of_relationships(lower.as_slice(), markup.as_str()));
    }
}

/// What a preview of a presentation cannot show.
pub fn inspect_pptx_degradations(archive: &[u8]) -> (features: Vec<String>)
    ensures
        views(features@) == pptx_features(archive@),
{
    let mut features: Vec<String> = Vec::new();
    assert(views(features@) =~= Seq::empty());
    let limits = ArchiveLimits::for_preview();
    let names = match zip_entry_names_for(archive, "PPTX", limits) {
        Err(_) => {
            return features;
        },
        Ok(names) => names,
    };
    let ghost list = views(names@);
    let mut budget = ExpansionBudget::new(limits);
    let mut i: usize = 0;
    while i < names.len()
        invariant
            i <= names@.len(),
            list == views(names@),
            budget.allowed() == limits,
            limits == limits_for(PREVIEW_ARCHIVE_EXPANDED_BYTES),
            entry_names(archive@, "PPTX"@, limits) == Ok::<_, Failure>(list),
            pptx_features_from(
                archive@,
                list,
                i as int,
                views(features@),
                limits,
                budget.spent(),
            ) == pptx_features(archive@),
        decreases names@.len() - i,
    {
        assert(list[i as int] == names@[i as int]@);
        inspect_pptx_entry(archive, names[i].as_str(), &mut features, &mut budget);
        i = i + 1;
    }
    features
}

// ---- Laws ----

proof fn lemma_docx_features_stay(
    archive: Seq<u8>,
    names: Seq<Seq<char>>,
    at: int,
    features: Seq<Seq<char>>,
    limits: ArchiveLimits,
    spent: u64,
    feature: Seq<char>,
)
    requires
        features.contains(feature),
    ensures
        docx_features_from(archive, names, at, features, limits, spent).contains(feature),
    decreases names.len() - at,
{
    if 0 <= at < names.len() {
        let lower = ascii_lowercase(names[at]);
        let (more, total) = docx_entry_features(archive, names[at], features, limits, spent);
        lemma_with_new_holds_all(features, docx_name_features(lower));
        let named = with_new(features, docx_name_features(lower));
        let contents = named_entry(archive, names[at], "DOCX"@, limits, spent).0;
        if let Ok(xml) = contents {
            let marked = docx_markup_features(ascii_lowercase(utf8_lossy(xml)));
            lemma_with_new_holds_all(named, marked);
            lemma_with_new_holds_all(with_new(named, marked), remote_features(lower, utf8_lossy(xml)));
        }
        lemma_docx_features_stay(archive, names, at + 1, more, limits, total, feature);
    }
}

proof fn lemma_docx_names_tell(
    archive: Seq<u8>,
    names: Seq<Seq<char>>,
    from: int,
    at: int,
    features: Seq<Seq<char>>,
    limits: ArchiveLimits,
    spent: u64,
    feature: Seq<char>,
)
    requires
        0 <= from <= at < names.len(),
        docx_name_features(ascii_lowercase(names[at])).contains(feature),
    ensures
        docx_features_from(archive, names, from, features, limits, spent).contains(feature),
    decreases at - from,
{
    let lower = ascii_lowercase(names[from]);
    let (more, total) = docx_entry_features(archive, names[from], features, limits, spent);
    if from < at {
        lemma_docx_names_tell(archive, names, from + 1, at, more, limits, total, feature);
    } else {
        lemma_with_new_holds_all(features, docx_name_features(lower));
        let named = with_new(features, docx_name_features(lower));
        let contents = named_entry(archive, names[from], "DOCX"@, limits, spent).0;
        if let Ok(xml) = contents {
            let marked = docx_markup_features(ascii_lowercase(utf8_lossy(xml)));
            lemma_with_new_holds_all(named, marked);
            lemma_with_new_holds_all(with_new(named, marked), remote_features(lower, utf8_lossy(xml)));
        }
        lemma_docx_features_stay(archive, names, from + 1, more, limits, total, feature);
    }
}

/// A preview of a DOCX document tells of what lies in it and cannot be shown: charts and diagrams,
/// embedded objects, macros and controls, whatever the case of the letters of their names.
pub proof fn documents_tell_what_is_left_out(archive: Seq<u8>, names: Seq<Seq<char>>, at: int)
    requires
        entry_names(archive, "DOCX"@, limits_for(PREVIEW_ARCHIVE_EXPANDED_BYTES)) == Ok::<_, Failure>(
            names,
        ),
        0 <= at < names.len(),
    ensures
        ({
            let lower = ascii_lowercase(names[at]);
            &&& contains(lower, "word/charts/"@) || contains(lower, "word/diagrams/"@) ==> docx_features(
                archive,
            ).contains("图表或 SmartArt"@)
            &&& contains(lower, "word/embeddings/"@) ==> docx_features(archive).contains("嵌入对象"@)
            &&& ends_with(lower, "vbaproject.bin"@) || contains(lower, "activex"@) ==> docx_features(
                archive,
            ).contains("宏或 ActiveX"@)
        }),
{
    let lower = ascii_lowercase(names[at]);
    let limits = limits_for(PREVIEW_ARCHIVE_EXPANDED_BYTES);
    let told = docx_name_features(lower);
    let nothing = Seq::<Seq<char>>::empty();
    if contains(lower, "word/charts/"@) || contains(lower, "word/diagrams/"@) {
        assert(told[0] == "图表或 SmartArt"@);
        lemma_docx_names_tell(archive, names, 0, at, nothing, limits, 0, "图表或 SmartArt"@);
    }
    if contains(lower, "word/embeddings/"@) {
        let first: int = if contains(lower, "word/charts/"@) || contains(lower, "word/diagrams/"@) {
            1
        } else {
            0
        };
        assert(told[first] == "嵌入对象"@);
        lemma_docx_names_tell(archive, names, 0, at, nothing, limits, 0, "嵌入对象"@);
    }
    if ends_with(lower, "vbaproject.bin"@) || contains(lower, "activex"@) {
        assert(told[told.len() - 1] == "宏或 ActiveX"@);
        lemma_docx_names_tell(archive, names, 0, at, nothing, limits, 0, "宏或 ActiveX"@);
    }
}

proof fn lemma_pptx_features_stay(
    archive: Seq<u8>,
    names: Seq<Seq<char>>,
    at: int,
    features: Seq<Seq<char>>,
    limits: ArchiveLimits,
    spent: u64,
    feature: Seq<char>,
)
    requires
        features.contains(feature),
    ensures
        pptx_features_from(archive, names, at, features, limits, spent).contains(feature),
    decreases names.len() - at,
{
    if 0 <= at < names.len() {
        let lower = ascii_lowercase(names[at]);
        let (more, total) = pptx_entry_features(archive, names[at], features, limits, spent);
        lemma_with_new_holds_all(features, pptx_name_features(lower));
        let named = with_new(features, pptx_name_features(lower));
        let contents = named_entry(archive, names[at], "PPTX"@, limits, spent).0;
        if let Ok(xml) = contents {
            lemma_with_new_holds_all(named, remote_features(lower, utf8_lossy(xml)));
        }
        lemma_pptx_features_stay(archive, names, at + 1, more, limits, total, feature);
    }
}

proof fn lemma_pptx_names_tell(
    archive: Seq<u8>,
    names: Seq<Seq<char>>,
    from: int,
    at: int,
    features: Seq<Seq<char>>,
    limits: ArchiveLimits,
    spent: u64,
    feature: Seq<char>,
)
    requires
        0 <= from <= at < names.len(),
        pptx_name_features(ascii_lowercase(names[at])).contains(feature),
    ensures
        pptx_features_from(archive, names, from, features, limits, spent).contains(feature),
    decreases at - from,
{
    let lower = ascii_lowercase(names[from]);
    let (more, total) = pptx_entry_features(archive, names[from], features, limits, spent);
    if from < at {
        lemma_pptx_names_tell(archive, names, from + 1, at, more, limits, total, feature);
    } else {
        lemma_with_new_holds_all(features, pptx_name_features(lower));
        let named = with_new(features, pptx_name_features(lower));
        let contents = named_entry(archive, names[from], "PPTX"@, limits, spent).0;
        if let Ok(xml) = contents {
            lemma_with_new_holds_all(named, remote_features(lower, utf8_lossy(xml)));
        }
        lemma_pptx_features_stay(archive, names, from + 1, more, limits, total, feature);
    }
}

/// A preview of a presentation tells of what lies in it and cannot be shown: diagrams, charts,
/// embedded objects, macros and controls, whatever the case of the letters of their names.
pub proof fn presentations_tell_what_is_left_out(archive: Seq<u8>, names: Seq<Seq<char>>, at: int)
    requires
        entry_names(archive, "PPTX"@, limits_for(PREVIEW_ARCHIVE_EXPANDED_BYTES)) == Ok::<_, Failure>(
            names,
        ),
        0 <= at < names.len(),
    ensures
        ({
            let lower = ascii_lowercase(names[at]);
            &&& contains(lower, "ppt/diagrams/"@) ==> pptx_features(archive).contains("SmartArt"@)
            &&& contains(lower, "ppt/charts/"@) ==> pptx_features(archive).contains("复杂图表"@)
            &&& contains(lower, "ppt/embeddings/"@) ==> pptx_features(archive).contains("嵌入对象"@)
            &&& ends_with(lower, "vbaproject.bin"@) || contains(lower, "activex"@) ==> pptx_features(
                archive,
            ).contains("宏或 ActiveX"@)
        }),
{
    let lower = ascii_lowercase(names[at]);
    let limits = limits_for(PREVIEW_ARCHIVE_EXPANDED_BYTES);
    let told = pptx_name_features(lower);
    let nothing = Seq::<Seq<char>>::empty();
    let second: int = if contains(lower, "ppt/diagrams/"@) {
        1
    } else {
        0
    };
    let third: int = second + if contains(lower, "ppt/charts/"@) {
        1int
    } else {
        0int
    };
    if contains(lower, "ppt/diagrams/"@) {
        assert(told[0] == "SmartArt"@);
        lemma_pptx_names_tell(archive, names, 0, at, nothing, limits, 0, "SmartArt"@);
    }
    if contains(lower, "ppt/charts/"@) {
        assert(told[second] == "复杂图表"@);
        lemma_pptx_names_tell(archive, names, 0, at, nothing, limits, 0, "复杂图表"@);
    }
    if contains(lower, "ppt/embeddings/"@) {
        assert(told[third] == "嵌入对象"@);
        lemma_pptx_names_tell(archive, names, 0, at, nothing, limits, 0, "嵌入对象"@);
    }
    if ends_with(lower, "vbaproject.bin"@) || contains(lower, "activex"@) {
        assert(told[told.len() - 1] == "宏或 ActiveX"@);
        lemma_pptx_names_tell(archive, names, 0, at, nothing, limits, 0, "宏或 ActiveX"@);
    }
}

} // verus!
