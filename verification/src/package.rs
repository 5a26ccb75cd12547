//! Office packages: reading all parts of a ZIP archive within limits, and writing parts back.

use vstd::prelude::*;
use crate::archive::{
    crc32, crc32_of, decoded_read, directory_at, end_mark, find_directory, has_local_mark, inflated,
    local_data_start, local_mark, read_deflated_limited, read_limit, read_stored, stored_read,
    zip_local_data_start, ArchiveReader, CENTRAL_SIGNATURE, END_SIGNATURE, LOCAL_SIGNATURE,
};
use crate::bytes::{
    bytes16, bytes32, le16, le32, lemma_le16_of_bytes16, lemma_le32_of_bytes32, push_bytes, push_u16,
    push_u32,
};
use crate::error::{failure, outcome, ErrorKind, Failure, LibraryError, LibraryResult};
use crate::limits::{
    entry_check, input_check, limits_for, ratio_check, ArchiveLimits, ExpansionBudget,
    MAX_ARCHIVE_INPUT_BYTES, MAX_ENTRY_DECLARED_BYTES,
};
use crate::parts::{normalize_part_name, normalized_part_name};
use crate::text::{decimal, from_utf8, occurs_at, push_decimal, rfind_before, same};

verus! {

/// A part of a package.
#[derive(Debug, Clone)]
pub struct PackageEntry {
    pub name: String,
    pub contents: Vec<u8>,
}

/// [`PackageEntry`] by characters and bytes.
#[verifier::ext_equal]
pub struct Entry {
    pub name: Seq<char>,
    pub contents: Seq<u8>,
}

impl View for PackageEntry {
    type V = Entry;

    open spec fn view(&self) -> Entry {
        Entry { name: self.name@, contents: self.contents@ }
    }
}

/// The parts by views.
pub open spec fn entry_views(entries: Seq<PackageEntry>) -> Seq<Entry> {
    entries.map_values(|entry: PackageEntry| entry@)
}

/// The parts that a result holds, or why it holds none, by views.
pub open spec fn entries_outcome(result: LibraryResult<Vec<PackageEntry>>) -> Result<
    Seq<Entry>,
    Failure,
> {
    match result {
        Ok(entries) => Ok(entry_views(entries@)),
        Err(error) => Err(error@),
    }
}

// ---- The central directory ----

/// What a header in the central directory says of its entry.
#[derive(Debug, Clone, Copy, PartialEq, Eq, Structural)]
pub struct CentralHeader {
    pub method: u16,
    pub crc: u32,
    pub compressed_size: u32,
    pub size: u32,
    pub name_length: u16,
    pub extra_length: u16,
    pub comment_length: u16,
    pub local_offset: u32,
}

/// The fields of the header at `cursor`.
pub open spec fn header_fields(archive: Seq<u8>, cursor: int) -> CentralHeader {
    CentralHeader {
        method: le16(archive, cursor + 10) as u16,
        crc: le32(archive, cursor + 16) as u32,
        compressed_size: le32(archive, cursor + 20) as u32,
        size: le32(archive, cursor + 24) as u32,
        name_length: le16(archive, cursor + 28) as u16,
        extra_length: le16(archive, cursor + 30) as u16,
        comment_length: le16(archive, cursor + 32) as u16,
        local_offset: le32(archive, cursor + 42) as u32,
    }
}

/// The header at `cursor`, or why it is refused.
pub open spec fn central_header(archive: Seq<u8>, cursor: int, format: Seq<char>) -> Result<
    CentralHeader,
    Failure,
> {
    let reader = ArchiveReader::Package;
    if cursor + 4 > archive.len() {
        Err(reader.ended())
    } else if le32(archive, cursor) != CENTRAL_SIGNATURE {
        Err(reader.broken(format, " 文件结构无效：中央目录项损坏。"@))
    } else if cursor + 10 > archive.len() {
        Err(reader.ended())
    } else if le16(archive, cursor + 8) % 2 == 1 {
        Err(reader.broken(format, " 已加密，无法导入。"@))
    } else if cursor + 46 > archive.len() {
        Err(reader.ended())
    } else {
        let header = header_fields(archive, cursor);
        if header.compressed_size == u32::MAX || header.size == u32::MAX {
            Err(
                failure(
                    ErrorKind::ImportFile,
                    "暂不支持 ZIP64 格式的 "@ + format + " 文件。"@,
                ),
            )
        } else {
            Ok(header)
        }
    }
}

/// The header at `cursor`, or why it is refused.
fn read_central_header(archive: &[u8], cursor: usize, format: &str) -> (result: LibraryResult<
    CentralHeader,
>)
    ensures
        (match result {
            Ok(header) => Ok(header),
            Err(error) => Err(error@),
        }) == central_header(archive@, cursor as int, format@),
        result is Ok ==> cursor + 46 <= archive@.len(),
{
    let reader = ArchiveReader::Package;
    let signature: u32 = match reader.read_u32(archive, cursor, 0) {
        Err(error) => {
            return Err(error);
        },
        Ok(value) => value,
    };
    if signature != CENTRAL_SIGNATURE {
        return Err(reader.broken_error(format, " 文件结构无效：中央目录项损坏。"));
    }
    let flags: u16 = match reader.read_u16(archive, cursor, 8) {
        Err(error) => {
            return Err(error);
        },
        Ok(value) => value,
    };
    if flags % 2 == 1 {
        return Err(reader.broken_error(format, " 已加密，无法导入。"));
    }
    let local_offset: u32 = match reader.read_u32(archive, cursor, 42) {
        Err(error) => {
            return Err(error);
        },
        Ok(value) => value,
    };
    match (
        reader.read_u16(archive, cursor, 10),
        reader.read_u32(archive, cursor, 16),
        reader.read_u32(archive, cursor, 20),
        reader.read_u32(archive, cursor, 24),
        reader.read_u16(archive, cursor, 28),
        reader.read_u16(archive, cursor, 30),
        reader.read_u16(archive, cursor, 32),
    ) {
        (
            Ok(method),
            Ok(crc),
            Ok(compressed_size),
            Ok(size),
            Ok(name_length),
            Ok(extra_length),
            Ok(comment_length),
        ) => {
            if compressed_size == u32::MAX || size == u32::MAX {
                let mut detail = "暂不支持 ZIP64 格式的 ".to_owned();
                detail.append(format);
                detail.append(" 文件。");
                return Err(LibraryError::ImportFile(detail));
            }
            Ok(
                CentralHeader {
                    method,
                    crc,
                    compressed_size,
                    size,
                    name_length,
                    extra_length,
                    comment_length,
                    local_offset,
                },
            )
        },
        _ => Err(reader.ended_error()),
    }
}

/// The normalized name of the entry whose header stands at `cursor`, or why it is refused.
pub open spec fn entry_name(
    archive: Seq<u8>,
    cursor: int,
    header: CentralHeader,
    format: Seq<char>,
    label: Seq<char>,
) -> Result<Seq<char>, Failure> {
    let reader = ArchiveReader::Package;
    let start = cursor + 46;
    let end = start + header.name_length;
    if end > usize::MAX {
        Err(reader.broken(format, " 文件结构无效：文件名长度溢出。"@))
    } else if end > archive.len() {
        Err(reader.broken(format, " 文件结构无效：文件名超出范围。"@))
    } else if !vstd::utf8::valid_utf8(archive.subrange(start, end)) {
        Err(reader.broken(format, " 文件结构无效：文件名不是有效 UTF-8。"@))
    } else {
        normalized_part_name(vstd::utf8::decode_utf8(archive.subrange(start, end)), label)
    }
}

/// The normalized name of the entry whose header stands at `cursor`, or why it is refused.
pub fn read_entry_name(
    archive: &[u8],
    cursor: usize,
    header: &CentralHeader,
    format: &str,
    label: &str,
) -> (result: LibraryResult<String>)
    requires
        cursor + 46 <= archive@.len(),
    ensures
        outcome(result) == entry_name(archive@, cursor as int, *header, format@, label@),
        result is Ok ==> cursor + 46 + header.name_length <= archive@.len(),
{
    let reader = ArchiveReader::Package;
    let size: usize = archive.len();
    let start: usize = cursor + 46;
    let end: usize = match start.checked_add(header.name_length as usize) {
        None => {
            return Err(reader.broken_error(format, " 文件结构无效：文件名长度溢出。"));
        },
        Some(end) => end,
    };
    if end > size {
        return Err(reader.broken_error(format, " 文件结构无效：文件名超出范围。"));
    }
    match from_utf8(vstd::slice::slice_subrange(archive, start, end)) {
        Err(_) => Err(reader.broken_error(format, " 文件结构无效：文件名不是有效 UTF-8。")),
        Ok(name) => normalize_part_name(name.as_str(), label),
    }
}

// ---- The data of an entry ----

/// What expanding the data gives by the method of the entry, and what the account holds after it.
pub open spec fn expanded(
    method: u16,
    data: Seq<u8>,
    name: Seq<char>,
    declared: u64,
    format: Seq<char>,
    limits: ArchiveLimits,
    spent: u64,
) -> (Result<Seq<u8>, Failure>, u64) {
    if method == 0 {
        stored_read(limits, data, name, spent)
    } else if method == 8 {
        decoded_read(limits, inflated(data, read_limit(limits)), name, declared, spent)
    } else {
        (
            Err(
                ArchiveReader::Package.broken(
                    format,
                    " 使用了不支持的压缩方式："@ + decimal(method as nat) + "。"@,
                ),
            ),
            spent,
        )
    }
}

/// The contents of an entry and what the account holds after them, or why it is refused.
pub open spec fn entry_contents(
    archive: Seq<u8>,
    header: CentralHeader,
    name: Seq<char>,
    format: Seq<char>,
    limits: ArchiveLimits,
    spent: u64,
) -> Result<(Seq<u8>, u64), Failure> {
    let reader = ArchiveReader::Package;
    match entry_check(limits, name, header.size as u64) {
        Err(error) => Err(error),
        Ok(()) => match ratio_check(
            limits,
            name,
            header.compressed_size as u64,
            header.size as u64,
        ) {
            Err(error) => Err(error),
            Ok(()) => match local_data_start(archive, header.local_offset as nat, format, reader) {
                Err(error) => Err(error),
                Ok(start) => {
                    let end = start + header.compressed_size;
                    if end > usize::MAX {
                        Err(reader.broken(format, " 文件结构无效：正文长度溢出。"@))
                    } else if end > archive.len() {
                        Err(reader.broken(format, " 文件结构无效：正文超出文件范围。"@))
                    } else {
                        let (contents, total) = expanded(
                            header.method,
                            archive.subrange(start as int, end as int),
                            name,
                            header.size as u64,
                            format,
                            limits,
                            spent,
                        );
                        match contents {
                            Err(error) => Err(error),
                            Ok(bytes) => if bytes.len() != header.size {
                                Err(
                                    reader.broken(
                                        format,
                                        " 文件结构无效：部件 "@ + name + " 的解压长度不一致。"@,
                                    ),
                                )
                            } else if header.crc != 0 && crc32_of(bytes) != header.crc {
                                Err(
                                    reader.broken(
                                        format,
                                        " 文件结构无效：部件 "@ + name + " 的 CRC 不匹配。"@,
                                    ),
                                )
                            } else {
                                Ok((bytes, total))
                            },
                        }
                    }
                },
            },
        },
    }
}

/// The contents of an entry, or why it is refused.
fn read_entry_contents(
    archive: &[u8],
    header: &CentralHeader,
    name: &str,
    format: &str,
    budget: &mut ExpansionBudget,
) -> (result: LibraryResult<Vec<u8>>)
    ensures
        final(budget).allowed() == old(budget).allowed(),
        (match result {
            Ok(contents) => Ok((contents@, final(budget).spent())),
            Err(error) => Err(error@),
        }) == entry_contents(
            archive@,
            *header,
            name@,
            format@,
            old(budget).allowed(),
            old(budget).spent(),
        ),
{
    let reader = ArchiveReader::Package;
    if let Err(error) = budget.check_entry_size(name, header.size as u64) {
        return Err(error);
    }
    if let Err(error) = budget.check_compression_ratio(
        name,
        header.compressed_size as u64,
        header.size as u64,
    ) {
        return Err(error);
    }
    let start: usize = match zip_local_data_start(
        archive,
        header.local_offset as usize,
        format,
        reader,
    ) {
        Err(error) => {
            return Err(error);
        },
        Ok(start) => start,
    };
    let end: usize = match start.checked_add(header.compressed_size as usize) {
        None => {
            return Err(reader.broken_error(format, " 文件结构无效：正文长度溢出。"));
        },
        Some(end) => end,
    };
    if end > archive.len() {
        return Err(reader.broken_error(format, " 文件结构无效：正文超出文件范围。"));
    }
    let data = vstd::slice::slice_subrange(archive, start, end);
    let contents: Vec<u8> = if header.method == 0 {
        match read_stored(data, name, budget) {
            Err(error) => {
                return Err(error);
            },
            Ok(contents) => contents,
        }
    } else if header.method == 8 {
        match read_deflated_limited(data, name, header.size as u64, budget) {
            Err(error) => {
                return Err(error);
            },
            Ok(contents) => contents,
        }
    } else {
        let mut rest = " 使用了不支持的压缩方式：".to_owned();
        push_decimal(&mut rest, header.method as u64);
        rest.append("。");
        return Err(reader.broken_error(format, rest.as_str()));
    };
    if contents.len() != header.size as usize {
        let mut rest = " 文件结构无效：部件 ".to_owned();
        rest.append(name);
        rest.append(" 的解压长度不一致。");
        return Err(reader.broken_error(format, rest.as_str()));
    }
    if header.crc != 0 && crc32(contents.as_slice()) != header.crc {
        let mut rest = " 文件结构无效：部件 ".to_owned();
        rest.append(name);
        rest.append(" 的 CRC 不匹配。");
        return Err(reader.broken_error(format, rest.as_str()));
    }
    Ok(contents)
}

// ---- All entries ----

/// Some part has this name.
pub open spec fn has_name(entries: Seq<Entry>, name: Seq<char>) -> bool {
    exists|i: int| 0 <= i < entries.len() && (#[trigger] entries[i]).name == name
}

/// Whether some part has this name.
pub fn has_entry(entries: &Vec<PackageEntry>, name: &str) -> (found: bool)
    ensures
        found == has_name(entry_views(entries@), name@),
{
    let ghost views = entry_views(entries@);
    let mut i: usize = 0;
    while i < entries.len()
        invariant
            i <= entries@.len(),
            views == entry_views(entries@),
            forall|j: int| 0 <= j < i ==> (#[trigger] views[j]).name != name@,
        decreases entries@.len() - i,
    {
        assert(views[i as int].name == entries@[i as int].name@);
        if same(entries[i].name.as_str(), name) {
            return true;
        }
        i = i + 1;
    }
    false
}

/// One entry that was read: the part, where the next header stands, what the account holds.
pub struct Step {
    pub entry: Entry,
    pub next: nat,
    pub spent: u64,
}

/// The entry whose header stands at `cursor`, after the entries `done`, or why it is refused.
#[verifier::opaque]
pub open spec fn entry_at(
    archive: Seq<u8>,
    format: Seq<char>,
    limits: ArchiveLimits,
    cursor: int,
    done: Seq<Entry>,
    spent: u64,
) -> Result<Step, Failure> {
    let reader = ArchiveReader::Package;
    match central_header(archive, cursor, format) {
        Err(error) => Err(error),
        Ok(header) => match entry_name(archive, cursor, header, format, "OOXML"@) {
            Err(error) => Err(error),
            Ok(name) => if has_name(done, name) {
                Err(
                    reader.broken(
                        format,
                        " 文件结构无效：部件名称重复："@ + name + "。"@,
                    ),
                )
            } else {
                match entry_contents(archive, header, name, format, limits, spent) {
                    Err(error) => Err(error),
                    Ok((contents, total)) => {
                        let next = cursor + 46 + header.name_length + header.extra_length
                            + header.comment_length;
                        if next > usize::MAX {
                            Err(reader.broken(format, " 文件结构无效：目录项长度溢出。"@))
                        } else {
                            Ok(
                                Step {
                                    entry: Entry { name, contents },
                                    next: next as nat,
                                    spent: total,
                                },
                            )
                        }
                    },
                }
            },
        },
    }
}

/// The entries `done` and the `left` ones whose headers stand from `cursor` on, or why one of them
/// is refused.
pub open spec fn entries_from(
    archive: Seq<u8>,
    format: Seq<char>,
    limits: ArchiveLimits,
    cursor: int,
    left: nat,
    done: Seq<Entry>,
    spent: u64,
) -> Result<Seq<Entry>, Failure>
    decreases left,
{
    if left == 0 {
        Ok(done)
    } else {
        match entry_at(archive, format, limits, cursor, done, spent) {
            Err(error) => Err(error),
            Ok(step) => entries_from(
                archive,
                format,
                limits,
                step.next as int,
                (left - 1) as nat,
                done.push(step.entry),
                step.spent,
            ),
        }
    }
}

/// The parts of a package, or why it is refused.
pub open spec fn package_entries(archive: Seq<u8>, format: Seq<char>, limits: ArchiveLimits) -> Result<
    Seq<Entry>,
    Failure,
> {
    match input_check(limits, archive.len() as u64) {
        Err(error) => Err(error),
        Ok(()) => if !occurs_at(archive, local_mark(), 0) {
            Err(
                failure(
                    ErrorKind::ImportFile,
                    "文件内容不是有效的 "@ + format + "：缺少 OOXML 压缩包结构。"@,
                ),
            )
        } else {
            match directory_at(archive, format, ArchiveReader::Package) {
                Err(error) => Err(error),
                Ok((count, start)) => entries_from(
                    archive,
                    format,
                    limits,
                    start as int,
                    count,
                    Seq::empty(),
                    0,
                ),
            }
        },
    }
}

/// Reads all parts of a package. Sizes and ratios are checked before anything is expanded, and
/// what is expanded is charged.
pub fn read_package_entries(archive: &[u8], format: &str, limits: ArchiveLimits) -> (result:
    LibraryResult<Vec<PackageEntry>>)
    ensures
        entries_outcome(result) == package_entries(archive@, format@, limits),
{
    let reader = ArchiveReader::Package;
    let mut budget = ExpansionBudget::new(limits);
    if let Err(error) = budget.check_input_size(archive.len() as u64) {
        return Err(error);
    }
    if !has_local_mark(archive) {
        let mut detail = "文件内容不是有效的 ".to_owned();
        detail.append(format);
        detail.append("：缺少 OOXML 压缩包结构。");
        return Err(LibraryError::ImportFile(detail));
    }
    let (count, start) = match find_directory(archive, format, reader) {
        Err(error) => {
            return Err(error);
        },
        Ok(found) => found,
    };
    let mut cursor: usize = start;
    let mut entries: Vec<PackageEntry> = Vec::new();
    let mut left: usize = count;
    assert(entry_views(entries@) =~= Seq::empty());
    while left > 0
        invariant
            budget.allowed() == limits,
            reader == ArchiveReader::Package,
            package_entries(archive@, format@, limits) == entries_from(
                archive@,
                format@,
                limits,
                cursor as int,
                left as nat,
                entry_views(entries@),
                budget.spent(),
            ),
        decreases left,
    {
        let ghost done = entry_views(entries@);
        proof {
            reveal(entry_at);
        }
        let header = match read_central_header(archive, cursor, format) {
            Err(error) => {
                return Err(error);
            },
            Ok(header) => header,
        };
        let name = match read_entry_name(archive, cursor, &header, format, "OOXML") {
            Err(error) => {
                return Err(error);
            },
            Ok(name) => name,
        };
        if has_entry(&entries, name.as_str()) {
            let mut rest = " 文件结构无效：部件名称重复：".to_owned();
            rest.append(name.as_str());
            rest.append("。");
            return Err(reader.broken_error(format, rest.as_str()));
        }
        let contents = match read_entry_contents(
            archive,
            &header,
            name.as_str(),
            format,
            &mut budget,
        ) {
            Err(error) => {
                return Err(error);
            },
            Ok(contents) => contents,
        };
        let size: usize = archive.len();
        let name_end: usize = cursor + 46 + header.name_length as usize;
        let lengths: usize = header.extra_length as usize + header.comment_length as usize;
        let next: usize = match name_end.checked_add(lengths) {
            None => {
                return Err(reader.broken_error(format, " 文件结构无效：目录项长度溢出。"));
            },
            Some(next) => next,
        };
        let entry = PackageEntry { name, contents };
        let ghost view = entry@;
        entries.push(entry);
        assert(entry_views(entries@) =~= done.push(view));
        cursor = next;
        left = left - 1;
    }
    Ok(entries)
}

// ---- Writing ----

/// The local header of a stored part, with its data.
pub open spec fn local_record(entry: Entry) -> Seq<u8> {
    let name = vstd::utf8::encode_utf8(entry.name);
    local_head(entry) + name + entry.contents
}

/// The fixed fields of the local header of a stored part.
#[verifier::opaque]
pub open spec fn local_head(entry: Entry) -> Seq<u8> {
    let name = vstd::utf8::encode_utf8(entry.name);
    bytes32(LOCAL_SIGNATURE as nat) + bytes16(20) + bytes16(0x0800) + bytes16(0) + bytes16(0)
        + bytes16(0) + bytes32(crc32_of(entry.contents) as nat) + bytes32(
        (entry.contents.len() as u32) as nat,
    ) + bytes32((entry.contents.len() as u32) as nat) + bytes16((name.len() as u16) as nat)
        + bytes16(0)
}

/// The header of a stored part in the central directory.
pub open spec fn central_record(entry: Entry, offset: nat) -> Seq<u8> {
    central_head(entry, offset) + vstd::utf8::encode_utf8(entry.name)
}

/// The fixed fields of the header of a stored part in the central directory.
#[verifier::opaque]
pub open spec fn central_head(entry: Entry, offset: nat) -> Seq<u8> {
    let name = vstd::utf8::encode_utf8(entry.name);
    bytes32(CENTRAL_SIGNATURE as nat) + bytes16(20) + bytes16(20) + bytes16(0x0800) + bytes16(0)
        + bytes16(0) + bytes16(0) + bytes32(crc32_of(entry.contents) as nat) + bytes32(
        (entry.contents.len() as u32) as nat,
    ) + bytes32((entry.contents.len() as u32) as nat) + bytes16((name.len() as u16) as nat)
        + bytes16(0) + bytes16(0) + bytes16(0) + bytes16(0) + bytes32(0) + bytes32(
        (offset as u32) as nat,
    )
}

/// The local headers and data of the parts, in order.
pub open spec fn local_records(entries: Seq<Entry>) -> Seq<u8>
    decreases entries.len(),
{
    if entries.len() == 0 {
        Seq::empty()
    } else {
        local_records(entries.drop_last()) + local_record(entries.last())
    }
}

/// The central directory of the parts, in order.
pub open spec fn central_records(entries: Seq<Entry>) -> Seq<u8>
    decreases entries.len(),
{
    if entries.len() == 0 {
        Seq::empty()
    } else {
        central_records(entries.drop_last()) + central_record(
            entries.last(),
            local_records(entries.drop_last()).len(),
        )
    }
}

/// The end record of a package with this many parts.
#[verifier::opaque]
pub open spec fn end_of_package(count: nat, directory_size: nat, directory_offset: nat) -> Seq<u8> {
    bytes32(END_SIGNATURE as nat) + bytes16(0) + bytes16(0) + bytes16((count as u16) as nat)
        + bytes16((count as u16) as nat) + bytes32((directory_size as u32) as nat) + bytes32(
        (directory_offset as u32) as nat,
    ) + bytes16(0)
}

/// The bytes of a package with these parts, all stored.
pub open spec fn package_bytes(entries: Seq<Entry>) -> Seq<u8> {
    local_records(entries) + central_records(entries) + end_of_package(
        entries.len(),
        central_records(entries).len(),
        local_records(entries).len(),
    )
}

/// Appends the local header of a stored part.
fn push_local_record(archive: &mut Vec<u8>, entry: &PackageEntry, crc: u32)
    requires
        crc == crc32_of(entry.contents@),
    ensures
        final(archive)@ == old(archive)@ + local_record(entry@),
{
    let ghost before = archive@;
    let name = entry.name.as_str().as_bytes();
    let size: u32 = entry.contents.len() as u32;
    push_u32(archive, LOCAL_SIGNATURE);
    push_u16(archive, 20);
    push_u16(archive, 0x0800);
    push_u16(archive, 0);
    push_u16(archive, 0);
    push_u16(archive, 0);
    push_u32(archive, crc);
    push_u32(archive, size);
    push_u32(archive, size);
    push_u16(archive, name.len() as u16);
    push_u16(archive, 0);
    assert(archive@ =~= before + local_head(entry@)) by {
        reveal(local_head);
    }
    push_bytes(archive, name);
    push_bytes(archive, entry.contents.as_slice());
    assert(archive@ =~= before + local_record(entry@));
}

/// Appends the header of a stored part in the central directory.
fn push_central_record(directory: &mut Vec<u8>, entry: &PackageEntry, crc: u32, offset: usize)
    requires
        crc == crc32_of(entry.contents@),
    ensures
        final(directory)@ == old(directory)@ + central_record(entry@, offset as nat),
{
    let ghost before = directory@;
    let name = entry.name.as_str().as_bytes();
    let size: u32 = entry.contents.len() as u32;
    push_u32(directory, CENTRAL_SIGNATURE);
    push_u16(directory, 20);
    push_u16(directory, 20);
    push_u16(directory, 0x0800);
    push_u16(directory, 0);
    push_u16(directory, 0);
    push_u16(directory, 0);
    push_u32(directory, crc);
    push_u32(directory, size);
    push_u32(directory, size);
    push_u16(directory, name.len() as u16);
    push_u16(directory, 0);
    push_u16(directory, 0);
    push_u16(directory, 0);
    push_u16(directory, 0);
    push_u32(directory, 0);
    push_u32(directory, offset as u32);
    assert(directory@ =~= before + central_head(entry@, offset as nat)) by {
        reveal(central_head);
    }
    push_bytes(directory, name);
    assert(directory@ =~= before + central_record(entry@, offset as nat));
}

/// Appends the end record of a package.
fn push_end_record(archive: &mut Vec<u8>, count: usize, size: usize, offset: usize)
    ensures
        final(archive)@ == old(archive)@ + end_of_package(
            count as nat,
            size as nat,
            offset as nat,
        ),
{
    let ghost before = archive@;
    push_u32(archive, END_SIGNATURE);
    push_u16(archive, 0);
    push_u16(archive, 0);
    push_u16(archive, count as u16);
    push_u16(archive, count as u16);
    push_u32(archive, size as u32);
    push_u32(archive, offset as u32);
    push_u16(archive, 0);
    assert(archive@ =~= before + end_of_package(count as nat, size as nat, offset as nat)) by {
        reveal(end_of_package);
    }
}

/// Writes a package with these parts, all stored.
pub fn write_package_entries(entries: &[PackageEntry]) -> (archive: Vec<u8>)
    ensures
        archive@ == package_bytes(entry_views(entries@)),
{
    let ghost views = entry_views(entries@);
    let mut archive: Vec<u8> = Vec::new();
    let mut directory: Vec<u8> = Vec::new();
    let mut i: usize = 0;
    while i < entries.len()
        invariant
            i <= entries@.len(),
            views == entry_views(entries@),
            archive@ == local_records(views.take(i as int)),
            directory@ == central_records(views.take(i as int)),
        decreases entries@.len() - i,
    {
        assert(views.take(i + 1).drop_last() =~= views.take(i as int));
        assert(views.take(i + 1).last() == entries@[i as int]@);
        let offset: usize = archive.len();
        let crc: u32 = crc32(entries[i].contents.as_slice());
        push_local_record(&mut archive, &entries[i], crc);
        push_central_record(&mut directory, &entries[i], crc, offset);
        i = i + 1;
    }
    assert(views.take(i as int) =~= views);
    let offset: usize = archive.len();
    let size: usize = directory.len();
    push_bytes(&mut archive, directory.as_slice());
    push_end_record(&mut archive, entries.len(), size, offset);
    archive
}

// ---- Laws ----

/// The number of bytes that the parts hold.
pub open spec fn content_size(entries: Seq<Entry>) -> nat
    decreases entries.len(),
{
    if entries.len() == 0 {
        0
    } else {
        content_size(entries.drop_last()) + entries.last().contents.len()
    }
}

/// A part that the limits of every purpose let through: its name is normalized and short enough to
/// be written, its contents are not too large.
pub open spec fn writable_entry(entry: Entry) -> bool {
    &&& normalized_part_name(entry.name, "OOXML"@) == Ok::<_, Failure>(entry.name)
    &&& vstd::utf8::encode_utf8(entry.name).len() <= 0xffff
    &&& entry.contents.len() <= MAX_ENTRY_DECLARED_BYTES
}

/// Parts that can be written and read again within a budget.
pub open spec fn writable(entries: Seq<Entry>, max_expanded_bytes: u64) -> bool {
    &&& 0 < entries.len() <= 0xffff
    &&& forall|i: int| 0 <= i < entries.len() ==> writable_entry(#[trigger] entries[i])
    &&& forall|i: int, j: int|
        0 <= i < j < entries.len() ==> (#[trigger] entries[i]).name != (#[trigger] entries[j]).name
    &&& package_bytes(entries).len() <= MAX_ARCHIVE_INPUT_BYTES
    &&& content_size(entries) <= max_expanded_bytes
}

/// The fields of the end record of a written package do not look like another end record.
pub open spec fn plain_end(entries: Seq<Entry>) -> bool {
    let archive = package_bytes(entries);
    forall|at: int| at > archive.len() - 22 ==> !occurs_at(archive, end_mark(), at)
}

proof fn lemma_occurs_in_middle<T>(before: Seq<T>, part: Seq<T>, after: Seq<T>, needle: Seq<T>, at: int)
    requires
        occurs_at(part, needle, at),
    ensures
        occurs_at(before + part + after, needle, before.len() + at),
{
    let all = before + part + after;
    assert(all.subrange(before.len() + at, before.len() + at + needle.len()) =~= part.subrange(
        at,
        at + needle.len(),
    ));
}

proof fn lemma_occurs_within<T>(hay: Seq<T>, part: Seq<T>, at: int, needle: Seq<T>, offset: int)
    requires
        occurs_at(hay, part, at),
        occurs_at(part, needle, offset),
    ensures
        occurs_at(hay, needle, at + offset),
{
    let found = hay.subrange(at + offset, at + offset + needle.len());
    assert forall|i: int| 0 <= i < needle.len() implies #[trigger] found[i] == needle[i] by {
        assert(hay.subrange(at, at + part.len())[offset + i] == part[offset + i]);
        assert(part.subrange(offset, offset + needle.len())[i] == needle[i]);
    }
    assert(found =~= needle);
}

proof fn lemma_local_record_stands(entries: Seq<Entry>, i: int)
    requires
        0 <= i < entries.len(),
    ensures
        occurs_at(
            local_records(entries),
            local_record(entries[i]),
            local_records(entries.take(i)).len() as int,
        ),
    decreases entries.len(),
{
    let shorter = entries.drop_last();
    let before = local_records(shorter);
    if i == entries.len() - 1 {
        assert(entries.take(i) =~= shorter);
        assert(local_records(entries).subrange(
            before.len() as int,
            (before.len() + local_record(entries[i]).len()) as int,
        ) =~= local_record(entries[i]));
    } else {
        lemma_local_record_stands(shorter, i);
        assert(shorter.take(i) =~= entries.take(i));
        lemma_occurs_in_middle(
            Seq::empty(),
            before,
            local_record(entries.last()),
            local_record(entries[i]),
            local_records(entries.take(i)).len() as int,
        );
        assert(Seq::empty() + before + local_record(entries.last()) =~= local_records(entries));
    }
}

proof fn lemma_central_record_stands(entries: Seq<Entry>, i: int)
    requires
        0 <= i < entries.len(),
    ensures
        occurs_at(
            central_records(entries),
            central_record(entries[i], local_records(entries.take(i)).len()),
            central_records(entries.take(i)).len() as int,
        ),
    decreases entries.len(),
{
    let shorter = entries.drop_last();
    let before = central_records(shorter);
    let last = central_record(entries.last(), local_records(shorter).len());
    if i == entries.len() - 1 {
        assert(entries.take(i) =~= shorter);
        assert(central_records(entries).subrange(
            before.len() as int,
            (before.len() + last.len()) as int,
        ) =~= last);
    } else {
        lemma_central_record_stands(shorter, i);
        assert(shorter.take(i) =~= entries.take(i));
        lemma_occurs_in_middle(
            Seq::empty(),
            before,
            last,
            central_record(entries[i], local_records(entries.take(i)).len()),
            central_records(entries.take(i)).len() as int,
        );
        assert(Seq::empty() + before + last =~= central_records(entries));
    }
}

proof fn lemma_central_head_fields(entry: Entry, offset: nat)
    ensures
        central_head(entry, offset).len() == 46,
        occurs_at(central_head(entry, offset), bytes32(CENTRAL_SIGNATURE as nat), 0),
        occurs_at(central_head(entry, offset), bytes16(0x0800), 8),
        occurs_at(central_head(entry, offset), bytes16(0), 10),
        occurs_at(central_head(entry, offset), bytes32(crc32_of(entry.contents) as nat), 16),
        occurs_at(
            central_head(entry, offset),
            bytes32((entry.contents.len() as u32) as nat),
            20,
        ),
        occurs_at(
            central_head(entry, offset),
            bytes32((entry.contents.len() as u32) as nat),
            24,
        ),
        occurs_at(
            central_head(entry, offset),
            bytes16((vstd::utf8::encode_utf8(entry.name).len() as u16) as nat),
            28,
        ),
        occurs_at(central_head(entry, offset), bytes16(0), 30),
        occurs_at(central_head(entry, offset), bytes16(0), 32),
        occurs_at(central_head(entry, offset), bytes32((offset as u32) as nat), 42),
{
    reveal(central_head);
    let head = central_head(entry, offset);
    assert(head.subrange(0, 4) =~= bytes32(CENTRAL_SIGNATURE as nat));
    assert(head.subrange(8, 10) =~= bytes16(0x0800));
    assert(head.subrange(10, 12) =~= bytes16(0));
    assert(head.subrange(16, 20) =~= bytes32(crc32_of(entry.contents) as nat));
    assert(head.subrange(20, 24) =~= bytes32((entry.contents.len() as u32) as nat));
    assert(head.subrange(24, 28) =~= bytes32((entry.contents.len() as u32) as nat));
    assert(head.subrange(28, 30) =~= bytes16(
        (vstd::utf8::encode_utf8(entry.name).len() as u16) as nat,
    ));
    assert(head.subrange(30, 32) =~= bytes16(0));
    assert(head.subrange(32, 34) =~= bytes16(0));
    assert(head.subrange(42, 46) =~= bytes32((offset as u32) as nat));
}

proof fn lemma_local_head_fields(entry: Entry)
    ensures
        local_head(entry).len() == 30,
        occurs_at(local_head(entry), bytes32(LOCAL_SIGNATURE as nat), 0),
        occurs_at(
            local_head(entry),
            bytes16((vstd::utf8::encode_utf8(entry.name).len() as u16) as nat),
            26,
        ),
        occurs_at(local_head(entry), bytes16(0), 28),
{
    reveal(local_head);
    let head = local_head(entry);
    assert(head.subrange(0, 4) =~= bytes32(LOCAL_SIGNATURE as nat));
    assert(head.subrange(26, 28) =~= bytes16(
        (vstd::utf8::encode_utf8(entry.name).len() as u16) as nat,
    ));
    assert(head.subrange(28, 30) =~= bytes16(0));
}

proof fn lemma_end_fields(count: nat, size: nat, offset: nat)
    ensures
        end_of_package(count, size, offset).len() == 22,
        occurs_at(end_of_package(count, size, offset), end_mark(), 0),
        occurs_at(end_of_package(count, size, offset), bytes16((count as u16) as nat), 10),
        occurs_at(end_of_package(count, size, offset), bytes32((offset as u32) as nat), 16),
{
    reveal(end_of_package);
    let end = end_of_package(count, size, offset);
    assert(bytes32(END_SIGNATURE as nat) =~= end_mark());
    assert(end.subrange(0, 4) =~= end_mark());
    assert(end.subrange(10, 12) =~= bytes16((count as u16) as nat));
    assert(end.subrange(16, 20) =~= bytes32((offset as u32) as nat));
}

/// The header of a written part reads as it was written.
proof fn lemma_header_reads_back(archive: Seq<u8>, entry: Entry, offset: nat, cursor: int, format: Seq<
    char,
>)
    requires
        writable_entry(entry),
        offset <= u32::MAX,
        occurs_at(archive, central_record(entry, offset), cursor),
    ensures
        central_header(archive, cursor, format) == Ok::<_, Failure>(
            (CentralHeader {
                method: 0,
                crc: crc32_of(entry.contents),
                compressed_size: entry.contents.len() as u32,
                size: entry.contents.len() as u32,
                name_length: vstd::utf8::encode_utf8(entry.name).len() as u16,
                extra_length: 0,
                comment_length: 0,
                local_offset: offset as u32,
            }),
        ),
        cursor + 46 + vstd::utf8::encode_utf8(entry.name).len() <= archive.len(),
        archive.subrange(
            cursor + 46,
            cursor + 46 + vstd::utf8::encode_utf8(entry.name).len(),
        ) == vstd::utf8::encode_utf8(entry.name),
{
    let record = central_record(entry, offset);
    let head = central_head(entry, offset);
    let name = vstd::utf8::encode_utf8(entry.name);
    lemma_central_head_fields(entry, offset);
    assert(occurs_at(record, head, 0)) by {
        assert(record.subrange(0, 46) =~= head);
    }
    lemma_occurs_within(archive, record, cursor, head, 0);
    let size = entry.contents.len() as u32;
    lemma_occurs_within(archive, head, cursor, bytes32(CENTRAL_SIGNATURE as nat), 0);
    lemma_occurs_within(archive, head, cursor, bytes16(0x0800), 8);
    lemma_occurs_within(archive, head, cursor, bytes16(0), 10);
    lemma_occurs_within(archive, head, cursor, bytes32(crc32_of(entry.contents) as nat), 16);
    lemma_occurs_within(archive, head, cursor, bytes32(size as nat), 20);
    lemma_occurs_within(archive, head, cursor, bytes32(size as nat), 24);
    lemma_occurs_within(archive, head, cursor, bytes16((name.len() as u16) as nat), 28);
    lemma_occurs_within(archive, head, cursor, bytes16(0), 30);
    lemma_occurs_within(archive, head, cursor, bytes16(0), 32);
    lemma_occurs_within(archive, head, cursor, bytes32((offset as u32) as nat), 42);
    lemma_le32_of_bytes32(CENTRAL_SIGNATURE, archive, cursor);
    lemma_le16_of_bytes16(0x0800, archive, cursor + 8);
    lemma_le16_of_bytes16(0, archive, cursor + 10);
    lemma_le32_of_bytes32(crc32_of(entry.contents), archive, cursor + 16);
    lemma_le32_of_bytes32(size, archive, cursor + 20);
    lemma_le32_of_bytes32(size, archive, cursor + 24);
    lemma_le16_of_bytes16(name.len() as u16, archive, cursor + 28);
    lemma_le16_of_bytes16(0, archive, cursor + 30);
    lemma_le16_of_bytes16(0, archive, cursor + 32);
    lemma_le32_of_bytes32(offset as u32, archive, cursor + 42);
    assert(record.subrange(46, (46 + name.len()) as int) =~= name);
    lemma_occurs_within(archive, record, cursor, name, 46);
}

/// The data of a written part reads as it was written.
proof fn lemma_contents_read_back(
    archive: Seq<u8>,
    entry: Entry,
    offset: nat,
    format: Seq<char>,
    max_expanded_bytes: u64,
    spent: u64,
)
    requires
        writable_entry(entry),
        archive.len() <= u32::MAX,
        occurs_at(archive, local_record(entry), offset as int),
        spent + entry.contents.len() <= max_expanded_bytes,
    ensures
        entry_contents(
            archive,
            (CentralHeader {
                method: 0,
                crc: crc32_of(entry.contents),
                compressed_size: entry.contents.len() as u32,
                size: entry.contents.len() as u32,
                name_length: vstd::utf8::encode_utf8(entry.name).len() as u16,
                extra_length: 0,
                comment_length: 0,
                local_offset: offset as u32,
            }),
            entry.name,
            format,
            limits_for(max_expanded_bytes),
            spent,
        ) == Ok::<_, Failure>((entry.contents, (spent + entry.contents.len()) as u64)),
{
    let record = local_record(entry);
    let head = local_head(entry);
    let name = vstd::utf8::encode_utf8(entry.name);
    lemma_local_head_fields(entry);
    assert(occurs_at(record, head, 0)) by {
        assert(record.subrange(0, 30) =~= head);
    }
    lemma_occurs_within(archive, record, offset as int, head, 0);
    lemma_occurs_within(archive, head, offset as int, bytes32(LOCAL_SIGNATURE as nat), 0);
    lemma_occurs_within(archive, head, offset as int, bytes16((name.len() as u16) as nat), 26);
    lemma_occurs_within(archive, head, offset as int, bytes16(0), 28);
    lemma_le32_of_bytes32(LOCAL_SIGNATURE, archive, offset as int);
    lemma_le16_of_bytes16(name.len() as u16, archive, (offset + 26) as int);
    lemma_le16_of_bytes16(0, archive, (offset + 28) as int);
    let start = offset + 30 + name.len();
    assert(record.subrange((30 + name.len()) as int, record.len() as int) =~= entry.contents);
    lemma_occurs_within(archive, record, offset as int, entry.contents, (30 + name.len()) as int);
    assert(local_data_start(archive, offset, format, ArchiveReader::Package) == Ok::<_, Failure>(
        start,
    ));
    assert(archive.subrange(start as int, (start + entry.contents.len()) as int)
        == entry.contents);
    let size = entry.contents.len() as u64;
    if size > 0 {
        assert(size / size == 1) by (nonlinear_arith)
            requires
                size > 0,
        ;
    }
    assert(ratio_check(limits_for(max_expanded_bytes), entry.name, size, size) is Ok);
}

proof fn lemma_sizes_add_up(entries: Seq<Entry>, i: int)
    requires
        0 <= i <= entries.len(),
    ensures
        content_size(entries.take(i)) <= content_size(entries),
        i < entries.len() ==> content_size(entries.take(i + 1)) == content_size(entries.take(i))
            + entries[i].contents.len(),
        i < entries.len() ==> central_records(entries.take(i + 1)).len() == central_records(
            entries.take(i),
        ).len() + 46 + vstd::utf8::encode_utf8(entries[i].name).len(),
    decreases entries.len() - i,
{
    if i < entries.len() {
        assert(entries.take(i + 1).drop_last() =~= entries.take(i));
        assert(entries.take(i + 1).last() == entries[i]);
        lemma_central_head_fields(entries[i], local_records(entries.take(i)).len());
        lemma_sizes_add_up(entries, i + 1);
    } else {
        assert(entries.take(i) =~= entries);
    }
}

/// Both records of a part stand in the written package.
proof fn lemma_records_stand_in_package(entries: Seq<Entry>, i: int)
    requires
        0 <= i < entries.len(),
    ensures
        occurs_at(
            package_bytes(entries),
            local_record(entries[i]),
            local_records(entries.take(i)).len() as int,
        ),
        occurs_at(
            package_bytes(entries),
            central_record(entries[i], local_records(entries.take(i)).len()),
            (local_records(entries).len() + central_records(entries.take(i)).len()) as int,
        ),
{
    let offset = local_records(entries.take(i)).len();
    let base = central_records(entries.take(i)).len();
    let locals = local_records(entries);
    let directory = central_records(entries);
    let end = end_of_package(entries.len(), directory.len(), locals.len());
    lemma_local_record_stands(entries, i);
    lemma_central_record_stands(entries, i);
    lemma_occurs_in_middle(
        locals,
        directory,
        end,
        central_record(entries[i], offset),
        base as int,
    );
    lemma_occurs_in_middle(
        Seq::empty(),
        locals,
        directory + end,
        local_record(entries[i]),
        offset as int,
    );
    assert(Seq::empty() + locals + (directory + end) =~= locals + directory + end);
}

/// A written part reads as it was written.
proof fn lemma_entry_reads_back(
    archive: Seq<u8>,
    entry: Entry,
    offset: nat,
    cursor: int,
    format: Seq<char>,
    max_expanded_bytes: u64,
    done: Seq<Entry>,
    spent: u64,
)
    requires
        0 <= cursor,
        writable_entry(entry),
        archive.len() <= u32::MAX,
        occurs_at(archive, local_record(entry), offset as int),
        occurs_at(archive, central_record(entry, offset), cursor),
        spent + entry.contents.len() <= max_expanded_bytes,
        !has_name(done, entry.name),
    ensures
        entry_at(archive, format, limits_for(max_expanded_bytes), cursor, done, spent) == Ok::<
            _,
            Failure,
        >(
            (Step {
                entry,
                next: (cursor + 46 + vstd::utf8::encode_utf8(entry.name).len()) as nat,
                spent: (spent + entry.contents.len()) as u64,
            }),
        ),
{
    reveal(entry_at);
    let name = vstd::utf8::encode_utf8(entry.name);
    lemma_header_reads_back(archive, entry, offset, cursor, format);
    lemma_contents_read_back(archive, entry, offset, format, max_expanded_bytes, spent);
    vstd::utf8::encode_utf8_valid_utf8(entry.name);
    vstd::utf8::encode_utf8_decode_utf8(entry.name);
    let header = central_header(archive, cursor, format)->Ok_0;
    assert(header.name_length == name.len());
    assert(archive.subrange(cursor + 46, cursor + 46 + header.name_length) == name);
    assert(entry_name(archive, cursor, header, format, "OOXML"@) == Ok::<_, Failure>(entry.name));
}

proof fn lemma_entries_read_back(
    entries: Seq<Entry>,
    archive: Seq<u8>,
    i: int,
    format: Seq<char>,
    max_expanded_bytes: u64,
)
    requires
        writable(entries, max_expanded_bytes),
        archive == package_bytes(entries),
        0 <= i <= entries.len(),
    ensures
        entries_from(
            archive,
            format,
            limits_for(max_expanded_bytes),
            (local_records(entries).len() + central_records(entries.take(i)).len()) as int,
            (entries.len() - i) as nat,
            entries.take(i),
            content_size(entries.take(i)) as u64,
        ) == Ok::<_, Failure>(entries),
    decreases entries.len() - i,
{
    let done = entries.take(i);
    if i == entries.len() {
        assert(done =~= entries);
    } else {
        let entry = entries[i];
        let offset = local_records(done).len();
        let cursor = (local_records(entries).len() + central_records(done).len()) as int;
        let spent = content_size(done) as u64;
        lemma_sizes_add_up(entries, i);
        lemma_sizes_add_up(entries, i + 1);
        lemma_records_stand_in_package(entries, i);
        assert(writable_entry(entries[i]));
        assert(!has_name(done, entry.name)) by {
            if has_name(done, entry.name) {
                let k = choose|k: int|
                    0 <= k < done.len() && (#[trigger] done[k]).name == entry.name;
                assert(entries[k].name != entries[i].name);
            }
        }
        lemma_entry_reads_back(
            archive,
            entry,
            offset,
            cursor,
            format,
            max_expanded_bytes,
            done,
            spent,
        );
        assert(done.push(entry) =~= entries.take(i + 1));
        lemma_entries_read_back(entries, archive, i + 1, format, max_expanded_bytes);
    }
}

/// The archive opens with a local header, and its end record names the directory.
proof fn lemma_directory_reads_back(entries: Seq<Entry>, format: Seq<char>)
    requires
        0 < entries.len() <= 0xffff,
        package_bytes(entries).len() <= u32::MAX,
        plain_end(entries),
    ensures
        occurs_at(package_bytes(entries), local_mark(), 0),
        directory_at(package_bytes(entries), format, ArchiveReader::Package) == Ok::<_, Failure>(
            (entries.len(), local_records(entries).len()),
        ),
{
    let archive = package_bytes(entries);
    let locals = local_records(entries);
    let directory = central_records(entries);
    let count = entries.len();
    let end = end_of_package(count, directory.len(), locals.len());
    let at = (locals.len() + directory.len()) as int;
    let first = entries[0];
    lemma_records_stand_in_package(entries, 0);
    lemma_local_head_fields(first);
    assert(entries.take(0) =~= Seq::empty());
    assert(occurs_at(local_record(first), local_head(first), 0)) by {
        assert(local_record(first).subrange(0, 30) =~= local_head(first));
    }
    lemma_occurs_within(archive, local_record(first), 0, local_head(first), 0);
    lemma_occurs_within(archive, local_head(first), 0, bytes32(LOCAL_SIGNATURE as nat), 0);
    assert(bytes32(LOCAL_SIGNATURE as nat) =~= local_mark());
    lemma_end_fields(count, directory.len(), locals.len());
    assert(occurs_at(archive, end, at)) by {
        assert(archive.subrange(at, at + 22) =~= end);
    }
    lemma_occurs_within(archive, end, at, end_mark(), 0);
    lemma_occurs_within(archive, end, at, bytes16((count as u16) as nat), 10);
    lemma_occurs_within(archive, end, at, bytes32((locals.len() as u32) as nat), 16);
    lemma_le16_of_bytes16(count as u16, archive, at + 10);
    lemma_le32_of_bytes32(locals.len() as u32, archive, at + 16);
    lemma_rfind_is_last(archive, end_mark(), archive.len() as int, at);
}

/// Reading a written package gives back the parts that were written: all that the limits let
/// through, but for a package whose end record looks like another one.
pub proof fn written_packages_read_back(
    entries: Seq<Entry>,
    format: Seq<char>,
    max_expanded_bytes: u64,
)
    requires
        writable(entries, max_expanded_bytes),
        plain_end(entries),
    ensures
        package_entries(package_bytes(entries), format, limits_for(max_expanded_bytes)) == Ok::<
            _,
            Failure,
        >(entries),
{
    lemma_directory_reads_back(entries, format);
    lemma_entries_read_back(entries, package_bytes(entries), 0, format, max_expanded_bytes);
    assert(entries.take(0) =~= Seq::empty());
}

proof fn lemma_rfind_is_last<T>(hay: Seq<T>, needle: Seq<T>, before: int, at: int)
    requires
        0 <= at <= before,
        occurs_at(hay, needle, at),
        forall|j: int| at < j <= before ==> !occurs_at(hay, needle, j),
    ensures
        rfind_before(hay, needle, before) == Some(at),
    decreases before - at,
{
    if at < before {
        lemma_rfind_is_last(hay, needle, before - 1, at);
    }
}

} // verus!
