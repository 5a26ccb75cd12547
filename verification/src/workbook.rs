//! Workbooks: the directory of the archive, and the parts that it names, expanded on demand.

use vstd::prelude::*;
use crate::archive::{
    crc32, crc32_of, decoded_read, directory_at, find_directory, has_local_mark, inflated,
    local_data_start, local_mark, read_deflated_limited, read_limit, zip_local_data_start,
    ArchiveReader, CENTRAL_SIGNATURE,
};
use crate::bytes::{le16, le32};
use crate::error::{failure, ErrorKind, Failure, LibraryError, LibraryResult};
use crate::limits::{
    entry_check, limited_read, ratio_check, read_stream_limited, ArchiveLimits, ExpansionBudget,
};
use crate::package::{entry_name, header_fields, read_entry_name, CentralHeader};
use crate::text::{chars, decimal, has_prefix, occurs_at, push_decimal, same, starts_with};

verus! {

// ---- The directory ----

/// What the directory says of an entry.
#[derive(Debug)]
pub struct ZipEntryMeta {
    pub name: String,
    pub compression: u16,
    pub crc32: u32,
    pub compressed_size: usize,
    pub uncompressed_size: u64,
    pub data_start: usize,
}

/// [`ZipEntryMeta`] by characters.
#[verifier::ext_equal]
pub struct Meta {
    pub name: Seq<char>,
    pub method: u16,
    pub crc: u32,
    pub compressed_size: nat,
    pub size: u64,
    pub start: nat,
}

impl View for ZipEntryMeta {
    type V = Meta;

    open spec fn view(&self) -> Meta {
        Meta {
            name: self.name@,
            method: self.compression,
            crc: self.crc32,
            compressed_size: self.compressed_size as nat,
            size: self.uncompressed_size,
            start: self.data_start as nat,
        }
    }
}

/// The entries by views.
pub open spec fn meta_views(entries: Seq<ZipEntryMeta>) -> Seq<Meta> {
    entries.map_values(|entry: ZipEntryMeta| entry@)
}

/// The directory of a workbook. Nothing is expanded until a part is asked for.
#[derive(Debug)]
pub struct ZipDirectory {
    pub entries: Vec<ZipEntryMeta>,
}

/// The header at `cursor`, or why it is refused.
pub open spec fn workbook_header(archive: Seq<u8>, cursor: int, format: Seq<char>) -> Result<
    CentralHeader,
    Failure,
> {
    let reader = ArchiveReader::Workbook;
    let header = header_fields(archive, cursor);
    if cursor + 4 > archive.len() {
        Err(reader.ended())
    } else if le32(archive, cursor) != CENTRAL_SIGNATURE {
        Err(reader.broken(format, " 文件结构无效：中央目录项损坏。"@))
    } else if cursor + 10 > archive.len() {
        Err(reader.ended())
    } else if le16(archive, cursor + 8) % 2 == 1 {
        Err(reader.broken(format, " 已加密，无法读取。"@))
    } else if cursor + 12 > archive.len() {
        Err(reader.ended())
    } else if header.method != 0 && header.method != 8 {
        Err(reader.broken(format, unsupported_method(header.method)))
    } else if cursor + 28 > archive.len() {
        Err(reader.ended())
    } else if header.size == u32::MAX {
        Err(failure(ErrorKind::ImportFile, "暂不支持 ZIP64 格式的 "@ + format + " 文件。"@))
    } else if cursor + 46 > archive.len() {
        Err(reader.ended())
    } else {
        Ok(header)
    }
}

/// The end of the error for a method of compression that is not known.
pub open spec fn unsupported_method(method: u16) -> Seq<char> {
    " 使用了不支持的压缩方式："@ + decimal(method as nat) + "。"@
}

/// The error for a method of compression that is not known.
fn unsupported_method_error(format: &str, method: u16) -> (error: LibraryError)
    ensures
        error@ == ArchiveReader::Workbook.broken(format@, unsupported_method(method)),
{
    let mut rest = " 使用了不支持的压缩方式：".to_owned();
    push_decimal(&mut rest, method as u64);
    rest.append("。");
    ArchiveReader::Workbook.broken_error(format, rest.as_str())
}

/// The header at `cursor`, or why it is refused.
fn read_workbook_header(archive: &[u8], cursor: usize, format: &str) -> (result: LibraryResult<
    CentralHeader,
>)
    ensures
        (match result {
            Ok(header) => Ok(header),
            Err(error) => Err(error@),
        }) == workbook_header(archive@, cursor as int, format@),
        result is Ok ==> cursor + 46 <= archive@.len(),
{
    let reader = ArchiveReader::Workbook;
    let signature: u32 = match reader.read_u32(archive, cursor, 0) {
        Err(error) => {
            return Err(error);
        },
        Ok(value) => value,
    };
    if signature != CENTRAL_SIGNATURE {
        return Err(reader.broken_error(format, " 文件结构无效：中央目录项损坏。"));
    }
    let flags: u16 = match reader.read_u16(archive, cursor, 8) {
        Err(error) => {
            return Err(error);
        },
        Ok(value) => value,
    };
    if flags % 2 == 1 {
        return Err(reader.broken_error(format, " 已加密，无法读取。"));
    }
    let method: u16 = match reader.read_u16(archive, cursor, 10) {
        Err(error) => {
            return Err(error);
        },
        Ok(value) => value,
    };
    if method != 0 && method != 8 {
        return Err(unsupported_method_error(format, method));
    }
    let size: u32 = match reader.read_u32(archive, cursor, 24) {
        Err(error) => {
            return Err(error);
        },
        Ok(value) => value,
    };
    if size == u32::MAX {
        let mut detail = "暂不支持 ZIP64 格式的 ".to_owned();
        detail.append(format);
        detail.append(" 文件。");
        return Err(LibraryError::ImportFile(detail));
    }
    let local_offset: u32 = match reader.read_u32(archive, cursor, 42) {
        Err(error) => {
            return Err(error);
        },
        Ok(value) => value,
    };
    match (
        reader.read_u32(archive, cursor, 16),
        reader.read_u32(archive, cursor, 20),
        reader.read_u16(archive, cursor, 28),
        reader.read_u16(archive, cursor, 30),
        reader.read_u16(archive, cursor, 32),
    ) {
        (Ok(crc), Ok(compressed_size), Ok(name_length), Ok(extra_length), Ok(comment_length)) => Ok(
            CentralHeader {
                method,
                crc,
                compressed_size,
                size,
                name_length,
                extra_length,
                comment_length,
                local_offset,
            },
        ),
        _ => Err(reader.ended_error()),
    }
}

/// An entry with this name is in the list.
pub open spec fn has_entry(entries: Seq<Meta>, name: Seq<char>) -> bool {
    exists|i: int| 0 <= i < entries.len() && (#[trigger] entries[i]).name == name
}

/// The end of the error for a part whose data leaves the archive.
pub open spec fn data_outside(name: Seq<char>) -> Seq<char> {
    " 文件结构无效：部件 "@ + name + " 的正文超出文件范围。"@
}

/// The error for a part whose data leaves the archive.
fn data_outside_error(format: &str, name: &str) -> (error: LibraryError)
    ensures
        error@ == ArchiveReader::Workbook.broken(format@, data_outside(name@)),
{
    let mut rest = " 文件结构无效：部件 ".to_owned();
    rest.append(name);
    rest.append(" 的正文超出文件范围。");
    ArchiveReader::Workbook.broken_error(format, rest.as_str())
}

/// The entry at `cursor` and the cursor behind it, or why it is refused. The entries before it are
/// `done`.
pub open spec fn meta_at(archive: Seq<u8>, cursor: int, done: Seq<Meta>, format: Seq<char>) -> Result<
    (Meta, int),
    Failure,
> {
    let reader = ArchiveReader::Workbook;
    match workbook_header(archive, cursor, format) {
        Err(error) => Err(error),
        Ok(header) => match entry_name(archive, cursor, header, format, format) {
            Err(error) => Err(error),
            Ok(name) => if has_entry(done, name) {
                Err(
                    reader.broken(
                        format,
                        " 文件结构无效：部件名称重复："@ + name + "。"@,
                    ),
                )
            } else {
                match local_data_start(archive, header.local_offset as nat, format, reader) {
                    Err(error) => Err(error),
                    Ok(start) => {
                        let next = cursor + 46 + header.name_length + header.extra_length
                            + header.comment_length;
                        if start + header.compressed_size > usize::MAX {
                            Err(reader.broken(format, " 文件结构无效：正文长度溢出。"@))
                        } else if start + header.compressed_size > archive.len() {
                            Err(reader.broken(format, data_outside(name)))
                        } else if next > usize::MAX {
                            Err(reader.broken(format, " 文件结构无效：目录项长度溢出。"@))
                        } else {
                            Ok(
                                (
                                    Meta {
                                        name,
                                        method: header.method,
                                        crc: header.crc,
                                        compressed_size: header.compressed_size as nat,
                                        size: header.size as u64,
                                        start,
                                    },
                                    next,
                                ),
                            )
                        }
                    },
                }
            },
        },
    }
}

/// The entries `done` and `count` more from `cursor` on, or why they are refused.
pub open spec fn metas_from(
    archive: Seq<u8>,
    count: nat,
    cursor: int,
    done: Seq<Meta>,
    format: Seq<char>,
) -> Result<Seq<Meta>, Failure>
    decreases count,
{
    if count == 0 {
        Ok(done)
    } else {
        match meta_at(archive, cursor, done, format) {
            Err(error) => Err(error),
            Ok((meta, next)) => metas_from(
                archive,
                (count - 1) as nat,
                next,
                done.push(meta),
                format,
            ),
        }
    }
}

/// The entries of an archive, or why it is refused.
pub open spec fn workbook_entries(archive: Seq<u8>, format: Seq<char>) -> Result<Seq<Meta>, Failure> {
    if !occurs_at(archive, local_mark(), 0) {
        Err(
            failure(
                ErrorKind::ImportFile,
                "不是有效的 "@ + format
                    + " 压缩包结构（可能是旧版 .xls、.ods 或已加密工作簿）。"@,
            ),
        )
    } else {
        match directory_at(archive, format, ArchiveReader::Workbook) {
            Err(error) => Err(error),
            Ok((count, cursor)) => metas_from(archive, count, cursor as int, Seq::empty(), format),
        }
    }
}

/// The first entry with this name.
pub open spec fn entry_named(entries: Seq<Meta>, name: Seq<char>) -> Option<Meta>
    decreases entries.len(),
{
    if entries.len() == 0 {
        None
    } else if entries[0].name == name {
        Some(entries[0])
    } else {
        entry_named(entries.skip(1), name)
    }
}

/// An entry whose name starts with the prefix is in the list.
pub open spec fn has_entry_under(entries: Seq<Meta>, prefix: Seq<char>) -> bool {
    exists|i: int| 0 <= i < entries.len() && starts_with((#[trigger] entries[i]).name, prefix)
}

// ---- Parts ----

/// The contents of an entry and what the account holds after them, or why it is refused.
pub open spec fn meta_contents(
    archive: Seq<u8>,
    meta: Meta,
    limits: ArchiveLimits,
    spent: u64,
    format: Seq<char>,
) -> Result<(Seq<u8>, u64), Failure> {
    let reader = ArchiveReader::Workbook;
    match entry_check(limits, meta.name, meta.size) {
        Err(error) => Err(error),
        Ok(()) => match ratio_check(limits, meta.name, meta.compressed_size as u64, meta.size) {
            Err(error) => Err(error),
            Ok(()) => if meta.start + meta.compressed_size > archive.len() {
                Err(reader.broken(format, data_outside(meta.name)))
            } else if meta.method != 0 && meta.method != 8 {
                Err(reader.broken(format, unsupported_method(meta.method)))
            } else {
                let data = archive.subrange(
                    meta.start as int,
                    (meta.start + meta.compressed_size) as int,
                );
                let (contents, total) = if meta.method == 0 {
                    limited_read(limits, data, meta.name, meta.size, spent)
                } else {
                    decoded_read(
                        limits,
                        inflated(data, read_limit(limits)),
                        meta.name,
                        meta.size,
                        spent,
                    )
                };
                match contents {
                    Err(error) => Err(error),
                    Ok(bytes) => if bytes.len() != meta.size {
                        Err(
                            reader.broken(
                                format,
                                " 文件结构无效：部件 "@ + meta.name + " 的解压长度不一致。"@,
                            ),
                        )
                    } else if meta.crc != 0 && crc32_of(bytes) != meta.crc {
                        Err(
                            reader.broken(
                                format,
                                " 文件结构无效：部件 "@ + meta.name + " 的 CRC 不匹配。"@,
                            ),
                        )
                    } else {
                        Ok((bytes, total))
                    },
                }
            },
        },
    }
}

/// The contents of the part with this name, where there is one, and what the account holds after
/// them, or why the part is refused.
pub open spec fn optional_part(
    archive: Seq<u8>,
    entries: Seq<Meta>,
    name: Seq<char>,
    limits: ArchiveLimits,
    spent: u64,
    format: Seq<char>,
) -> Result<(Option<Seq<u8>>, u64), Failure> {
    match entry_named(entries, name) {
        None => Ok((None, spent)),
        Some(meta) => match meta_contents(archive, meta, limits, spent, format) {
            Err(error) => Err(error),
            Ok((contents, total)) => Ok((Some(contents), total)),
        },
    }
}

/// The contents of the part with this name and what the account holds after them, or why not.
pub open spec fn needed_part(
    archive: Seq<u8>,
    entries: Seq<Meta>,
    name: Seq<char>,
    limits: ArchiveLimits,
    spent: u64,
    format: Seq<char>,
) -> Result<(Seq<u8>, u64), Failure> {
    match entry_named(entries, name) {
        None => Err(failure(ErrorKind::ImportFile, format + " 文件缺少 "@ + name + "。"@)),
        Some(meta) => meta_contents(archive, meta, limits, spent, format),
    }
}

/// What was read and what the account holds after it, by views.
pub open spec fn spent_outcome<T: View>(result: LibraryResult<T>, spent: u64) -> Result<
    (T::V, u64),
    Failure,
> {
    match result {
        Ok(value) => Ok((value@, spent)),
        Err(error) => Err(error@),
    }
}

impl ZipDirectory {
    /// The entries by views.
    pub open spec fn metas(self) -> Seq<Meta> {
        meta_views(self.entries@)
    }

    /// Whether an entry has this name.
    pub fn holds(&self, name: &str) -> (found: bool)
        ensures
            found == has_entry(self.metas(), name@),
    {
        let mut i: usize = 0;
        while i < self.entries.len()
            invariant
                i <= self.entries@.len(),
                forall|j: int| 0 <= j < i ==> (#[trigger] self.metas()[j]).name != name@,
            decreases self.entries@.len() - i,
        {
            assert(self.metas()[i as int] == self.entries@[i as int]@);
            if same(self.entries[i].name.as_str(), name) {
                return true;
            }
            i = i + 1;
        }
        false
    }

    /// Reads the directory of an archive.
    pub fn parse(archive: &[u8], format: &str) -> (result: LibraryResult<ZipDirectory>)
        ensures
            (match result {
                Ok(directory) => Ok(directory.metas()),
                Err(error) => Err(error@),
            }) == workbook_entries(archive@, format@),
    {
        let reader = ArchiveReader::Workbook;
        if !has_local_mark(archive) {
            let mut detail = "不是有效的 ".to_owned();
            detail.append(format);
            detail.append(" 压缩包结构（可能是旧版 .xls、.ods 或已加密工作簿）。");
            return Err(LibraryError::ImportFile(detail));
        }
        let (count, start) = match find_directory(archive, format, reader) {
            Err(error) => {
                return Err(error);
            },
            Ok(found) => found,
        };
        let mut directory = ZipDirectory { entries: Vec::new() };
        let mut cursor: usize = start;
        let mut left: usize = count;
        assert(directory.metas() =~= Seq::empty());
        while left > 0
            invariant
                reader == ArchiveReader::Workbook,
                occurs_at(archive@, local_mark(), 0),
                directory_at(archive@, format@, reader) == Ok::<(nat, nat), Failure>(
                    (count as nat, start as nat),
                ),
                metas_from(
                    archive@,
                    left as nat,
                    cursor as int,
                    directory.metas(),
                    format@,
                ) == metas_from(archive@, count as nat, start as int, Seq::empty(), format@),
            decreases left,
        {
            let header = match read_workbook_header(archive, cursor, format) {
                Err(error) => {
                    return Err(error);
                },
                Ok(header) => header,
            };
            let name = match read_entry_name(archive, cursor, &header, format, format) {
                Err(error) => {
                    return Err(error);
                },
                Ok(name) => name,
            };
            if directory.holds(name.as_str()) {
                let mut rest = " 文件结构无效：部件名称重复：".to_owned();
                rest.append(name.as_str());
                rest.append("。");
                return Err(reader.broken_error(format, rest.as_str()));
            }
            let data_start: usize = match zip_local_data_start(
                archive,
                header.local_offset as usize,
                format,
                reader,
            ) {
                Err(error) => {
                    return Err(error);
                },
                Ok(at) => at,
            };
            let compressed_size: usize = header.compressed_size as usize;
            match data_start.checked_add(compressed_size) {
                None => {
                    return Err(reader.broken_error(format, " 文件结构无效：正文长度溢出。"));
                },
                Some(data_end) => {
                    if data_end > archive.len() {
                        return Err(data_outside_error(format, name.as_str()));
                    }
                },
            }
            let lengths: usize = header.extra_length as usize + header.comment_length as usize;
            let name_end: usize = cursor + 46 + header.name_length as usize;
            let ghost before = directory.metas();
            let ghost meta = meta_at(archive@, cursor as int, before, format@)->Ok_0.0;
            match name_end.checked_add(lengths) {
                None => {
                    return Err(reader.broken_error(format, " 文件结构无效：目录项长度溢出。"));
                },
                Some(next) => {
                    directory.entries.push(
                        ZipEntryMeta {
                            name,
                            compression: header.method,
                            crc32: header.crc,
                            compressed_size,
                            uncompressed_size: header.size as u64,
                            data_start,
                        },
                    );
                    assert(directory.metas() =~= before.push(meta));
                    cursor = next;
                },
            }
            left = left - 1;
        }
        Ok(directory)
    }

    /// The entry with this name.
    pub fn find(&self, name: &str) -> (found: Option<&ZipEntryMeta>)
        ensures
            (match found {
                Some(entry) => Some(entry@),
                None => None,
            }) == entry_named(self.metas(), name@),
    {
        let ghost all = self.metas();
        let mut i: usize = 0;
        assert(all.skip(0) =~= all);
        while i < self.entries.len()
            invariant
                i <= self.entries@.len(),
                all == self.metas(),
                entry_named(all.skip(i as int), name@) == entry_named(all, name@),
            decreases self.entries@.len() - i,
        {
            assert(all.skip(i as int)[0] == self.entries@[i as int]@);
            assert(all.skip(i as int).skip(1) =~= all.skip(i + 1));
            if same(self.entries[i].name.as_str(), name) {
                return Some(&self.entries[i]);
            }
            i = i + 1;
        }
        None
    }

    /// Whether the name of an entry starts with the prefix.
    pub fn has_prefix(&self, prefix: &str) -> (found: bool)
        ensures
            found == has_entry_under(self.metas(), prefix@),
    {
        let mut i: usize = 0;
        while i < self.entries.len()
            invariant
                i <= self.entries@.len(),
                forall|j: int|
                    0 <= j < i ==> !starts_with((#[trigger] self.metas()[j]).name, prefix@),
            decreases self.entries@.len() - i,
        {
            assert(self.metas()[i as int] == self.entries@[i as int]@);
            if has_prefix(chars(self.entries[i].name.as_str()).as_slice(), prefix) {
                return true;
            }
            i = i + 1;
        }
        false
    }

    /// Expands one entry. Its declared size, its ratio, its real size and the total are all held
    /// against the limits.
    pub fn read_entry(archive: &[u8], entry: &ZipEntryMeta, budget: &mut ExpansionBudget, format: &str)
        -> (result: LibraryResult<Vec<u8>>)
        ensures
            final(budget).allowed() == old(budget).allowed(),
            spent_outcome(result, final(budget).spent()) == meta_contents(
                archive@,
                entry@,
                old(budget).allowed(),
                old(budget).spent(),
                format@,
            ),
    {
        let reader = ArchiveReader::Workbook;
        let name = entry.name.as_str();
        let size: u64 = entry.uncompressed_size;
        if let Err(error) = budget.check_entry_size(name, size) {
            return Err(error);
        }
        if let Err(error) = budget.check_compression_ratio(
            name,
            entry.compressed_size as u64,
            size,
        ) {
            return Err(error);
        }
        let end: usize = match entry.data_start.checked_add(entry.compressed_size) {
            None => {
                let length: usize = archive.len();
                return Err(data_outside_error(format, name));
            },
            Some(end) => end,
        };
        if end > archive.len() {
            return Err(data_outside_error(format, name));
        }
        if entry.compression != 0 && entry.compression != 8 {
            return Err(unsupported_method_error(format, entry.compression));
        }
        let data = vstd::slice::slice_subrange(archive, entry.data_start, end);
        let read = if entry.compression == 0 {
            read_stream_limited(data, name, size, budget)
        } else {
            read_deflated_limited(data, name, size, budget)
        };
        let contents = match read {
            Err(error) => {
                return Err(error);
            },
            Ok(contents) => contents,
        };
        if contents.len() as u64 != size {
            let mut rest = " 文件结构无效：部件 ".to_owned();
            rest.append(name);
            rest.append(" 的解压长度不一致。");
            return Err(reader.broken_error(format, rest.as_str()));
        }
        if entry.crc32 != 0 && crc32(contents.as_slice()) != entry.crc32 {
            let mut rest = " 文件结构无效：部件 ".to_owned();
            rest.append(name);
            rest.append(" 的 CRC 不匹配。");
            return Err(reader.broken_error(format, rest.as_str()));
        }
        Ok(contents)
    }

    /// Expands the part with this name.
    pub fn read(&self, archive: &[u8], name: &str, budget: &mut ExpansionBudget, format: &str) -> (result:
        LibraryResult<Vec<u8>>)
        ensures
            final(budget).allowed() == old(budget).allowed(),
            spent_outcome(result, final(budget).spent()) == needed_part(
                archive@,
                self.metas(),
                name@,
                old(budget).allowed(),
                old(budget).spent(),
                format@,
            ),
    {
        match self.find(name) {
            None => {
                let mut detail = format.to_owned();
                detail.append(" 文件缺少 ");
                detail.append(name);
                detail.append("。");
                Err(LibraryError::ImportFile(detail))
            },
            Some(entry) => ZipDirectory::read_entry(archive, entry, budget, format),
        }
    }

    /// Expands the part with this name, where there is one.
    pub fn read_optional(
        &self,
        archive: &[u8],
        name: &str,
        budget: &mut ExpansionBudget,
        format: &str,
    ) -> (result: LibraryResult<Option<Vec<u8>>>)
        ensures
            final(budget).allowed() == old(budget).allowed(),
            (match result {
                Ok(Some(contents)) => Ok((Some(contents@), final(budget).spent())),
                Ok(None) => Ok((None, final(budget).spent())),
                Err(error) => Err(error@),
            }) == optional_part(
                archive@,
                self.metas(),
                name@,
                old(budget).allowed(),
                old(budget).spent(),
                format@,
            ),
    {
        match self.find(name) {
            None => Ok(None),
            Some(entry) => match ZipDirectory::read_entry(archive, entry, budget, format) {
                Ok(contents) => Ok(Some(contents)),
                Err(error) => Err(error),
            },
        }
    }
}

// ---- Laws ----

/// No two entries of a directory have the same name, and the data of each stands inside the archive.
pub proof fn directories_hold_each_name_once(
    archive: Seq<u8>,
    count: nat,
    cursor: int,
    done: Seq<Meta>,
    format: Seq<char>,
)
    requires
        well_listed(archive, done),
        metas_from(archive, count, cursor, done, format) is Ok,
    ensures
        well_listed(archive, metas_from(archive, count, cursor, done, format)->Ok_0),
    decreases count,
{
    if count > 0 {
        let (meta, next) = meta_at(archive, cursor, done, format)->Ok_0;
        let more = done.push(meta);
        assert forall|i: int, j: int| 0 <= i < j < more.len() implies (#[trigger] more[i]).name
            != (#[trigger] more[j]).name by {
            if j == done.len() {
                assert(done[i].name != meta.name);
            }
        }
        directories_hold_each_name_once(archive, (count - 1) as nat, next, more, format);
    }
}

/// The names differ from each other, and the data of each entry stands inside the archive.
pub open spec fn well_listed(archive: Seq<u8>, entries: Seq<Meta>) -> bool {
    &&& forall|i: int, j: int|
        0 <= i < j < entries.len() ==> (#[trigger] entries[i]).name != (#[trigger] entries[j]).name
    &&& forall|i: int|
        0 <= i < entries.len() ==> (#[trigger] entries[i]).start + entries[i].compressed_size
            <= archive.len()
}

/// An entry is found by its name: the first one, where there are several.
pub proof fn entries_are_found_by_name(entries: Seq<Meta>, at: int)
    requires
        0 <= at < entries.len(),
        forall|i: int| 0 <= i < at ==> (#[trigger] entries[i]).name != entries[at].name,
    ensures
        entry_named(entries, entries[at].name) == Some(entries[at]),
    decreases entries.len(),
{
    if at > 0 {
        let rest = entries.skip(1);
        assert(entries[0].name != entries[at].name);
        assert forall|i: int| 0 <= i < at - 1 implies (#[trigger] rest[i]).name != rest[at - 1].name by {
            assert(rest[i] == entries[i + 1]);
        }
        entries_are_found_by_name(rest, at - 1);
    }
}

/// No entry is found under a name that none has.
pub proof fn other_names_are_not_found(entries: Seq<Meta>, name: Seq<char>)
    ensures
        entry_named(entries, name) is Some <==> has_entry(entries, name),
    decreases entries.len(),
{
    if entries.len() > 0 {
        let rest = entries.skip(1);
        other_names_are_not_found(rest, name);
        if entries[0].name == name {
            assert(has_entry(entries, name));
        } else if has_entry(rest, name) {
            let i = choose|i: int| 0 <= i < rest.len() && (#[trigger] rest[i]).name == name;
            assert(entries[i + 1].name == name);
        } else if has_entry(entries, name) {
            let i = choose|i: int| 0 <= i < entries.len() && (#[trigger] entries[i]).name == name;
            assert(rest[i - 1].name == name);
        }
    }
}

/// A part that is needed is refused where it is missing; one that may be missing costs nothing there.
/// Where there is one, both are read alike.
pub proof fn missing_parts_are_told_apart(
    archive: Seq<u8>,
    entries: Seq<Meta>,
    name: Seq<char>,
    limits: ArchiveLimits,
    spent: u64,
    format: Seq<char>,
)
    ensures
        !has_entry(entries, name) ==> optional_part(archive, entries, name, limits, spent, format)
            == Ok::<(Option<Seq<u8>>, u64), Failure>((None, spent)) && needed_part(
            archive,
            entries,
            name,
            limits,
            spent,
            format,
        ) is Err,
        has_entry(entries, name) ==> match needed_part(
            archive,
            entries,
            name,
            limits,
            spent,
            format,
        ) {
            Ok((contents, total)) => optional_part(archive, entries, name, limits, spent, format)
                == Ok::<(Option<Seq<u8>>, u64), Failure>((Some(contents), total)),
            Err(error) => optional_part(archive, entries, name, limits, spent, format) == Err::<
                (Option<Seq<u8>>, u64),
                Failure,
            >(error),
        },
{
    other_names_are_not_found(entries, name);
}

} // verus!
