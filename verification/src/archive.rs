//! ZIP archives: the end record, the headers, checksums, and expanding entries within a budget.

use std::io::Read;
use flate2::read::{DeflateDecoder, ZlibDecoder};
use vstd::prelude::*;
use crate::bytes::{bytes_at, get_u16, get_u32, le16, le32};
use crate::error::{failure, outcome, ErrorKind, Failure, LibraryError, LibraryResult};
use crate::limits::{
    charge_check, entry_check, limited_read, read_stream_limited, saturating_sum, ArchiveLimits,
    ExpansionBudget,
};
use crate::text::{occurs_at, rfind, rfind_before};

verus! {

// ---- Trusted items ----

/// Decoded bytes, or the reason why there are none, by views.
pub open spec fn decoded(result: Result<Vec<u8>, String>) -> Result<Seq<u8>, Seq<char>> {
    match result {
        Ok(bytes) => Ok(bytes@),
        Err(reason) => Err(reason@),
    }
}

/// The first `limit` bytes that a DEFLATE stream expands to, or why it cannot be expanded.
pub uninterp spec fn inflated(compressed: Seq<u8>, limit: u64) -> Result<Seq<u8>, Seq<char>>;

/// `flate2::read::DeflateDecoder`, read to its end but for at most `limit` bytes: a function of the
/// stream and the limit. The DEFLATE format is not stated.
#[verifier::external_body]
pub(crate) fn inflate(compressed: &[u8], limit: u64) -> (result: Result<Vec<u8>, String>)
    ensures
        decoded(result) == inflated(compressed@, limit),
        result matches Ok(bytes) ==> bytes@.len() <= limit,
{
    let mut bytes = Vec::new();
    match DeflateDecoder::new(compressed).take(limit).read_to_end(&mut bytes) {
        Ok(_) => Ok(bytes),
        Err(error) => Err(error.to_string()),
    }
}

/// The first `limit` bytes that a zlib stream expands to, or why it cannot be expanded.
pub uninterp spec fn zlib_inflated(compressed: Seq<u8>, limit: u64) -> Result<Seq<u8>, Seq<char>>;

/// `flate2::read::ZlibDecoder`, read to its end but for at most `limit` bytes: a function of the
/// stream and the limit. The zlib format is not stated.
#[verifier::external_body]
pub(crate) fn zlib_inflate(compressed: &[u8], limit: u64) -> (result: Result<Vec<u8>, String>)
    ensures
        decoded(result) == zlib_inflated(compressed@, limit),
        result matches Ok(bytes) ==> bytes@.len() <= limit,
{
    let mut bytes = Vec::new();
    match ZlibDecoder::new(compressed).take(limit).read_to_end(&mut bytes) {
        Ok(_) => Ok(bytes),
        Err(error) => Err(error.to_string()),
    }
}

// ---- Who reads ----

/// Who reads an archive: this settles the kind of the errors and some of their words.
#[derive(Debug, Clone, Copy, PartialEq, Eq, Structural)]
pub enum ArchiveReader {
    /// The check and the preview of an Office package.
    Package,
    /// The reader of workbooks.
    Workbook,
    /// The extraction of text.
    Extraction,
}

impl ArchiveReader {
    /// The kind of the errors.
    pub open spec fn kind(self) -> ErrorKind {
        match self {
            ArchiveReader::Extraction => ErrorKind::Preview,
            _ => ErrorKind::ImportFile,
        }
    }

    /// The error for an archive that ends too soon.
    pub open spec fn ended(self) -> Failure {
        failure(
            self.kind(),
            match self {
                ArchiveReader::Package => "OOXML 文件结构无效：文件意外结束。"@,
                ArchiveReader::Workbook => "表格文件结构无效：文件意外结束。"@,
                ArchiveReader::Extraction => "DOCX 文件结构无效：文件意外结束。"@,
            },
        )
    }

    /// The error that opens with the name of the format.
    pub open spec fn broken(self, format: Seq<char>, rest: Seq<char>) -> Failure {
        failure(self.kind(), format + rest)
    }

    /// The error with this text.
    pub fn error(self, detail: String) -> (error: LibraryError)
        ensures
            error@ == failure(self.kind(), detail@),
    {
        match self {
            ArchiveReader::Extraction => LibraryError::Preview(detail),
            _ => LibraryError::ImportFile(detail),
        }
    }

    /// The error for an archive that ends too soon.
    pub fn ended_error(self) -> (error: LibraryError)
        ensures
            error@ == self.ended(),
    {
        let detail = match self {
            ArchiveReader::Package => "OOXML 文件结构无效：文件意外结束。",
            ArchiveReader::Workbook => "表格文件结构无效：文件意外结束。",
            ArchiveReader::Extraction => "DOCX 文件结构无效：文件意外结束。",
        };
        self.error(detail.to_owned())
    }

    /// The error that opens with the name of the format.
    pub fn broken_error(self, format: &str, rest: &str) -> (error: LibraryError)
        ensures
            error@ == self.broken(format@, rest@),
    {
        let mut detail = format.to_owned();
        detail.append(rest);
        self.error(detail)
    }

    /// The number in the two bytes at `base + offset`.
    pub fn read_u16(self, archive: &[u8], base: usize, offset: usize) -> (result: LibraryResult<u16>)
        ensures
            match result {
                Ok(value) => base + offset + 2 <= archive@.len() && value == le16(
                    archive@,
                    base + offset,
                ),
                Err(error) => base + offset + 2 > archive@.len() && error@ == self.ended(),
            },
    {
        let size: usize = archive.len();
        match base.checked_add(offset) {
            None => Err(self.ended_error()),
            Some(at) => match get_u16(archive, at) {
                None => Err(self.ended_error()),
                Some(value) => Ok(value),
            },
        }
    }

    /// The number in the four bytes at `base + offset`.
    pub fn read_u32(self, archive: &[u8], base: usize, offset: usize) -> (result: LibraryResult<u32>)
        ensures
            match result {
                Ok(value) => base + offset + 4 <= archive@.len() && value == le32(
                    archive@,
                    base + offset,
                ),
                Err(error) => base + offset + 4 > archive@.len() && error@ == self.ended(),
            },
    {
        let size: usize = archive.len();
        match base.checked_add(offset) {
            None => Err(self.ended_error()),
            Some(at) => match get_u32(archive, at) {
                None => Err(self.ended_error()),
                Some(value) => Ok(value),
            },
        }
    }
}

// ---- Signatures ----

/// The signature of a local header.
pub const LOCAL_SIGNATURE: u32 = 0x0403_4b50;

/// The signature of a header in the central directory.
pub const CENTRAL_SIGNATURE: u32 = 0x0201_4b50;

/// The signature of the end record.
pub const END_SIGNATURE: u32 = 0x0605_4b50;

/// The bytes that open a local header.
pub open spec fn local_mark() -> Seq<u8> {
    seq![0x50u8, 0x4b, 0x03, 0x04]
}

/// The bytes that open the end record.
pub open spec fn end_mark() -> Seq<u8> {
    seq![0x50u8, 0x4b, 0x05, 0x06]
}

/// Whether the archive opens with a local header.
pub fn has_local_mark(archive: &[u8]) -> (found: bool)
    ensures
        found == occurs_at(archive@, local_mark(), 0),
{
    let mark: [u8; 4] = [0x50, 0x4b, 0x03, 0x04];
    assert(mark@ =~= local_mark());
    bytes_at(archive, vstd::array::array_as_slice(&mark), 0)
}

/// The end record can only stand this close to the end: it holds 22 bytes and a comment.
pub const END_RECORD_REACH: usize = 65_557;

/// The position of the end record: the last mark within reach of the end.
pub open spec fn end_record(archive: Seq<u8>) -> Option<int> {
    match rfind(archive, end_mark()) {
        Some(at) if at >= archive.len() - END_RECORD_REACH => Some(at),
        _ => None,
    }
}

/// The position of the end record: the last mark within reach of the end.
pub fn find_zip_eocd(archive: &[u8]) -> (found: Option<usize>)
    ensures
        found matches Some(at) ==> at + 4 <= archive@.len(),
        end_record(archive@) == (match found {
            Some(at) => Some(at as int),
            None => None,
        }),
{
    let mark: [u8; 4] = [0x50, 0x4b, 0x05, 0x06];
    assert(mark@ =~= end_mark());
    let mark = vstd::array::array_as_slice(&mark);
    let size: usize = archive.len();
    let start: usize = if size > END_RECORD_REACH {
        size - END_RECORD_REACH
    } else {
        0
    };
    if bytes_at(archive, mark, size) {
        return Some(size);
    }
    let mut at: usize = size;
    while at > start
        invariant
            mark@ == end_mark(),
            size == archive@.len(),
            start <= at <= size,
            start == (if size > END_RECORD_REACH {
                size - END_RECORD_REACH
            } else {
                0
            }),
            rfind_before(archive@, end_mark(), at - 1) == rfind(archive@, end_mark()),
        decreases at,
    {
        at = at - 1;
        if bytes_at(archive, mark, at) {
            return Some(at);
        }
    }
    proof {
        lemma_rfind_before_bound(archive@, end_mark(), at - 1);
    }
    None
}

proof fn lemma_rfind_before_bound<T>(hay: Seq<T>, needle: Seq<T>, before: int)
    ensures
        rfind_before(hay, needle, before) matches Some(at) ==> 0 <= at <= before && occurs_at(
            hay,
            needle,
            at,
        ),
    decreases before + 1,
{
    if before >= 0 && !occurs_at(hay, needle, before) {
        lemma_rfind_before_bound(hay, needle, before - 1);
    }
}

/// The number of entries and the position of the central directory.
pub open spec fn directory_at(archive: Seq<u8>, format: Seq<char>, reader: ArchiveReader) -> Result<
    (nat, nat),
    Failure,
> {
    match end_record(archive) {
        None => Err(reader.broken(format, " 文件结构无效：找不到 ZIP 中央目录。"@)),
        Some(at) => if at + 20 > archive.len() {
            Err(reader.ended())
        } else {
            Ok((le16(archive, at + 10), le32(archive, at + 16)))
        },
    }
}

/// The number of entries and the position of the central directory.
pub fn find_directory(archive: &[u8], format: &str, reader: ArchiveReader) -> (result: LibraryResult<
    (usize, usize),
>)
    ensures
        (match result {
            Ok(found) => Ok((found.0 as nat, found.1 as nat)),
            Err(error) => Err(error@),
        }) == directory_at(archive@, format@, reader),
        result matches Ok(found) ==> found.0 <= 0xffff,
{
    match find_zip_eocd(archive) {
        None => Err(reader.broken_error(format, " 文件结构无效：找不到 ZIP 中央目录。")),
        Some(at) => match reader.read_u16(archive, at, 10) {
            Err(error) => Err(error),
            Ok(count) => match reader.read_u32(archive, at, 16) {
                Err(error) => Err(error),
                Ok(start) => Ok((count as usize, start as usize)),
            },
        },
    }
}

// ---- Local headers ----

/// Where the data of an entry starts, or why it cannot be told.
pub open spec fn local_data_start(
    archive: Seq<u8>,
    offset: nat,
    format: Seq<char>,
    reader: ArchiveReader,
) -> Result<nat, Failure> {
    if offset + 4 > archive.len() {
        Err(reader.ended())
    } else if le32(archive, offset as int) != LOCAL_SIGNATURE {
        Err(reader.broken(format, " 文件结构无效：本地文件头损坏。"@))
    } else if offset + 30 > archive.len() {
        Err(reader.ended())
    } else {
        let start = offset + 30 + le16(archive, (offset + 26) as int) + le16(
            archive,
            (offset + 28) as int,
        );
        if start > usize::MAX {
            Err(reader.broken(format, " 文件结构无效：本地头长度溢出。"@))
        } else {
            Ok(start)
        }
    }
}

/// Where the data of an entry starts, or why it cannot be told.
pub fn zip_local_data_start(
    archive: &[u8],
    offset: usize,
    format: &str,
    reader: ArchiveReader,
) -> (result: LibraryResult<usize>)
    ensures
        (match result {
            Ok(start) => Ok(start as nat),
            Err(error) => Err(error@),
        }) == local_data_start(archive@, offset as nat, format@, reader),
{
    let signature: u32 = match reader.read_u32(archive, offset, 0) {
        Err(error) => {
            return Err(error);
        },
        Ok(value) => value,
    };
    if signature != LOCAL_SIGNATURE {
        return Err(reader.broken_error(format, " 文件结构无效：本地文件头损坏。"));
    }
    let name_length: u16 = match reader.read_u16(archive, offset, 26) {
        Err(error) => {
            return Err(error);
        },
        Ok(value) => value,
    };
    let extra_length: u16 = match reader.read_u16(archive, offset, 28) {
        Err(error) => {
            return Err(error);
        },
        Ok(value) => value,
    };
    let size: usize = archive.len();
    let lengths: usize = name_length as usize + extra_length as usize;
    match (offset + 30).checked_add(lengths) {
        None => Err(reader.broken_error(format, " 文件结构无效：本地头长度溢出。")),
        Some(start) => Ok(start),
    }
}

// ---- Checksums ----

/// One bit of the CRC-32 of ZIP.
pub open spec fn crc_bit(crc: u32) -> u32 {
    if crc & 1 == 1 {
        (crc >> 1) ^ 0xedb8_8320
    } else {
        crc >> 1
    }
}

/// Some bits of the CRC-32 of ZIP.
pub open spec fn crc_bits(crc: u32, count: nat) -> u32
    decreases count,
{
    if count == 0 {
        crc
    } else {
        crc_bit(crc_bits(crc, (count - 1) as nat))
    }
}

/// The register of the CRC-32 of ZIP after the bytes.
pub open spec fn crc_register(bytes: Seq<u8>) -> u32
    decreases bytes.len(),
{
    if bytes.len() == 0 {
        0xffff_ffff
    } else {
        crc_bits(crc_register(bytes.drop_last()) ^ (bytes.last() as u32), 8)
    }
}

/// The CRC-32 of ZIP.
pub open spec fn crc32_of(bytes: Seq<u8>) -> u32 {
    !crc_register(bytes)
}

/// The CRC-32 of ZIP.
pub fn crc32(bytes: &[u8]) -> (crc: u32)
    ensures
        crc == crc32_of(bytes@),
{
    let mut crc: u32 = 0xffff_ffff;
    let mut i: usize = 0;
    while i < bytes.len()
        invariant
            i <= bytes@.len(),
            crc == crc_register(bytes@.take(i as int)),
        decreases bytes@.len() - i,
    {
        assert(bytes@.take(i + 1).drop_last() =~= bytes@.take(i as int));
        crc = crc ^ (bytes[i] as u32);
        let ghost start = crc;
        let mut bit: u8 = 0;
        while bit < 8
            invariant
                bit <= 8,
                crc == crc_bits(start, bit as nat),
            decreases 8 - bit,
        {
            crc = if crc & 1 == 1 {
                (crc >> 1) ^ 0xedb8_8320
            } else {
                crc >> 1
            };
            bit = bit + 1;
        }
        i = i + 1;
    }
    assert(bytes@.take(i as int) =~= bytes@);
    !crc
}

// ---- Expanding within a budget ----

/// One byte above the size that an entry may have.
pub open spec fn read_limit(limits: ArchiveLimits) -> u64 {
    saturating_sum(limits.max_entry_bytes, 1)
}

/// What reading a decoded stream within the limits gives, and what the account holds after it.
pub open spec fn decoded_read(
    limits: ArchiveLimits,
    stream: Result<Seq<u8>, Seq<char>>,
    entry_name: Seq<char>,
    declared_bytes: u64,
    spent: u64,
) -> (Result<Seq<u8>, Failure>, u64) {
    match entry_check(limits, entry_name, declared_bytes) {
        Err(error) => (Err(error), spent),
        Ok(()) => match stream {
            Err(reason) => (Err(failure(ErrorKind::Io, reason)), spent),
            Ok(bytes) => limited_read(limits, bytes, entry_name, declared_bytes, spent),
        },
    }
}

/// Takes in a decoded stream within the limits.
pub fn read_decoded_limited(
    stream: Result<Vec<u8>, String>,
    entry_name: &str,
    declared_bytes: u64,
    budget: &mut ExpansionBudget,
) -> (result: LibraryResult<Vec<u8>>)
    ensures
        final(budget).allowed() == old(budget).allowed(),
        (outcome(result), final(budget).spent()) == decoded_read(
            old(budget).allowed(),
            decoded(stream),
            entry_name@,
            declared_bytes,
            old(budget).spent(),
        ),
{
    if let Err(error) = budget.check_entry_size(entry_name, declared_bytes) {
        return Err(error);
    }
    match stream {
        Err(reason) => Err(LibraryError::Io(reason)),
        Ok(bytes) => read_stream_limited(bytes.as_slice(), entry_name, declared_bytes, budget),
    }
}

/// Expands a DEFLATE stream within the limits.
pub fn read_deflated_limited(
    compressed: &[u8],
    entry_name: &str,
    declared_bytes: u64,
    budget: &mut ExpansionBudget,
) -> (result: LibraryResult<Vec<u8>>)
    ensures
        final(budget).allowed() == old(budget).allowed(),
        (outcome(result), final(budget).spent()) == decoded_read(
            old(budget).allowed(),
            inflated(compressed@, read_limit(old(budget).allowed())),
            entry_name@,
            declared_bytes,
            old(budget).spent(),
        ),
{
    if let Err(error) = budget.check_entry_size(entry_name, declared_bytes) {
        return Err(error);
    }
    let limit: u64 = budget.limits().max_entry_bytes.saturating_add(1);
    read_decoded_limited(inflate(compressed, limit), entry_name, declared_bytes, budget)
}

/// What copying stored bytes within the limits gives, and what the account holds after it. Stored
/// bytes are not held against the size of one entry.
pub open spec fn stored_read(
    limits: ArchiveLimits,
    stored: Seq<u8>,
    entry_name: Seq<char>,
    spent: u64,
) -> (Result<Seq<u8>, Failure>, u64) {
    let total = saturating_sum(spent, stored.len() as u64);
    match charge_check(limits, entry_name, total) {
        Err(error) => (Err(error), total),
        Ok(()) => (Ok(stored), total),
    }
}

/// Copies stored bytes and charges them.
pub fn read_stored(stored: &[u8], entry_name: &str, budget: &mut ExpansionBudget) -> (result:
    LibraryResult<Vec<u8>>)
    ensures
        final(budget).allowed() == old(budget).allowed(),
        (outcome(result), final(budget).spent()) == stored_read(
            old(budget).allowed(),
            stored@,
            entry_name@,
            old(budget).spent(),
        ),
{
    let size: usize = stored.len();
    let contents = crate::bytes::copy_between(stored, 0, size);
    assert(contents@ =~= stored@);
    match budget.charge(entry_name, size) {
        Ok(()) => Ok(contents),
        Err(error) => Err(error),
    }
}

} // verus!
