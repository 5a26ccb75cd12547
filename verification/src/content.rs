//! The content of files: whether it is what its format says, and the text that the index takes from
//! it.

use vstd::prelude::*;
use crate::bytes::bytes_at;
use crate::error::{
    failure, message_of, outcome, ErrorKind, Failure, LibraryError, LibraryResult,
};
use crate::extraction::{
    docx_text, extract_docx_text_from_bytes, extract_pptx_text_from_bytes, presentation_text,
};
use crate::formats::{
    format_name, require_capability_for_file_type, required_capability, DocumentFormatCapability,
    DocumentFormatId, TextExtractionStrategy, ValidationStrategy,
};
use crate::limits::{
    bound_extracted_text, input_check, limits_for, ArchiveLimits, ExpansionBudget,
    INDEX_ARCHIVE_EXPANDED_BYTES, MAX_EXTRACTED_TEXT_CHARS, TABLE_PREVIEW_ARCHIVE_EXPANDED_BYTES,
};
use crate::pdf_text::{extract_pdf_text, pdf_text};
use crate::slides::{pptx_graph, validate_pptx_package};
use crate::table::{
    extract_table_text, reason_view, table_check, table_index_text, validate_table_document,
};
use crate::text::{contains, from_utf8_lossy, occurs_at, starts_with, utf8_lossy};

verus! {

// ---- What a check reads ----

/// What a check reads of a file.
#[derive(Debug, Clone, Copy, PartialEq, Eq, Structural)]
pub enum ContentNeed {
    Nothing,
    /// At most so many bytes from its start.
    Start(usize),
    Whole,
}

/// What the check of a format reads of a file.
pub open spec fn need_of(validation: ValidationStrategy) -> ContentNeed {
    match validation {
        ValidationStrategy::PdfSignature => ContentNeed::Start(1024),
        ValidationStrategy::JpegSignature => ContentNeed::Start(3),
        ValidationStrategy::PngSignature => ContentNeed::Start(8),
        ValidationStrategy::DocxPackage => ContentNeed::Start(2),
        ValidationStrategy::PlainText => ContentNeed::Nothing,
        ValidationStrategy::PptxPackage => ContentNeed::Whole,
        ValidationStrategy::CsvText | ValidationStrategy::XlsxPackage => ContentNeed::Whole,
    }
}

/// What the check of a format reads of a file.
pub fn content_needed(validation: ValidationStrategy) -> (need: ContentNeed)
    ensures
        need == need_of(validation),
{
    match validation {
        ValidationStrategy::PdfSignature => ContentNeed::Start(1024),
        ValidationStrategy::JpegSignature => ContentNeed::Start(3),
        ValidationStrategy::PngSignature => ContentNeed::Start(8),
        ValidationStrategy::DocxPackage => ContentNeed::Start(2),
        ValidationStrategy::PlainText => ContentNeed::Nothing,
        ValidationStrategy::PptxPackage => ContentNeed::Whole,
        ValidationStrategy::CsvText => ContentNeed::Whole,
        ValidationStrategy::XlsxPackage => ContentNeed::Whole,
    }
}

/// The part of a file that is read.
pub open spec fn part_read(content: Seq<u8>, need: ContentNeed) -> Seq<u8> {
    match need {
        ContentNeed::Nothing => Seq::empty(),
        ContentNeed::Start(most) => start_of(content, most as nat),
        ContentNeed::Whole => content,
    }
}

/// At most `most` bytes from the start.
pub open spec fn start_of(content: Seq<u8>, most: nat) -> Seq<u8> {
    if content.len() > most {
        content.take(most as int)
    } else {
        content
    }
}

// ---- Checking a file ----

/// The limit on the size of files holds for the format.
pub open spec fn sized(validation: ValidationStrategy) -> bool {
    validation == ValidationStrategy::DocxPackage || validation == ValidationStrategy::PptxPackage
        || validation == ValidationStrategy::XlsxPackage || validation
        == ValidationStrategy::CsvText
}

/// Whether a file of this size is accepted, or why not.
pub open spec fn size_check(validation: ValidationStrategy, input_bytes: u64) -> Result<
    (),
    Seq<char>,
> {
    if sized(validation) {
        match input_check(limits_for(INDEX_ARCHIVE_EXPANDED_BYTES), input_bytes) {
            Ok(()) => Ok(()),
            Err(error) => Err(message_of(error)),
        }
    } else {
        Ok(())
    }
}

/// Checks the size of a file before its content is read.
pub fn validate_content_size(validation: ValidationStrategy, input_bytes: u64) -> (result: Result<
    (),
    String,
>)
    ensures
        reason_view(result) == size_check(validation, input_bytes),
{
    if validation == ValidationStrategy::DocxPackage || validation
        == ValidationStrategy::PptxPackage || validation == ValidationStrategy::XlsxPackage
        || validation == ValidationStrategy::CsvText {
        match ExpansionBudget::new(ArchiveLimits::for_index()).check_input_size(input_bytes) {
            Ok(()) => Ok(()),
            Err(error) => Err(error.message()),
        }
    } else {
        Ok(())
    }
}

/// The bytes that an encrypted Office file starts with.
pub open spec fn compound_signature() -> Seq<u8> {
    seq![0xd0u8, 0xcf, 0x11, 0xe0, 0xa1, 0xb1, 0x1a, 0xe1]
}

/// The bytes that a ZIP archive starts with.
pub open spec fn zip_signature() -> Seq<u8> {
    seq![0x50u8, 0x4b, 0x03, 0x04]
}

/// Whether a file is a presentation, or why not.
#[verifier::opaque]
pub open spec fn pptx_check(archive: Seq<u8>) -> Result<(), Failure> {
    if starts_with(archive, compound_signature()) {
        Err(failure(ErrorKind::ImportFile, "PPTX 已加密或使用受保护容器，无法导入。"@))
    } else if !starts_with(archive, zip_signature()) {
        Err(
            failure(
                ErrorKind::ImportFile,
                "文件内容不是有效的 PPTX：缺少 OOXML 压缩包结构。"@,
            ),
        )
    } else {
        match pptx_graph(archive) {
            Err(error) => Err(error),
            Ok(_) => Ok(()),
        }
    }
}

/// Checks that a file is a presentation.
pub fn validate_pptx_bytes(archive: &[u8]) -> (result: LibraryResult<()>)
    ensures
        outcome(result) == pptx_check(archive@),
{
    let compound: [u8; 8] = [0xd0, 0xcf, 0x11, 0xe0, 0xa1, 0xb1, 0x1a, 0xe1];
    let zip: [u8; 4] = [0x50, 0x4b, 0x03, 0x04];
    reveal(pptx_check);
    assert(compound@ =~= compound_signature());
    assert(zip@ =~= zip_signature());
    if bytes_at(archive, vstd::array::array_as_slice(&compound), 0) {
        return Err(
            LibraryError::ImportFile("PPTX 已加密或使用受保护容器，无法导入。".to_owned()),
        );
    }
    if !bytes_at(archive, vstd::array::array_as_slice(&zip), 0) {
        return Err(
            LibraryError::ImportFile(
                "文件内容不是有效的 PPTX：缺少 OOXML 压缩包结构。".to_owned(),
            ),
        );
    }
    match validate_pptx_package(archive) {
        Err(error) => Err(error),
        Ok(_) => Ok(()),
    }
}

/// The mark of a PDF file.
pub open spec fn pdf_mark() -> Seq<u8> {
    seq![0x25u8, 0x50, 0x44, 0x46, 0x2d]
}

/// Whether the content starts as it should, or why not.
pub open spec fn start_check(content: Seq<u8>, start: Seq<u8>, reason: Seq<char>) -> Result<
    (),
    Seq<char>,
> {
    if starts_with(content, start) {
        Ok(())
    } else {
        Err(reason)
    }
}

/// Whether the content is what a format says, or why not.
pub open spec fn content_check(
    validation: ValidationStrategy,
    id: DocumentFormatId,
    content: Seq<u8>,
) -> Result<(), Seq<char>> {
    match validation {
        ValidationStrategy::PdfSignature => if contains(start_of(content, 1024), pdf_mark()) {
            Ok(())
        } else {
            Err("文件内容不是有效的 PDF。"@)
        },
        ValidationStrategy::JpegSignature => start_check(
            content,
            seq![0xffu8, 0xd8, 0xff],
            "文件内容不是有效的 JPG。"@,
        ),
        ValidationStrategy::PngSignature => start_check(
            content,
            crate::images::png_signature(),
            "文件内容不是有效的 PNG。"@,
        ),
        ValidationStrategy::DocxPackage => start_check(
            content,
            seq![0x50u8, 0x4b],
            "文件内容不是有效的 DOCX。"@,
        ),
        ValidationStrategy::PlainText => Ok(()),
        ValidationStrategy::PptxPackage => match input_check(
            limits_for(INDEX_ARCHIVE_EXPANDED_BYTES),
            content.len() as u64,
        ) {
            Err(error) => Err(message_of(error)),
            Ok(()) => match pptx_check(content) {
                Err(error) => Err(message_of(error)),
                Ok(()) => Ok(()),
            },
        },
        ValidationStrategy::CsvText | ValidationStrategy::XlsxPackage => table_content_check(
            id,
            content,
        ),
    }
}

/// Whether the content is a table of this format, or why not.
#[verifier::opaque]
pub open spec fn table_content_check(id: DocumentFormatId, content: Seq<u8>) -> Result<
    (),
    Seq<char>,
> {
    table_check(content, format_name(id))
}

fn check_start(content: &[u8], start: &[u8], reason: &str) -> (result: Result<(), String>)
    ensures
        reason_view(result) == start_check(content@, start@, reason@),
{
    if bytes_at(content, start, 0) {
        Ok(())
    } else {
        Err(reason.to_owned())
    }
}

/// Whether the mark of a PDF file stands among the first bytes.
fn has_pdf_mark(content: &[u8]) -> (found: bool)
    ensures
        found == contains(start_of(content@, 1024), pdf_mark()),
{
    let mark: [u8; 5] = [0x25, 0x50, 0x44, 0x46, 0x2d];
    assert(mark@ =~= pdf_mark());
    let most: usize = if content.len() > 1024 {
        1024
    } else {
        content.len()
    };
    let start = vstd::slice::slice_subrange(content, 0, most);
    assert(start@ =~= start_of(content@, 1024));
    let found = crate::bytes::find_bytes_from(start, vstd::array::array_as_slice(&mark), 0);
    proof {
        if let Some(at) = found {
            assert(occurs_at(start@, pdf_mark(), at as int));
        } else {
            assert forall|at: int| !occurs_at(start@, pdf_mark(), at) by {}
        }
    }
    found.is_some()
}

/// Checks that the content of a file is what its format says. Of the content, as much is looked at as
/// [`content_needed`] tells.
pub fn validate_file_content(capability: &DocumentFormatCapability, content: &[u8]) -> (result: Result<
    (),
    String,
>)
    ensures
        reason_view(result) == content_check(capability.validation, capability.id, content@),
{
    let jpeg: [u8; 3] = [0xff, 0xd8, 0xff];
    let png: [u8; 8] = [0x89, 0x50, 0x4e, 0x47, 0x0d, 0x0a, 0x1a, 0x0a];
    let zip: [u8; 2] = [0x50, 0x4b];
    assert(jpeg@ =~= seq![0xffu8, 0xd8, 0xff]);
    assert(png@ =~= crate::images::png_signature());
    assert(zip@ =~= seq![0x50u8, 0x4b]);
    reveal(table_content_check);
    match capability.validation {
        ValidationStrategy::PdfSignature => {
            if has_pdf_mark(content) {
                Ok(())
            } else {
                Err("文件内容不是有效的 PDF。".to_owned())
            }
        },
        ValidationStrategy::JpegSignature => check_start(
            content,
            vstd::array::array_as_slice(&jpeg),
            "文件内容不是有效的 JPG。",
        ),
        ValidationStrategy::PngSignature => check_start(
            content,
            vstd::array::array_as_slice(&png),
            "文件内容不是有效的 PNG。",
        ),
        ValidationStrategy::DocxPackage => check_start(
            content,
            vstd::array::array_as_slice(&zip),
            "文件内容不是有效的 DOCX。",
        ),
        ValidationStrategy::PlainText => Ok(()),
        ValidationStrategy::PptxPackage => match ExpansionBudget::new(
            ArchiveLimits::for_index(),
        ).check_input_size(content.len() as u64) {
            Err(error) => Err(error.message()),
            Ok(()) => match validate_pptx_bytes(content) {
                Err(error) => Err(error.message()),
                Ok(()) => Ok(()),
            },
        },
        ValidationStrategy::CsvText => validate_table_document(content, capability.id.as_str()),
        ValidationStrategy::XlsxPackage => validate_table_document(content, capability.id.as_str()),
    }
}

// ---- Text for the index ----

/// How much of a plain text is read: the characters that are kept and the bytes of one more.
pub const MAX_TEXT_READ_BYTES: usize = 2 * 1024 * 1024 * 4 + 4;

/// The text of a plain text file. What lies beyond the limit is not looked at.
pub fn read_utf8_text(content: &[u8]) -> (text: String)
    ensures
        text@ == utf8_lossy(start_of(content@, MAX_TEXT_READ_BYTES as nat)),
{
    let most: usize = if content.len() > MAX_TEXT_READ_BYTES {
        MAX_TEXT_READ_BYTES
    } else {
        content.len()
    };
    let start = vstd::slice::slice_subrange(content, 0, most);
    assert(start@ =~= start_of(content@, MAX_TEXT_READ_BYTES as nat));
    from_utf8_lossy(start)
}

/// The start of a text that is kept.
pub open spec fn bounded(text: Seq<char>) -> Seq<char> {
    if text.len() > MAX_EXTRACTED_TEXT_CHARS {
        text.take(MAX_EXTRACTED_TEXT_CHARS as int)
    } else {
        text
    }
}

/// All text of a file, or why it cannot be read.
pub open spec fn whole_text(
    strategy: TextExtractionStrategy,
    content: Seq<u8>,
    file_type: Seq<char>,
) -> Result<Seq<char>, Failure> {
    match strategy {
        TextExtractionStrategy::PdfText => pdf_text(content),
        TextExtractionStrategy::DocxText => docx_text(content),
        TextExtractionStrategy::PlainText => Ok(
            utf8_lossy(start_of(content, MAX_TEXT_READ_BYTES as nat)),
        ),
        TextExtractionStrategy::NoText => Ok(Seq::empty()),
        TextExtractionStrategy::PptxText => match input_check(
            limits_for(INDEX_ARCHIVE_EXPANDED_BYTES),
            content.len() as u64,
        ) {
            Err(error) => Err(error),
            Ok(()) => match presentation_text(content) {
                Err(error) => Err(error),
                Ok((text, _)) => Ok(text),
            },
        },
        TextExtractionStrategy::TableText => match input_check(
            limits_for(TABLE_PREVIEW_ARCHIVE_EXPANDED_BYTES),
            content.len() as u64,
        ) {
            Err(error) => Err(error),
            Ok(()) => table_index_text(content, file_type),
        },
    }
}

/// The text of a file for the index, or why it cannot be read.
pub open spec fn search_text(content: Seq<u8>, file_type: Seq<char>) -> Result<Seq<char>, Failure> {
    match required_capability(file_type) {
        Err(error) => Err(error),
        Ok(capability) => match whole_text(capability.text_extraction, content, file_type) {
            Err(error) => Err(error),
            Ok(text) => Ok(bounded(text)),
        },
    }
}

/// The text of a file for the index.
pub fn extract_search_text(content: &[u8], file_type: &str) -> (result: LibraryResult<String>)
    ensures
        outcome(result) == search_text(content@, file_type@),
{
    let capability = match require_capability_for_file_type(file_type) {
        Err(error) => {
            return Err(error);
        },
        Ok(capability) => capability,
    };
    let text = match capability.text_extraction {
        TextExtractionStrategy::PdfText => extract_pdf_text(content),
        TextExtractionStrategy::DocxText => extract_docx_text_from_bytes(content),
        TextExtractionStrategy::PlainText => Ok(read_utf8_text(content)),
        TextExtractionStrategy::NoText => {
            let nothing = String::new();
            assert(nothing@ =~= Seq::empty());
            Ok(nothing)
        },
        TextExtractionStrategy::PptxText => match ExpansionBudget::new(
            ArchiveLimits::for_index(),
        ).check_input_size(content.len() as u64) {
            Err(error) => Err(error),
            Ok(()) => match extract_pptx_text_from_bytes(content) {
                Err(error) => Err(error),
                Ok(extraction) => Ok(extraction.text),
            },
        },
        TextExtractionStrategy::TableText => match ExpansionBudget::new(
            ArchiveLimits::for_table_preview(),
        ).check_input_size(content.len() as u64) {
            Err(error) => Err(error),
            Ok(()) => extract_table_text(content, file_type),
        },
    };
    match text {
        Err(error) => Err(error),
        Ok(text) => Ok(bound_extracted_text(text).text),
    }
}

// ---- Laws ----

/// What [`content_needed`] asks for decides the check: the rest of the file changes nothing.
pub proof fn the_part_read_decides(
    validation: ValidationStrategy,
    id: DocumentFormatId,
    content: Seq<u8>,
)
    ensures
        content_check(validation, id, part_read(content, need_of(validation))) == content_check(
            validation,
            id,
            content,
        ),
{
    let part = part_read(content, need_of(validation));
    match validation {
        ValidationStrategy::PdfSignature => {
            assert(start_of(part, 1024) =~= start_of(content, 1024));
        },
        ValidationStrategy::JpegSignature => {
            lemma_start_decides(content, seq![0xffu8, 0xd8, 0xff]);
        },
        ValidationStrategy::PngSignature => {
            lemma_start_decides(content, crate::images::png_signature());
        },
        ValidationStrategy::DocxPackage => {
            lemma_start_decides(content, seq![0x50u8, 0x4b]);
        },
        _ => {},
    }
}

/// As many bytes as a mark has decide whether it stands at the start.
proof fn lemma_start_decides(content: Seq<u8>, mark: Seq<u8>)
    ensures
        starts_with(start_of(content, mark.len()), mark) == starts_with(content, mark),
{
    let part = start_of(content, mark.len());
    if content.len() >= mark.len() {
        assert(part.subrange(0, mark.len() as int) =~= content.subrange(0, mark.len() as int));
    }
}

/// The text that the index takes from a file never exceeds the limit.
pub proof fn indexed_text_is_bounded(content: Seq<u8>, file_type: Seq<char>)
    ensures
        search_text(content, file_type) matches Ok(text) ==> text.len() <= MAX_EXTRACTED_TEXT_CHARS,
{
}

/// Of a plain text nothing beyond the limit is looked at.
pub proof fn long_texts_are_read_in_part(content: Seq<u8>, file_type: Seq<char>)
    requires
        required_capability(file_type) matches Ok(capability) && capability.text_extraction
            == TextExtractionStrategy::PlainText,
    ensures
        search_text(content, file_type) == search_text(
            start_of(content, MAX_TEXT_READ_BYTES as nat),
            file_type,
        ),
{
    let start = start_of(content, MAX_TEXT_READ_BYTES as nat);
    assert(start_of(start, MAX_TEXT_READ_BYTES as nat) =~= start);
}

/// The bytes stand in the content at this place.
pub open spec fn stand_at(content: Seq<u8>, bytes: Seq<u8>, at: int) -> bool {
    0 <= at <= content.len() - bytes.len() && forall|i: int|
        0 <= i < bytes.len() ==> content[at + i] == #[trigger] bytes[i]
}

/// The mark `%PDF-` stands in the content at this place.
pub open spec fn pdf_begins_at(content: Seq<u8>, at: int) -> bool {
    stand_at(content, seq![0x25u8, 0x50, 0x44, 0x46, 0x2d], at)
}

proof fn lemma_standing_is_occurring(content: Seq<u8>, bytes: Seq<u8>, at: int)
    ensures
        stand_at(content, bytes, at) == occurs_at(content, bytes, at),
{
    if 0 <= at <= content.len() - bytes.len() {
        let part = content.subrange(at, at + bytes.len());
        if occurs_at(content, bytes, at) {
            assert forall|i: int| 0 <= i < bytes.len() implies content[at + i] == #[trigger] bytes[i] by {
                assert(part[i] == content[at + i]);
            }
        }
        if stand_at(content, bytes, at) {
            assert(part =~= bytes);
        }
    }
}

/// A PDF file has its mark in its first 1024 bytes; pictures and DOCX files begin with theirs; a plain
/// text may begin with anything.
pub proof fn files_are_known_by_their_marks(id: DocumentFormatId, content: Seq<u8>)
    ensures
        content_check(ValidationStrategy::PdfSignature, id, content) is Ok <==> exists|at: int|
            at <= 1024 - 5 && #[trigger] pdf_begins_at(content, at),
        content_check(ValidationStrategy::JpegSignature, id, content) is Ok <==> stand_at(
            content,
            seq![0xffu8, 0xd8, 0xff],
            0,
        ),
        content_check(ValidationStrategy::PngSignature, id, content) is Ok <==> stand_at(
            content,
            seq![0x89u8, 0x50, 0x4e, 0x47, 0x0d, 0x0a, 0x1a, 0x0a],
            0,
        ),
        content_check(ValidationStrategy::DocxPackage, id, content) is Ok <==> stand_at(
            content,
            seq![0x50u8, 0x4b],
            0,
        ),
        content_check(ValidationStrategy::PlainText, id, content) is Ok,
{
    lemma_standing_is_occurring(content, seq![0xffu8, 0xd8, 0xff], 0);
    lemma_standing_is_occurring(content, crate::images::png_signature(), 0);
    lemma_standing_is_occurring(content, seq![0x50u8, 0x4b], 0);
    let start = start_of(content, 1024);
    let mark = pdf_mark();
    if contains(start, mark) {
        let at = choose|at: int| occurs_at(start, mark, at);
        lemma_standing_is_occurring(start, mark, at);
        assert(pdf_begins_at(content, at)) by {
            assert forall|i: int| 0 <= i < mark.len() implies content[at + i] == #[trigger] mark[i] by {
                assert(start[at + i] == content[at + i]);
            }
        }
    }
    if exists|at: int| at <= 1024 - 5 && #[trigger] pdf_begins_at(content, at) {
        let at = choose|at: int| at <= 1024 - 5 && #[trigger] pdf_begins_at(content, at);
        assert(stand_at(start, mark, at)) by {
            assert forall|i: int| 0 <= i < mark.len() implies start[at + i] == #[trigger] mark[i] by {
                assert(start[at + i] == content[at + i]);
            }
        }
        lemma_standing_is_occurring(start, mark, at);
    }
}

/// A presentation is refused where it begins as an encrypted file or not as an archive.
pub proof fn only_archives_are_presentations(archive: Seq<u8>)
    ensures
        stand_at(archive, seq![0xd0u8, 0xcf, 0x11, 0xe0, 0xa1, 0xb1, 0x1a, 0xe1], 0) || !stand_at(
            archive,
            seq![0x50u8, 0x4b, 0x03, 0x04],
            0,
        ) ==> pptx_check(archive) is Err,
{
    reveal(pptx_check);
    lemma_standing_is_occurring(archive, compound_signature(), 0);
    lemma_standing_is_occurring(archive, zip_signature(), 0);
}

} // verus!
