//! Previews of documents and the small pictures that stand for them.

use vstd::prelude::*;
use crate::content::{bounded, read_utf8_text, start_of, MAX_TEXT_READ_BYTES};
use crate::csv::row_views;
use crate::error::{
    code_of, failure, message_of, outcome, ErrorKind, Failure, LibraryError, LibraryResult,
};
use crate::extraction::{
    docx_features, docx_text, extract_docx_text_from_bytes, extract_pptx_text_from_bytes,
    inspect_docx_degradations, inspect_pptx_degradations, pptx_features, presentation_text,
};
use crate::formats::{
    format_name, Capability, DocumentFormatCapability, DocumentFormatId, PreviewStrategy,
    ThumbnailStrategy,
};
use crate::images::{base64_text, data_url, fit_thumbnail, is_png, is_supported_thumbnail_image};
use crate::images::{link_text, png_size};
use crate::limits::{
    bound_extracted_text, input_check, limits_for, ArchiveLimits, ExpansionBudget,
    MAX_EXTRACTED_TEXT_CHARS, MAX_TABLE_PREVIEW_ROWS, PREVIEW_ARCHIVE_EXPANDED_BYTES,
    TABLE_PREVIEW_ARCHIVE_EXPANDED_BYTES,
};
use crate::models::{DocumentPreview, DocumentThumbnail, TablePreviewRequest, TableSheet};
use crate::pdf_text::{counts_from, estimate_pdf_page_count};
use crate::sanitize::{
    sanitize_docx_package, sanitize_pptx_package, sanitized_docx, sanitized_pptx,
};
use crate::table::{
    csv_table, info_views, read_csv_table, read_xlsx_table, xlsx_table, SheetInfo, Table, TableRange,
    TableSheetInfo,
};
use crate::text::{
    add_new, lemma_with_new_holds_all, optional, same, utf8_lossy, views, with_new,
};

verus! {

/// [`DocumentPreview`] by views.
#[verifier::ext_equal]
pub enum Preview {
    Pdf { data_url: Seq<char>, page_count: Option<u32>, page: u32 },
    Image { data_url: Seq<char> },
    Text { text: Seq<char> },
    Markdown { text: Seq<char> },
    Docx { data_url: Seq<char>, text: Seq<char>, notice: Seq<char>, features: Seq<Seq<char>> },
    Pptx { data_url: Seq<char>, text: Seq<char>, notice: Seq<char>, features: Seq<Seq<char>> },
    Table { table: Table },
    Failure { code: Seq<char>, message: Seq<char> },
    Unsupported { message: Seq<char> },
}

impl View for TableSheet {
    type V = SheetInfo;

    open spec fn view(&self) -> SheetInfo {
        SheetInfo {
            index: self.index,
            name: self.name@,
            row_count: self.row_count,
            column_count: self.column_count,
        }
    }
}

/// The worksheets by views.
pub open spec fn sheet_views(sheets: Seq<TableSheet>) -> Seq<SheetInfo> {
    sheets.map_values(|sheet: TableSheet| sheet@)
}

impl View for DocumentPreview {
    type V = Preview;

    open spec fn view(&self) -> Preview {
        match self {
            DocumentPreview::Pdf { data_url, page_count, page } => Preview::Pdf {
                data_url: data_url@,
                page_count: *page_count,
                page: *page,
            },
            DocumentPreview::Image { data_url } => Preview::Image { data_url: data_url@ },
            DocumentPreview::Text { text } => Preview::Text { text: text@ },
            DocumentPreview::Markdown { text } => Preview::Markdown { text: text@ },
            DocumentPreview::Docx { data_url, text, notice, degraded_features } => Preview::Docx {
                data_url: data_url@,
                text: text@,
                notice: notice@,
                features: views(degraded_features@),
            },
            DocumentPreview::Pptx { data_url, text, notice, degraded_features } => Preview::Pptx {
                data_url: data_url@,
                text: text@,
                notice: notice@,
                features: views(degraded_features@),
            },
            DocumentPreview::Table {
                sheets,
                sheet_index,
                start_row,
                cells,
                row_numbers,
                column_count,
                has_more_rows,
                degraded_features,
                notice,
            } => Preview::Table {
                table: Table {
                    sheets: sheet_views(sheets@),
                    sheet_index: *sheet_index,
                    start_row: *start_row,
                    cells: row_views(cells@),
                    row_numbers: row_numbers@,
                    column_count: *column_count,
                    has_more_rows: *has_more_rows,
                    degraded_features: views(degraded_features@),
                    notice: optional(*notice),
                },
            },
            DocumentPreview::Failure { code, message } => Preview::Failure {
                code: code@,
                message: message@,
            },
            DocumentPreview::Unsupported { message } => Preview::Unsupported { message: message@ },
        }
    }
}

/// The preview in place of one that failed.
pub open spec fn failed_preview(error: Failure) -> Preview {
    Preview::Failure { code: code_of(error.kind), message: message_of(error) }
}

/// What the user sees of a preview: itself, or why there is none.
pub fn shown_preview(result: LibraryResult<DocumentPreview>) -> (preview: DocumentPreview)
    ensures
        preview@ == (match outcome(result) {
            Ok(preview) => preview,
            Err(error) => failed_preview(error),
        }),
{
    match result {
        Ok(preview) => preview,
        Err(error) => DocumentPreview::Failure {
            code: error.code().to_owned(),
            message: error.message(),
        },
    }
}

// ---- Texts ----

/// The text of a preview, with a note where it was cut.
pub open spec fn preview_text(text: Seq<char>) -> Seq<char> {
    if text.len() > MAX_EXTRACTED_TEXT_CHARS {
        bounded(text) + "\n\n……（正文超过 2097152 个字符的预览上限，已截断）"@
    } else {
        text
    }
}

/// The text of a preview, with a note where it was cut.
pub fn bounded_preview_text(text: String) -> (shown: String)
    ensures
        shown@ == preview_text(text@),
{
    let cut = bound_extracted_text(text);
    let mut shown = cut.text;
    if cut.truncated {
        shown.append("\n\n……（正文超过 2097152 个字符的预览上限，已截断）");
    }
    shown
}

/// The note on a text of which the preview shows only the start.
pub open spec fn cut_feature(text: Seq<char>) -> Seq<Seq<char>> {
    if text.len() > MAX_EXTRACTED_TEXT_CHARS {
        seq!["正文超过 2097152 个字符，预览只显示前半部分"@]
    } else {
        Seq::empty()
    }
}

/// The start of a text that is shown; adds a note where the text was cut.
fn cut_text(text: String, features: &mut Vec<String>) -> (shown: String)
    ensures
        shown@ == bounded(text@),
        views(final(features)@) == with_new(views(old(features)@), cut_feature(text@)),
{
    let cut = bound_extracted_text(text);
    let mut note: Vec<String> = Vec::new();
    if cut.truncated {
        note.push("正文超过 2097152 个字符，预览只显示前半部分".to_owned());
    }
    assert(views(note@) =~= cut_feature(text@));
    add_new(features, &note);
    cut.text
}

// ---- Office documents ----

/// The preview of a DOCX document, or why there is none.
pub open spec fn docx_preview(content: Seq<u8>) -> Result<Preview, Failure> {
    match input_check(limits_for(PREVIEW_ARCHIVE_EXPANDED_BYTES), content.len() as u64) {
        Err(error) => Err(error),
        Ok(()) => match sanitized_docx(content) {
            Err(error) => Err(error),
            Ok(safe) => match docx_text(content) {
                Err(error) => Err(error),
                Ok(text) => {
                    let features = with_new(docx_features(content), cut_feature(text));
                    Ok(
                        Preview::Docx {
                            data_url: link_text(
                                "application/vnd.openxmlformats-officedocument.wordprocessingml.document"@,
                                base64_text(safe),
                            ),
                            text: bounded(text),
                            notice: if features.len() == 0 {
                                "DOCX 版式预览为本地只读近似呈现。"@
                            } else {
                                "DOCX 版式预览已呈现，部分复杂内容需要降级。"@
                            },
                            features,
                        },
                    )
                },
            },
        },
    }
}

/// The preview of a DOCX document: a copy without anything that acts on its own, the text, and what
/// cannot be shown.
pub fn preview_docx(content: &[u8]) -> (result: LibraryResult<DocumentPreview>)
    ensures
        outcome(result) == docx_preview(content@),
{
    if let Err(error) = ExpansionBudget::new(ArchiveLimits::for_preview()).check_input_size(
        content.len() as u64,
    ) {
        return Err(error);
    }
    let mut degraded_features = inspect_docx_degradations(content);
    let sanitized = match sanitize_docx_package(content) {
        Err(error) => {
            return Err(error);
        },
        Ok(sanitized) => sanitized,
    };
    let text = match extract_docx_text_from_bytes(content) {
        Err(error) => {
            return Err(error);
        },
        Ok(text) => text,
    };
    let text = cut_text(text, &mut degraded_features);
    let notice = if degraded_features.len() == 0 {
        "DOCX 版式预览为本地只读近似呈现。".to_owned()
    } else {
        "DOCX 版式预览已呈现，部分复杂内容需要降级。".to_owned()
    };
    let data_url = data_url(
        "application/vnd.openxmlformats-officedocument.wordprocessingml.document",
        sanitized.as_slice(),
    );
    assert(views(degraded_features@).len() == degraded_features@.len());
    Ok(DocumentPreview::Docx { data_url, text, notice, degraded_features })
}

/// The preview of a presentation, or why there is none.
pub open spec fn pptx_preview(content: Seq<u8>) -> Result<Preview, Failure> {
    match input_check(limits_for(PREVIEW_ARCHIVE_EXPANDED_BYTES), content.len() as u64) {
        Err(error) => Err(error),
        Ok(()) => match presentation_text(content) {
            Err(error) => Err(error),
            Ok((text, unread)) => match sanitized_pptx(content) {
                Err(error) => Err(error),
                Ok(safe) => {
                    let features = with_new(
                        with_new(pptx_features(content), unread),
                        cut_feature(text),
                    );
                    Ok(
                        Preview::Pptx {
                            data_url: link_text(
                                "application/vnd.openxmlformats-officedocument.presentationml.presentation"@,
                                base64_text(safe),
                            ),
                            text: bounded(text),
                            notice: if features.len() == 0 {
                                "PPTX 版式预览为本地只读近似呈现。"@
                            } else {
                                "PPTX 版式预览已呈现，部分复杂内容需要降级。"@
                            },
                            features,
                        },
                    )
                },
            },
        },
    }
}

/// The preview of a presentation: a copy without anything that acts on its own, the text, and what
/// cannot be shown.
pub fn preview_pptx(content: &[u8]) -> (result: LibraryResult<DocumentPreview>)
    ensures
        outcome(result) == pptx_preview(content@),
{
    if let Err(error) = ExpansionBudget::new(ArchiveLimits::for_preview()).check_input_size(
        content.len() as u64,
    ) {
        return Err(error);
    }
    let extraction = match extract_pptx_text_from_bytes(content) {
        Err(error) => {
            return Err(error);
        },
        Ok(extraction) => extraction,
    };
    let mut degraded_features = inspect_pptx_degradations(content);
    add_new(&mut degraded_features, &extraction.degraded_features);
    let sanitized = match sanitize_pptx_package(content) {
        Err(error) => {
            return Err(error);
        },
        Ok(sanitized) => sanitized,
    };
    let text = cut_text(extraction.text, &mut degraded_features);
    let notice = if degraded_features.len() == 0 {
        "PPTX 版式预览为本地只读近似呈现。".to_owned()
    } else {
        "PPTX 版式预览已呈现，部分复杂内容需要降级。".to_owned()
    };
    let data_url = data_url(
        "application/vnd.openxmlformats-officedocument.presentationml.presentation",
        sanitized.as_slice(),
    );
    assert(views(degraded_features@).len() == degraded_features@.len());
    Ok(DocumentPreview::Pptx { data_url, text, notice, degraded_features })
}

// ---- Tables ----

/// The columns that a table preview shows unless more are asked for.
pub const DEFAULT_TABLE_PREVIEW_COLUMNS: usize = 16;

/// The error on a document that is no table.
pub open spec fn no_table(id: DocumentFormatId) -> Failure {
    failure(ErrorKind::Preview, format_name(id) + " 不是表格文档。"@)
}

/// The asked number, or the usual one where zero is asked for.
pub open spec fn asked_or(asked: usize, usual: usize) -> usize {
    if asked == 0 {
        usual
    } else {
        asked
    }
}

/// The part of a table that is asked for, or why it cannot be read.
pub open spec fn table_part(
    content: Seq<u8>,
    id: DocumentFormatId,
    sheet_index: usize,
    start_row: usize,
    row_count: usize,
    column_count: usize,
) -> Result<Table, Failure> {
    let limits = limits_for(TABLE_PREVIEW_ARCHIVE_EXPANDED_BYTES);
    match input_check(limits, content.len() as u64) {
        Err(error) => Err(error),
        Ok(()) => if id == DocumentFormatId::Csv {
            csv_table(content, start_row, row_count, column_count, limits)
        } else if id == DocumentFormatId::Xlsx {
            xlsx_table(content, sheet_index, start_row, row_count, column_count, limits)
        } else {
            Err(no_table(id))
        },
    }
}

/// Reads the part of a table that is asked for.
fn read_table_part(
    content: &[u8],
    id: DocumentFormatId,
    sheet_index: usize,
    start_row: usize,
    row_count: usize,
    column_count: usize,
) -> (result: LibraryResult<TableRange>)
    ensures
        outcome(result) == table_part(
            content@,
            id,
            sheet_index,
            start_row,
            row_count,
            column_count,
        ),
{
    let limits = ArchiveLimits::for_table_preview();
    if let Err(error) = ExpansionBudget::new(limits).check_input_size(content.len() as u64) {
        return Err(error);
    }
    if id == DocumentFormatId::Csv {
        read_csv_table(content, start_row, row_count, column_count, limits)
    } else if id == DocumentFormatId::Xlsx {
        read_xlsx_table(content, sheet_index, start_row, row_count, column_count, limits)
    } else {
        let mut detail = id.as_str().to_owned();
        detail.append(" 不是表格文档。");
        Err(LibraryError::Preview(detail))
    }
}

/// The worksheets as a preview lists them.
fn list_sheets(infos: &Vec<TableSheetInfo>) -> (sheets: Vec<TableSheet>)
    ensures
        sheet_views(sheets@) == info_views(infos@),
{
    let mut sheets: Vec<TableSheet> = Vec::new();
    let mut i: usize = 0;
    let ghost all = info_views(infos@);
    assert(sheet_views(sheets@) =~= all.take(0));
    while i < infos.len()
        invariant
            i <= infos@.len(),
            all == info_views(infos@),
            sheet_views(sheets@) == all.take(i as int),
        decreases infos@.len() - i,
    {
        let info = &infos[i];
        let ghost before = sheet_views(sheets@);
        let sheet = TableSheet {
            index: info.index,
            name: info.name.clone(),
            row_count: info.row_count,
            column_count: info.column_count,
        };
        assert(sheet@ =~= all[i as int]);
        let ghost added = sheet@;
        sheets.push(sheet);
        assert(sheet_views(sheets@) =~= before.push(added));
        assert(all.take(i + 1) =~= all.take(i as int).push(all[i as int]));
        i = i + 1;
    }
    assert(all.take(i as int) =~= all);
    sheets
}

/// The worksheets of a table document; a CSV file has one.
pub fn table_sheets_for(content: &[u8], id: DocumentFormatId) -> (result: LibraryResult<
    Vec<TableSheet>,
>)
    ensures
        (match result {
            Ok(sheets) => Ok(sheet_views(sheets@)),
            Err(error) => Err(error@),
        }) == (match table_part(content@, id, 0, 0, 1, 1) {
            Ok(table) => Ok(table.sheets),
            Err(error) => Err(error),
        }),
{
    match read_table_part(content, id, 0, 0, 1, 1) {
        Err(error) => Err(error),
        Ok(range) => Ok(list_sheets(&range.sheets)),
    }
}

/// The preview of the part of a table that is asked for, or why there is none.
pub open spec fn table_preview(
    content: Seq<u8>,
    id: DocumentFormatId,
    request: TablePreviewRequest,
) -> Result<Preview, Failure> {
    match table_part(
        content,
        id,
        request.sheet_index,
        request.start_row,
        asked_or(request.row_count, MAX_TABLE_PREVIEW_ROWS),
        asked_or(request.column_count, DEFAULT_TABLE_PREVIEW_COLUMNS),
    ) {
        Err(error) => Err(error),
        Ok(table) => Ok(Preview::Table { table }),
    }
}

/// The preview of the part of a table that is asked for; a number of zero asks for the usual one.
pub fn read_table_preview(content: &[u8], id: DocumentFormatId, request: &TablePreviewRequest) -> (result:
    LibraryResult<DocumentPreview>)
    ensures
        outcome(result) == table_preview(content@, id, *request),
{
    let row_count: usize = if request.row_count == 0 {
        MAX_TABLE_PREVIEW_ROWS
    } else {
        request.row_count
    };
    let column_count: usize = if request.column_count == 0 {
        DEFAULT_TABLE_PREVIEW_COLUMNS
    } else {
        request.column_count
    };
    match read_table_part(
        content,
        id,
        request.sheet_index,
        request.start_row,
        row_count,
        column_count,
    ) {
        Err(error) => Err(error),
        Ok(range) => Ok(
            DocumentPreview::Table {
                sheets: list_sheets(&range.sheets),
                sheet_index: range.sheet_index,
                start_row: range.start_row,
                cells: range.cells,
                row_numbers: range.row_numbers,
                column_count: range.column_count,
                has_more_rows: range.has_more_rows,
                degraded_features: range.degraded_features,
                notice: range.notice,
            },
        ),
    }
}

/// The preview of a part of a table, or that the document is no table.
pub open spec fn table_preview_of(
    capability: Capability,
    content: Seq<u8>,
    request: TablePreviewRequest,
) -> Preview {
    if capability.preview != PreviewStrategy::TablePaged {
        Preview::Unsupported { message: capability.display_type + " 不是表格文档。"@ }
    } else {
        match table_preview(content, capability.id, request) {
            Ok(preview) => preview,
            Err(error) => failed_preview(error),
        }
    }
}

/// The preview of a part of a table; a failure is a preview too.
pub fn get_table_preview(
    capability: &DocumentFormatCapability,
    content: &[u8],
    request: &TablePreviewRequest,
) -> (preview: DocumentPreview)
    ensures
        preview@ == table_preview_of(capability@, content@, *request),
{
    if capability.preview != PreviewStrategy::TablePaged {
        let mut message = capability.display_type.clone();
        message.append(" 不是表格文档。");
        return DocumentPreview::Unsupported { message };
    }
    shown_preview(read_table_preview(content, capability.id, request))
}

// ---- Pages ----

/// A page that was drawn, and how many there are.
#[derive(Debug)]
pub struct RenderedPdfPage {
    pub png: Vec<u8>,
    pub page_count: u32,
}

/// The page that is asked for, from one on.
pub open spec fn asked_page(page: Option<u32>) -> u32 {
    match page {
        Some(page) if page > 1 => page,
        _ => 1,
    }
}

/// The page that is asked for, from one on.
pub fn page_to_render(page: Option<u32>) -> (number: u32)
    ensures
        number == asked_page(page),
        number >= 1,
{
    match page {
        Some(page) => {
            if page > 1 {
                page
            } else {
                1
            }
        },
        None => 1,
    }
}

/// What a file in the cache is good for.
#[derive(Debug, Clone, Copy, PartialEq, Eq, Structural)]
pub enum CachedPicture {
    /// There is none.
    Missing,
    /// It is no picture and goes.
    Broken,
    /// It is shown.
    Usable,
}

/// What a drawn page in the cache is good for: only a real picture is shown.
pub fn judge_cached_png(cached: &Option<Vec<u8>>) -> (state: CachedPicture)
    ensures
        state == (match *cached {
            None => CachedPicture::Missing,
            Some(bytes) => if png_size(bytes@) is Some {
                CachedPicture::Usable
            } else {
                CachedPicture::Broken
            },
        }),
{
    match cached {
        None => CachedPicture::Missing,
        Some(bytes) => {
            if is_png(bytes.as_slice()) {
                CachedPicture::Usable
            } else {
                CachedPicture::Broken
            }
        },
    }
}

/// The number of pages beside a page from the cache: what the document tells, where it can be read
/// and tells it. Else the page has to be drawn again for it.
pub fn cached_page_count(document: &Option<Vec<u8>>) -> (count: Option<u32>)
    ensures
        count == (match *document {
            Some(bytes) => if counts_from(bytes@, 0, 0) > 0 {
                Some(counts_from(bytes@, 0, 0) as u32)
            } else {
                None
            },
            None => None,
        }),
{
    match document {
        Some(bytes) => estimate_pdf_page_count(bytes.as_slice()),
        None => None,
    }
}

/// A page that was drawn, unless it is no picture.
pub fn accept_rendered_page(rendered: RenderedPdfPage) -> (result: LibraryResult<RenderedPdfPage>)
    ensures
        result is Ok <==> png_size(rendered.png@) is Some,
        result matches Ok(page) ==> page == rendered,
        result matches Err(error) ==> error@ == failure(
            ErrorKind::Preview,
            "PDF 渲染器没有返回有效 PNG。"@,
        ),
{
    if is_png(rendered.png.as_slice()) {
        Ok(rendered)
    } else {
        Err(LibraryError::Preview("PDF 渲染器没有返回有效 PNG。".to_owned()))
    }
}

/// The preview of a page of a PDF document.
pub fn preview_page(rendered: &RenderedPdfPage, page: Option<u32>) -> (preview: DocumentPreview)
    ensures
        preview@ == (Preview::Pdf {
            data_url: link_text("image/png"@, base64_text(rendered.png@)),
            page_count: Some(rendered.page_count),
            page: asked_page(page),
        }),
{
    DocumentPreview::Pdf {
        data_url: data_url("image/png", rendered.png.as_slice()),
        page_count: Some(rendered.page_count),
        page: page_to_render(page),
    }
}

// ---- Any document ----

/// The preview of a document that is not shown by pages, or why there is none.
pub open spec fn content_preview(capability: Capability, content: Seq<u8>) -> Result<
    Preview,
    Failure,
> {
    match capability.preview {
        PreviewStrategy::LocalImage => Ok(
            Preview::Image {
                data_url: link_text(
                    match capability.media_type {
                        Some(media_type) => media_type,
                        None => "application/octet-stream"@,
                    },
                    base64_text(content),
                ),
            },
        ),
        PreviewStrategy::PlainText => Ok(
            Preview::Text {
                text: preview_text(utf8_lossy(start_of(content, MAX_TEXT_READ_BYTES as nat))),
            },
        ),
        PreviewStrategy::SafeMarkdown => Ok(
            Preview::Markdown {
                text: preview_text(utf8_lossy(start_of(content, MAX_TEXT_READ_BYTES as nat))),
            },
        ),
        PreviewStrategy::DocxLayout => docx_preview(content),
        PreviewStrategy::PptxPages => pptx_preview(content),
        _ => table_preview(
            content,
            capability.id,
            TablePreviewRequest { sheet_index: 0, start_row: 0, row_count: 0, column_count: 0 },
        ),
    }
}

/// The preview of a document that is not shown by pages; those go through [`preview_page`].
pub fn preview_document(capability: &DocumentFormatCapability, content: &[u8]) -> (result:
    LibraryResult<DocumentPreview>)
    requires
        capability.preview != PreviewStrategy::PdfPages,
    ensures
        outcome(result) == content_preview(capability@, content@),
{
    match capability.preview {
        PreviewStrategy::LocalImage => {
            let media_type: &str = match &capability.media_type {
                Some(media_type) => media_type.as_str(),
                None => "application/octet-stream",
            };
            Ok(DocumentPreview::Image { data_url: data_url(media_type, content) })
        },
        PreviewStrategy::PlainText => Ok(
            DocumentPreview::Text { text: bounded_preview_text(read_utf8_text(content)) },
        ),
        PreviewStrategy::SafeMarkdown => Ok(
            DocumentPreview::Markdown { text: bounded_preview_text(read_utf8_text(content)) },
        ),
        PreviewStrategy::DocxLayout => preview_docx(content),
        PreviewStrategy::PptxPages => preview_pptx(content),
        _ => read_table_preview(content, capability.id, &TablePreviewRequest::default()),
    }
}

// ---- Small pictures ----

/// [`DocumentThumbnail`] by views.
#[verifier::ext_equal]
pub enum Thumbnail {
    Pdf { data_url: Seq<char> },
    Image { data_url: Seq<char> },
    Pptx { data_url: Seq<char> },
    Fallback { reason: Seq<char> },
}

impl View for DocumentThumbnail {
    type V = Thumbnail;

    open spec fn view(&self) -> Thumbnail {
        match self {
            DocumentThumbnail::Pdf { data_url } => Thumbnail::Pdf { data_url: data_url@ },
            DocumentThumbnail::Image { data_url } => Thumbnail::Image { data_url: data_url@ },
            DocumentThumbnail::Pptx { data_url } => Thumbnail::Pptx { data_url: data_url@ },
            DocumentThumbnail::Fallback { reason } => Thumbnail::Fallback { reason: reason@ },
        }
    }
}

/// What became of a picture: its media type and bytes, or why there is none.
pub type PictureResult = LibraryResult<(&'static str, Vec<u8>)>;

/// What stands for a document, given its picture or why there is none.
pub open spec fn thumbnail_of(
    strategy: ThumbnailStrategy,
    file_type: Seq<char>,
    picture: Result<(Seq<char>, Seq<u8>), Failure>,
) -> Thumbnail {
    if strategy == ThumbnailStrategy::TypeIcon {
        Thumbnail::Fallback { reason: file_type + " 使用类型图标。"@ }
    } else {
        match picture {
            Err(error) => Thumbnail::Fallback { reason: "无法生成缩略图："@ + message_of(error) },
            Ok((media_type, bytes)) => match strategy {
                ThumbnailStrategy::PdfFirstPage => Thumbnail::Pdf {
                    data_url: link_text("image/png"@, base64_text(bytes)),
                },
                ThumbnailStrategy::LocalImage => Thumbnail::Image {
                    data_url: link_text("image/png"@, base64_text(bytes)),
                },
                _ => Thumbnail::Pptx { data_url: link_text(media_type, base64_text(bytes)) },
            },
        }
    }
}

/// What stands for a document: its picture, or an icon and the reason for it.
pub fn document_thumbnail(
    strategy: ThumbnailStrategy,
    file_type: &str,
    picture: PictureResult,
) -> (thumbnail: DocumentThumbnail)
    ensures
        thumbnail@ == thumbnail_of(
            strategy,
            file_type@,
            match picture {
                Ok((media_type, bytes)) => Ok((media_type@, bytes@)),
                Err(error) => Err(error@),
            },
        ),
{
    if strategy == ThumbnailStrategy::TypeIcon {
        let mut reason = file_type.to_owned();
        reason.append(" 使用类型图标。");
        return DocumentThumbnail::Fallback { reason };
    }
    match picture {
        Err(error) => {
            let mut reason = "无法生成缩略图：".to_owned();
            reason.append(error.message().as_str());
            DocumentThumbnail::Fallback { reason }
        },
        Ok((media_type, bytes)) => match strategy {
            ThumbnailStrategy::PdfFirstPage => DocumentThumbnail::Pdf {
                data_url: data_url("image/png", bytes.as_slice()),
            },
            ThumbnailStrategy::LocalImage => DocumentThumbnail::Image {
                data_url: data_url("image/png", bytes.as_slice()),
            },
            _ => DocumentThumbnail::Pptx { data_url: data_url(media_type, bytes.as_slice()) },
        },
    }
}

/// A picture that was made of a document, unless it is none.
pub fn accept_generated_thumbnail(generated: Vec<u8>) -> (result: LibraryResult<Vec<u8>>)
    ensures
        outcome(result) == (if png_size(generated@) is Some {
            Ok(generated@)
        } else {
            Err(failure(ErrorKind::Preview, "缩略图生成器没有返回有效 PNG。"@))
        }),
{
    if is_png(generated.as_slice()) {
        Ok(generated)
    } else {
        Err(LibraryError::Preview("缩略图生成器没有返回有效 PNG。".to_owned()))
    }
}

/// What the picture of a presentation in the cache is good for.
pub fn judge_cached_picture(cached: &Option<Vec<u8>>) -> (state: CachedPicture)
    ensures
        state == (match *cached {
            None => CachedPicture::Missing,
            Some(bytes) => if fit_thumbnail(bytes@) {
                CachedPicture::Usable
            } else {
                CachedPicture::Broken
            },
        }),
{
    match cached {
        None => CachedPicture::Missing,
        Some(bytes) => {
            if is_supported_thumbnail_image(bytes.as_slice()) {
                CachedPicture::Usable
            } else {
                CachedPicture::Broken
            }
        },
    }
}

/// The error while no picture of a presentation was made.
pub fn no_pptx_thumbnail() -> (error: LibraryError)
    ensures
        error@ == failure(ErrorKind::Preview, "PPTX 缩略图尚未生成。"@),
{
    LibraryError::Preview("PPTX 缩略图尚未生成。".to_owned())
}

/// Whether a picture that was drawn for a version of a document may be kept, or why not.
pub open spec fn saving_check(
    content_hash: Option<Seq<char>>,
    expected_content_hash: Seq<char>,
    strategy: ThumbnailStrategy,
    file_type: Seq<char>,
) -> Result<(), Failure> {
    if content_hash != Some(expected_content_hash) {
        Err(
            failure(
                ErrorKind::StaleThumbnail,
                "缩略图已过期：文档内容版本已变化，已拒绝写入缓存。"@,
            ),
        )
    } else if strategy != ThumbnailStrategy::PptxFirstPage {
        Err(failure(ErrorKind::Preview, file_type + " 不接受前端生成缩略图。"@))
    } else {
        Ok(())
    }
}

/// Checks whether a picture that was drawn for a version of a document may be kept: the document must
/// still have that version.
pub fn check_thumbnail_saving(
    content_hash: &Option<String>,
    expected_content_hash: &str,
    strategy: ThumbnailStrategy,
    file_type: &str,
) -> (result: LibraryResult<()>)
    ensures
        outcome(result) == saving_check(
            optional(*content_hash),
            expected_content_hash@,
            strategy,
            file_type@,
        ),
{
    let current = match content_hash {
        Some(hash) => same(hash.as_str(), expected_content_hash),
        None => false,
    };
    if !current {
        return Err(
            LibraryError::StaleThumbnail(
                "缩略图已过期：文档内容版本已变化，已拒绝写入缓存。".to_owned(),
            ),
        );
    }
    if strategy != ThumbnailStrategy::PptxFirstPage {
        let mut detail = file_type.to_owned();
        detail.append(" 不接受前端生成缩略图。");
        return Err(LibraryError::Preview(detail));
    }
    Ok(())
}

// ---- Laws ----

/// The text of a preview is bounded: the limit and the note on it.
pub proof fn preview_text_is_bounded(text: Seq<char>)
    ensures
        preview_text(text).len() <= MAX_EXTRACTED_TEXT_CHARS
            + "\n\n……（正文超过 2097152 个字符的预览上限，已截断）"@.len(),
        text.len() <= MAX_EXTRACTED_TEXT_CHARS ==> preview_text(text) == text,
{
}

/// A picture that was drawn for another version of a document is never kept.
pub proof fn stale_pictures_are_refused(
    content_hash: Option<Seq<char>>,
    expected_content_hash: Seq<char>,
    strategy: ThumbnailStrategy,
    file_type: Seq<char>,
)
    requires
        content_hash != Some(expected_content_hash),
    ensures
        saving_check(content_hash, expected_content_hash, strategy, file_type) matches Err(error)
            && error.kind == ErrorKind::StaleThumbnail,
{
}

/// The text of a preview starts as the text does, as far as the limit; a note stands behind it exactly
/// where something is missing.
pub proof fn previews_start_as_the_text(text: Seq<char>)
    ensures
        forall|i: int|
            0 <= i < text.len() && i < MAX_EXTRACTED_TEXT_CHARS ==> i < preview_text(text).len()
                && #[trigger] preview_text(text)[i] == text[i],
        text.len() <= MAX_EXTRACTED_TEXT_CHARS <==> cut_feature(text).len() == 0,
        text.len() > MAX_EXTRACTED_TEXT_CHARS ==> preview_text(text).skip(
            MAX_EXTRACTED_TEXT_CHARS as int,
        ) == "\n\n……（正文超过 2097152 个字符的预览上限，已截断）"@,
        text.len() <= MAX_EXTRACTED_TEXT_CHARS ==> preview_text(text).len() == text.len(),
{
    let note = "\n\n……（正文超过 2097152 个字符的预览上限，已截断）"@;
    if text.len() > MAX_EXTRACTED_TEXT_CHARS {
        assert((bounded(text) + note).skip(MAX_EXTRACTED_TEXT_CHARS as int) =~= note);
    }
}

/// A page that is asked for is shown, and the first one where none or page zero is asked for; so are a
/// number of rows and of columns.
pub proof fn what_is_asked_for_is_shown(page: Option<u32>, asked: usize, usual: usize)
    ensures
        asked_page(page) >= 1,
        page is None ==> asked_page(page) == 1,
        page matches Some(number) ==> (number >= 1 ==> asked_page(page) == number),
        asked != 0 ==> asked_or(asked, usual) == asked,
        asked_or(0, usual) == usual,
{
}

/// A table shows the part that is asked for, from the worksheet and row that are asked for; an error of
/// the reader is shown as such, and a document of another kind has no parts.
pub proof fn tables_show_the_part_asked_for(
    capability: Capability,
    content: Seq<u8>,
    request: TablePreviewRequest,
)
    requires
        request.row_count != 0,
        request.column_count != 0,
    ensures
        capability.preview != PreviewStrategy::TablePaged ==> table_preview_of(
            capability,
            content,
            request,
        ) is Unsupported,
        capability.preview == PreviewStrategy::TablePaged ==> match table_part(
            content,
            capability.id,
            request.sheet_index,
            request.start_row,
            request.row_count,
            request.column_count,
        ) {
            Ok(part) => table_preview_of(capability, content, request) == (Preview::Table {
                table: part,
            }),
            Err(error) => table_preview_of(capability, content, request) == (Preview::Failure {
                code: code_of(error.kind),
                message: message_of(error),
            }),
        },
        capability.id != DocumentFormatId::Csv && capability.id != DocumentFormatId::Xlsx
            ==> table_preview(content, capability.id, request) is Err,
{
}

/// An image is shown as it is, a text as text, and formatted text as such; each from its own content.
pub proof fn contents_are_shown_as_what_they_are(capability: Capability, content: Seq<u8>)
    requires
        content.len() <= MAX_TEXT_READ_BYTES,
        utf8_lossy(content).len() <= MAX_EXTRACTED_TEXT_CHARS,
    ensures
        capability.preview == PreviewStrategy::PlainText ==> content_preview(capability, content)
            == Ok::<Preview, Failure>(Preview::Text { text: utf8_lossy(content) }),
        capability.preview == PreviewStrategy::SafeMarkdown ==> content_preview(capability, content)
            == Ok::<Preview, Failure>(Preview::Markdown { text: utf8_lossy(content) }),
        capability.preview == PreviewStrategy::LocalImage && capability.media_type is Some
            ==> content_preview(capability, content) == Ok::<Preview, Failure>(
            Preview::Image {
                data_url: "data:"@ + capability.media_type->0 + ";base64,"@ + base64_text(content),
            },
        ),
        capability.preview == PreviewStrategy::DocxLayout ==> (content_preview(capability, content)
            matches Ok(shown) ==> shown is Docx),
        capability.preview == PreviewStrategy::PptxPages ==> (content_preview(capability, content)
            matches Ok(shown) ==> shown is Pptx),
        capability.preview == PreviewStrategy::TablePaged ==> (content_preview(capability, content)
            matches Ok(shown) ==> shown is Table),
{
}

/// The preview of a document with a layout carries the cleaned package, its text, and a note on each
/// thing that is left out; where the package or its text cannot be read there is none.
pub proof fn layouts_show_the_cleaned_package(content: Seq<u8>)
    requires
        input_check(limits_for(PREVIEW_ARCHIVE_EXPANDED_BYTES), content.len() as u64) is Ok,
    ensures
        docx_preview(content) is Ok <==> sanitized_docx(content) is Ok && docx_text(content) is Ok,
        docx_preview(content) matches Ok(Preview::Docx { data_url, text, features, notice })
            ==> data_url == link_text(
            "application/vnd.openxmlformats-officedocument.wordprocessingml.document"@,
            base64_text(sanitized_docx(content)->Ok_0),
        ) && text == bounded(docx_text(content)->Ok_0) && (forall|i: int|
            0 <= i < docx_features(content).len() ==> features.contains(
                #[trigger] docx_features(content)[i],
            )) && (docx_text(content)->Ok_0.len() > MAX_EXTRACTED_TEXT_CHARS ==> features.len() > 0),
        pptx_preview(content) is Ok <==> sanitized_pptx(content) is Ok && presentation_text(content)
            is Ok,
        pptx_preview(content) matches Ok(Preview::Pptx { data_url, text, features, notice })
            ==> data_url == link_text(
            "application/vnd.openxmlformats-officedocument.presentationml.presentation"@,
            base64_text(sanitized_pptx(content)->Ok_0),
        ) && text == bounded(presentation_text(content)->Ok_0.0) && (forall|i: int|
            0 <= i < pptx_features(content).len() ==> features.contains(
                #[trigger] pptx_features(content)[i],
            )) && (forall|i: int|
            0 <= i < presentation_text(content)->Ok_0.1.len() ==> features.contains(
                #[trigger] presentation_text(content)->Ok_0.1[i],
            )),
{
    if docx_text(content) is Ok {
        let cut = cut_feature(docx_text(content)->Ok_0);
        lemma_with_new_holds_all(docx_features(content), cut);
        if cut.len() > 0 {
            assert(with_new(docx_features(content), cut).contains(cut[0]));
        }
    }
    if presentation_text(content) is Ok {
        let (text, unread) = presentation_text(content)->Ok_0;
        let first = with_new(pptx_features(content), unread);
        lemma_with_new_holds_all(pptx_features(content), unread);
        lemma_with_new_holds_all(first, cut_feature(text));
        let features = with_new(first, cut_feature(text));
        assert forall|feature: Seq<char>| first.contains(feature) implies features.contains(
            feature,
        ) by {
            let i = choose|i: int| 0 <= i < first.len() && first[i] == feature;
            assert(features.contains(first[i]));
        }
    }
}

/// A picture stands for a document where one was made, and its type otherwise; the reason is told. Only a
/// picture of the current contents, of a kind that is drawn outside the library, is kept.
pub proof fn pictures_stand_for_documents(
    strategy: ThumbnailStrategy,
    file_type: Seq<char>,
    media_type: Seq<char>,
    bytes: Seq<u8>,
    error: Failure,
    content_hash: Option<Seq<char>>,
    expected: Seq<char>,
)
    ensures
        ({
            let shown = thumbnail_of(strategy, file_type, Ok((media_type, bytes)));
            &&& strategy == ThumbnailStrategy::TypeIcon ==> shown is Fallback
            &&& strategy == ThumbnailStrategy::PdfFirstPage ==> shown == (Thumbnail::Pdf {
                data_url: link_text("image/png"@, base64_text(bytes)),
            })
            &&& strategy == ThumbnailStrategy::LocalImage ==> shown == (Thumbnail::Image {
                data_url: link_text("image/png"@, base64_text(bytes)),
            })
            &&& strategy == ThumbnailStrategy::PptxFirstPage ==> shown == (Thumbnail::Pptx {
                data_url: link_text(media_type, base64_text(bytes)),
            })
        }),
        strategy != ThumbnailStrategy::TypeIcon ==> thumbnail_of(strategy, file_type, Err(error)) == (
        Thumbnail::Fallback { reason: "无法生成缩略图："@ + message_of(error) }),
        saving_check(content_hash, expected, strategy, file_type) is Ok <==> (content_hash == Some(
            expected,
        ) && strategy == ThumbnailStrategy::PptxFirstPage),
{
}

} // verus!
