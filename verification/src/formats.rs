//! The document formats that the library knows, and what it can do with each.

use vstd::prelude::*;
use crate::error::{failure, ErrorKind, Failure, LibraryError, LibraryResult};
use crate::paths::{
    files_are_named_by_their_last_component, names_are_stems_and_extensions, path_extension,
    path_extension_of, separator,
};
use crate::text::{
    ascii_lowercase, eq_ignore_ascii_case, join, join_texts, list_contains, optional, same,
    to_ascii_lowercase,
    trim, trimmed, views,
};

verus! {

/// A document format.
#[derive(Debug, Clone, Copy, PartialEq, Eq, Structural)]
pub enum DocumentFormatId {
    Pdf,
    Docx,
    Txt,
    Markdown,
    Jpg,
    Png,
    Pptx,
    Csv,
    Xlsx,
}

/// The name of a format.
pub open spec fn format_name(id: DocumentFormatId) -> Seq<char> {
    match id {
        DocumentFormatId::Pdf => "pdf"@,
        DocumentFormatId::Docx => "docx"@,
        DocumentFormatId::Txt => "txt"@,
        DocumentFormatId::Markdown => "markdown"@,
        DocumentFormatId::Jpg => "jpg"@,
        DocumentFormatId::Png => "png"@,
        DocumentFormatId::Pptx => "pptx"@,
        DocumentFormatId::Csv => "csv"@,
        DocumentFormatId::Xlsx => "xlsx"@,
    }
}

/// The format with this name, in lower case.
pub open spec fn format_named(name: Seq<char>) -> Option<DocumentFormatId> {
    if name == "pdf"@ {
        Some(DocumentFormatId::Pdf)
    } else if name == "docx"@ {
        Some(DocumentFormatId::Docx)
    } else if name == "txt"@ {
        Some(DocumentFormatId::Txt)
    } else if name == "markdown"@ || name == "md"@ {
        Some(DocumentFormatId::Markdown)
    } else if name == "jpg"@ || name == "jpeg"@ {
        Some(DocumentFormatId::Jpg)
    } else if name == "png"@ {
        Some(DocumentFormatId::Png)
    } else if name == "pptx"@ {
        Some(DocumentFormatId::Pptx)
    } else if name == "csv"@ {
        Some(DocumentFormatId::Csv)
    } else if name == "xlsx"@ {
        Some(DocumentFormatId::Xlsx)
    } else {
        None
    }
}

/// The format that a text names, white space and case apart.
pub open spec fn parsed_format(value: Seq<char>) -> Option<DocumentFormatId> {
    format_named(ascii_lowercase(trim(value)))
}

impl DocumentFormatId {
    /// The name of the format.
    pub fn as_str(self) -> (name: &'static str)
        ensures
            name@ == format_name(self),
    {
        match self {
            DocumentFormatId::Pdf => "pdf",
            DocumentFormatId::Docx => "docx",
            DocumentFormatId::Txt => "txt",
            DocumentFormatId::Markdown => "markdown",
            DocumentFormatId::Jpg => "jpg",
            DocumentFormatId::Png => "png",
            DocumentFormatId::Pptx => "pptx",
            DocumentFormatId::Csv => "csv",
            DocumentFormatId::Xlsx => "xlsx",
        }
    }

    /// The format that a text names, white space and case apart.
    pub fn parse(value: &str) -> (found: Option<Self>)
        ensures
            found == parsed_format(value@),
    {
        let name = to_ascii_lowercase(trimmed(value).as_str());
        let name = name.as_str();
        if same(name, "pdf") {
            Some(DocumentFormatId::Pdf)
        } else if same(name, "docx") {
            Some(DocumentFormatId::Docx)
        } else if same(name, "txt") {
            Some(DocumentFormatId::Txt)
        } else if same(name, "markdown") || same(name, "md") {
            Some(DocumentFormatId::Markdown)
        } else if same(name, "jpg") || same(name, "jpeg") {
            Some(DocumentFormatId::Jpg)
        } else if same(name, "png") {
            Some(DocumentFormatId::Png)
        } else if same(name, "pptx") {
            Some(DocumentFormatId::Pptx)
        } else if same(name, "csv") {
            Some(DocumentFormatId::Csv)
        } else if same(name, "xlsx") {
            Some(DocumentFormatId::Xlsx)
        } else {
            None
        }
    }
}

/// How the content of a file is checked against its format.
#[derive(Debug, Clone, Copy, PartialEq, Eq, Structural)]
pub enum ValidationStrategy {
    PdfSignature,
    DocxPackage,
    PlainText,
    JpegSignature,
    PngSignature,
    PptxPackage,
    CsvText,
    XlsxPackage,
}

/// How a document is previewed.
#[derive(Debug, Clone, Copy, PartialEq, Eq, Structural)]
pub enum PreviewStrategy {
    PdfPages,
    DocxLayout,
    PlainText,
    SafeMarkdown,
    LocalImage,
    PptxPages,
    TablePaged,
}

/// How the small picture of a document is made.
#[derive(Debug, Clone, Copy, PartialEq, Eq, Structural)]
pub enum ThumbnailStrategy {
    PdfFirstPage,
    LocalImage,
    TypeIcon,
    PptxFirstPage,
}

/// How the text of a document is extracted.
#[derive(Debug, Clone, Copy, PartialEq, Eq, Structural)]
pub enum TextExtractionStrategy {
    PdfText,
    DocxText,
    PlainText,
    NoText,
    PptxText,
    TableText,
}

/// Whether something in a document may happen.
#[derive(Debug, Clone, Copy, PartialEq, Eq, Structural)]
pub enum SecurityPolicy {
    Blocked,
    UserInitiated,
}

/// What a document of a format may do.
#[derive(Debug, Clone, Copy, PartialEq, Eq, Structural)]
pub struct FormatSecurity {
    pub macros: SecurityPolicy,
    pub scripts: SecurityPolicy,
    pub embedded_objects: SecurityPolicy,
    pub remote_resources: SecurityPolicy,
    pub media_autoplay: SecurityPolicy,
    pub source_mutation: SecurityPolicy,
    pub external_navigation: SecurityPolicy,
}

/// What the library can do with a format.
#[derive(Debug, Clone, PartialEq, Eq)]
pub struct DocumentFormatCapability {
    pub id: DocumentFormatId,
    pub display_type: String,
    pub extensions: Vec<String>,
    pub import_enabled: bool,
    pub validation: ValidationStrategy,
    pub preview: PreviewStrategy,
    pub thumbnail: ThumbnailStrategy,
    pub text_extraction: TextExtractionStrategy,
    pub searchable: bool,
    pub media_type: Option<String>,
    pub renderer: String,
    pub security: FormatSecurity,
}

/// [`DocumentFormatCapability`] by characters.
#[verifier::ext_equal]
pub struct Capability {
    pub id: DocumentFormatId,
    pub display_type: Seq<char>,
    pub extensions: Seq<Seq<char>>,
    pub import_enabled: bool,
    pub validation: ValidationStrategy,
    pub preview: PreviewStrategy,
    pub thumbnail: ThumbnailStrategy,
    pub text_extraction: TextExtractionStrategy,
    pub searchable: bool,
    pub media_type: Option<Seq<char>>,
    pub renderer: Seq<char>,
    pub security: FormatSecurity,
}

impl View for DocumentFormatCapability {
    type V = Capability;

    open spec fn view(&self) -> Capability {
        Capability {
            id: self.id,
            display_type: self.display_type@,
            extensions: views(self.extensions@),
            import_enabled: self.import_enabled,
            validation: self.validation,
            preview: self.preview,
            thumbnail: self.thumbnail,
            text_extraction: self.text_extraction,
            searchable: self.searchable,
            media_type: crate::text::optional(self.media_type),
            renderer: self.renderer@,
            security: self.security,
        }
    }
}

// ---- The table ----

/// The formats, in the order in which they are shown.
pub open spec fn format_ids() -> Seq<DocumentFormatId> {
    seq![
        DocumentFormatId::Pdf,
        DocumentFormatId::Docx,
        DocumentFormatId::Txt,
        DocumentFormatId::Markdown,
        DocumentFormatId::Jpg,
        DocumentFormatId::Png,
        DocumentFormatId::Pptx,
        DocumentFormatId::Csv,
        DocumentFormatId::Xlsx,
    ]
}

/// The name of a format as it is shown.
pub open spec fn display_type_of(id: DocumentFormatId) -> Seq<char> {
    match id {
        DocumentFormatId::Pdf => "PDF"@,
        DocumentFormatId::Docx => "DOCX"@,
        DocumentFormatId::Txt => "TXT"@,
        DocumentFormatId::Markdown => "Markdown"@,
        DocumentFormatId::Jpg => "JPG"@,
        DocumentFormatId::Png => "PNG"@,
        DocumentFormatId::Pptx => "PPTX"@,
        DocumentFormatId::Csv => "CSV"@,
        DocumentFormatId::Xlsx => "XLSX"@,
    }
}

/// The file name extensions of a format.
pub open spec fn extensions_of(id: DocumentFormatId) -> Seq<Seq<char>> {
    match id {
        DocumentFormatId::Markdown => seq!["md"@, "markdown"@],
        DocumentFormatId::Jpg => seq!["jpg"@, "jpeg"@],
        _ => seq![format_name(id)],
    }
}

/// How the content of a file of a format is checked.
pub open spec fn validation_of(id: DocumentFormatId) -> ValidationStrategy {
    match id {
        DocumentFormatId::Pdf => ValidationStrategy::PdfSignature,
        DocumentFormatId::Docx => ValidationStrategy::DocxPackage,
        DocumentFormatId::Txt | DocumentFormatId::Markdown => ValidationStrategy::PlainText,
        DocumentFormatId::Jpg => ValidationStrategy::JpegSignature,
        DocumentFormatId::Png => ValidationStrategy::PngSignature,
        DocumentFormatId::Pptx => ValidationStrategy::PptxPackage,
        DocumentFormatId::Csv => ValidationStrategy::CsvText,
        DocumentFormatId::Xlsx => ValidationStrategy::XlsxPackage,
    }
}

/// How a document of a format is previewed.
pub open spec fn preview_of(id: DocumentFormatId) -> PreviewStrategy {
    match id {
        DocumentFormatId::Pdf => PreviewStrategy::PdfPages,
        DocumentFormatId::Docx => PreviewStrategy::DocxLayout,
        DocumentFormatId::Txt => PreviewStrategy::PlainText,
        DocumentFormatId::Markdown => PreviewStrategy::SafeMarkdown,
        DocumentFormatId::Jpg | DocumentFormatId::Png => PreviewStrategy::LocalImage,
        DocumentFormatId::Pptx => PreviewStrategy::PptxPages,
        DocumentFormatId::Csv | DocumentFormatId::Xlsx => PreviewStrategy::TablePaged,
    }
}

/// How the small picture of a document of a format is made.
pub open spec fn thumbnail_of(id: DocumentFormatId) -> ThumbnailStrategy {
    match id {
        DocumentFormatId::Pdf => ThumbnailStrategy::PdfFirstPage,
        DocumentFormatId::Jpg | DocumentFormatId::Png => ThumbnailStrategy::LocalImage,
        DocumentFormatId::Pptx => ThumbnailStrategy::PptxFirstPage,
        _ => ThumbnailStrategy::TypeIcon,
    }
}

/// How the text of a document of a format is extracted.
pub open spec fn text_extraction_of(id: DocumentFormatId) -> TextExtractionStrategy {
    match id {
        DocumentFormatId::Pdf => TextExtractionStrategy::PdfText,
        DocumentFormatId::Docx => TextExtractionStrategy::DocxText,
        DocumentFormatId::Txt | DocumentFormatId::Markdown => TextExtractionStrategy::PlainText,
        DocumentFormatId::Jpg | DocumentFormatId::Png => TextExtractionStrategy::NoText,
        DocumentFormatId::Pptx => TextExtractionStrategy::PptxText,
        DocumentFormatId::Csv | DocumentFormatId::Xlsx => TextExtractionStrategy::TableText,
    }
}

/// The media type of the pictures that are shown as they are.
pub open spec fn media_type_of(id: DocumentFormatId) -> Option<Seq<char>> {
    match id {
        DocumentFormatId::Jpg => Some("image/jpeg"@),
        DocumentFormatId::Png => Some("image/png"@),
        _ => None,
    }
}

/// The part of the application that shows a preview.
pub open spec fn renderer_of(id: DocumentFormatId) -> Seq<char> {
    match id {
        DocumentFormatId::Pdf => "pdf"@,
        DocumentFormatId::Docx => "docx"@,
        DocumentFormatId::Txt => "text"@,
        DocumentFormatId::Markdown => "markdown"@,
        DocumentFormatId::Jpg | DocumentFormatId::Png => "image"@,
        DocumentFormatId::Pptx => "pptx"@,
        DocumentFormatId::Csv | DocumentFormatId::Xlsx => "table"@,
    }
}

/// Nothing in a document may happen but for links that the user follows.
pub open spec fn strict_security() -> FormatSecurity {
    FormatSecurity {
        macros: SecurityPolicy::Blocked,
        scripts: SecurityPolicy::Blocked,
        embedded_objects: SecurityPolicy::Blocked,
        remote_resources: SecurityPolicy::Blocked,
        media_autoplay: SecurityPolicy::Blocked,
        source_mutation: SecurityPolicy::Blocked,
        external_navigation: SecurityPolicy::UserInitiated,
    }
}

/// What the library can do with a format.
pub open spec fn capability_of(id: DocumentFormatId) -> Capability {
    Capability {
        id,
        display_type: display_type_of(id),
        extensions: extensions_of(id),
        import_enabled: true,
        validation: validation_of(id),
        preview: preview_of(id),
        thumbnail: thumbnail_of(id),
        text_extraction: text_extraction_of(id),
        searchable: true,
        media_type: media_type_of(id),
        renderer: renderer_of(id),
        security: strict_security(),
    }
}

/// The name of a format as it is shown.
fn display_type(id: DocumentFormatId) -> (name: &'static str)
    ensures
        name@ == display_type_of(id),
{
    match id {
        DocumentFormatId::Pdf => "PDF",
        DocumentFormatId::Docx => "DOCX",
        DocumentFormatId::Txt => "TXT",
        DocumentFormatId::Markdown => "Markdown",
        DocumentFormatId::Jpg => "JPG",
        DocumentFormatId::Png => "PNG",
        DocumentFormatId::Pptx => "PPTX",
        DocumentFormatId::Csv => "CSV",
        DocumentFormatId::Xlsx => "XLSX",
    }
}

/// The file name extensions of a format.
fn extensions(id: DocumentFormatId) -> (list: Vec<String>)
    ensures
        views(list@) == extensions_of(id),
{
    let mut list: Vec<String> = Vec::new();
    match id {
        DocumentFormatId::Markdown => {
            list.push("md".to_owned());
            list.push("markdown".to_owned());
        },
        DocumentFormatId::Jpg => {
            list.push("jpg".to_owned());
            list.push("jpeg".to_owned());
        },
        _ => {
            list.push(id.as_str().to_owned());
        },
    }
    assert(views(list@) =~= extensions_of(id));
    list
}

/// What the library can do with a format.
pub fn capability(id: DocumentFormatId) -> (capability: DocumentFormatCapability)
    ensures
        capability@ == capability_of(id),
{
    let validation = match id {
        DocumentFormatId::Pdf => ValidationStrategy::PdfSignature,
        DocumentFormatId::Docx => ValidationStrategy::DocxPackage,
        DocumentFormatId::Txt | DocumentFormatId::Markdown => ValidationStrategy::PlainText,
        DocumentFormatId::Jpg => ValidationStrategy::JpegSignature,
        DocumentFormatId::Png => ValidationStrategy::PngSignature,
        DocumentFormatId::Pptx => ValidationStrategy::PptxPackage,
        DocumentFormatId::Csv => ValidationStrategy::CsvText,
        DocumentFormatId::Xlsx => ValidationStrategy::XlsxPackage,
    };
    let preview = match id {
        DocumentFormatId::Pdf => PreviewStrategy::PdfPages,
        DocumentFormatId::Docx => PreviewStrategy::DocxLayout,
        DocumentFormatId::Txt => PreviewStrategy::PlainText,
        DocumentFormatId::Markdown => PreviewStrategy::SafeMarkdown,
        DocumentFormatId::Jpg | DocumentFormatId::Png => PreviewStrategy::LocalImage,
        DocumentFormatId::Pptx => PreviewStrategy::PptxPages,
        DocumentFormatId::Csv | DocumentFormatId::Xlsx => PreviewStrategy::TablePaged,
    };
    let thumbnail = match id {
        DocumentFormatId::Pdf => ThumbnailStrategy::PdfFirstPage,
        DocumentFormatId::Jpg | DocumentFormatId::Png => ThumbnailStrategy::LocalImage,
        DocumentFormatId::Pptx => ThumbnailStrategy::PptxFirstPage,
        _ => ThumbnailStrategy::TypeIcon,
    };
    let text_extraction = match id {
        DocumentFormatId::Pdf => TextExtractionStrategy::PdfText,
        DocumentFormatId::Docx => TextExtractionStrategy::DocxText,
        DocumentFormatId::Txt | DocumentFormatId::Markdown => TextExtractionStrategy::PlainText,
        DocumentFormatId::Jpg | DocumentFormatId::Png => TextExtractionStrategy::NoText,
        DocumentFormatId::Pptx => TextExtractionStrategy::PptxText,
        DocumentFormatId::Csv | DocumentFormatId::Xlsx => TextExtractionStrategy::TableText,
    };
    let media_type = match id {
        DocumentFormatId::Jpg => Some("image/jpeg".to_owned()),
        DocumentFormatId::Png => Some("image/png".to_owned()),
        _ => None,
    };
    let renderer = match id {
        DocumentFormatId::Pdf => "pdf",
        DocumentFormatId::Docx => "docx",
        DocumentFormatId::Txt => "text",
        DocumentFormatId::Markdown => "markdown",
        DocumentFormatId::Jpg | DocumentFormatId::Png => "image",
        DocumentFormatId::Pptx => "pptx",
        DocumentFormatId::Csv | DocumentFormatId::Xlsx => "table",
    };
    DocumentFormatCapability {
        id,
        display_type: display_type(id).to_owned(),
        extensions: extensions(id),
        import_enabled: true,
        validation,
        preview,
        thumbnail,
        text_extraction,
        searchable: true,
        media_type,
        renderer: renderer.to_owned(),
        security: FormatSecurity {
            macros: SecurityPolicy::Blocked,
            scripts: SecurityPolicy::Blocked,
            embedded_objects: SecurityPolicy::Blocked,
            remote_resources: SecurityPolicy::Blocked,
            media_autoplay: SecurityPolicy::Blocked,
            source_mutation: SecurityPolicy::Blocked,
            external_navigation: SecurityPolicy::UserInitiated,
        },
    }
}

/// The formats, in the order in which they are shown.
fn all_ids() -> (ids: [DocumentFormatId; 9])
    ensures
        ids@ == format_ids(),
{
    let ids: [DocumentFormatId; 9] = [
        DocumentFormatId::Pdf,
        DocumentFormatId::Docx,
        DocumentFormatId::Txt,
        DocumentFormatId::Markdown,
        DocumentFormatId::Jpg,
        DocumentFormatId::Png,
        DocumentFormatId::Pptx,
        DocumentFormatId::Csv,
        DocumentFormatId::Xlsx,
    ];
    assert(ids@ =~= format_ids());
    ids
}

/// The capabilities by views.
pub open spec fn capability_views(list: Seq<DocumentFormatCapability>) -> Seq<Capability> {
    list.map_values(|capability: DocumentFormatCapability| capability@)
}

/// What the library can do with each format.
pub fn document_format_capabilities() -> (list: Vec<DocumentFormatCapability>)
    ensures
        capability_views(list@) == format_ids().map_values(|id: DocumentFormatId| capability_of(id)),
{
    let ids = all_ids();
    let mut list: Vec<DocumentFormatCapability> = Vec::new();
    let mut i: usize = 0;
    while i < 9
        invariant
            i <= 9,
            ids@ == format_ids(),
            list@.len() == i,
            forall|j: int| 0 <= j < i ==> (#[trigger] list@[j])@ == capability_of(format_ids()[j]),
        decreases 9 - i,
    {
        list.push(capability(ids[i]));
        i = i + 1;
    }
    assert(capability_views(list@) =~= format_ids().map_values(
        |id: DocumentFormatId| capability_of(id),
    ));
    list
}

// ---- Looking up ----

/// An optional capability by its view.
pub open spec fn capability_view(found: Option<DocumentFormatCapability>) -> Option<Capability> {
    match found {
        Some(capability) => Some(capability@),
        None => None,
    }
}

/// What the library can do with a format.
pub fn capability_for_id(id: DocumentFormatId) -> (found: Option<DocumentFormatCapability>)
    ensures
        capability_view(found) == Some(capability_of(id)),
{
    Some(capability(id))
}

/// The first format, from `at` on, with this file name extension.
pub open spec fn format_with_extension(extension: Seq<char>, at: int) -> Option<DocumentFormatId>
    decreases format_ids().len() - at,
{
    if at < 0 || at >= format_ids().len() {
        None
    } else if extensions_of(format_ids()[at]).contains(extension) {
        Some(format_ids()[at])
    } else {
        format_with_extension(extension, at + 1)
    }
}

/// The capability of an optional format.
pub open spec fn optional_capability(id: Option<DocumentFormatId>) -> Option<Capability> {
    match id {
        Some(found) => Some(capability_of(found)),
        None => None,
    }
}

/// The format of a file, by the extension of its name.
pub open spec fn format_of_path(path: Seq<char>) -> Option<DocumentFormatId> {
    match path_extension_of(path) {
        Some(extension) => format_with_extension(ascii_lowercase(extension), 0),
        None => None,
    }
}

/// What the library can do with a file, by the extension of its name.
pub fn capability_for_path(path: &str) -> (found: Option<DocumentFormatCapability>)
    ensures
        capability_view(found) == optional_capability(format_of_path(path@)),
{
    let extension = match path_extension(path) {
        None => {
            return None;
        },
        Some(extension) => to_ascii_lowercase(extension.as_str()),
    };
    let ids = all_ids();
    let mut i: usize = 0;
    while i < 9
        invariant
            i <= 9,
            ids@ == format_ids(),
            format_with_extension(extension@, i as int) == format_of_path(path@),
        decreases 9 - i,
    {
        let list = extensions(ids[i]);
        if list_contains(&list, extension.as_str()) {
            return Some(capability(ids[i]));
        }
        i = i + 1;
    }
    None
}

/// The name under which the format of a file is shown, where the library knows it.
pub open spec fn supported_type(path: Seq<char>) -> Option<Seq<char>> {
    match format_of_path(path) {
        Some(id) => Some(display_type_of(id)),
        None => None,
    }
}

/// The name under which the format of a file is shown, where the library knows it.
pub fn supported_file_type(path: &str) -> (found: Option<String>)
    ensures
        optional(found) == supported_type(path@),
{
    match capability_for_path(path) {
        Some(capability) => Some(capability.display_type),
        None => None,
    }
}

/// The first format, from `at` on, that is shown under this name, case apart.
pub open spec fn format_shown_as(name: Seq<char>, at: int) -> Option<DocumentFormatId>
    decreases format_ids().len() - at,
{
    if at < 0 || at >= format_ids().len() {
        None
    } else if ascii_lowercase(display_type_of(format_ids()[at])) == ascii_lowercase(name) {
        Some(format_ids()[at])
    } else {
        format_shown_as(name, at + 1)
    }
}

/// The format that a file type names: by its name, else by the name under which it is shown.
pub open spec fn format_of_type(file_type: Seq<char>) -> Option<DocumentFormatId> {
    match parsed_format(file_type) {
        Some(id) => Some(id),
        None => format_shown_as(trim(file_type), 0),
    }
}

/// What the library can do with a file type.
pub fn capability_for_file_type(file_type: &str) -> (found: Option<DocumentFormatCapability>)
    ensures
        capability_view(found) == optional_capability(format_of_type(file_type@)),
{
    if let Some(id) = DocumentFormatId::parse(file_type) {
        return capability_for_id(id);
    }
    let name = trimmed(file_type);
    let ids = all_ids();
    let mut i: usize = 0;
    while i < 9
        invariant
            i <= 9,
            ids@ == format_ids(),
            name@ == trim(file_type@),
            format_shown_as(name@, i as int) == format_of_type(file_type@),
        decreases 9 - i,
    {
        if eq_ignore_ascii_case(display_type(ids[i]), name.as_str()) {
            return Some(capability(ids[i]));
        }
        i = i + 1;
    }
    None
}

/// The name under which a file type is shown.
pub open spec fn canonical_type(file_type: Seq<char>) -> Option<Seq<char>> {
    match format_of_type(file_type) {
        Some(id) => Some(display_type_of(id)),
        None => None,
    }
}

/// The name under which a file type is shown.
pub fn canonical_file_type(file_type: &str) -> (found: Option<String>)
    ensures
        optional(found) == canonical_type(file_type@),
{
    match capability_for_file_type(file_type) {
        Some(capability) => Some(capability.display_type),
        None => None,
    }
}

/// The names under which the formats are shown that can be imported: all of them.
pub open spec fn importable_names() -> Seq<Seq<char>> {
    format_ids().map_values(|id: DocumentFormatId| display_type_of(id))
}

/// The names under which the formats are shown that can be imported.
pub fn importable_display_types() -> (names: Vec<String>)
    ensures
        views(names@) == importable_names(),
{
    let ids = all_ids();
    let mut names: Vec<String> = Vec::new();
    let mut i: usize = 0;
    while i < 9
        invariant
            i <= 9,
            ids@ == format_ids(),
            names@.len() == i,
            forall|j: int| 0 <= j < i ==> (#[trigger] names@[j])@ == display_type_of(format_ids()[j]),
        decreases 9 - i,
    {
        names.push(display_type(ids[i]).to_owned());
        i = i + 1;
    }
    assert(views(names@) =~= importable_names());
    names
}

/// The names in one sentence: separated by commas, the last one joined by a word.
pub open spec fn listed(names: Seq<Seq<char>>) -> Seq<char> {
    if names.len() == 0 {
        Seq::empty()
    } else if names.len() == 1 {
        names[0]
    } else {
        join(names.drop_last(), "、"@) + " 和 "@ + names.last()
    }
}

/// What is said of a file that cannot be imported.
pub fn unsupported_message() -> (text: String)
    ensures
        text@ == "不支持该文件格式。仅支持 "@ + listed(importable_names()) + " 文件。"@,
{
    let names = importable_display_types();
    assert(names@.len() == views(names@).len());
    assert(importable_names().len() > 1);
    let last: usize = names.len() - 1;
    let head = vstd::slice::slice_subrange(names.as_slice(), 0, last);
    assert(views(head@) =~= views(names@).drop_last());
    let mut text = "不支持该文件格式。仅支持 ".to_owned();
    text.append(join_texts(head, "、").as_str());
    text.append(" 和 ");
    text.append(names[last].as_str());
    text.append(" 文件。");
    assert(text@ =~= "不支持该文件格式。仅支持 "@ + listed(importable_names()) + " 文件。"@);
    text
}

/// What the library can do with a file type, or that it does not know it.
pub open spec fn required_capability(file_type: Seq<char>) -> Result<Capability, Failure> {
    match format_of_type(file_type) {
        Some(id) => Ok(capability_of(id)),
        None => Err(failure(ErrorKind::UnsupportedFile, "不支持的文档格式："@ + file_type)),
    }
}

/// What the library can do with a file type, or that it does not know it.
pub fn require_capability_for_file_type(file_type: &str) -> (result: LibraryResult<
    DocumentFormatCapability,
>)
    ensures
        crate::error::outcome(result) == required_capability(file_type@),
{
    match capability_for_file_type(file_type) {
        Some(capability) => Ok(capability),
        None => {
            let mut message = "不支持的文档格式：".to_owned();
            message.append(file_type);
            Err(LibraryError::UnsupportedFile(message))
        },
    }
}

// ---- Laws ----

/// Every format is found again by its name.
pub proof fn format_names_parse_back(id: DocumentFormatId)
    ensures
        format_named(format_name(id)) == Some(id),
{
    lemma_names_differ();
    assert(format_name(DocumentFormatId::Pdf) == "pdf"@);
    assert(format_name(DocumentFormatId::Docx) == "docx"@);
    assert(format_name(DocumentFormatId::Txt) == "txt"@);
    assert(format_name(DocumentFormatId::Markdown) == "markdown"@);
    assert(format_name(DocumentFormatId::Jpg) == "jpg"@);
    assert(format_name(DocumentFormatId::Png) == "png"@);
    assert(format_name(DocumentFormatId::Pptx) == "pptx"@);
    assert(format_name(DocumentFormatId::Csv) == "csv"@);
    assert(format_name(DocumentFormatId::Xlsx) == "xlsx"@);
}

proof fn lemma_names_differ()
    ensures
        forall|a: DocumentFormatId, b: DocumentFormatId|
            a != b ==> #[trigger] format_name(a) != #[trigger] format_name(b),
        forall|a: DocumentFormatId| #[trigger] format_name(a) != "md"@ && format_name(a) != "jpeg"@,
        "md"@ != "jpeg"@,
{
    reveal_strlit("pdf");
    reveal_strlit("docx");
    reveal_strlit("txt");
    reveal_strlit("markdown");
    reveal_strlit("md");
    reveal_strlit("jpg");
    reveal_strlit("jpeg");
    reveal_strlit("png");
    reveal_strlit("pptx");
    reveal_strlit("csv");
    reveal_strlit("xlsx");
    assert("pdf"@.len() == 3 && "docx"@.len() == 4 && "txt"@.len() == 3 && "markdown"@.len() == 8 && "md"@.len() == 2 && "jpg"@.len() == 3 && "jpeg"@.len() == 4 && "png"@.len() == 3 && "pptx"@.len() == 4 && "csv"@.len() == 3 && "xlsx"@.len() == 4);
    assert("pdf"@[1] == 'd' && "txt"@[0] == 't' && "jpg"@[0] == 'j' && "png"@[1] == 'n' && "csv"@[0]
        == 'c');
    assert("pdf"@[0] == 'p' && "png"@[0] == 'p');
    assert("docx"@[0] == 'd' && "pptx"@[0] == 'p' && "xlsx"@[0] == 'x' && "jpeg"@[0] == 'j');
}

/// No extension belongs to two formats.
pub proof fn extensions_belong_to_one_format(
    a: DocumentFormatId,
    b: DocumentFormatId,
    extension: Seq<char>,
)
    requires
        extensions_of(a).contains(extension),
        extensions_of(b).contains(extension),
    ensures
        a == b,
{
    lemma_names_differ();
    reveal_strlit("md");
    reveal_strlit("markdown");
    reveal_strlit("jpg");
    reveal_strlit("jpeg");
    let i = choose|i: int| 0 <= i < extensions_of(a).len() && extensions_of(a)[i] == extension;
    let j = choose|j: int| 0 <= j < extensions_of(b).len() && extensions_of(b)[j] == extension;
    assert(format_name(DocumentFormatId::Markdown) == "markdown"@);
    assert(format_name(DocumentFormatId::Jpg) == "jpg"@);
}

proof fn lemma_format_is_listed(id: DocumentFormatId)
    ensures
        format_ids().contains(id),
{
    let list = format_ids();
    let at: int = match id {
        DocumentFormatId::Pdf => 0,
        DocumentFormatId::Docx => 1,
        DocumentFormatId::Txt => 2,
        DocumentFormatId::Markdown => 3,
        DocumentFormatId::Jpg => 4,
        DocumentFormatId::Png => 5,
        DocumentFormatId::Pptx => 6,
        DocumentFormatId::Csv => 7,
        DocumentFormatId::Xlsx => 8,
    };
    assert(list[at] == id);
}

proof fn lemma_extension_found(extension: Seq<char>, at: int)
    requires
        0 <= at,
    ensures
        format_with_extension(extension, at) matches Some(id) ==> extensions_of(id).contains(extension),
        format_with_extension(extension, at) is None ==> forall|i: int|
            at <= i < format_ids().len() ==> !extensions_of(#[trigger] format_ids()[i]).contains(extension),
    decreases format_ids().len() - at,
{
    if at < format_ids().len() && !extensions_of(format_ids()[at]).contains(extension) {
        lemma_extension_found(extension, at + 1);
    }
}

/// A file has the format that its extension belongs to, whatever the rest of its path and the case of
/// the letters; a file without an extension, and one with any other, has none.
pub proof fn files_have_the_format_of_their_extension(
    directory: Seq<char>,
    stem: Seq<char>,
    extension: Seq<char>,
    id: DocumentFormatId,
)
    requires
        directory.len() > 0 ==> separator(directory.last()),
        stem.len() > 0,
        !extension.contains('.'),
        forall|i: int| 0 <= i < stem.len() ==> !separator(#[trigger] stem[i]),
        forall|i: int| 0 <= i < extension.len() ==> !separator(#[trigger] extension[i]),
        extension.len() > 0,
    ensures
        format_of_path(directory + (stem + seq!['.'] + extension)) == Some(id) <==> extensions_of(
            id,
        ).contains(ascii_lowercase(extension)),
        extensions_of(id).contains(ascii_lowercase(extension)) ==> supported_type(
            directory + (stem + seq!['.'] + extension),
        ) == Some(display_type_of(id)),
{
    let name = stem + seq!['.'] + extension;
    let path = directory + name;
    let lower = ascii_lowercase(extension);
    let nothing = Seq::<char>::empty();
    reveal_strlit(".");
    reveal_strlit("..");
    assert forall|i: int| 0 <= i < name.len() implies !separator(#[trigger] name[i]) by {
        if i < stem.len() {
            assert(name[i] == stem[i]);
        } else if i > stem.len() {
            assert(name[i] == extension[i - stem.len() - 1]);
        }
    }
    assert(name.last() == extension[extension.len() - 1]);
    assert(name.last() != '.');
    assert(name != "."@ && name != ".."@) by {
        assert("."@.last() == '.' && ".."@.last() == '.');
    }
    files_are_named_by_their_last_component(directory, name, nothing);
    assert(directory + name + nothing =~= path);
    names_are_stems_and_extensions(stem, extension);
    lemma_extension_found(lower, 0);
    lemma_format_is_listed(id);
    if extensions_of(id).contains(lower) {
        let k = choose|k: int| 0 <= k < format_ids().len() && format_ids()[k] == id;
        assert(extensions_of(format_ids()[k]).contains(lower));
        let found = format_with_extension(lower, 0)->Some_0;
        extensions_belong_to_one_format(id, found, lower);
    }
}

/// What is done with a file agrees: each kind of file is checked, shown, pictured and read in one way.
pub proof fn formats_are_dealt_with_in_one_way(id: DocumentFormatId)
    ensures
        ({
            let capability = capability_of(id);
            &&& capability.id == id
            &&& capability.import_enabled && capability.searchable
            &&& capability.validation == ValidationStrategy::PdfSignature <==> capability.text_extraction
                == TextExtractionStrategy::PdfText
            &&& capability.validation == ValidationStrategy::PdfSignature <==> capability.preview
                == PreviewStrategy::PdfPages
            &&& capability.preview == PreviewStrategy::PdfPages <==> capability.thumbnail
                == ThumbnailStrategy::PdfFirstPage
            &&& capability.validation == ValidationStrategy::DocxPackage <==> capability.text_extraction
                == TextExtractionStrategy::DocxText
            &&& capability.validation == ValidationStrategy::DocxPackage <==> capability.preview
                == PreviewStrategy::DocxLayout
            &&& capability.validation == ValidationStrategy::PptxPackage <==> capability.text_extraction
                == TextExtractionStrategy::PptxText
            &&& capability.validation == ValidationStrategy::PptxPackage <==> capability.preview
                == PreviewStrategy::PptxPages
            &&& capability.preview == PreviewStrategy::PptxPages <==> capability.thumbnail
                == ThumbnailStrategy::PptxFirstPage
            &&& capability.validation == ValidationStrategy::PlainText <==> capability.text_extraction
                == TextExtractionStrategy::PlainText
            &&& capability.validation == ValidationStrategy::PlainText <==> (capability.preview
                == PreviewStrategy::PlainText || capability.preview == PreviewStrategy::SafeMarkdown)
            &&& (capability.validation == ValidationStrategy::CsvText || capability.validation
                == ValidationStrategy::XlsxPackage) <==> capability.text_extraction
                == TextExtractionStrategy::TableText
            &&& capability.text_extraction == TextExtractionStrategy::TableText <==> capability.preview
                == PreviewStrategy::TablePaged
            &&& (capability.validation == ValidationStrategy::JpegSignature || capability.validation
                == ValidationStrategy::PngSignature) <==> capability.text_extraction
                == TextExtractionStrategy::NoText
            &&& capability.text_extraction == TextExtractionStrategy::NoText <==> capability.preview
                == PreviewStrategy::LocalImage
            &&& capability.preview == PreviewStrategy::LocalImage <==> capability.thumbnail
                == ThumbnailStrategy::LocalImage
            &&& capability.preview == PreviewStrategy::LocalImage <==> capability.media_type is Some
            &&& capability.validation == ValidationStrategy::JpegSignature <==> capability.media_type
                == Some("image/jpeg"@)
            &&& capability.validation == ValidationStrategy::PngSignature <==> capability.media_type
                == Some("image/png"@)
            &&& capability.security.macros == SecurityPolicy::Blocked
            &&& capability.security.scripts == SecurityPolicy::Blocked
            &&& capability.security.embedded_objects == SecurityPolicy::Blocked
            &&& capability.security.remote_resources == SecurityPolicy::Blocked
            &&& capability.security.media_autoplay == SecurityPolicy::Blocked
            &&& capability.security.source_mutation == SecurityPolicy::Blocked
            &&& capability.security.external_navigation == SecurityPolicy::UserInitiated
        }),
{
    reveal_strlit("image/jpeg");
    reveal_strlit("image/png");
    assert("image/jpeg"@.len() == 10 && "image/png"@.len() == 9);
}

/// A file type is known by the name of a format and by every name that it has as an extension,
/// whatever the case of the letters and the white space around them.
pub proof fn file_types_are_known_by_name(file_type: Seq<char>, id: DocumentFormatId)
    requires
        ascii_lowercase(trim(file_type)) == format_name(id) || extensions_of(id).contains(
            ascii_lowercase(trim(file_type)),
        ),
    ensures
        format_of_type(file_type) == Some(id),
        canonical_type(file_type) == Some(display_type_of(id)),
        required_capability(file_type) == Ok::<_, Failure>(capability_of(id)),
{
    let name = ascii_lowercase(trim(file_type));
    format_names_parse_back(id);
    if name != format_name(id) {
        let list = extensions_of(id);
        let k = choose|k: int| 0 <= k < list.len() && list[k] == name;
        reveal_strlit("pdf");
        reveal_strlit("docx");
        reveal_strlit("txt");
        reveal_strlit("markdown");
        reveal_strlit("md");
        reveal_strlit("jpg");
        reveal_strlit("jpeg");
        assert("md"@.len() == 2 && "jpeg"@.len() == 4 && "docx"@.len() == 4 && "pdf"@.len() == 3
            && "txt"@.len() == 3 && "markdown"@.len() == 8 && "jpg"@.len() == 3);
        assert("jpeg"@[0] == 'j' && "docx"@[0] == 'd');
        if id == DocumentFormatId::Markdown {
            assert(name == "md"@ || name == "markdown"@);
        } else if id == DocumentFormatId::Jpg {
            assert(name == "jpg"@ || name == "jpeg"@);
        }
    }
}

} // verus!
