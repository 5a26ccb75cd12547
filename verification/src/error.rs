//! The errors of the library: what went wrong, a stable code for callers, a text for the user.

use vstd::prelude::*;

verus! {

pub type LibraryResult<T> = Result<T, LibraryError>;

/// What went wrong; the text is what the user reads, or the detail behind it.
#[derive(Debug)]
pub enum LibraryError {
    InvalidLocation(String),
    InvalidLibrary(String),
    RecentLibrary(String),
    Io(String),
    Database(String),
    Json(String),
    OpenDirectory(String),
    Preview(String),
    UnsafePreview(String),
    ImportFile(String),
    UnsupportedFile(String),
    InvalidImportDecision(String),
    ImportItemNotFound(String),
    ProtectedCollection(String),
    CollectionCycle(String),
    CollectionNotFound(String),
    InvalidCollection(String),
    InvalidTag(String),
    TagNotFound(String),
    TagAlreadyExists(String),
    DocumentNotFound(String),
    DocumentFileMissing(String),
    InvalidDocumentMetadata(String),
    StaleThumbnail(String),
    OpenDocument(String),
    InvalidExternalUrl(String),
    NoCurrentLibrary,
    StateLock,
}

/// The kind of an error, without its text.
#[derive(Debug, Clone, Copy, PartialEq, Eq, Structural)]
pub enum ErrorKind {
    InvalidLocation,
    InvalidLibrary,
    RecentLibrary,
    Io,
    Database,
    Json,
    OpenDirectory,
    Preview,
    UnsafePreview,
    ImportFile,
    UnsupportedFile,
    InvalidImportDecision,
    ImportItemNotFound,
    ProtectedCollection,
    CollectionCycle,
    CollectionNotFound,
    InvalidCollection,
    InvalidTag,
    TagNotFound,
    TagAlreadyExists,
    DocumentNotFound,
    DocumentFileMissing,
    InvalidDocumentMetadata,
    StaleThumbnail,
    OpenDocument,
    InvalidExternalUrl,
    NoCurrentLibrary,
    StateLock,
}

/// The stable code of a kind of error.
pub open spec fn code_of(kind: ErrorKind) -> Seq<char> {
    match kind {
        ErrorKind::InvalidLocation => "invalidLocation"@,
        ErrorKind::InvalidLibrary => "invalidLibrary"@,
        ErrorKind::RecentLibrary => "recentLibrary"@,
        ErrorKind::Io => "filesystem"@,
        ErrorKind::Database => "database"@,
        ErrorKind::Json => "invalidMetadata"@,
        ErrorKind::OpenDirectory => "openDirectory"@,
        ErrorKind::Preview => "preview"@,
        ErrorKind::UnsafePreview => "unsafePreview"@,
        ErrorKind::ImportFile => "importFile"@,
        ErrorKind::UnsupportedFile => "unsupportedFile"@,
        ErrorKind::InvalidImportDecision => "invalidImportDecision"@,
        ErrorKind::ImportItemNotFound => "importItemNotFound"@,
        ErrorKind::ProtectedCollection => "protectedCollection"@,
        ErrorKind::CollectionCycle => "collectionCycle"@,
        ErrorKind::CollectionNotFound => "collectionNotFound"@,
        ErrorKind::InvalidCollection => "invalidCollection"@,
        ErrorKind::InvalidTag => "invalidTag"@,
        ErrorKind::TagNotFound => "tagNotFound"@,
        ErrorKind::TagAlreadyExists => "tagAlreadyExists"@,
        ErrorKind::DocumentNotFound => "documentNotFound"@,
        ErrorKind::DocumentFileMissing => "documentFileMissing"@,
        ErrorKind::InvalidDocumentMetadata => "invalidDocumentMetadata"@,
        ErrorKind::StaleThumbnail => "staleThumbnail"@,
        ErrorKind::OpenDocument => "openDocument"@,
        ErrorKind::InvalidExternalUrl => "invalidExternalUrl"@,
        ErrorKind::NoCurrentLibrary => "noCurrentLibrary"@,
        ErrorKind::StateLock => "stateLock"@,
    }
}

/// What stands before the detail of an error in the text for the user.
pub open spec fn lead_of(kind: ErrorKind) -> Seq<char> {
    match kind {
        ErrorKind::Io => "无法访问文件系统："@,
        ErrorKind::Database => "资料库数据库错误："@,
        ErrorKind::Json => "资料库元数据格式错误："@,
        ErrorKind::OpenDirectory => "无法打开目录："@,
        ErrorKind::OpenDocument => "无法打开文档："@,
        ErrorKind::NoCurrentLibrary => "尚未打开资料库。"@,
        ErrorKind::StateLock => "资料库状态锁已损坏"@,
        _ => Seq::empty(),
    }
}

impl LibraryError {
    /// The kind of this error.
    pub open spec fn kind(self) -> ErrorKind {
        match self {
            LibraryError::InvalidLocation(_) => ErrorKind::InvalidLocation,
            LibraryError::InvalidLibrary(_) => ErrorKind::InvalidLibrary,
            LibraryError::RecentLibrary(_) => ErrorKind::RecentLibrary,
            LibraryError::Io(_) => ErrorKind::Io,
            LibraryError::Database(_) => ErrorKind::Database,
            LibraryError::Json(_) => ErrorKind::Json,
            LibraryError::OpenDirectory(_) => ErrorKind::OpenDirectory,
            LibraryError::Preview(_) => ErrorKind::Preview,
            LibraryError::UnsafePreview(_) => ErrorKind::UnsafePreview,
            LibraryError::ImportFile(_) => ErrorKind::ImportFile,
            LibraryError::UnsupportedFile(_) => ErrorKind::UnsupportedFile,
            LibraryError::InvalidImportDecision(_) => ErrorKind::InvalidImportDecision,
            LibraryError::ImportItemNotFound(_) => ErrorKind::ImportItemNotFound,
            LibraryError::ProtectedCollection(_) => ErrorKind::ProtectedCollection,
            LibraryError::CollectionCycle(_) => ErrorKind::CollectionCycle,
            LibraryError::CollectionNotFound(_) => ErrorKind::CollectionNotFound,
            LibraryError::InvalidCollection(_) => ErrorKind::InvalidCollection,
            LibraryError::InvalidTag(_) => ErrorKind::InvalidTag,
            LibraryError::TagNotFound(_) => ErrorKind::TagNotFound,
            LibraryError::TagAlreadyExists(_) => ErrorKind::TagAlreadyExists,
            LibraryError::DocumentNotFound(_) => ErrorKind::DocumentNotFound,
            LibraryError::DocumentFileMissing(_) => ErrorKind::DocumentFileMissing,
            LibraryError::InvalidDocumentMetadata(_) => ErrorKind::InvalidDocumentMetadata,
            LibraryError::StaleThumbnail(_) => ErrorKind::StaleThumbnail,
            LibraryError::OpenDocument(_) => ErrorKind::OpenDocument,
            LibraryError::InvalidExternalUrl(_) => ErrorKind::InvalidExternalUrl,
            LibraryError::NoCurrentLibrary => ErrorKind::NoCurrentLibrary,
            LibraryError::StateLock => ErrorKind::StateLock,
        }
    }

    /// The detail that this error carries.
    pub open spec fn detail(self) -> Seq<char> {
        match self {
            LibraryError::InvalidLocation(detail) => detail@,
            LibraryError::InvalidLibrary(detail) => detail@,
            LibraryError::RecentLibrary(detail) => detail@,
            LibraryError::Io(detail) => detail@,
            LibraryError::Database(detail) => detail@,
            LibraryError::Json(detail) => detail@,
            LibraryError::OpenDirectory(detail) => detail@,
            LibraryError::Preview(detail) => detail@,
            LibraryError::UnsafePreview(detail) => detail@,
            LibraryError::ImportFile(detail) => detail@,
            LibraryError::UnsupportedFile(detail) => detail@,
            LibraryError::InvalidImportDecision(detail) => detail@,
            LibraryError::ImportItemNotFound(detail) => detail@,
            LibraryError::ProtectedCollection(detail) => detail@,
            LibraryError::CollectionCycle(detail) => detail@,
            LibraryError::CollectionNotFound(detail) => detail@,
            LibraryError::InvalidCollection(detail) => detail@,
            LibraryError::InvalidTag(detail) => detail@,
            LibraryError::TagNotFound(detail) => detail@,
            LibraryError::TagAlreadyExists(detail) => detail@,
            LibraryError::DocumentNotFound(detail) => detail@,
            LibraryError::DocumentFileMissing(detail) => detail@,
            LibraryError::InvalidDocumentMetadata(detail) => detail@,
            LibraryError::StaleThumbnail(detail) => detail@,
            LibraryError::OpenDocument(detail) => detail@,
            LibraryError::InvalidExternalUrl(detail) => detail@,
            LibraryError::NoCurrentLibrary => Seq::empty(),
            LibraryError::StateLock => Seq::empty(),
        }
    }

    /// The stable code of this error.
    pub fn code(&self) -> (code: &'static str)
        ensures
            code@ == code_of(self.kind()),
    {
        match self {
            LibraryError::InvalidLocation(_) => "invalidLocation",
            LibraryError::InvalidLibrary(_) => "invalidLibrary",
            LibraryError::RecentLibrary(_) => "recentLibrary",
            LibraryError::Io(_) => "filesystem",
            LibraryError::Database(_) => "database",
            LibraryError::Json(_) => "invalidMetadata",
            LibraryError::OpenDirectory(_) => "openDirectory",
            LibraryError::Preview(_) => "preview",
            LibraryError::UnsafePreview(_) => "unsafePreview",
            LibraryError::ImportFile(_) => "importFile",
            LibraryError::UnsupportedFile(_) => "unsupportedFile",
            LibraryError::InvalidImportDecision(_) => "invalidImportDecision",
            LibraryError::ImportItemNotFound(_) => "importItemNotFound",
            LibraryError::ProtectedCollection(_) => "protectedCollection",
            LibraryError::CollectionCycle(_) => "collectionCycle",
            LibraryError::CollectionNotFound(_) => "collectionNotFound",
            LibraryError::InvalidCollection(_) => "invalidCollection",
            LibraryError::InvalidTag(_) => "invalidTag",
            LibraryError::TagNotFound(_) => "tagNotFound",
            LibraryError::TagAlreadyExists(_) => "tagAlreadyExists",
            LibraryError::DocumentNotFound(_) => "documentNotFound",
            LibraryError::DocumentFileMissing(_) => "documentFileMissing",
            LibraryError::InvalidDocumentMetadata(_) => "invalidDocumentMetadata",
            LibraryError::StaleThumbnail(_) => "staleThumbnail",
            LibraryError::OpenDocument(_) => "openDocument",
            LibraryError::InvalidExternalUrl(_) => "invalidExternalUrl",
            LibraryError::NoCurrentLibrary => "noCurrentLibrary",
            LibraryError::StateLock => "stateLock",
        }
    }

    /// The text for the user.
    pub fn message(&self) -> (text: String)
        ensures
            text@ == lead_of(self.kind()) + self.detail(),
    {
        let (lead, detail): (&str, &str) = match self {
            LibraryError::InvalidLocation(detail) => ("", detail.as_str()),
            LibraryError::InvalidLibrary(detail) => ("", detail.as_str()),
            LibraryError::RecentLibrary(detail) => ("", detail.as_str()),
            LibraryError::Io(detail) => ("无法访问文件系统：", detail.as_str()),
            LibraryError::Database(detail) => ("资料库数据库错误：", detail.as_str()),
            LibraryError::Json(detail) => ("资料库元数据格式错误：", detail.as_str()),
            LibraryError::OpenDirectory(detail) => ("无法打开目录：", detail.as_str()),
            LibraryError::Preview(detail) => ("", detail.as_str()),
            LibraryError::UnsafePreview(detail) => ("", detail.as_str()),
            LibraryError::ImportFile(detail) => ("", detail.as_str()),
            LibraryError::UnsupportedFile(detail) => ("", detail.as_str()),
            LibraryError::InvalidImportDecision(detail) => ("", detail.as_str()),
            LibraryError::ImportItemNotFound(detail) => ("", detail.as_str()),
            LibraryError::ProtectedCollection(detail) => ("", detail.as_str()),
            LibraryError::CollectionCycle(detail) => ("", detail.as_str()),
            LibraryError::CollectionNotFound(detail) => ("", detail.as_str()),
            LibraryError::InvalidCollection(detail) => ("", detail.as_str()),
            LibraryError::InvalidTag(detail) => ("", detail.as_str()),
            LibraryError::TagNotFound(detail) => ("", detail.as_str()),
            LibraryError::TagAlreadyExists(detail) => ("", detail.as_str()),
            LibraryError::DocumentNotFound(detail) => ("", detail.as_str()),
            LibraryError::DocumentFileMissing(detail) => ("", detail.as_str()),
            LibraryError::InvalidDocumentMetadata(detail) => ("", detail.as_str()),
            LibraryError::StaleThumbnail(detail) => ("", detail.as_str()),
            LibraryError::OpenDocument(detail) => ("无法打开文档：", detail.as_str()),
            LibraryError::InvalidExternalUrl(detail) => ("", detail.as_str()),
            LibraryError::NoCurrentLibrary => ("尚未打开资料库。", ""),
            LibraryError::StateLock => ("资料库状态锁已损坏", ""),
        };
        proof {
            reveal_strlit("");
        }
        let mut text = lead.to_owned();
        text.append(detail);
        text
    }
}

/// An error by its kind and detail.
#[verifier::ext_equal]
pub struct Failure {
    pub kind: ErrorKind,
    pub detail: Seq<char>,
}

/// The error of this kind with this detail.
pub open spec fn failure(kind: ErrorKind, detail: Seq<char>) -> Failure {
    Failure { kind, detail }
}

/// What the user reads of an error.
pub open spec fn message_of(failure: Failure) -> Seq<char> {
    lead_of(failure.kind) + failure.detail
}

impl View for LibraryError {
    type V = Failure;

    open spec fn view(&self) -> Failure {
        Failure { kind: self.kind(), detail: self.detail() }
    }
}

/// What a function returned, by views.
pub open spec fn outcome<T: View>(result: LibraryResult<T>) -> Result<T::V, Failure> {
    match result {
        Ok(value) => Ok(value@),
        Err(error) => Err(error@),
    }
}

// ---- Laws ----

/// The length of a code and its first two characters and its last.
spec fn code_mark(kind: ErrorKind) -> (int, char, char, char) {
    match kind {
        ErrorKind::InvalidLocation => (15, 'i', 'n', 'n'),
        ErrorKind::InvalidLibrary => (14, 'i', 'n', 'y'),
        ErrorKind::RecentLibrary => (13, 'r', 'e', 'y'),
        ErrorKind::Io => (10, 'f', 'i', 'm'),
        ErrorKind::Database => (8, 'd', 'a', 'e'),
        ErrorKind::Json => (15, 'i', 'n', 'a'),
        ErrorKind::OpenDirectory => (13, 'o', 'p', 'y'),
        ErrorKind::Preview => (7, 'p', 'r', 'w'),
        ErrorKind::UnsafePreview => (13, 'u', 'n', 'w'),
        ErrorKind::ImportFile => (10, 'i', 'm', 'e'),
        ErrorKind::UnsupportedFile => (15, 'u', 'n', 'e'),
        ErrorKind::InvalidImportDecision => (21, 'i', 'n', 'n'),
        ErrorKind::ImportItemNotFound => (18, 'i', 'm', 'd'),
        ErrorKind::ProtectedCollection => (19, 'p', 'r', 'n'),
        ErrorKind::CollectionCycle => (15, 'c', 'o', 'e'),
        ErrorKind::CollectionNotFound => (18, 'c', 'o', 'd'),
        ErrorKind::InvalidCollection => (17, 'i', 'n', 'n'),
        ErrorKind::InvalidTag => (10, 'i', 'n', 'g'),
        ErrorKind::TagNotFound => (11, 't', 'a', 'd'),
        ErrorKind::TagAlreadyExists => (16, 't', 'a', 's'),
        ErrorKind::DocumentNotFound => (16, 'd', 'o', 'd'),
        ErrorKind::DocumentFileMissing => (19, 'd', 'o', 'g'),
        ErrorKind::InvalidDocumentMetadata => (23, 'i', 'n', 'a'),
        ErrorKind::StaleThumbnail => (14, 's', 't', 'l'),
        ErrorKind::OpenDocument => (12, 'o', 'p', 't'),
        ErrorKind::InvalidExternalUrl => (18, 'i', 'n', 'l'),
        ErrorKind::NoCurrentLibrary => (16, 'n', 'o', 'y'),
        ErrorKind::StateLock => (9, 's', 't', 'k'),
    }
}

proof fn lemma_code_has_its_mark(kind: ErrorKind)
    ensures
        ({
            let code = code_of(kind);
            code_mark(kind) == (code.len() as int, code[0], code[1], code.last())
        }),
{
    reveal_strlit("invalidLocation");
    reveal_strlit("invalidLibrary");
    reveal_strlit("recentLibrary");
    reveal_strlit("filesystem");
    reveal_strlit("database");
    reveal_strlit("invalidMetadata");
    reveal_strlit("openDirectory");
    reveal_strlit("preview");
    reveal_strlit("unsafePreview");
    reveal_strlit("importFile");
    reveal_strlit("unsupportedFile");
    reveal_strlit("invalidImportDecision");
    reveal_strlit("importItemNotFound");
    reveal_strlit("protectedCollection");
    reveal_strlit("collectionCycle");
    reveal_strlit("collectionNotFound");
    reveal_strlit("invalidCollection");
    reveal_strlit("invalidTag");
    reveal_strlit("tagNotFound");
    reveal_strlit("tagAlreadyExists");
    reveal_strlit("documentNotFound");
    reveal_strlit("documentFileMissing");
    reveal_strlit("invalidDocumentMetadata");
    reveal_strlit("staleThumbnail");
    reveal_strlit("openDocument");
    reveal_strlit("invalidExternalUrl");
    reveal_strlit("noCurrentLibrary");
    reveal_strlit("stateLock");
}

/// No two kinds of error have the same code.
pub proof fn codes_tell_errors_apart(a: ErrorKind, b: ErrorKind)
    requires
        code_of(a) == code_of(b),
    ensures
        a == b,
{
    lemma_code_has_its_mark(a);
    lemma_code_has_its_mark(b);
}

} // verus!
