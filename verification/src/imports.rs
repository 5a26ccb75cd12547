//! Importing files: what is made of the paths that the user chose, the checks of a file before it is
//! copied, and what is told of it.

use vstd::prelude::*;
use crate::copies::{single_paths, Copying, Disk};
use crate::data::{Document, Item};
use crate::digest::{hex_text, sha256};
use crate::error::{failure, outcome, ErrorKind, Failure, LibraryError, LibraryResult};
use crate::formats::{
    capability_for_path, display_type_of, format_of_path, importable_names, listed,
    supported_file_type, supported_type, unsupported_message, DocumentFormatId,
};
use crate::models::{
    DocumentProcessingStatus, DocumentSummary, ImportItemResult, ImportItemStatus, ImportSource,
    IndexStatus, TagSummary,
};
use crate::paths::{
    display_file_name, display_name, file_stem, name_stem, names_are_stems_and_extensions,
    path_file_name, path_file_name_of, replace_char, replaced,
};
use crate::text::{ascii_lowercase, chars, copy_option, optional, to_ascii_lowercase, trim, trimmed};

verus! {

// ---- Paths that the user chose ----

/// What was found at a path.
#[derive(Debug, Clone, Copy, PartialEq, Eq, Structural)]
pub enum PathKind {
    File,
    Directory,
    Symlink,
    Other,
}

/// One thing to import.
#[derive(Debug, Clone, PartialEq, Eq)]
pub enum ScanEntry {
    File(String),
    Ignored { source_path: String },
    Failed { source_path: String, message: String },
}

/// [`ScanEntry`] by characters.
#[verifier::ext_equal]
pub enum Scanned {
    File(Seq<char>),
    Ignored(Seq<char>),
    Failed(Seq<char>, Seq<char>),
}

impl View for ScanEntry {
    type V = Scanned;

    open spec fn view(&self) -> Scanned {
        match *self {
            ScanEntry::File(path) => Scanned::File(path@),
            ScanEntry::Ignored { source_path } => Scanned::Ignored(source_path@),
            ScanEntry::Failed { source_path, message } => Scanned::Failed(source_path@, message@),
        }
    }
}

/// The entries by views.
pub open spec fn scanned_views(entries: Seq<ScanEntry>) -> Seq<Scanned> {
    entries.map_values(|entry: ScanEntry| entry@)
}

/// The path of an entry.
pub open spec fn scanned_path(entry: Scanned) -> Seq<char> {
    match entry {
        Scanned::File(path) => path,
        Scanned::Ignored(path) => path,
        Scanned::Failed(path, _) => path,
    }
}

impl ScanEntry {
    /// The path of the entry.
    pub fn source_path(&self) -> (path: String)
        ensures
            path@ == scanned_path(self@),
    {
        match self {
            ScanEntry::File(path) => path.clone(),
            ScanEntry::Ignored { source_path } => source_path.clone(),
            ScanEntry::Failed { source_path, message: _ } => source_path.clone(),
        }
    }

    /// The name of the file.
    pub fn file_name(&self) -> (name: Option<String>)
        ensures
            optional(name) == path_file_name_of(scanned_path(self@)),
    {
        path_file_name(self.source_path().as_str())
    }

    /// A copy.
    pub fn copy(&self) -> (copy: ScanEntry)
        ensures
            copy@ == self@,
    {
        match self {
            ScanEntry::File(path) => ScanEntry::File(path.clone()),
            ScanEntry::Ignored { source_path } => ScanEntry::Ignored {
                source_path: source_path.clone(),
            },
            ScanEntry::Failed { source_path, message } => ScanEntry::Failed {
                source_path: source_path.clone(),
                message: message.clone(),
            },
        }
    }
}

/// What is said of a file that cannot be imported.
pub open spec fn not_supported() -> Seq<char> {
    "不支持该文件格式。仅支持 "@ + listed(importable_names()) + " 文件。"@
}

/// What becomes of a path that the user chose: an entry, or a directory to look into. A file that
/// cannot be imported is passed over when it was dropped on a collection, and reported otherwise.
pub open spec fn chosen_path(
    input: Seq<char>,
    found: Result<(Seq<char>, PathKind), Seq<char>>,
    source: ImportSource,
) -> Result<Scanned, Seq<char>> {
    if trim(input).len() == 0 {
        Ok(Scanned::Failed(input, "请选择要导入的文件或文件夹。"@))
    } else {
        match found {
            Err(reason) => Ok(Scanned::Failed(input, "无法读取源文件或文件夹："@ + reason)),
            Ok((path, kind)) => match kind {
                PathKind::Directory => Err(path),
                PathKind::File => if supported_type(path) is Some {
                    Ok(Scanned::File(path))
                } else if source == ImportSource::CollectionDrop {
                    Ok(Scanned::Ignored(path))
                } else {
                    Ok(Scanned::Failed(path, not_supported()))
                },
                _ => Ok(Scanned::Failed(path, "只能导入文件或文件夹。"@)),
            },
        }
    }
}

/// What becomes of a path that the user chose: an entry, or a directory to look into.
pub fn scan_explicit_path(
    input: &str,
    found: Result<(String, PathKind), String>,
    source: ImportSource,
) -> (choice: Result<ScanEntry, String>)
    ensures
        (match choice {
            Ok(entry) => Ok(entry@),
            Err(directory) => Err(directory@),
        }) == chosen_path(
            input@,
            match found {
                Ok(place) => Ok((place.0@, place.1)),
                Err(reason) => Err(reason@),
            },
            source,
        ),
{
    if chars(trimmed(input).as_str()).len() == 0 {
        return Ok(
            ScanEntry::Failed {
                source_path: input.to_owned(),
                message: "请选择要导入的文件或文件夹。".to_owned(),
            },
        );
    }
    match found {
        Err(reason) => {
            let mut message = "无法读取源文件或文件夹：".to_owned();
            message.append(reason.as_str());
            Ok(ScanEntry::Failed { source_path: input.to_owned(), message })
        },
        Ok((path, kind)) => match kind {
            PathKind::Directory => Err(path),
            PathKind::File => {
                if supported_file_type(path.as_str()).is_some() {
                    Ok(ScanEntry::File(path))
                } else if source == ImportSource::CollectionDrop {
                    Ok(ScanEntry::Ignored { source_path: path })
                } else {
                    Ok(ScanEntry::Failed { source_path: path, message: unsupported_message() })
                }
            },
            _ => Ok(
                ScanEntry::Failed {
                    source_path: path,
                    message: "只能导入文件或文件夹。".to_owned(),
                },
            ),
        },
    }
}

/// What becomes of something inside a directory: an entry, or a directory to look into. Links and
/// files that cannot be imported are passed over.
pub open spec fn found_inside(path: Seq<char>, kind: Result<PathKind, Seq<char>>) -> Result<
    Scanned,
    Seq<char>,
> {
    match kind {
        Err(reason) => Ok(Scanned::Failed(path, "无法读取文件类型："@ + reason)),
        Ok(PathKind::Directory) => Err(path),
        Ok(PathKind::File) => if supported_type(path) is Some {
            Ok(Scanned::File(path))
        } else {
            Ok(Scanned::Ignored(path))
        },
        _ => Ok(Scanned::Ignored(path)),
    }
}

/// What becomes of something inside a directory.
pub fn scan_directory_entry(path: String, kind: Result<PathKind, String>) -> (choice: Result<
    ScanEntry,
    String,
>)
    ensures
        (match choice {
            Ok(entry) => Ok(entry@),
            Err(directory) => Err(directory@),
        }) == found_inside(
            path@,
            match kind {
                Ok(kind) => Ok(kind),
                Err(reason) => Err(reason@),
            },
        ),
{
    match kind {
        Err(reason) => {
            let mut message = "无法读取文件类型：".to_owned();
            message.append(reason.as_str());
            Ok(ScanEntry::Failed { source_path: path, message })
        },
        Ok(PathKind::Directory) => Err(path),
        Ok(PathKind::File) => {
            if supported_file_type(path.as_str()).is_some() {
                Ok(ScanEntry::File(path))
            } else {
                Ok(ScanEntry::Ignored { source_path: path })
            }
        },
        Ok(_) => Ok(ScanEntry::Ignored { source_path: path }),
    }
}

/// What is told of a directory that cannot be looked into.
pub fn unreadable_directory(path: String, listed: bool, reason: &str) -> (entry: ScanEntry)
    ensures
        entry@ == Scanned::Failed(
            path@,
            (if listed {
                "无法读取文件夹内容："@
            } else {
                "无法扫描文件夹："@
            }) + reason@,
        ),
{
    let mut message = if listed {
        "无法读取文件夹内容：".to_owned()
    } else {
        "无法扫描文件夹：".to_owned()
    };
    message.append(reason);
    ScanEntry::Failed { source_path: path, message }
}

// ---- What is told of a file ----

/// What is told of a file that could not be imported.
pub open spec fn failed_item(
    item_id: Seq<char>,
    source_path: Seq<char>,
    file_name: Option<Seq<char>>,
    file_type: Option<Seq<char>>,
    stage: Seq<char>,
    message: Seq<char>,
) -> Item {
    Item {
        item_id,
        source_path,
        file_name: match file_name {
            Some(name) => name,
            None => display_name(source_path),
        },
        file_type,
        status: ImportItemStatus::Failed,
        document_id: None,
        duplicate_document_id: None,
        error_stage: Some(stage),
        error_message: Some(message),
        retryable: true,
        target_collection_id: None,
        collection_id: None,
        notice: None,
    }
}

/// What is told of a file that could not be imported. It can be tried again.
pub fn failure_item(
    item_id: String,
    source_path: String,
    file_name: Option<String>,
    file_type: Option<String>,
    error_stage: &str,
    error_message: String,
) -> (item: ImportItemResult)
    ensures
        item@ == failed_item(
            item_id@,
            source_path@,
            optional(file_name),
            optional(file_type),
            error_stage@,
            error_message@,
        ),
{
    let file_name = match file_name {
        Some(name) => name,
        None => display_file_name(source_path.as_str()),
    };
    ImportItemResult {
        item_id,
        source_path,
        file_name,
        file_type,
        status: ImportItemStatus::Failed,
        document_id: None,
        duplicate_document_id: None,
        error_stage: Some(error_stage.to_owned()),
        error_message: Some(error_message),
        retryable: true,
        target_collection_id: None,
        collection_id: None,
        notice: None,
    }
}

/// What is told of a file that was passed over.
pub open spec fn ignored_item(item_id: Seq<char>, source_path: Seq<char>, target: Option<Seq<char>>)
    -> Item {
    Item {
        item_id,
        source_path,
        file_name: display_name(source_path),
        file_type: None,
        status: ImportItemStatus::Ignored,
        document_id: None,
        duplicate_document_id: None,
        error_stage: None,
        error_message: None,
        retryable: false,
        target_collection_id: target,
        collection_id: None,
        notice: None,
    }
}

/// What is told of an entry that holds no file to import.
pub open spec fn unimported_item(entry: Scanned, item_id: Seq<char>, target: Option<Seq<char>>) -> Option<
    Item,
> {
    match entry {
        Scanned::File(_) => None,
        Scanned::Ignored(path) => Some(ignored_item(item_id, path, target)),
        Scanned::Failed(path, message) => Some(
            Item {
                target_collection_id: target,
                ..failed_item(item_id, path, None, None, "scan"@, message)
            },
        ),
    }
}

/// What is told of an entry that holds no file to import.
pub fn item_without_file(entry: &ScanEntry, item_id: String, target: &Option<String>) -> (item: Option<
    ImportItemResult,
>)
    ensures
        crate::data::optional_item(item) == unimported_item(entry@, item_id@, optional(*target)),
{
    match entry {
        ScanEntry::File(_) => None,
        ScanEntry::Ignored { source_path } => Some(
            ImportItemResult {
                item_id,
                file_name: display_file_name(source_path.as_str()),
                source_path: source_path.clone(),
                file_type: None,
                status: ImportItemStatus::Ignored,
                document_id: None,
                duplicate_document_id: None,
                error_stage: None,
                error_message: None,
                retryable: false,
                target_collection_id: copy_option(target),
                collection_id: None,
                notice: None,
            },
        ),
        ScanEntry::Failed { source_path, message } => {
            let mut item = failure_item(
                item_id,
                source_path.clone(),
                None,
                None,
                "scan",
                message.clone(),
            );
            item.target_collection_id = copy_option(target);
            Some(item)
        },
    }
}

// ---- Checks of a file ----

/// A file that waits for its copy or for a decision.
#[derive(Debug, Clone, PartialEq, Eq)]
pub struct PendingImport {
    pub source_path: String,
    pub file_name: String,
    pub file_type: String,
    pub file_size: i64,
    pub source_identifier: String,
    pub content_hash: String,
    /// The document that the file is held against; empty where there is none.
    pub existing_document_id: String,
    pub target_collection_id: Option<String>,
}

/// [`PendingImport`] by characters.
#[verifier::ext_equal]
pub struct Pending {
    pub source_path: Seq<char>,
    pub file_name: Seq<char>,
    pub file_type: Seq<char>,
    pub file_size: i64,
    pub source_identifier: Seq<char>,
    pub content_hash: Seq<char>,
    pub existing_document_id: Seq<char>,
    pub target_collection_id: Option<Seq<char>>,
}

impl View for PendingImport {
    type V = Pending;

    open spec fn view(&self) -> Pending {
        Pending {
            source_path: self.source_path@,
            file_name: self.file_name@,
            file_type: self.file_type@,
            file_size: self.file_size,
            source_identifier: self.source_identifier@,
            content_hash: self.content_hash@,
            existing_document_id: self.existing_document_id@,
            target_collection_id: optional(self.target_collection_id),
        }
    }
}

impl PendingImport {
    /// A copy.
    pub fn copy(&self) -> (copy: PendingImport)
        ensures
            copy@ == self@,
    {
        PendingImport {
            source_path: self.source_path.clone(),
            file_name: self.file_name.clone(),
            file_type: self.file_type.clone(),
            file_size: self.file_size,
            source_identifier: self.source_identifier.clone(),
            content_hash: self.content_hash.clone(),
            existing_document_id: self.existing_document_id.clone(),
            target_collection_id: copy_option(&self.target_collection_id),
        }
    }
}

/// What a file system tells of a path.
#[derive(Debug, Clone, Copy, PartialEq, Eq, Structural)]
pub struct FileFacts {
    pub is_file: bool,
    pub size: u64,
}

/// A file that was found and can be imported by its name and size.
#[derive(Debug, Clone, PartialEq, Eq)]
pub struct MeasuredSource {
    pub item_id: String,
    pub source_path: String,
    pub file_name: String,
    pub file_type: String,
    pub format: DocumentFormatId,
    pub file_size: i64,
}

/// [`MeasuredSource`] by characters.
#[verifier::ext_equal]
pub struct Measured {
    pub item_id: Seq<char>,
    pub source_path: Seq<char>,
    pub file_name: Seq<char>,
    pub file_type: Seq<char>,
    pub format: DocumentFormatId,
    pub file_size: i64,
}

impl View for MeasuredSource {
    type V = Measured;

    open spec fn view(&self) -> Measured {
        Measured {
            item_id: self.item_id@,
            source_path: self.source_path@,
            file_name: self.file_name@,
            file_type: self.file_type@,
            format: self.format,
            file_size: self.file_size,
        }
    }
}

/// What becomes of a file by its place, its name and its size: it is measured, or told to have
/// failed. `located` is where the path leads, `facts` what the file system tells of it.
pub open spec fn measured(
    item_id: Seq<char>,
    original_path: Seq<char>,
    located: Result<Seq<char>, Seq<char>>,
    facts: Result<FileFacts, Seq<char>>,
) -> Result<Measured, Item> {
    match located {
        Err(reason) => Err(failed_item(item_id, original_path, None, None, "scan"@, reason)),
        Ok(path) => match facts {
            Err(reason) => Err(
                failed_item(item_id, path, None, None, "scan"@, "无法读取源文件："@ + reason),
            ),
            Ok(facts) => if !facts.is_file {
                Err(failed_item(item_id, path, None, None, "scan"@, "只能导入文件或文件夹。"@))
            } else {
                match path_file_name_of(path) {
                    None => Err(
                        failed_item(item_id, path, None, None, "scan"@, "源文件缺少文件名。"@),
                    ),
                    Some(name) => match format_of_path(path) {
                        None => Err(
                            failed_item(item_id, path, Some(name), None, "scan"@, not_supported()),
                        ),
                        Some(format) => if facts.size > i64::MAX {
                            Err(
                                failed_item(
                                    item_id,
                                    path,
                                    Some(name),
                                    Some(display_type_of(format)),
                                    "scan"@,
                                    "文件大小超出支持范围。"@,
                                ),
                            )
                        } else {
                            Ok(
                                Measured {
                                    item_id,
                                    source_path: path,
                                    file_name: name,
                                    file_type: display_type_of(format),
                                    format,
                                    file_size: facts.size as i64,
                                },
                            )
                        },
                    },
                }
            },
        },
    }
}

/// A measured file or what is told of it, by views.
pub open spec fn measured_view(result: Result<MeasuredSource, ImportItemResult>) -> Result<
    Measured,
    Item,
> {
    match result {
        Ok(source) => Ok(source@),
        Err(item) => Err(item@),
    }
}

/// A text, or why there is none, by characters.
pub open spec fn text_result(result: Result<String, String>) -> Result<Seq<char>, Seq<char>> {
    match result {
        Ok(text) => Ok(text@),
        Err(reason) => Err(reason@),
    }
}

/// What a file system told, or why it told nothing, by characters.
pub open spec fn facts_result(result: Result<FileFacts, String>) -> Result<FileFacts, Seq<char>> {
    match result {
        Ok(facts) => Ok(facts),
        Err(reason) => Err(reason@),
    }
}

/// Measures a file that is to be imported.
pub fn measure_source(
    item_id: String,
    original_path: String,
    located: Result<String, String>,
    facts: Result<FileFacts, String>,
) -> (result: Result<MeasuredSource, ImportItemResult>)
    ensures
        measured_view(result) == measured(
            item_id@,
            original_path@,
            text_result(located),
            facts_result(facts),
        ),
{
    let path = match located {
        Err(reason) => {
            return Err(failure_item(item_id, original_path, None, None, "scan", reason));
        },
        Ok(path) => path,
    };
    let facts = match facts {
        Err(reason) => {
            let mut message = "无法读取源文件：".to_owned();
            message.append(reason.as_str());
            return Err(failure_item(item_id, path, None, None, "scan", message));
        },
        Ok(facts) => facts,
    };
    if !facts.is_file {
        return Err(
            failure_item(item_id, path, None, None, "scan", "只能导入文件或文件夹。".to_owned()),
        );
    }
    let file_name = match path_file_name(path.as_str()) {
        None => {
            return Err(
                failure_item(item_id, path, None, None, "scan", "源文件缺少文件名。".to_owned()),
            );
        },
        Some(name) => name,
    };
    let capability = match capability_for_path(path.as_str()) {
        None => {
            return Err(
                failure_item(item_id, path, Some(file_name), None, "scan", unsupported_message()),
            );
        },
        Some(capability) => capability,
    };
    if facts.size > i64::MAX as u64 {
        return Err(
            failure_item(
                item_id,
                path,
                Some(file_name),
                Some(capability.display_type),
                "scan",
                "文件大小超出支持范围。".to_owned(),
            ),
        );
    }
    Ok(
        MeasuredSource {
            item_id,
            source_path: path,
            file_name,
            file_type: capability.display_type,
            format: capability.id,
            file_size: facts.size as i64,
        },
    )
}

/// The file after its contents were checked and its hash was computed, or what is told of it. It
/// waits for a copy and is held against no document yet.
pub open spec fn prepared(
    source: Measured,
    contents: Result<(), Seq<char>>,
    hash: Result<Seq<char>, Seq<char>>,
    target: Option<Seq<char>>,
) -> Result<Pending, Item> {
    match contents {
        Err(message) => Err(
            failed_item(
                source.item_id,
                source.source_path,
                Some(source.file_name),
                Some(source.file_type),
                "validate"@,
                message,
            ),
        ),
        Ok(()) => match hash {
            Err(reason) => Err(
                failed_item(
                    source.item_id,
                    source.source_path,
                    Some(source.file_name),
                    Some(source.file_type),
                    "hash"@,
                    "无法计算文件哈希："@ + reason,
                ),
            ),
            Ok(hash) => Ok(
                Pending {
                    source_path: source.source_path,
                    file_name: source.file_name,
                    file_type: source.file_type,
                    file_size: source.file_size,
                    source_identifier: ascii_lowercase(source.source_path),
                    content_hash: hash,
                    existing_document_id: Seq::empty(),
                    target_collection_id: target,
                },
            ),
        },
    }
}

/// Prepares a measured file for its copy.
pub fn prepare_source(
    source: MeasuredSource,
    contents: Result<(), String>,
    hash: Result<String, String>,
    target: &Option<String>,
) -> (result: Result<PendingImport, ImportItemResult>)
    ensures
        (match result {
            Ok(pending) => Ok(pending@),
            Err(item) => Err(item@),
        }) == prepared(
            source@,
            crate::table::reason_view(contents),
            text_result(hash),
            optional(*target),
        ),
{
    if let Err(message) = contents {
        return Err(
            failure_item(
                source.item_id,
                source.source_path,
                Some(source.file_name),
                Some(source.file_type),
                "validate",
                message,
            ),
        );
    }
    match hash {
        Err(reason) => {
            let mut message = "无法计算文件哈希：".to_owned();
            message.append(reason.as_str());
            Err(
                failure_item(
                    source.item_id,
                    source.source_path,
                    Some(source.file_name),
                    Some(source.file_type),
                    "hash",
                    message,
                ),
            )
        },
        Ok(content_hash) => {
            let existing_document_id = String::new();
            assert(existing_document_id@ =~= Seq::empty());
            Ok(
                PendingImport {
                    source_identifier: to_ascii_lowercase(source.source_path.as_str()),
                    source_path: source.source_path,
                    file_name: source.file_name,
                    file_type: source.file_type,
                    file_size: source.file_size,
                    content_hash,
                    existing_document_id,
                    target_collection_id: copy_option(target),
                },
            )
        },
    }
}

/// What is done with a prepared file.
#[derive(Debug)]
pub enum ImportChoice {
    /// It is copied.
    Create(PendingImport),
    /// The user decides.
    Ask(ImportItemResult, PendingImport),
    /// It failed.
    Fail(ImportItemResult),
}

/// What is done with a prepared file, by characters.
#[verifier::ext_equal]
pub enum Choice {
    Create(Pending),
    Ask(Item, Pending),
    Fail(Item),
}

impl View for ImportChoice {
    type V = Choice;

    open spec fn view(&self) -> Choice {
        match *self {
            ImportChoice::Create(pending) => Choice::Create(pending@),
            ImportChoice::Ask(item, pending) => Choice::Ask(item@, pending@),
            ImportChoice::Fail(item) => Choice::Fail(item@),
        }
    }
}

/// What is told of a file on which the user decides.
pub open spec fn asking_item(
    item_id: Seq<char>,
    pending: Pending,
    status: ImportItemStatus,
    existing: Seq<char>,
) -> Item {
    Item {
        item_id,
        source_path: pending.source_path,
        file_name: pending.file_name,
        file_type: Some(pending.file_type),
        status,
        document_id: None,
        duplicate_document_id: Some(existing),
        error_stage: None,
        error_message: None,
        retryable: false,
        target_collection_id: pending.target_collection_id,
        collection_id: None,
        notice: None,
    }
}

/// What is done with a prepared file. A file that was imported before with other contents comes
/// first, a document with the same contents second.
pub open spec fn chosen(
    item_id: Seq<char>,
    pending: Pending,
    changed: Result<Option<Seq<char>>, Seq<char>>,
    duplicate: Result<Option<Seq<char>>, Seq<char>>,
) -> Choice {
    let failed = |reason: Seq<char>|
        Choice::Fail(
            failed_item(
                item_id,
                pending.source_path,
                Some(pending.file_name),
                Some(pending.file_type),
                "database"@,
                reason,
            ),
        );
    match changed {
        Err(reason) => failed(reason),
        Ok(Some(existing)) => Choice::Ask(
            asking_item(item_id, pending, ImportItemStatus::SourceChanged, existing),
            Pending { existing_document_id: existing, ..pending },
        ),
        Ok(None) => match duplicate {
            Err(reason) => failed(reason),
            Ok(Some(existing)) => Choice::Ask(
                asking_item(item_id, pending, ImportItemStatus::Duplicate, existing),
                Pending { existing_document_id: existing, ..pending },
            ),
            Ok(None) => Choice::Create(pending),
        },
    }
}

/// The id that a lookup found, or why it failed, by characters.
pub open spec fn lookup_view(result: Result<Option<String>, String>) -> Result<
    Option<Seq<char>>,
    Seq<char>,
> {
    match result {
        Ok(found) => Ok(optional(found)),
        Err(reason) => Err(reason@),
    }
}

/// Asks the user about a file.
fn ask(item_id: String, pending: PendingImport, status: ImportItemStatus, existing: String) -> (choice:
    ImportChoice)
    ensures
        choice@ == Choice::Ask(
            asking_item(item_id@, pending@, status, existing@),
            Pending { existing_document_id: existing@, ..pending@ },
        ),
{
    let item = ImportItemResult {
        item_id,
        source_path: pending.source_path.clone(),
        file_name: pending.file_name.clone(),
        file_type: Some(pending.file_type.clone()),
        status,
        document_id: None,
        duplicate_document_id: Some(existing.clone()),
        error_stage: None,
        error_message: None,
        retryable: false,
        target_collection_id: copy_option(&pending.target_collection_id),
        collection_id: None,
        notice: None,
    };
    ImportChoice::Ask(item, PendingImport { existing_document_id: existing, ..pending })
}

/// Decides what is done with a prepared file.
pub fn choose_import(
    item_id: String,
    pending: PendingImport,
    changed: Result<Option<String>, String>,
    duplicate: Result<Option<String>, String>,
) -> (choice: ImportChoice)
    ensures
        choice@ == chosen(item_id@, pending@, lookup_view(changed), lookup_view(duplicate)),
{
    let reason = match changed {
        Ok(Some(existing)) => {
            return ask(item_id, pending, ImportItemStatus::SourceChanged, existing);
        },
        Ok(None) => match duplicate {
            Ok(Some(existing)) => {
                return ask(item_id, pending, ImportItemStatus::Duplicate, existing);
            },
            Ok(None) => {
                return ImportChoice::Create(pending);
            },
            Err(reason) => reason,
        },
        Err(reason) => reason,
    };
    ImportChoice::Fail(
        failure_item(
            item_id,
            pending.source_path,
            Some(pending.file_name),
            Some(pending.file_type),
            "database",
            reason,
        ),
    )
}

// ---- The document of a new copy ----

/// The title that a new document has: the name of the file without its extension.
pub open spec fn title_of(file_name: Seq<char>) -> Seq<char> {
    if name_stem(file_name).len() > 0 {
        name_stem(file_name)
    } else {
        file_name
    }
}

/// The title that a new document has.
pub fn document_title(file_name: &str) -> (title: String)
    ensures
        title@ == title_of(file_name@),
{
    let stem = file_stem(file_name);
    if chars(stem.as_str()).len() > 0 {
        stem
    } else {
        file_name.to_owned()
    }
}

/// Where the copy of a document stands, below the library.
pub open spec fn copy_path(document_id: Seq<char>, file_name: Seq<char>) -> Seq<char> {
    replaced("documents/"@ + document_id + "/"@ + file_name, '\\', '/')
}

/// Where the copy of a document stands, below the library.
pub fn library_path(document_id: &str, file_name: &str) -> (path: String)
    ensures
        path@ == copy_path(document_id@, file_name@),
{
    let mut path = "documents/".to_owned();
    path.append(document_id);
    path.append("/");
    path.append(file_name);
    replace_char(path.as_str(), '\\', '/')
}

/// The document of a new copy.
pub open spec fn new_document(
    pending: Pending,
    document_id: Seq<char>,
    collection_id: Seq<char>,
    imported_at: Seq<char>,
) -> Document {
    Document {
        id: document_id,
        title: title_of(pending.file_name),
        description: None,
        document_date: None,
        file_name: pending.file_name,
        file_type: pending.file_type,
        file_size: pending.file_size,
        content_hash: Some(pending.content_hash),
        collection_id,
        tags: Seq::empty(),
        processing_status: DocumentProcessingStatus::Ready,
        index_status: IndexStatus::Pending,
        error_stage: None,
        error_message: None,
        imported_at,
        source_path: pending.source_path,
        source_identifier: pending.source_identifier,
        last_imported_at: imported_at,
    }
}

/// The document of a new copy.
pub fn document_of(
    pending: &PendingImport,
    document_id: String,
    collection_id: String,
    imported_at: String,
) -> (document: DocumentSummary)
    ensures
        document@ == new_document(pending@, document_id@, collection_id@, imported_at@),
{
    let tags: Vec<TagSummary> = Vec::new();
    assert(crate::data::tag_views(tags@) =~= Seq::empty());
    DocumentSummary {
        id: document_id,
        title: document_title(pending.file_name.as_str()),
        description: None,
        document_date: None,
        file_name: pending.file_name.clone(),
        file_type: pending.file_type.clone(),
        file_size: pending.file_size,
        content_hash: Some(pending.content_hash.clone()),
        collection_id,
        tags,
        processing_status: DocumentProcessingStatus::Ready,
        index_status: IndexStatus::Pending,
        error_stage: None,
        error_message: None,
        imported_at: imported_at.clone(),
        source_path: pending.source_path.clone(),
        source_identifier: pending.source_identifier.clone(),
        last_imported_at: imported_at,
    }
}

/// What is told of a file that was imported.
pub open spec fn imported_item(
    item_id: Seq<char>,
    source_path: Seq<char>,
    file_name: Seq<char>,
    file_type: Seq<char>,
    document_id: Seq<char>,
    target: Option<Seq<char>>,
    collection_id: Seq<char>,
    notice: Option<Seq<char>>,
) -> Item {
    Item {
        item_id,
        source_path,
        file_name,
        file_type: Some(file_type),
        status: ImportItemStatus::Imported,
        document_id: Some(document_id),
        duplicate_document_id: None,
        error_stage: None,
        error_message: None,
        retryable: false,
        target_collection_id: target,
        collection_id: Some(collection_id),
        notice,
    }
}

/// What is told of a file that was imported as this document.
pub fn imported(
    item_id: String,
    source_path: String,
    document: &DocumentSummary,
    target: &Option<String>,
    notice: Option<String>,
) -> (item: ImportItemResult)
    ensures
        item@ == imported_item(
            item_id@,
            source_path@,
            document@.file_name,
            document@.file_type,
            document@.id,
            optional(*target),
            document@.collection_id,
            optional(notice),
        ),
{
    ImportItemResult {
        item_id,
        source_path,
        file_name: document.file_name.clone(),
        file_type: Some(document.file_type.clone()),
        status: ImportItemStatus::Imported,
        document_id: Some(document.id.clone()),
        duplicate_document_id: None,
        error_stage: None,
        error_message: None,
        retryable: false,
        target_collection_id: copy_option(target),
        collection_id: Some(document.collection_id.clone()),
        notice,
    }
}

/// What is told of a copy that was given up.
pub open spec fn refused_item(
    item_id: Seq<char>,
    pending: Pending,
    source_path: Seq<char>,
    refusal: crate::copies::Refusal,
) -> Item {
    failed_item(
        item_id,
        source_path,
        Some(pending.file_name),
        Some(pending.file_type),
        refusal.stage,
        refusal.message,
    )
}

/// What is told of a copy that was given up.
pub fn refused(
    item_id: String,
    pending: &PendingImport,
    source_path: String,
    refusal: &crate::copies::CopyFailure,
) -> (item: ImportItemResult)
    ensures
        item@ == refused_item(item_id@, pending@, source_path@, refusal@),
{
    failure_item(
        item_id,
        source_path,
        Some(pending.file_name.clone()),
        Some(pending.file_type.clone()),
        refusal.stage.as_str(),
        refusal.message.clone(),
    )
}

/// What becomes of the file that replaces the copy of a document, before the copy is made: the size
/// and the hash that it has now, or what is told of it.
pub open spec fn replacing_source(
    item_id: Seq<char>,
    pending: Pending,
    located: Result<Seq<char>, Seq<char>>,
    size: Result<u64, Seq<char>>,
    hash: Result<Seq<char>, Seq<char>>,
) -> Result<Pending, Item> {
    let failed = |path: Seq<char>, stage: Seq<char>, message: Seq<char>|
        failed_item(
            item_id,
            path,
            Some(pending.file_name),
            Some(pending.file_type),
            stage,
            message,
        );
    match located {
        Err(reason) => Err(failed(pending.source_path, "scan"@, reason)),
        Ok(path) => match size {
            Err(reason) => Err(failed(path, "scan"@, "无法读取源文件："@ + reason)),
            Ok(size) => if size > i64::MAX {
                Err(failed(path, "scan"@, "文件大小超出支持范围。"@))
            } else {
                match hash {
                    Err(reason) => Err(failed(path, "hash"@, "无法计算文件哈希："@ + reason)),
                    Ok(hash) => Ok(
                        Pending {
                            source_path: path,
                            file_size: size as i64,
                            content_hash: hash,
                            ..pending
                        },
                    ),
                }
            },
        },
    }
}

/// Checks the file that replaces the copy of a document.
pub fn check_replacing_source(
    item_id: String,
    pending: PendingImport,
    located: Result<String, String>,
    size: Result<u64, String>,
    hash: Result<String, String>,
) -> (result: Result<PendingImport, ImportItemResult>)
    ensures
        (match result {
            Ok(source) => Ok(source@),
            Err(item) => Err(item@),
        }) == replacing_source(
            item_id@,
            pending@,
            text_result(located),
            match size {
                Ok(size) => Ok(size),
                Err(reason) => Err(reason@),
            },
            text_result(hash),
        ),
{
    let name = Some(pending.file_name.clone());
    let kind = Some(pending.file_type.clone());
    let path = match located {
        Err(reason) => {
            return Err(
                failure_item(item_id, pending.source_path, name, kind, "scan", reason),
            );
        },
        Ok(path) => path,
    };
    let size: u64 = match size {
        Err(reason) => {
            let mut message = "无法读取源文件：".to_owned();
            message.append(reason.as_str());
            return Err(failure_item(item_id, path, name, kind, "scan", message));
        },
        Ok(size) => size,
    };
    if size > i64::MAX as u64 {
        return Err(
            failure_item(item_id, path, name, kind, "scan", "文件大小超出支持范围。".to_owned()),
        );
    }
    match hash {
        Err(reason) => {
            let mut message = "无法计算文件哈希：".to_owned();
            message.append(reason.as_str());
            Err(failure_item(item_id, path, name, kind, "hash", message))
        },
        Ok(content_hash) => Ok(
            PendingImport { source_path: path, file_size: size as i64, content_hash, ..pending },
        ),
    }
}

// ---- One file, without questions ----

/// Why a file is refused that is imported without questions, if it is: by its kind, its name, its
/// size and its contents.
pub open spec fn single_source(
    path: Seq<char>,
    facts: FileFacts,
    contents: Result<(), Seq<char>>,
) -> Result<Measured, Failure> {
    if !facts.is_file {
        Err(failure(ErrorKind::ImportFile, "只能导入文件："@ + path))
    } else {
        match path_file_name_of(path) {
            None => Err(failure(ErrorKind::ImportFile, "源文件缺少文件名。"@)),
            Some(name) => match format_of_path(path) {
                None => Err(failure(ErrorKind::UnsupportedFile, not_supported())),
                Some(format) => if facts.size > i64::MAX {
                    Err(failure(ErrorKind::ImportFile, "文件大小超出支持范围。"@))
                } else {
                    match contents {
                        Err(message) => Err(failure(ErrorKind::ImportFile, message)),
                        Ok(()) => Ok(
                            Measured {
                                item_id: Seq::empty(),
                                source_path: path,
                                file_name: name,
                                file_type: display_type_of(format),
                                format,
                                file_size: facts.size as i64,
                            },
                        ),
                    }
                },
            },
        }
    }
}

/// Checks a file that is imported without questions.
pub fn check_single_source(path: String, facts: FileFacts, contents: Result<(), String>) -> (result:
    LibraryResult<MeasuredSource>)
    ensures
        outcome(result) == single_source(path@, facts, crate::table::reason_view(contents)),
{
    if !facts.is_file {
        let mut detail = "只能导入文件：".to_owned();
        detail.append(path.as_str());
        return Err(LibraryError::ImportFile(detail));
    }
    let file_name = match path_file_name(path.as_str()) {
        None => {
            return Err(LibraryError::ImportFile("源文件缺少文件名。".to_owned()));
        },
        Some(name) => name,
    };
    let capability = match capability_for_path(path.as_str()) {
        None => {
            return Err(LibraryError::UnsupportedFile(unsupported_message()));
        },
        Some(capability) => capability,
    };
    if facts.size > i64::MAX as u64 {
        return Err(LibraryError::ImportFile("文件大小超出支持范围。".to_owned()));
    }
    if let Err(message) = contents {
        return Err(LibraryError::ImportFile(message));
    }
    let item_id = String::new();
    assert(item_id@ =~= Seq::empty());
    Ok(
        MeasuredSource {
            item_id,
            source_path: path,
            file_name,
            file_type: capability.display_type,
            format: capability.id,
            file_size: facts.size as i64,
        },
    )
}

/// The document of a file that was imported without questions. It stands in the inbox; where its
/// hash could not be computed it is kept, but marked.
pub open spec fn single_document(
    source: Measured,
    document_id: Seq<char>,
    hash: Result<Seq<char>, Seq<char>>,
    imported_at: Seq<char>,
) -> Document {
    let kept = Document {
        id: document_id,
        title: title_of(source.file_name),
        description: None,
        document_date: None,
        file_name: source.file_name,
        file_type: source.file_type,
        file_size: source.file_size,
        content_hash: None,
        collection_id: "inbox"@,
        tags: Seq::empty(),
        processing_status: DocumentProcessingStatus::Ready,
        index_status: IndexStatus::Pending,
        error_stage: None,
        error_message: None,
        imported_at,
        source_path: source.source_path,
        source_identifier: ascii_lowercase(source.source_path),
        last_imported_at: imported_at,
    };
    match hash {
        Ok(hash) => Document { content_hash: Some(hash), ..kept },
        Err(reason) => marked_failed(kept, "hashing"@, "无法计算文件哈希："@ + reason),
    }
}

/// The document, marked as failed in this stage.
pub open spec fn marked_failed(document: Document, stage: Seq<char>, message: Seq<char>) -> Document {
    Document {
        processing_status: DocumentProcessingStatus::Failed,
        index_status: IndexStatus::Failed,
        error_stage: Some(stage),
        error_message: Some(message),
        ..document
    }
}

/// Marks a document as failed.
fn mark_failed(document: &mut DocumentSummary, stage: &str, lead: &str, reason: &str)
    ensures
        final(document)@ == marked_failed(old(document)@, stage@, lead@ + reason@),
{
    let mut message = lead.to_owned();
    message.append(reason);
    document.processing_status = DocumentProcessingStatus::Failed;
    document.index_status = IndexStatus::Failed;
    document.error_stage = Some(stage.to_owned());
    document.error_message = Some(message);
}

/// The document of a file that was imported without questions.
pub fn single_document_of(
    source: MeasuredSource,
    document_id: String,
    hash: Result<String, String>,
    imported_at: String,
) -> (document: DocumentSummary)
    ensures
        document@ == single_document(source@, document_id@, text_result(hash), imported_at@),
{
    let tags: Vec<TagSummary> = Vec::new();
    assert(crate::data::tag_views(tags@) =~= Seq::empty());
    let mut document = DocumentSummary {
        id: document_id,
        title: document_title(source.file_name.as_str()),
        description: None,
        document_date: None,
        file_name: source.file_name,
        file_type: source.file_type,
        file_size: source.file_size,
        content_hash: None,
        collection_id: "inbox".to_owned(),
        tags,
        processing_status: DocumentProcessingStatus::Ready,
        index_status: IndexStatus::Pending,
        error_stage: None,
        error_message: None,
        imported_at: imported_at.clone(),
        source_identifier: to_ascii_lowercase(source.source_path.as_str()),
        source_path: source.source_path,
        last_imported_at: imported_at,
    };
    match hash {
        Ok(hash) => {
            document.content_hash = Some(hash);
        },
        Err(reason) => {
            mark_failed(&mut document, "hashing", "无法计算文件哈希：", reason.as_str());
        },
    }
    document
}

/// The document after its source could not be recorded: it is kept, but marked.
pub fn without_source(document: DocumentSummary, reason: &str) -> (marked: DocumentSummary)
    ensures
        marked@ == marked_failed(document@, "source"@, "无法记录来源信息："@ + reason@),
{
    let mut marked = document;
    mark_failed(&mut marked, "source", "无法记录来源信息：", reason);
    marked
}

// ---- Laws ----

/// A file that is asked about or copied has a name, a format that the library knows, and a source
/// that was found to be a file.
pub proof fn prepared_files_are_importable(
    item_id: Seq<char>,
    original_path: Seq<char>,
    located: Result<Seq<char>, Seq<char>>,
    facts: Result<FileFacts, Seq<char>>,
)
    requires
        measured(item_id, original_path, located, facts) is Ok,
    ensures
        ({
            let source = measured(item_id, original_path, located, facts)->Ok_0;
            &&& supported_type(source.source_path) == Some(source.file_type)
            &&& path_file_name_of(source.source_path) == Some(source.file_name)
            &&& source.file_size >= 0
            &&& facts->Ok_0.is_file
        }),
{
}

/// A document with the same contents, and the same file with other contents, are never imported
/// again without the user being asked.
pub proof fn conflicts_are_asked_about(
    item_id: Seq<char>,
    pending: Pending,
    changed: Result<Option<Seq<char>>, Seq<char>>,
    duplicate: Result<Option<Seq<char>>, Seq<char>>,
)
    requires
        chosen(item_id, pending, changed, duplicate) is Create,
    ensures
        changed == Ok::<Option<Seq<char>>, Seq<char>>(None),
        duplicate == Ok::<Option<Seq<char>>, Seq<char>>(None),
{
}

/// Importing a file twice without questions gives two documents with one hash: nobody is asked whether
/// they are the same. Each stands in the inbox under the name of the file, without tags, ready and to
/// be indexed, and the file itself is as it was.
pub proof fn single_imports_make_new_documents(
    path: Seq<char>,
    facts: FileFacts,
    contents: Result<(), Seq<char>>,
    disk: Disk,
    first: Copying,
    second: Copying,
    first_id: Seq<char>,
    second_id: Seq<char>,
    first_at: Seq<char>,
    second_at: Seq<char>,
)
    requires
        single_source(path, facts, contents) is Ok,
        first.source == path,
        second.source == path,
        single_paths(first, disk),
        single_paths(second, disk.insert(first.destination, disk[path])),
        first_id != second_id,
    ensures
        ({
            let source = single_source(path, facts, contents)->Ok_0;
            let once = disk.insert(first.destination, disk[path]);
            let twice = once.insert(second.destination, once[path]);
            let one = single_document(
                source,
                first_id,
                Ok(hex_text(sha256(once[first.destination]))),
                first_at,
            );
            let other = single_document(
                source,
                second_id,
                Ok(hex_text(sha256(twice[second.destination]))),
                second_at,
            );
            &&& other.id != one.id
            &&& other.content_hash is Some && other.content_hash == one.content_hash
            &&& other.collection_id == "inbox"@
            &&& other.title == title_of(path_file_name_of(path)->Some_0)
            &&& other.tags.len() == 0
            &&& other.processing_status == DocumentProcessingStatus::Ready
            &&& other.index_status == IndexStatus::Pending
            &&& twice[path] == disk[path]
        }),
{
    assert(!disk.contains_key(first.destination));
    let once = disk.insert(first.destination, disk[path]);
    assert(once.contains_key(path));
    assert(!once.contains_key(second.destination));
}

/// What is done with a prepared file: the user is asked about one that was imported before with other
/// contents, and about one whose contents a document has; any other becomes a document. The one asked
/// about is told of, and where a lookup fails, so does the import.
pub proof fn prepared_files_are_decided_on(
    item_id: Seq<char>,
    pending: Pending,
    changed: Result<Option<Seq<char>>, Seq<char>>,
    duplicate: Result<Option<Seq<char>>, Seq<char>>,
)
    ensures
        ({
            let choice = chosen(item_id, pending, changed, duplicate);
            &&& changed matches Ok(Some(existing)) ==> (choice matches Choice::Ask(item, waiting)
                && item.status == ImportItemStatus::SourceChanged && item.duplicate_document_id == Some(
                existing,
            ) && waiting == (Pending { existing_document_id: existing, ..pending }) && item.item_id
                == item_id && item.source_path == pending.source_path)
            &&& changed matches Ok(None) ==> (duplicate matches Ok(Some(existing)) ==> (
            choice matches Choice::Ask(item, waiting) && item.status == ImportItemStatus::Duplicate
                && item.duplicate_document_id == Some(existing) && waiting == (Pending {
                existing_document_id: existing,
                ..pending
            }) && item.item_id == item_id && item.source_path == pending.source_path))
            &&& changed == Ok::<Option<Seq<char>>, Seq<char>>(None) && duplicate == Ok::<
                Option<Seq<char>>,
                Seq<char>,
            >(None) ==> choice == Choice::Create(pending)
            &&& changed is Err || (changed == Ok::<Option<Seq<char>>, Seq<char>>(None)
                && duplicate is Err) ==> (choice matches Choice::Fail(item) && item.status
                == ImportItemStatus::Failed && item.error_stage == Some("database"@) && item.retryable)
        }),
{
}

/// A path that the user chose is a file to import where it leads to a file of a format that the
/// library knows, and a directory to look into where it leads to one. Another file is passed over
/// where it was dropped on a collection, and is told to have failed where not; so is everything else.
pub proof fn chosen_paths_are_sorted(
    input: Seq<char>,
    path: Seq<char>,
    kind: PathKind,
    source: ImportSource,
)
    requires
        trim(input).len() > 0,
    ensures
        ({
            let entry = chosen_path(input, Ok((path, kind)), source);
            &&& kind == PathKind::Directory ==> entry == Err::<Scanned, _>(path)
            &&& kind == PathKind::File && supported_type(path) is Some ==> entry == Ok::<_, Seq<char>>(
                Scanned::File(path),
            )
            &&& kind == PathKind::File && supported_type(path) is None && source
                == ImportSource::CollectionDrop ==> entry == Ok::<_, Seq<char>>(Scanned::Ignored(path))
            &&& kind == PathKind::File && supported_type(path) is None && source
                != ImportSource::CollectionDrop ==> (entry matches Ok(Scanned::Failed(told, _)) && told
                == path)
            &&& kind != PathKind::File && kind != PathKind::Directory ==> (
            entry matches Ok(Scanned::Failed(told, _)) && told == path)
        }),
{
}

/// In a directory, files of formats that the library knows are imported, directories are looked into,
/// and everything else is passed over.
pub proof fn directories_give_importable_files(path: Seq<char>, kind: PathKind)
    ensures
        kind == PathKind::Directory <==> found_inside(path, Ok(kind)) is Err,
        kind == PathKind::Directory ==> found_inside(path, Ok(kind)) == Err::<Scanned, _>(path),
        kind == PathKind::File && supported_type(path) is Some <==> found_inside(path, Ok(kind)) == Ok::<
            _,
            Seq<char>,
        >(Scanned::File(path)),
        kind != PathKind::Directory && !(kind == PathKind::File && supported_type(path) is Some)
            ==> found_inside(path, Ok(kind)) == Ok::<_, Seq<char>>(Scanned::Ignored(path)),
{
}

/// A file that can be found, has a name, a known format and a size that can be kept is measured as
/// what it is.
pub proof fn importable_files_are_measured(
    item_id: Seq<char>,
    original_path: Seq<char>,
    path: Seq<char>,
    facts: FileFacts,
)
    ensures
        measured(item_id, original_path, Ok(path), Ok(facts)) is Ok <==> facts.is_file
            && path_file_name_of(path) is Some && supported_type(path) is Some && facts.size
            <= i64::MAX,
        measured(item_id, original_path, Ok(path), Ok(facts)) matches Ok(source) ==> source.item_id
            == item_id && source.source_path == path && Some(source.file_name) == path_file_name_of(path)
            && Some(source.file_type) == supported_type(path) && source.file_size == facts.size,
        measured(item_id, original_path, Ok(path), Ok(facts)) matches Err(item) ==> item.status
            == ImportItemStatus::Failed && item.error_stage == Some("scan"@) && item.source_path == path
            && item.item_id == item_id && item.document_id is None,
{
}

/// A measured file whose contents were accepted waits to be copied as what it is, known by its hash
/// and by its path without regard to case; otherwise it is told at which step it failed.
pub proof fn accepted_files_wait_as_they_are(
    source: Measured,
    contents: Result<(), Seq<char>>,
    hash: Result<Seq<char>, Seq<char>>,
    target: Option<Seq<char>>,
)
    ensures
        prepared(source, contents, hash, target) is Ok <==> contents is Ok && hash is Ok,
        prepared(source, contents, hash, target) matches Ok(pending) ==> pending.source_path
            == source.source_path && pending.file_name == source.file_name && pending.file_type
            == source.file_type && pending.file_size == source.file_size && pending.content_hash
            == hash->Ok_0 && pending.target_collection_id == target && pending.source_identifier
            == ascii_lowercase(source.source_path),
        prepared(source, contents, hash, target) matches Err(item) ==> item.error_stage == Some(
            if contents is Err {
                "validate"@
            } else {
                "hash"@
            },
        ) && item.item_id == source.item_id && item.status == ImportItemStatus::Failed,
{
}

/// A new document has the title of its file without the extension, the facts of the file and the
/// collection that was chosen; it is ready, waits for the index, and has neither tags nor an error.
pub proof fn new_documents_show_their_file(
    pending: Pending,
    document_id: Seq<char>,
    collection_id: Seq<char>,
    imported_at: Seq<char>,
)
    ensures
        ({
            let document = new_document(pending, document_id, collection_id, imported_at);
            &&& document.id == document_id
            &&& document.collection_id == collection_id
            &&& document.file_name == pending.file_name
            &&& document.file_type == pending.file_type
            &&& document.file_size == pending.file_size
            &&& document.content_hash == Some(pending.content_hash)
            &&& document.source_path == pending.source_path
            &&& document.source_identifier == pending.source_identifier
            &&& document.imported_at == imported_at && document.last_imported_at == imported_at
            &&& document.tags.len() == 0 && document.description is None
                && document.document_date is None
            &&& document.processing_status == DocumentProcessingStatus::Ready
            &&& document.index_status == IndexStatus::Pending
            &&& document.error_stage is None && document.error_message is None
        }),
        forall|stem: Seq<char>, extension: Seq<char>|
            stem.len() > 0 && !extension.contains('.') && pending.file_name == #[trigger] (stem + seq!['.']
                + extension) ==> new_document(pending, document_id, collection_id, imported_at).title
                == stem,
        !pending.file_name.contains('.') ==> new_document(
            pending,
            document_id,
            collection_id,
            imported_at,
        ).title == pending.file_name,
{
    assert forall|stem: Seq<char>, extension: Seq<char>|
        stem.len() > 0 && !extension.contains('.') && pending.file_name == #[trigger] (stem + seq!['.']
            + extension) implies new_document(
        pending,
        document_id,
        collection_id,
        imported_at,
    ).title == stem by {
        names_are_stems_and_extensions(stem, extension);
    }
    if !pending.file_name.contains('.') {
        names_are_stems_and_extensions(Seq::empty(), pending.file_name);
    }
}

/// The copy of a document stands in the directory of the document, under the name of its file.
pub proof fn copies_stand_under_their_names(document_id: Seq<char>, file_name: Seq<char>)
    requires
        !document_id.contains('\\'),
        !file_name.contains('\\'),
    ensures
        copy_path(document_id, file_name) == "documents/"@ + document_id + "/"@ + file_name,
{
    reveal_strlit("documents/");
    reveal_strlit("/");
    let path = "documents/"@ + document_id + "/"@ + file_name;
    let start: int = "documents/"@.len() as int;
    assert forall|i: int| 0 <= i < path.len() implies path[i] != '\\' by {
        if i < start {
        } else if i < start + document_id.len() {
            assert(path[i] == document_id[i - start]);
        } else if i < start + document_id.len() + 1 {
        } else {
            assert(path[i] == file_name[i - start - document_id.len() - 1]);
        }
    }
    assert(copy_path(document_id, file_name) =~= path);
}

} // verus!
