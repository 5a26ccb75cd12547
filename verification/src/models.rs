//! The data that the library hands out and takes in.

use vstd::prelude::*;
use crate::error::{code_of, lead_of, LibraryError};
use crate::text::same;

verus! {

/// What can be done with a directory that the user chose.
#[derive(Debug, Clone, Copy, PartialEq, Eq, Structural)]
pub enum LocationStatus {
    Usable,
    ExistingLibrary,
    Blocked,
}

/// A warning that a cloud service synchronizes the directory.
#[derive(Debug, Clone, PartialEq, Eq)]
pub struct CloudSyncWarning {
    pub provider: String,
    pub message: String,
}

/// What an inspection of a directory found.
#[derive(Debug, Clone, PartialEq, Eq)]
pub struct LibraryLocationInspection {
    pub path: String,
    pub status: LocationStatus,
    pub is_existing_library: bool,
    pub cloud_sync_warning: Option<CloudSyncWarning>,
    pub reason: Option<String>,
}

/// A library as it is shown.
#[derive(Debug, Clone, PartialEq, Eq)]
pub struct LibrarySummary {
    pub id: String,
    pub name: String,
    pub path: String,
    pub created_at: String,
}

/// A library that was opened lately.
#[derive(Debug, Clone, PartialEq, Eq)]
pub struct RecentLibrary {
    pub path: String,
    pub name: String,
    pub last_opened_at: String,
    pub is_available: bool,
}

/// What the application shows when it starts.
#[derive(Debug, Clone, PartialEq, Eq)]
pub struct BootstrapState {
    pub current_library: Option<LibrarySummary>,
    pub recent_libraries: Vec<RecentLibrary>,
}

/// How far the import of a document is.
#[derive(Debug, Clone, Copy, PartialEq, Eq, Structural)]
pub enum DocumentProcessingStatus {
    Processing,
    Ready,
    Failed,
}

/// How far the indexing of a document is.
#[derive(Debug, Clone, Copy, PartialEq, Eq, Structural)]
pub enum IndexStatus {
    Pending,
    Searchable,
    Failed,
}

/// A document as it is shown.
#[derive(Debug, Clone, PartialEq, Eq)]
pub struct DocumentSummary {
    pub id: String,
    pub title: String,
    pub description: Option<String>,
    pub document_date: Option<String>,
    pub file_name: String,
    pub file_type: String,
    pub file_size: i64,
    pub content_hash: Option<String>,
    pub collection_id: String,
    pub tags: Vec<TagSummary>,
    pub processing_status: DocumentProcessingStatus,
    pub index_status: IndexStatus,
    pub error_stage: Option<String>,
    pub error_message: Option<String>,
    pub imported_at: String,
    pub source_path: String,
    pub source_identifier: String,
    pub last_imported_at: String,
}

/// A document in the trash.
#[derive(Debug, Clone, PartialEq, Eq)]
pub struct TrashDocumentSummary {
    pub document: DocumentSummary,
    pub original_collection_id: Option<String>,
    pub original_collection_name: Option<String>,
    pub deleted_at: String,
}

/// Whether a document could be deleted for good.
#[derive(Debug, Clone, Copy, PartialEq, Eq, Structural)]
pub enum EmptyTrashItemStatus {
    Succeeded,
    Failed,
}

/// What became of one document when the trash was emptied.
#[derive(Debug, Clone, PartialEq, Eq)]
pub struct EmptyTrashItemResult {
    pub document_id: String,
    pub file_name: String,
    pub status: EmptyTrashItemStatus,
    pub error_code: Option<String>,
    pub error_message: Option<String>,
}

/// What became of the trash when it was emptied.
#[derive(Debug, Clone, PartialEq, Eq)]
pub struct EmptyTrashResult {
    pub deleted_count: i64,
    pub failed_count: i64,
    pub items: Vec<EmptyTrashItemResult>,
}

/// A preview of a document.
#[derive(Debug, Clone, PartialEq, Eq)]
pub enum DocumentPreview {
    Pdf {
        data_url: String,
        page_count: Option<u32>,
        page: u32,
    },
    Image {
        data_url: String,
    },
    Text {
        text: String,
    },
    Markdown {
        text: String,
    },
    Docx {
        data_url: String,
        text: String,
        notice: String,
        degraded_features: Vec<String>,
    },
    Pptx {
        data_url: String,
        text: String,
        notice: String,
        degraded_features: Vec<String>,
    },
    Table {
        sheets: Vec<TableSheet>,
        sheet_index: usize,
        start_row: usize,
        cells: Vec<Vec<String>>,
        row_numbers: Vec<usize>,
        column_count: usize,
        has_more_rows: bool,
        degraded_features: Vec<String>,
        notice: Option<String>,
    },
    Failure {
        code: String,
        message: String,
    },
    Unsupported {
        message: String,
    },
}

/// A sheet of a table document; the sizes are known only of sheets that were read.
#[derive(Debug, Clone, PartialEq, Eq)]
pub struct TableSheet {
    pub index: usize,
    pub name: String,
    pub row_count: Option<usize>,
    pub column_count: Option<usize>,
}

/// The part of a table that a preview asks for.
#[derive(Debug, Clone)]
pub struct TablePreviewRequest {
    pub sheet_index: usize,
    pub start_row: usize,
    pub row_count: usize,
    pub column_count: usize,
}

/// The small picture of a document.
#[derive(Debug, Clone, PartialEq, Eq)]
pub enum DocumentThumbnail {
    Pdf { data_url: String },
    Image { data_url: String },
    Pptx { data_url: String },
    Fallback { reason: String },
}

/// A tag with the number of its documents.
#[derive(Debug, Clone, PartialEq, Eq)]
pub struct TagSummary {
    pub id: String,
    pub name: String,
    pub document_count: i64,
}

/// New metadata of a document.
#[derive(Debug, Clone, PartialEq, Eq)]
pub struct DocumentMetadataUpdate {
    pub title: String,
    pub description: Option<String>,
    pub document_date: Option<String>,
    pub collection_id: String,
    pub tag_ids: Vec<String>,
}

/// What to do with each of several documents.
#[derive(Debug, Clone, PartialEq, Eq)]
pub enum BatchDocumentOperation {
    MoveToCollection { collection_id: String },
    AddTag { tag_id: String },
    RemoveTag { tag_id: String },
    MoveToTrash,
}

/// A request to do one thing with several documents.
#[derive(Debug, Clone, PartialEq, Eq)]
pub struct BatchDocumentOperationRequest {
    pub job_id: String,
    pub document_ids: Vec<String>,
    pub operation: BatchDocumentOperation,
}

/// What became of one document of a batch.
#[derive(Debug, Clone, Copy, PartialEq, Eq, Structural)]
pub enum BatchDocumentItemStatus {
    Succeeded,
    Failed,
    Cancelled,
}

/// What became of one document of a batch, and why.
#[derive(Debug, Clone, PartialEq, Eq)]
pub struct BatchDocumentItemResult {
    pub document_id: String,
    pub status: BatchDocumentItemStatus,
    pub error_code: Option<String>,
    pub error_message: Option<String>,
}

/// What became of a batch.
#[derive(Debug, Clone, PartialEq, Eq)]
pub struct BatchDocumentOperationResult {
    pub job_id: String,
    pub operation: BatchDocumentOperation,
    pub results: Vec<BatchDocumentItemResult>,
    pub succeeded_count: usize,
    pub failed_count: usize,
    pub cancelled_count: usize,
}

/// What a search is narrowed to.
#[derive(Debug, Clone, PartialEq, Eq)]
pub struct DocumentSearchFilters {
    pub collection_id: Option<String>,
    pub tag_id: Option<String>,
    pub file_type: Option<String>,
    pub document_date_from: Option<String>,
    pub document_date_to: Option<String>,
}

/// A search.
#[derive(Debug, Clone, PartialEq, Eq)]
pub struct DocumentSearchQuery {
    pub query: String,
    pub filters: DocumentSearchFilters,
}

/// Where a search found its words.
#[derive(Debug, Clone, Copy, PartialEq, Eq, Structural)]
pub enum SearchMatchKind {
    Content,
    Metadata,
}

/// A document that a search found.
#[derive(Debug, Clone, PartialEq, Eq)]
pub struct DocumentSearchResult {
    pub document: DocumentSummary,
    pub snippet: Option<String>,
    pub match_kind: SearchMatchKind,
}

/// All that a search found.
#[derive(Debug, Clone, PartialEq, Eq)]
pub struct DocumentSearchResponse {
    pub results: Vec<DocumentSearchResult>,
}

/// How many documents a run of the indexer has dealt with.
#[derive(Debug, Clone, PartialEq, Eq)]
pub struct IndexRunResult {
    pub processed: i64,
    pub searchable: i64,
    pub failed: i64,
}

/// Whether a run of the indexer goes on.
#[derive(Debug, Clone, Copy, PartialEq, Eq, Structural)]
pub enum DocumentIndexPhase {
    Processing,
    Completed,
}

/// News of the indexer.
#[derive(Debug, Clone, PartialEq, Eq)]
pub struct DocumentIndexChangedEvent {
    pub library: LibrarySummary,
    pub phase: DocumentIndexPhase,
    pub document_ids: Vec<String>,
    pub result: Option<IndexRunResult>,
}

/// Where the files of an import come from.
#[derive(Debug, Clone, Copy, PartialEq, Eq, Structural)]
pub enum ImportSource {
    FilePicker,
    CollectionDrop,
}

/// What became of one file of an import.
#[derive(Debug, Clone, Copy, PartialEq, Eq, Structural)]
pub enum ImportItemStatus {
    Imported,
    Duplicate,
    SourceChanged,
    Failed,
    Ignored,
    Skipped,
}

/// What the user decides on a file that needs a decision.
#[derive(Debug, Clone, Copy, PartialEq, Eq, Structural)]
pub enum ImportDecision {
    UseExisting,
    ImportAnyway,
    Cancel,
    CreateNew,
    ReplaceExisting,
}

/// One file of an import.
#[derive(Debug, Clone, PartialEq, Eq)]
pub struct ImportItemResult {
    pub item_id: String,
    pub source_path: String,
    pub file_name: String,
    pub file_type: Option<String>,
    pub status: ImportItemStatus,
    pub document_id: Option<String>,
    pub duplicate_document_id: Option<String>,
    pub error_stage: Option<String>,
    pub error_message: Option<String>,
    pub retryable: bool,
    pub target_collection_id: Option<String>,
    pub collection_id: Option<String>,
    pub notice: Option<String>,
}

/// An import with the number of files of each status.
#[derive(Debug, Clone, PartialEq, Eq)]
pub struct ImportBatch {
    pub batch_id: String,
    pub items: Vec<ImportItemResult>,
    pub imported_count: i64,
    pub duplicate_count: i64,
    pub source_changed_count: i64,
    pub failed_count: i64,
    pub ignored_count: i64,
    pub target_collection_id: Option<String>,
}

/// How far an import is.
#[derive(Debug, Clone, PartialEq, Eq)]
pub struct ImportProgress {
    pub library: LibrarySummary,
    pub batch_id: String,
    pub total: usize,
    pub completed: usize,
    pub current_file_name: Option<String>,
    pub current_source_path: Option<String>,
    pub item: Option<ImportItemResult>,
    pub finished: bool,
}

/// A collection with the number of its documents.
#[derive(Debug, Clone, PartialEq, Eq)]
pub struct CollectionSummary {
    pub id: String,
    pub name: String,
    pub parent_id: Option<String>,
    pub is_inbox: bool,
    pub document_count: i64,
}

/// What became of the documents of a deleted collection.
#[derive(Debug, Clone, PartialEq, Eq)]
pub struct CollectionDeleteResult {
    pub collection_id: String,
    pub target_collection_id: String,
    pub moved_document_count: i64,
}

/// A rule that gives new documents a collection and tags; rules apply in the order of their positions.
#[derive(Debug, Clone, PartialEq, Eq)]
pub struct ClassificationRule {
    pub id: String,
    pub name: String,
    pub enabled: bool,
    pub position: i64,
    pub file_name_pattern: String,
    pub file_type: Option<String>,
    pub source_directory: Option<String>,
    pub collection_id: Option<String>,
    pub tag_ids: Vec<String>,
}

/// What the user enters for a rule.
#[derive(Debug, Clone, PartialEq, Eq)]
pub struct ClassificationRuleInput {
    pub name: String,
    pub enabled: bool,
    pub file_name_pattern: String,
    pub file_type: Option<String>,
    pub source_directory: Option<String>,
    pub collection_id: Option<String>,
    pub tag_ids: Vec<String>,
}

/// What the user changes of a rule.
#[derive(Debug, Clone, PartialEq, Eq)]
pub struct ClassificationRuleUpdate {
    pub id: String,
        pub input: ClassificationRuleInput,
}

/// A change to the list of rules.
#[derive(Debug, Clone, PartialEq, Eq)]
pub enum ClassificationRuleOperation {
    Create {
        rule: ClassificationRuleInput,
    },
    Update {
        rule: ClassificationRuleUpdate,
    },
    Delete {
        rule_id: String,
    },
    SetEnabled {
        rule_id: String,
        enabled: bool,
    },
    Reorder {
        ordered_rule_ids: Vec<String>,
    },
}

/// What the rules would do with one file.
#[derive(Debug, Clone, PartialEq, Eq)]
pub struct ClassificationPreviewItem {
    pub source_path: String,
    pub file_name: String,
    pub file_type: Option<String>,
    pub collection_id: String,
    pub tag_ids: Vec<String>,
    pub matched_rule_ids: Vec<String>,
}

/// The files of which to tell what the rules would do.
#[derive(Debug, Clone, PartialEq, Eq)]
pub struct ClassificationPreviewRequest {
    pub paths: Vec<String>,
    pub target_collection_id: Option<String>,
}

/// What the rules would do.
#[derive(Debug, Clone, PartialEq, Eq)]
pub struct ClassificationPreviewResponse {
    pub items: Vec<ClassificationPreviewItem>,
}

/// The kind of a directory that receives files.
#[derive(Debug, Clone, Copy, PartialEq, Eq, Structural)]
pub enum ReceiveSourceKind {
    Qq,
    Wechat,
    Other,
}

/// Whether a receiving directory can be used.
#[derive(Debug, Clone, Copy, PartialEq, Eq, Structural)]
pub enum ReceiveSourceStatus {
    Unconfigured,
    Ready,
    Missing,
    Unreadable,
}

/// A directory that may be a receiving directory, and why.
#[derive(Debug, Clone, PartialEq, Eq)]
pub struct ReceiveSourceCandidate {
    pub path: String,
    pub evidence: String,
}

/// A receiving directory; without a path it is neither scanned nor imported from.
#[derive(Debug, Clone, PartialEq, Eq)]
pub struct ReceiveSource {
    pub id: String,
    pub kind: ReceiveSourceKind,
    pub display_name: String,
    pub path: Option<String>,
    pub enabled: bool,
    pub status: ReceiveSourceStatus,
    pub status_message: Option<String>,
    pub pending_count: i64,
    pub last_scanned_at: Option<String>,
}

/// What the user enters for a receiving directory.
#[derive(Debug, Clone, PartialEq, Eq)]
pub struct ReceiveSourceInput {
    pub kind: ReceiveSourceKind,
    pub display_name: String,
    pub path: String,
    pub enabled: bool,
}

/// The directories that may be receiving directories of a kind.
#[derive(Debug, Clone, PartialEq, Eq)]
pub struct ReceiveSourceCandidates {
    pub kind: ReceiveSourceKind,
    pub candidates: Vec<ReceiveSourceCandidate>,
}

/// A file of a receiving directory.
#[derive(Debug, Clone, PartialEq, Eq)]
pub struct ReceiveDirectoryListingItem {
    pub path: String,
    pub file_name: String,
    pub file_type: Option<String>,
    pub file_size: i64,
    pub previously_skipped: bool,
}

/// The files of a receiving directory.
#[derive(Debug, Clone, PartialEq, Eq)]
pub struct ReceiveDirectoryListing {
    pub source_id: String,
    pub path: String,
    pub items: Vec<ReceiveDirectoryListingItem>,
}

/// The files of a receiving directory that the user chose.
#[derive(Debug, Clone, PartialEq, Eq)]
pub struct ReceiveDirectoryOperation {
    pub source_id: String,
    pub paths: Vec<String>,
}

/// What a scan of a receiving directory did.
#[derive(Debug, Clone, PartialEq, Eq)]
pub struct ReceiveSourceScanResult {
    pub source_id: String,
    pub scanned_count: i64,
    pub imported_count: i64,
    pub skipped_count: i64,
    pub pending_count: i64,
    pub failed_count: i64,
}

/// One file that was imported from a receiving directory.
#[derive(Debug, Clone, PartialEq, Eq)]
pub struct ReceiveImportLogEntry {
    pub source_id: String,
    pub source_path: String,
    pub file_name: String,
    pub status: ImportItemStatus,
    pub document_id: Option<String>,
    pub collection_id: Option<String>,
    pub tag_ids: Vec<String>,
    pub matched_rule_ids: Vec<String>,
    pub error_message: Option<String>,
    pub created_at: String,
}

/// What the metadata file of a library holds.
#[derive(Debug, Clone)]
pub struct LibraryMetadata {
    pub format_version: u32,
    pub library_id: String,
    pub name: String,
    pub created_at: String,
}

/// A recent library as it is stored.
#[derive(Debug, Clone)]
pub struct RecentLibraryRecord {
    pub path: String,
    pub name: String,
    pub last_opened_at: String,
}

/// What a scan of the receiving directories of a library did.
#[derive(Debug, Clone)]
pub struct ReceiveImportCompletedEvent {
    pub library: LibrarySummary,
    pub results: Vec<ReceiveSourceScanResult>,
}

/// An error as a caller gets it.
#[derive(Debug, Clone, PartialEq, Eq)]
pub struct CommandError {
    pub code: String,
    pub message: String,
}

/// News of a library.
#[derive(Debug, Clone)]
pub struct LibraryChangedEvent {
    pub action: String,
    pub library: LibrarySummary,
}

// ---- Stored names ----

/// The stored name of a processing status.
pub open spec fn processing_status_name(value: DocumentProcessingStatus) -> Seq<char> {
    match value {
        DocumentProcessingStatus::Processing => "processing"@,
        DocumentProcessingStatus::Ready => "ready"@,
        DocumentProcessingStatus::Failed => "failed"@,
    }
}

/// The value that has this stored name.
pub open spec fn processing_status_named(name: Seq<char>) -> Option<DocumentProcessingStatus> {
    if name == "processing"@ {
        Some(DocumentProcessingStatus::Processing)
    } else if name == "ready"@ {
        Some(DocumentProcessingStatus::Ready)
    } else if name == "failed"@ {
        Some(DocumentProcessingStatus::Failed)
    } else {
        None
    }
}

impl DocumentProcessingStatus {
    /// The stored name.
    pub fn as_str(self) -> (name: &'static str)
        ensures
            name@ == processing_status_name(self),
    {
        match self {
            DocumentProcessingStatus::Processing => "processing",
            DocumentProcessingStatus::Ready => "ready",
            DocumentProcessingStatus::Failed => "failed",
        }
    }

    /// The value that has this stored name.
    pub fn from_database(value: &str) -> (found: Option<Self>)
        ensures
            found == processing_status_named(value@),
    {
        if same(value, "processing") {
            Some(DocumentProcessingStatus::Processing)
        } else if same(value, "ready") {
            Some(DocumentProcessingStatus::Ready)
        } else if same(value, "failed") {
            Some(DocumentProcessingStatus::Failed)
        } else {
            None
        }
    }
}

/// The stored name of an index status.
pub open spec fn index_status_name(value: IndexStatus) -> Seq<char> {
    match value {
        IndexStatus::Pending => "pending"@,
        IndexStatus::Searchable => "searchable"@,
        IndexStatus::Failed => "failed"@,
    }
}

/// The value that has this stored name.
pub open spec fn index_status_named(name: Seq<char>) -> Option<IndexStatus> {
    if name == "pending"@ {
        Some(IndexStatus::Pending)
    } else if name == "searchable"@ {
        Some(IndexStatus::Searchable)
    } else if name == "failed"@ {
        Some(IndexStatus::Failed)
    } else {
        None
    }
}

impl IndexStatus {
    /// The stored name.
    pub fn as_str(self) -> (name: &'static str)
        ensures
            name@ == index_status_name(self),
    {
        match self {
            IndexStatus::Pending => "pending",
            IndexStatus::Searchable => "searchable",
            IndexStatus::Failed => "failed",
        }
    }

    /// The value that has this stored name.
    pub fn from_database(value: &str) -> (found: Option<Self>)
        ensures
            found == index_status_named(value@),
    {
        if same(value, "pending") {
            Some(IndexStatus::Pending)
        } else if same(value, "searchable") {
            Some(IndexStatus::Searchable)
        } else if same(value, "failed") {
            Some(IndexStatus::Failed)
        } else {
            None
        }
    }
}

/// Every processing status is read back from its stored name.
pub proof fn processing_statuses_read_back(value: DocumentProcessingStatus)
    ensures
        processing_status_named(processing_status_name(value)) == Some(value),
{
    reveal_strlit("processing");
    reveal_strlit("ready");
    reveal_strlit("failed");
    assert("processing"@.len() == 10 && "ready"@.len() == 5 && "failed"@.len() == 6);
}

/// Every index status is read back from its stored name.
pub proof fn index_statuses_read_back(value: IndexStatus)
    ensures
        index_status_named(index_status_name(value)) == Some(value),
{
    reveal_strlit("pending");
    reveal_strlit("searchable");
    reveal_strlit("failed");
    assert("pending"@.len() == 7 && "searchable"@.len() == 10 && "failed"@.len() == 6);
}

/// The stored name of a kind of receiving directory.
pub open spec fn receive_kind_name(value: ReceiveSourceKind) -> Seq<char> {
    match value {
        ReceiveSourceKind::Qq => "qq"@,
        ReceiveSourceKind::Wechat => "wechat"@,
        ReceiveSourceKind::Other => "other"@,
    }
}

/// The value that has this stored name; any other name stands for `Other`.
pub open spec fn receive_kind_named(name: Seq<char>) -> ReceiveSourceKind {
    if name == "qq"@ {
        ReceiveSourceKind::Qq
    } else if name == "wechat"@ {
        ReceiveSourceKind::Wechat
    } else {
        ReceiveSourceKind::Other
    }
}

/// The stored name.
pub fn receive_kind_to_str(value: ReceiveSourceKind) -> (name: &'static str)
    ensures
        name@ == receive_kind_name(value),
{
    match value {
        ReceiveSourceKind::Qq => "qq",
        ReceiveSourceKind::Wechat => "wechat",
        ReceiveSourceKind::Other => "other",
    }
}

/// The value that has this stored name.
pub fn receive_kind_from_str(value: &str) -> (found: ReceiveSourceKind)
    ensures
        found == receive_kind_named(value@),
{
    if same(value, "qq") {
        ReceiveSourceKind::Qq
    } else if same(value, "wechat") {
        ReceiveSourceKind::Wechat
    } else {
        ReceiveSourceKind::Other
    }
}

/// Every kind of receiving directory is read back from its stored name.
pub proof fn receive_kinds_read_back(value: ReceiveSourceKind)
    ensures
        receive_kind_named(receive_kind_name(value)) == value,
{
    reveal_strlit("qq");
    reveal_strlit("wechat");
    reveal_strlit("other");
    assert("qq"@.len() == 2 && "wechat"@.len() == 6 && "other"@.len() == 5);
}

/// The stored name of a status of a receiving directory.
pub open spec fn receive_status_name(value: ReceiveSourceStatus) -> Seq<char> {
    match value {
        ReceiveSourceStatus::Unconfigured => "unconfigured"@,
        ReceiveSourceStatus::Ready => "ready"@,
        ReceiveSourceStatus::Missing => "missing"@,
        ReceiveSourceStatus::Unreadable => "unreadable"@,
    }
}

/// The value that has this stored name; any other name stands for `Unconfigured`.
pub open spec fn receive_status_named(name: Seq<char>) -> ReceiveSourceStatus {
    if name == "ready"@ {
        ReceiveSourceStatus::Ready
    } else if name == "missing"@ {
        ReceiveSourceStatus::Missing
    } else if name == "unreadable"@ {
        ReceiveSourceStatus::Unreadable
    } else {
        ReceiveSourceStatus::Unconfigured
    }
}

/// The stored name.
pub fn receive_status_to_str(value: ReceiveSourceStatus) -> (name: &'static str)
    ensures
        name@ == receive_status_name(value),
{
    match value {
        ReceiveSourceStatus::Unconfigured => "unconfigured",
        ReceiveSourceStatus::Ready => "ready",
        ReceiveSourceStatus::Missing => "missing",
        ReceiveSourceStatus::Unreadable => "unreadable",
    }
}

/// The value that has this stored name.
pub fn receive_status_from_str(value: &str) -> (found: ReceiveSourceStatus)
    ensures
        found == receive_status_named(value@),
{
    if same(value, "ready") {
        ReceiveSourceStatus::Ready
    } else if same(value, "missing") {
        ReceiveSourceStatus::Missing
    } else if same(value, "unreadable") {
        ReceiveSourceStatus::Unreadable
    } else {
        ReceiveSourceStatus::Unconfigured
    }
}

/// Every status of a receiving directory is read back from its stored name.
pub proof fn receive_statuses_read_back(value: ReceiveSourceStatus)
    ensures
        receive_status_named(receive_status_name(value)) == value,
{
    reveal_strlit("unconfigured");
    reveal_strlit("ready");
    reveal_strlit("missing");
    reveal_strlit("unreadable");
    assert("unconfigured"@.len() == 12 && "ready"@.len() == 5 && "missing"@.len() == 7 && "unreadable"@.len() == 10);
}

/// The stored name of a status of an imported file.
pub open spec fn import_status_name(value: ImportItemStatus) -> Seq<char> {
    match value {
        ImportItemStatus::Imported => "imported"@,
        ImportItemStatus::Duplicate => "duplicate"@,
        ImportItemStatus::SourceChanged => "sourceChanged"@,
        ImportItemStatus::Failed => "failed"@,
        ImportItemStatus::Ignored => "ignored"@,
        ImportItemStatus::Skipped => "skipped"@,
    }
}

/// The value that has this stored name; any other name stands for `Skipped`.
pub open spec fn import_status_named(name: Seq<char>) -> ImportItemStatus {
    if name == "imported"@ {
        ImportItemStatus::Imported
    } else if name == "duplicate"@ {
        ImportItemStatus::Duplicate
    } else if name == "sourceChanged"@ {
        ImportItemStatus::SourceChanged
    } else if name == "failed"@ {
        ImportItemStatus::Failed
    } else if name == "ignored"@ {
        ImportItemStatus::Ignored
    } else {
        ImportItemStatus::Skipped
    }
}

/// The stored name.
pub fn import_status_to_str(value: ImportItemStatus) -> (name: &'static str)
    ensures
        name@ == import_status_name(value),
{
    match value {
        ImportItemStatus::Imported => "imported",
        ImportItemStatus::Duplicate => "duplicate",
        ImportItemStatus::SourceChanged => "sourceChanged",
        ImportItemStatus::Failed => "failed",
        ImportItemStatus::Ignored => "ignored",
        ImportItemStatus::Skipped => "skipped",
    }
}

/// The value that has this stored name.
pub fn import_status_from_str(value: &str) -> (found: ImportItemStatus)
    ensures
        found == import_status_named(value@),
{
    if same(value, "imported") {
        ImportItemStatus::Imported
    } else if same(value, "duplicate") {
        ImportItemStatus::Duplicate
    } else if same(value, "sourceChanged") {
        ImportItemStatus::SourceChanged
    } else if same(value, "failed") {
        ImportItemStatus::Failed
    } else if same(value, "ignored") {
        ImportItemStatus::Ignored
    } else {
        ImportItemStatus::Skipped
    }
}

/// Every status of an imported file is read back from its stored name.
pub proof fn import_statuses_read_back(value: ImportItemStatus)
    ensures
        import_status_named(import_status_name(value)) == value,
{
    reveal_strlit("imported");
    reveal_strlit("duplicate");
    reveal_strlit("sourceChanged");
    reveal_strlit("failed");
    reveal_strlit("ignored");
    reveal_strlit("skipped");
    assert("imported"@.len() == 8 && "duplicate"@.len() == 9 && "sourceChanged"@.len() == 13 && "failed"@.len() == 6 && "ignored"@.len() == 7 && "skipped"@.len() == 7);
    assert("ignored"@[0] != "skipped"@[0]);
}

// ---- Defaults ----

impl Default for IndexRunResult {
    fn default() -> (result: Self)
        ensures
            result.processed == 0,
            result.searchable == 0,
            result.failed == 0,
    {
        IndexRunResult { processed: 0, searchable: 0, failed: 0 }
    }
}

impl Default for TablePreviewRequest {
    fn default() -> (request: Self)
        ensures
            request.sheet_index == 0,
            request.start_row == 0,
            request.row_count == 0,
            request.column_count == 0,
    {
        TablePreviewRequest { sheet_index: 0, start_row: 0, row_count: 0, column_count: 0 }
    }
}

impl Default for DocumentSearchFilters {
    fn default() -> (filters: Self)
        ensures
            filters.collection_id is None,
            filters.tag_id is None,
            filters.file_type is None,
            filters.document_date_from is None,
            filters.document_date_to is None,
    {
        DocumentSearchFilters {
            collection_id: None,
            tag_id: None,
            file_type: None,
            document_date_from: None,
            document_date_to: None,
        }
    }
}

impl CommandError {
    /// An error of the library as a caller gets it.
    pub fn of(error: &LibraryError) -> (command_error: CommandError)
        ensures
            command_error.code@ == code_of(error.kind()),
            command_error.message@ == lead_of(error.kind()) + error.detail(),
    {
        CommandError { code: error.code().to_owned(), message: error.message() }
    }
}

} // verus!
