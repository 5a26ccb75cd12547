//! The models by characters: what contracts say of them, and copies that keep it.

use vstd::prelude::*;
use crate::models::{
    BatchDocumentItemResult,
    BatchDocumentItemStatus,
    ClassificationPreviewItem,
    ClassificationRule,
    ClassificationRuleInput,
    CloudSyncWarning,
    CollectionSummary,
    DocumentProcessingStatus,
    DocumentSearchFilters,
    DocumentSearchResult,
    DocumentSummary,
    EmptyTrashItemResult,
    EmptyTrashItemStatus,
    ImportBatch,
    ImportItemResult,
    ImportItemStatus,
    ImportProgress,
    IndexStatus,
    LibraryLocationInspection,
    LibrarySummary,
    LocationStatus,
    ReceiveImportLogEntry,
    RecentLibrary,
    RecentLibraryRecord,
    SearchMatchKind,
    TagSummary,
};
use crate::text::{copy_option, copy_texts, optional, views};

verus! {

/// A library, by characters.
#[verifier::ext_equal]
pub struct Library {
    pub id: Seq<char>,
    pub name: Seq<char>,
    pub path: Seq<char>,
    pub created_at: Seq<char>,
}

impl View for LibrarySummary {
    type V = Library;

    open spec fn view(&self) -> Library {
        Library {
            id: self.id@,
            name: self.name@,
            path: self.path@,
            created_at: self.created_at@,
        }
    }
}

impl LibrarySummary {
    /// A copy.
    pub fn copy(&self) -> (copy: Self)
        ensures
            copy@ == self@,
    {
        LibrarySummary {
            id: self.id.clone(),
            name: self.name.clone(),
            path: self.path.clone(),
            created_at: self.created_at.clone(),
        }
    }
}

/// A tag, by characters.
#[verifier::ext_equal]
pub struct Tag {
    pub id: Seq<char>,
    pub name: Seq<char>,
    pub document_count: i64,
}

impl View for TagSummary {
    type V = Tag;

    open spec fn view(&self) -> Tag {
        Tag {
            id: self.id@,
            name: self.name@,
            document_count: self.document_count,
        }
    }
}

impl TagSummary {
    /// A copy.
    pub fn copy(&self) -> (copy: Self)
        ensures
            copy@ == self@,
    {
        TagSummary {
            id: self.id.clone(),
            name: self.name.clone(),
            document_count: self.document_count,
        }
    }
}

/// A document, by characters.
#[verifier::ext_equal]
pub struct Document {
    pub id: Seq<char>,
    pub title: Seq<char>,
    pub description: Option<Seq<char>>,
    pub document_date: Option<Seq<char>>,
    pub file_name: Seq<char>,
    pub file_type: Seq<char>,
    pub file_size: i64,
    pub content_hash: Option<Seq<char>>,
    pub collection_id: Seq<char>,
    pub tags: Seq<Tag>,
    pub processing_status: DocumentProcessingStatus,
    pub index_status: IndexStatus,
    pub error_stage: Option<Seq<char>>,
    pub error_message: Option<Seq<char>>,
    pub imported_at: Seq<char>,
    pub source_path: Seq<char>,
    pub source_identifier: Seq<char>,
    pub last_imported_at: Seq<char>,
}

impl View for DocumentSummary {
    type V = Document;

    open spec fn view(&self) -> Document {
        Document {
            id: self.id@,
            title: self.title@,
            description: optional(self.description),
            document_date: optional(self.document_date),
            file_name: self.file_name@,
            file_type: self.file_type@,
            file_size: self.file_size,
            content_hash: optional(self.content_hash),
            collection_id: self.collection_id@,
            tags: tag_views(self.tags@),
            processing_status: self.processing_status,
            index_status: self.index_status,
            error_stage: optional(self.error_stage),
            error_message: optional(self.error_message),
            imported_at: self.imported_at@,
            source_path: self.source_path@,
            source_identifier: self.source_identifier@,
            last_imported_at: self.last_imported_at@,
        }
    }
}

impl DocumentSummary {
    /// A copy.
    pub fn copy(&self) -> (copy: Self)
        ensures
            copy@ == self@,
    {
        DocumentSummary {
            id: self.id.clone(),
            title: self.title.clone(),
            description: copy_option(&self.description),
            document_date: copy_option(&self.document_date),
            file_name: self.file_name.clone(),
            file_type: self.file_type.clone(),
            file_size: self.file_size,
            content_hash: copy_option(&self.content_hash),
            collection_id: self.collection_id.clone(),
            tags: copy_tags(&self.tags),
            processing_status: self.processing_status,
            index_status: self.index_status,
            error_stage: copy_option(&self.error_stage),
            error_message: copy_option(&self.error_message),
            imported_at: self.imported_at.clone(),
            source_path: self.source_path.clone(),
            source_identifier: self.source_identifier.clone(),
            last_imported_at: self.last_imported_at.clone(),
        }
    }
}

/// One file of an import, by characters.
#[verifier::ext_equal]
pub struct Item {
    pub item_id: Seq<char>,
    pub source_path: Seq<char>,
    pub file_name: Seq<char>,
    pub file_type: Option<Seq<char>>,
    pub status: ImportItemStatus,
    pub document_id: Option<Seq<char>>,
    pub duplicate_document_id: Option<Seq<char>>,
    pub error_stage: Option<Seq<char>>,
    pub error_message: Option<Seq<char>>,
    pub retryable: bool,
    pub target_collection_id: Option<Seq<char>>,
    pub collection_id: Option<Seq<char>>,
    pub notice: Option<Seq<char>>,
}

impl View for ImportItemResult {
    type V = Item;

    open spec fn view(&self) -> Item {
        Item {
            item_id: self.item_id@,
            source_path: self.source_path@,
            file_name: self.file_name@,
            file_type: optional(self.file_type),
            status: self.status,
            document_id: optional(self.document_id),
            duplicate_document_id: optional(self.duplicate_document_id),
            error_stage: optional(self.error_stage),
            error_message: optional(self.error_message),
            retryable: self.retryable,
            target_collection_id: optional(self.target_collection_id),
            collection_id: optional(self.collection_id),
            notice: optional(self.notice),
        }
    }
}

impl ImportItemResult {
    /// A copy.
    pub fn copy(&self) -> (copy: Self)
        ensures
            copy@ == self@,
    {
        ImportItemResult {
            item_id: self.item_id.clone(),
            source_path: self.source_path.clone(),
            file_name: self.file_name.clone(),
            file_type: copy_option(&self.file_type),
            status: self.status,
            document_id: copy_option(&self.document_id),
            duplicate_document_id: copy_option(&self.duplicate_document_id),
            error_stage: copy_option(&self.error_stage),
            error_message: copy_option(&self.error_message),
            retryable: self.retryable,
            target_collection_id: copy_option(&self.target_collection_id),
            collection_id: copy_option(&self.collection_id),
            notice: copy_option(&self.notice),
        }
    }
}

/// An import, by characters.
#[verifier::ext_equal]
pub struct Batch {
    pub batch_id: Seq<char>,
    pub items: Seq<Item>,
    pub imported_count: i64,
    pub duplicate_count: i64,
    pub source_changed_count: i64,
    pub failed_count: i64,
    pub ignored_count: i64,
    pub target_collection_id: Option<Seq<char>>,
}

impl View for ImportBatch {
    type V = Batch;

    open spec fn view(&self) -> Batch {
        Batch {
            batch_id: self.batch_id@,
            items: item_views(self.items@),
            imported_count: self.imported_count,
            duplicate_count: self.duplicate_count,
            source_changed_count: self.source_changed_count,
            failed_count: self.failed_count,
            ignored_count: self.ignored_count,
            target_collection_id: optional(self.target_collection_id),
        }
    }
}

/// How far an import is, by characters.
#[verifier::ext_equal]
pub struct Progress {
    pub library: Library,
    pub batch_id: Seq<char>,
    pub total: usize,
    pub completed: usize,
    pub current_file_name: Option<Seq<char>>,
    pub current_source_path: Option<Seq<char>>,
    pub item: Option<Item>,
    pub finished: bool,
}

impl View for ImportProgress {
    type V = Progress;

    open spec fn view(&self) -> Progress {
        Progress {
            library: self.library@,
            batch_id: self.batch_id@,
            total: self.total,
            completed: self.completed,
            current_file_name: optional(self.current_file_name),
            current_source_path: optional(self.current_source_path),
            item: optional_item(self.item),
            finished: self.finished,
        }
    }
}

/// A rule, by characters.
#[verifier::ext_equal]
pub struct Rule {
    pub id: Seq<char>,
    pub name: Seq<char>,
    pub enabled: bool,
    pub position: i64,
    pub file_name_pattern: Seq<char>,
    pub file_type: Option<Seq<char>>,
    pub source_directory: Option<Seq<char>>,
    pub collection_id: Option<Seq<char>>,
    pub tag_ids: Seq<Seq<char>>,
}

impl View for ClassificationRule {
    type V = Rule;

    open spec fn view(&self) -> Rule {
        Rule {
            id: self.id@,
            name: self.name@,
            enabled: self.enabled,
            position: self.position,
            file_name_pattern: self.file_name_pattern@,
            file_type: optional(self.file_type),
            source_directory: optional(self.source_directory),
            collection_id: optional(self.collection_id),
            tag_ids: views(self.tag_ids@),
        }
    }
}

impl ClassificationRule {
    /// A copy.
    pub fn copy(&self) -> (copy: Self)
        ensures
            copy@ == self@,
    {
        ClassificationRule {
            id: self.id.clone(),
            name: self.name.clone(),
            enabled: self.enabled,
            position: self.position,
            file_name_pattern: self.file_name_pattern.clone(),
            file_type: copy_option(&self.file_type),
            source_directory: copy_option(&self.source_directory),
            collection_id: copy_option(&self.collection_id),
            tag_ids: copy_texts(&self.tag_ids),
        }
    }
}

/// What the user enters for a rule, by characters.
#[verifier::ext_equal]
pub struct RuleInput {
    pub name: Seq<char>,
    pub enabled: bool,
    pub file_name_pattern: Seq<char>,
    pub file_type: Option<Seq<char>>,
    pub source_directory: Option<Seq<char>>,
    pub collection_id: Option<Seq<char>>,
    pub tag_ids: Seq<Seq<char>>,
}

impl View for ClassificationRuleInput {
    type V = RuleInput;

    open spec fn view(&self) -> RuleInput {
        RuleInput {
            name: self.name@,
            enabled: self.enabled,
            file_name_pattern: self.file_name_pattern@,
            file_type: optional(self.file_type),
            source_directory: optional(self.source_directory),
            collection_id: optional(self.collection_id),
            tag_ids: views(self.tag_ids@),
        }
    }
}

impl ClassificationRuleInput {
    /// A copy.
    pub fn copy(&self) -> (copy: Self)
        ensures
            copy@ == self@,
    {
        ClassificationRuleInput {
            name: self.name.clone(),
            enabled: self.enabled,
            file_name_pattern: self.file_name_pattern.clone(),
            file_type: copy_option(&self.file_type),
            source_directory: copy_option(&self.source_directory),
            collection_id: copy_option(&self.collection_id),
            tag_ids: copy_texts(&self.tag_ids),
        }
    }
}

/// What the rules would do with one file, by characters.
#[verifier::ext_equal]
pub struct PreviewItem {
    pub source_path: Seq<char>,
    pub file_name: Seq<char>,
    pub file_type: Option<Seq<char>>,
    pub collection_id: Seq<char>,
    pub tag_ids: Seq<Seq<char>>,
    pub matched_rule_ids: Seq<Seq<char>>,
}

impl View for ClassificationPreviewItem {
    type V = PreviewItem;

    open spec fn view(&self) -> PreviewItem {
        PreviewItem {
            source_path: self.source_path@,
            file_name: self.file_name@,
            file_type: optional(self.file_type),
            collection_id: self.collection_id@,
            tag_ids: views(self.tag_ids@),
            matched_rule_ids: views(self.matched_rule_ids@),
        }
    }
}

/// A warning that a cloud service synchronizes the directory, by characters.
#[verifier::ext_equal]
pub struct SyncWarning {
    pub provider: Seq<char>,
    pub message: Seq<char>,
}

impl View for CloudSyncWarning {
    type V = SyncWarning;

    open spec fn view(&self) -> SyncWarning {
        SyncWarning {
            provider: self.provider@,
            message: self.message@,
        }
    }
}

/// What an inspection found, by characters.
#[verifier::ext_equal]
pub struct Inspection {
    pub path: Seq<char>,
    pub status: LocationStatus,
    pub is_existing_library: bool,
    pub cloud_sync_warning: Option<SyncWarning>,
    pub reason: Option<Seq<char>>,
}

impl View for LibraryLocationInspection {
    type V = Inspection;

    open spec fn view(&self) -> Inspection {
        Inspection {
            path: self.path@,
            status: self.status,
            is_existing_library: self.is_existing_library,
            cloud_sync_warning: optional_sync_warning(self.cloud_sync_warning),
            reason: optional(self.reason),
        }
    }
}

/// A recent library as it is stored, by characters.
#[verifier::ext_equal]
pub struct RecentRecord {
    pub path: Seq<char>,
    pub name: Seq<char>,
    pub last_opened_at: Seq<char>,
}

impl View for RecentLibraryRecord {
    type V = RecentRecord;

    open spec fn view(&self) -> RecentRecord {
        RecentRecord {
            path: self.path@,
            name: self.name@,
            last_opened_at: self.last_opened_at@,
        }
    }
}

impl RecentLibraryRecord {
    /// A copy.
    pub fn copy(&self) -> (copy: Self)
        ensures
            copy@ == self@,
    {
        RecentLibraryRecord {
            path: self.path.clone(),
            name: self.name.clone(),
            last_opened_at: self.last_opened_at.clone(),
        }
    }
}

/// A recent library, by characters.
#[verifier::ext_equal]
pub struct Recent {
    pub path: Seq<char>,
    pub name: Seq<char>,
    pub last_opened_at: Seq<char>,
    pub is_available: bool,
}

impl View for RecentLibrary {
    type V = Recent;

    open spec fn view(&self) -> Recent {
        Recent {
            path: self.path@,
            name: self.name@,
            last_opened_at: self.last_opened_at@,
            is_available: self.is_available,
        }
    }
}

/// What became of one document of the trash, by characters.
#[verifier::ext_equal]
pub struct TrashItem {
    pub document_id: Seq<char>,
    pub file_name: Seq<char>,
    pub status: EmptyTrashItemStatus,
    pub error_code: Option<Seq<char>>,
    pub error_message: Option<Seq<char>>,
}

impl View for EmptyTrashItemResult {
    type V = TrashItem;

    open spec fn view(&self) -> TrashItem {
        TrashItem {
            document_id: self.document_id@,
            file_name: self.file_name@,
            status: self.status,
            error_code: optional(self.error_code),
            error_message: optional(self.error_message),
        }
    }
}

/// What became of one document of a batch, by characters.
#[verifier::ext_equal]
pub struct BatchItem {
    pub document_id: Seq<char>,
    pub status: BatchDocumentItemStatus,
    pub error_code: Option<Seq<char>>,
    pub error_message: Option<Seq<char>>,
}

impl View for BatchDocumentItemResult {
    type V = BatchItem;

    open spec fn view(&self) -> BatchItem {
        BatchItem {
            document_id: self.document_id@,
            status: self.status,
            error_code: optional(self.error_code),
            error_message: optional(self.error_message),
        }
    }
}

/// What a search is narrowed to, by characters.
#[verifier::ext_equal]
pub struct Filters {
    pub collection_id: Option<Seq<char>>,
    pub tag_id: Option<Seq<char>>,
    pub file_type: Option<Seq<char>>,
    pub document_date_from: Option<Seq<char>>,
    pub document_date_to: Option<Seq<char>>,
}

impl View for DocumentSearchFilters {
    type V = Filters;

    open spec fn view(&self) -> Filters {
        Filters {
            collection_id: optional(self.collection_id),
            tag_id: optional(self.tag_id),
            file_type: optional(self.file_type),
            document_date_from: optional(self.document_date_from),
            document_date_to: optional(self.document_date_to),
        }
    }
}

/// A document that a search found, by characters.
#[verifier::ext_equal]
pub struct SearchHit {
    pub document: Document,
    pub snippet: Option<Seq<char>>,
    pub match_kind: SearchMatchKind,
}

impl View for DocumentSearchResult {
    type V = SearchHit;

    open spec fn view(&self) -> SearchHit {
        SearchHit {
            document: self.document@,
            snippet: optional(self.snippet),
            match_kind: self.match_kind,
        }
    }
}

/// One file that was imported from a receiving directory, by characters.
#[verifier::ext_equal]
pub struct LogEntry {
    pub source_id: Seq<char>,
    pub source_path: Seq<char>,
    pub file_name: Seq<char>,
    pub status: ImportItemStatus,
    pub document_id: Option<Seq<char>>,
    pub collection_id: Option<Seq<char>>,
    pub tag_ids: Seq<Seq<char>>,
    pub matched_rule_ids: Seq<Seq<char>>,
    pub error_message: Option<Seq<char>>,
    pub created_at: Seq<char>,
}

impl View for ReceiveImportLogEntry {
    type V = LogEntry;

    open spec fn view(&self) -> LogEntry {
        LogEntry {
            source_id: self.source_id@,
            source_path: self.source_path@,
            file_name: self.file_name@,
            status: self.status,
            document_id: optional(self.document_id),
            collection_id: optional(self.collection_id),
            tag_ids: views(self.tag_ids@),
            matched_rule_ids: views(self.matched_rule_ids@),
            error_message: optional(self.error_message),
            created_at: self.created_at@,
        }
    }
}

/// A collection, by characters.
#[verifier::ext_equal]
pub struct Collection {
    pub id: Seq<char>,
    pub name: Seq<char>,
    pub parent_id: Option<Seq<char>>,
    pub is_inbox: bool,
    pub document_count: i64,
}

impl View for CollectionSummary {
    type V = Collection;

    open spec fn view(&self) -> Collection {
        Collection {
            id: self.id@,
            name: self.name@,
            parent_id: optional(self.parent_id),
            is_inbox: self.is_inbox,
            document_count: self.document_count,
        }
    }
}

impl CollectionSummary {
    /// A copy.
    pub fn copy(&self) -> (copy: Self)
        ensures
            copy@ == self@,
    {
        CollectionSummary {
            id: self.id.clone(),
            name: self.name.clone(),
            parent_id: copy_option(&self.parent_id),
            is_inbox: self.is_inbox,
            document_count: self.document_count,
        }
    }
}

/// The list by views.
pub open spec fn tag_views(list: Seq<TagSummary>) -> Seq<Tag> {
    list.map_values(|one: TagSummary| one@)
}

/// The list by views.
pub open spec fn item_views(list: Seq<ImportItemResult>) -> Seq<Item> {
    list.map_values(|one: ImportItemResult| one@)
}

/// The list by views.
pub open spec fn rule_views(list: Seq<ClassificationRule>) -> Seq<Rule> {
    list.map_values(|one: ClassificationRule| one@)
}

/// The list by views.
pub open spec fn document_views(list: Seq<DocumentSummary>) -> Seq<Document> {
    list.map_values(|one: DocumentSummary| one@)
}

/// The list by views.
pub open spec fn recent_record_views(list: Seq<RecentLibraryRecord>) -> Seq<RecentRecord> {
    list.map_values(|one: RecentLibraryRecord| one@)
}

/// The list by views.
pub open spec fn recent_views(list: Seq<RecentLibrary>) -> Seq<Recent> {
    list.map_values(|one: RecentLibrary| one@)
}

/// The list by views.
pub open spec fn trash_item_views(list: Seq<EmptyTrashItemResult>) -> Seq<TrashItem> {
    list.map_values(|one: EmptyTrashItemResult| one@)
}

/// The list by views.
pub open spec fn batch_item_views(list: Seq<BatchDocumentItemResult>) -> Seq<BatchItem> {
    list.map_values(|one: BatchDocumentItemResult| one@)
}

/// The list by views.
pub open spec fn search_hit_views(list: Seq<DocumentSearchResult>) -> Seq<SearchHit> {
    list.map_values(|one: DocumentSearchResult| one@)
}

/// The list by views.
pub open spec fn collection_views(list: Seq<CollectionSummary>) -> Seq<Collection> {
    list.map_values(|one: CollectionSummary| one@)
}

/// The list by views.
pub open spec fn preview_item_views(list: Seq<ClassificationPreviewItem>) -> Seq<PreviewItem> {
    list.map_values(|one: ClassificationPreviewItem| one@)
}

/// What may be missing, by its view.
pub open spec fn optional_item(one: Option<ImportItemResult>) -> Option<Item> {
    match one {
        Some(found) => Some(found@),
        None => None,
    }
}

/// What may be missing, by its view.
pub open spec fn optional_sync_warning(one: Option<CloudSyncWarning>) -> Option<SyncWarning> {
    match one {
        Some(found) => Some(found@),
        None => None,
    }
}

/// What may be missing, by its view.
pub open spec fn optional_library(one: Option<LibrarySummary>) -> Option<Library> {
    match one {
        Some(found) => Some(found@),
        None => None,
    }
}

/// A copy of the list.
pub fn copy_tags(list: &Vec<TagSummary>) -> (copy: Vec<TagSummary>)
    ensures
        tag_views(copy@) == tag_views(list@),
{
    let mut copy: Vec<TagSummary> = Vec::new();
    let mut i: usize = 0;
    while i < list.len()
        invariant
            i <= list@.len(),
            copy@.len() == i,
            forall|j: int| 0 <= j < i ==> (#[trigger] copy@[j])@ == list@[j]@,
        decreases list@.len() - i,
    {
        copy.push(list[i].copy());
        i = i + 1;
    }
    assert(tag_views(copy@) =~= tag_views(list@));
    copy
}

} // verus!
