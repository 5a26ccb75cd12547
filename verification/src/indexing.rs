//! Keeping the index in step with the copies of documents: finding copies that were changed, reading
//! them again, and waiting until a copy is left alone before it is read.

use vstd::prelude::*;
use crate::batches::{is_same_library, same_library};
use crate::data::Library;
use crate::formats::{capability_for_file_type, format_of_type, supported_file_type, supported_type};
use crate::models::{
    DocumentIndexChangedEvent, DocumentIndexPhase, DocumentProcessingStatus, IndexRunResult,
    IndexStatus, LibrarySummary,
};
use crate::paths::{display_file_name, display_name};
use crate::text::{chars, copy_option, has_prefix, optional, same, same_option, starts_with, views};

verus! {

// ---- Counting ----

/// The counts after one more document.
pub open spec fn counted(result: IndexRunResult, status: IndexStatus) -> IndexRunResult {
    IndexRunResult {
        processed: (result.processed + 1) as i64,
        searchable: if status == IndexStatus::Searchable {
            (result.searchable + 1) as i64
        } else {
            result.searchable
        },
        failed: if status == IndexStatus::Failed {
            (result.failed + 1) as i64
        } else {
            result.failed
        },
    }
}

/// The counts are possible: what was found or failed was processed.
pub open spec fn counts_valid(result: IndexRunResult) -> bool {
    &&& 0 <= result.searchable
    &&& 0 <= result.failed
    &&& result.searchable + result.failed <= result.processed
}

/// Counts one more document.
pub fn count_document(result: &mut IndexRunResult, status: IndexStatus)
    requires
        counts_valid(*old(result)),
        old(result).processed < i64::MAX,
    ensures
        *final(result) == counted(*old(result), status),
        counts_valid(*final(result)),
{
    result.processed = result.processed + 1;
    match status {
        IndexStatus::Searchable => {
            result.searchable = result.searchable + 1;
        },
        IndexStatus::Failed => {
            result.failed = result.failed + 1;
        },
        IndexStatus::Pending => {},
    }
}

/// Whether to send news of a run: after each hundred documents.
pub fn progress_is_due(processed: i64) -> (due: bool)
    requires
        processed >= 0,
    ensures
        due == (processed > 0 && processed % 100 == 0),
{
    processed > 0 && processed % 100 == 0
}

// ---- Copies that were changed ----

/// What the file system tells of a copy.
#[derive(Debug, Clone, Copy, PartialEq, Eq, Structural)]
pub struct FileFingerprint {
    pub available: bool,
    pub is_file: bool,
    pub size: i64,
    pub modified_at: Option<i64>,
}

/// The fingerprint of a file of this size. A size beyond the range counts as the largest there is.
pub fn fingerprint_of(is_file: bool, size: u64, modified_at: Option<i64>) -> (fingerprint:
    FileFingerprint)
    ensures
        fingerprint == (FileFingerprint {
            available: true,
            is_file,
            size: if size <= i64::MAX {
                size as i64
            } else {
                i64::MAX
            },
            modified_at,
        }),
{
    FileFingerprint {
        available: true,
        is_file,
        size: if size <= i64::MAX as u64 {
            size as i64
        } else {
            i64::MAX
        },
        modified_at,
    }
}

/// The fingerprint of a copy that is not there.
pub fn missing_fingerprint() -> (fingerprint: FileFingerprint)
    ensures
        fingerprint == (FileFingerprint {
            available: false,
            is_file: false,
            size: 0,
            modified_at: None,
        }),
{
    FileFingerprint { available: false, is_file: false, size: 0, modified_at: None }
}

/// What is recorded of the copy of a document.
#[derive(Debug, Clone, PartialEq, Eq)]
pub struct StoredDocumentIndex {
    pub id: String,
    pub file_name: String,
    pub file_type: String,
    pub file_size: i64,
    pub content_hash: Option<String>,
    pub file_modified_at: Option<i64>,
    pub library_path: String,
    pub processing_status: DocumentProcessingStatus,
    pub index_status: IndexStatus,
}

/// What a scan does with the copy of a document.
#[derive(Debug, Clone, Copy, PartialEq, Eq, Structural)]
pub enum ScanStep {
    /// Nothing.
    Keep,
    /// The document is indexed again.
    Mark,
    /// The hash of the copy tells.
    Compare,
}

/// The document is already marked as failed.
pub open spec fn already_failed(document: StoredDocumentIndex) -> bool {
    document.processing_status == DocumentProcessingStatus::Failed && document.index_status
        == IndexStatus::Failed
}

/// The document waits to be indexed again.
pub open spec fn already_waiting(document: StoredDocumentIndex) -> bool {
    document.processing_status == DocumentProcessingStatus::Processing && document.index_status
        == IndexStatus::Pending
}

/// What a scan does with the copy of a document; `fingerprint` is missing where the recorded path is
/// no path below the library.
pub open spec fn scan_step(
    document: StoredDocumentIndex,
    fingerprint: Option<FileFingerprint>,
    verify_hashes: bool,
) -> ScanStep {
    if already_waiting(document) {
        ScanStep::Keep
    } else {
        match fingerprint {
            None => if already_failed(document) {
                ScanStep::Keep
            } else {
                ScanStep::Mark
            },
            Some(fingerprint) => if !fingerprint.available || !fingerprint.is_file {
                if already_failed(document) {
                    ScanStep::Keep
                } else {
                    ScanStep::Mark
                }
            } else if verify_hashes || fingerprint.size != document.file_size
                || fingerprint.modified_at != document.file_modified_at
                || document.file_modified_at is None {
                ScanStep::Compare
            } else {
                ScanStep::Keep
            },
        }
    }
}

/// Whether two times are the same.
fn same_time(left: Option<i64>, right: Option<i64>) -> (equal: bool)
    ensures
        equal == (left == right),
{
    match (left, right) {
        (Some(a), Some(b)) => a == b,
        (None, None) => true,
        _ => false,
    }
}

/// Decides what a scan does with the copy of a document.
pub fn decide_scan(
    document: &StoredDocumentIndex,
    fingerprint: Option<FileFingerprint>,
    verify_hashes: bool,
) -> (step: ScanStep)
    ensures
        step == scan_step(*document, fingerprint, verify_hashes),
{
    if document.processing_status == DocumentProcessingStatus::Processing && document.index_status
        == IndexStatus::Pending {
        return ScanStep::Keep;
    }
    let failed = document.processing_status == DocumentProcessingStatus::Failed
        && document.index_status == IndexStatus::Failed;
    let lost = if failed {
        ScanStep::Keep
    } else {
        ScanStep::Mark
    };
    match fingerprint {
        None => lost,
        Some(fingerprint) => {
            if !fingerprint.available || !fingerprint.is_file {
                lost
            } else if verify_hashes || fingerprint.size != document.file_size || !same_time(
                fingerprint.modified_at,
                document.file_modified_at,
            ) || document.file_modified_at.is_none() {
                ScanStep::Compare
            } else {
                ScanStep::Keep
            }
        },
    }
}

/// What a scan does with a copy after its hash was computed.
#[derive(Debug, Clone, Copy, PartialEq, Eq, Structural)]
pub enum CompareStep {
    /// Nothing.
    Keep,
    /// The time of the last change is recorded anew.
    Touch(i64),
    /// The document is indexed again.
    Mark,
}

/// What a scan does with a copy after its hash was computed, or could not be.
pub open spec fn compare_step(
    recorded: Option<Seq<char>>,
    modified_at: Option<i64>,
    hash: Option<Seq<char>>,
) -> CompareStep {
    if hash is Some && hash == recorded {
        match modified_at {
            Some(time) => CompareStep::Touch(time),
            None => CompareStep::Keep,
        }
    } else {
        CompareStep::Mark
    }
}

/// Decides what a scan does with a copy after its hash was computed, or could not be.
pub fn decide_compare(
    document: &StoredDocumentIndex,
    fingerprint: &FileFingerprint,
    hash: &Option<String>,
) -> (step: CompareStep)
    ensures
        step == compare_step(
            optional(document.content_hash),
            fingerprint.modified_at,
            optional(*hash),
        ),
{
    if hash.is_some() && same_option(hash, &document.content_hash) {
        match fingerprint.modified_at {
            Some(time) => CompareStep::Touch(time),
            None => CompareStep::Keep,
        }
    } else {
        CompareStep::Mark
    }
}

// ---- Reading a copy again ----

/// A copy that was read again.
#[derive(Debug, Clone, PartialEq, Eq)]
pub struct RefreshedDocument {
    pub file_size: i64,
    pub content_hash: String,
    pub file_modified_at: Option<i64>,
    pub extracted_text: String,
}

/// Why a copy could not be read again, and what is known of it all the same.
#[derive(Debug, Clone, PartialEq, Eq)]
pub struct DocumentRefreshFailure {
    pub stage: String,
    pub message: String,
    pub file_size: Option<i64>,
    pub content_hash: Option<String>,
    pub file_modified_at: Option<i64>,
}

/// [`DocumentRefreshFailure`] by characters.
#[verifier::ext_equal]
pub struct RefreshFailure {
    pub stage: Seq<char>,
    pub message: Seq<char>,
    pub file_size: Option<i64>,
    pub content_hash: Option<Seq<char>>,
    pub file_modified_at: Option<i64>,
}

impl View for DocumentRefreshFailure {
    type V = RefreshFailure;

    open spec fn view(&self) -> RefreshFailure {
        RefreshFailure {
            stage: self.stage@,
            message: self.message@,
            file_size: self.file_size,
            content_hash: optional(self.content_hash),
            file_modified_at: self.file_modified_at,
        }
    }
}

/// The only file in the directory of a copy that is gone.
#[derive(Debug, Clone, PartialEq, Eq)]
pub struct SoleReplacement {
    pub path: String,
    pub size: Option<u64>,
    pub modified_at: Option<i64>,
}

/// A size within the range of recorded sizes.
pub open spec fn recordable(size: Option<u64>) -> Option<i64> {
    match size {
        Some(size) => if size <= i64::MAX {
            Some(size as i64)
        } else {
            None
        },
        None => None,
    }
}

/// A file beside the copy of a document.
#[derive(Debug)]
pub struct SiblingFile {
    pub name: String,
    pub is_file: bool,
}

/// The entry counts as a file beside the copy: it is one, and not hidden.
pub open spec fn visible_file(entry: SiblingFile) -> bool {
    entry.is_file && !starts_with(entry.name@, "."@)
}

/// The position of the only visible file.
pub open spec fn only_visible(entries: Seq<SiblingFile>, at: int) -> bool {
    &&& 0 <= at < entries.len()
    &&& visible_file(entries[at])
    &&& forall|other: int|
        0 <= other < entries.len() && visible_file(#[trigger] entries[other]) ==> other == at
}

fn is_visible_file(entry: &SiblingFile) -> (found: bool)
    ensures
        found == visible_file(*entry),
{
    entry.is_file && !has_prefix(chars(entry.name.as_str()).as_slice(), ".")
}

/// The position of the file that may have taken the place of a missing copy: the only visible one in
/// its directory.
pub fn sole_replacement_file(entries: &Vec<SiblingFile>) -> (found: Option<usize>)
    ensures
        found matches Some(at) ==> only_visible(entries@, at as int),
        found is None ==> forall|at: int| !#[trigger] only_visible(entries@, at),
{
    let mut only: Option<usize> = None;
    let mut i: usize = 0;
    while i < entries.len()
        invariant
            i <= entries@.len(),
            only matches Some(at) ==> at < i && visible_file(entries@[at as int]) && forall|other: int|
                0 <= other < i && visible_file(#[trigger] entries@[other]) ==> other == at,
            only is None ==> forall|other: int|
                0 <= other < i ==> !visible_file(#[trigger] entries@[other]),
        decreases entries@.len() - i,
    {
        if is_visible_file(&entries[i]) {
            match only {
                Some(at) => {
                    assert(forall|one: int| only_visible(entries@, one) ==> one == at && one == i);
                    return None;
                },
                None => {
                    only = Some(i);
                },
            }
        }
        i = i + 1;
    }
    only
}

/// Why a copy that is gone cannot be read: one file in its directory that the library does not
/// support has taken its place, or it is just missing.
pub open spec fn missing_failure(path: Seq<char>, replacement: Option<SoleReplacement>) -> RefreshFailure {
    match replacement {
        Some(other) if supported_type(other.path@) is None => RefreshFailure {
            stage: "externalUnsupported"@,
            message: "资料库副本已被替换为不支持的文件："@ + display_name(other.path@),
            file_size: recordable(other.size),
            content_hash: None,
            file_modified_at: other.modified_at,
        },
        _ => RefreshFailure {
            stage: "externalRead"@,
            message: "资料库副本不存在："@ + display_name(path),
            file_size: None,
            content_hash: None,
            file_modified_at: None,
        },
    }
}

/// The failure in this stage, with this message.
fn refresh_failure(
    stage: &str,
    message: String,
    file_size: Option<i64>,
    content_hash: Option<String>,
    file_modified_at: Option<i64>,
) -> (failure: DocumentRefreshFailure)
    ensures
        failure@ == (RefreshFailure {
            stage: stage@,
            message: message@,
            file_size,
            content_hash: optional(content_hash),
            file_modified_at,
        }),
{
    DocumentRefreshFailure {
        stage: stage.to_owned(),
        message,
        file_size,
        content_hash,
        file_modified_at,
    }
}

/// Tells why a copy that is gone cannot be read.
pub fn missing_copy(path: &str, replacement: &Option<SoleReplacement>) -> (failure:
    DocumentRefreshFailure)
    ensures
        failure@ == missing_failure(path@, *replacement),
{
    if let Some(other) = replacement {
        if supported_file_type(other.path.as_str()).is_none() {
            let mut message = "资料库副本已被替换为不支持的文件：".to_owned();
            message.append(display_file_name(other.path.as_str()).as_str());
            let size: Option<i64> = match other.size {
                Some(size) => if size <= i64::MAX as u64 {
                    Some(size as i64)
                } else {
                    None
                },
                None => None,
            };
            return refresh_failure("externalUnsupported", message, size, None, other.modified_at);
        }
    }
    let mut message = "资料库副本不存在：".to_owned();
    message.append(display_file_name(path).as_str());
    refresh_failure("externalRead", message, None, None, None)
}

/// What the file system tells of a copy that is read again.
#[derive(Debug, Clone, Copy, PartialEq, Eq, Structural)]
pub struct CopyFacts {
    pub is_file: bool,
    pub size: u64,
    pub modified_at: Option<i64>,
}

/// A copy with a size that can be recorded.
#[derive(Debug, Clone, Copy, PartialEq, Eq, Structural)]
pub struct MeasuredCopy {
    pub file_size: i64,
    pub file_modified_at: Option<i64>,
}

/// A copy by its size and its type, or why it cannot be read again.
pub open spec fn measured_copy(
    path: Seq<char>,
    expected_type: Seq<char>,
    facts: Result<CopyFacts, Seq<char>>,
) -> Result<MeasuredCopy, RefreshFailure> {
    match facts {
        Err(reason) => Err(
            RefreshFailure {
                stage: "externalRead"@,
                message: "无法读取资料库副本 "@ + display_name(path) + "："@ + reason,
                file_size: None,
                content_hash: None,
                file_modified_at: None,
            },
        ),
        Ok(facts) => {
            let unread = |message: Seq<char>|
                RefreshFailure {
                    stage: "externalRead"@,
                    message,
                    file_size: None,
                    content_hash: None,
                    file_modified_at: facts.modified_at,
                };
            let unsupported = |message: Seq<char>|
                RefreshFailure {
                    stage: "externalUnsupported"@,
                    message,
                    file_size: Some(facts.size as i64),
                    content_hash: None,
                    file_modified_at: facts.modified_at,
                };
            if !facts.is_file {
                Err(unread("资料库副本路径不是文件，无法读取。"@))
            } else if facts.size > i64::MAX {
                Err(unread("资料库副本大小超出支持范围。"@))
            } else {
                match supported_type(path) {
                    None => Err(unsupported("资料库副本已被替换为不支持的文件类型。"@)),
                    Some(actual) => if actual != expected_type {
                        Err(
                            unsupported(
                                "资料库副本文件类型已变为 "@ + actual + "，与文档记录的 "@
                                    + expected_type + " 不一致。"@,
                            ),
                        )
                    } else {
                        Ok(
                            MeasuredCopy {
                                file_size: facts.size as i64,
                                file_modified_at: facts.modified_at,
                            },
                        )
                    },
                }
            }
        },
    }
}

/// Measures a copy that is read again.
pub fn measure_copy(path: &str, expected_type: &str, facts: Result<CopyFacts, String>) -> (result:
    Result<MeasuredCopy, DocumentRefreshFailure>)
    ensures
        (match result {
            Ok(copy) => Ok(copy),
            Err(failure) => Err(failure@),
        }) == measured_copy(
            path@,
            expected_type@,
            match facts {
                Ok(facts) => Ok(facts),
                Err(reason) => Err(reason@),
            },
        ),
{
    let facts = match facts {
        Err(reason) => {
            let mut message = "无法读取资料库副本 ".to_owned();
            message.append(display_file_name(path).as_str());
            message.append("：");
            message.append(reason.as_str());
            return Err(refresh_failure("externalRead", message, None, None, None));
        },
        Ok(facts) => facts,
    };
    if !facts.is_file {
        return Err(
            refresh_failure(
                "externalRead",
                "资料库副本路径不是文件，无法读取。".to_owned(),
                None,
                None,
                facts.modified_at,
            ),
        );
    }
    if facts.size > i64::MAX as u64 {
        return Err(
            refresh_failure(
                "externalRead",
                "资料库副本大小超出支持范围。".to_owned(),
                None,
                None,
                facts.modified_at,
            ),
        );
    }
    let size: i64 = facts.size as i64;
    match supported_file_type(path) {
        None => Err(
            refresh_failure(
                "externalUnsupported",
                "资料库副本已被替换为不支持的文件类型。".to_owned(),
                Some(size),
                None,
                facts.modified_at,
            ),
        ),
        Some(actual) => {
            if !same(actual.as_str(), expected_type) {
                let mut message = "资料库副本文件类型已变为 ".to_owned();
                message.append(actual.as_str());
                message.append("，与文档记录的 ");
                message.append(expected_type);
                message.append(" 不一致。");
                return Err(
                    refresh_failure(
                        "externalUnsupported",
                        message,
                        Some(size),
                        None,
                        facts.modified_at,
                    ),
                );
            }
            Ok(MeasuredCopy { file_size: size, file_modified_at: facts.modified_at })
        },
    }
}

/// The hash of a measured copy, or why it cannot be read again.
pub open spec fn hashed_copy(
    copy: MeasuredCopy,
    expected_type: Seq<char>,
    hash: Result<Seq<char>, Seq<char>>,
) -> Result<Seq<char>, RefreshFailure> {
    match hash {
        Err(reason) => Err(
            RefreshFailure {
                stage: "externalHash"@,
                message: "无法计算资料库副本哈希："@ + reason,
                file_size: Some(copy.file_size),
                content_hash: None,
                file_modified_at: copy.file_modified_at,
            },
        ),
        Ok(hash) => if format_of_type(expected_type) is None {
            Err(
                RefreshFailure {
                    stage: "externalUnsupported"@,
                    message: "不支持的文档格式："@ + expected_type,
                    file_size: Some(copy.file_size),
                    content_hash: Some(hash),
                    file_modified_at: copy.file_modified_at,
                },
            )
        } else {
            Ok(hash)
        },
    }
}

/// Takes in the hash of a measured copy.
pub fn hash_copy(copy: &MeasuredCopy, expected_type: &str, hash: Result<String, String>) -> (result:
    Result<String, DocumentRefreshFailure>)
    ensures
        (match result {
            Ok(hash) => Ok(hash@),
            Err(failure) => Err(failure@),
        }) == hashed_copy(*copy, expected_type@, crate::imports::text_result(hash)),
{
    match hash {
        Err(reason) => {
            let mut message = "无法计算资料库副本哈希：".to_owned();
            message.append(reason.as_str());
            Err(
                refresh_failure(
                    "externalHash",
                    message,
                    Some(copy.file_size),
                    None,
                    copy.file_modified_at,
                ),
            )
        },
        Ok(hash) => {
            if capability_for_file_type(expected_type).is_none() {
                let mut message = "不支持的文档格式：".to_owned();
                message.append(expected_type);
                return Err(
                    refresh_failure(
                        "externalUnsupported",
                        message,
                        Some(copy.file_size),
                        Some(hash),
                        copy.file_modified_at,
                    ),
                );
            }
            Ok(hash)
        },
    }
}

/// [`RefreshedDocument`] by characters.
#[verifier::ext_equal]
pub struct Refreshed {
    pub file_size: i64,
    pub content_hash: Seq<char>,
    pub file_modified_at: Option<i64>,
    pub extracted_text: Seq<char>,
}

impl View for RefreshedDocument {
    type V = Refreshed;

    open spec fn view(&self) -> Refreshed {
        Refreshed {
            file_size: self.file_size,
            content_hash: self.content_hash@,
            file_modified_at: self.file_modified_at,
            extracted_text: self.extracted_text@,
        }
    }
}

/// A copy that was read again, or why it could not be: its contents are checked, then its text is
/// taken.
pub open spec fn refreshed_copy(
    copy: MeasuredCopy,
    hash: Seq<char>,
    contents: Result<(), Seq<char>>,
    text: Result<Seq<char>, Seq<char>>,
) -> Result<Refreshed, RefreshFailure> {
    let failed = |stage: Seq<char>, message: Seq<char>|
        RefreshFailure {
            stage,
            message,
            file_size: Some(copy.file_size),
            content_hash: Some(hash),
            file_modified_at: copy.file_modified_at,
        };
    match contents {
        Err(message) => Err(failed("externalValidation"@, message)),
        Ok(()) => match text {
            Err(message) => Err(failed("externalExtract"@, message)),
            Ok(text) => Ok(
                Refreshed {
                    file_size: copy.file_size,
                    content_hash: hash,
                    file_modified_at: copy.file_modified_at,
                    extracted_text: text,
                },
            ),
        },
    }
}

/// A copy that was read again, or why not, by views.
pub open spec fn refresh_view(result: Result<RefreshedDocument, DocumentRefreshFailure>) -> Result<
    Refreshed,
    RefreshFailure,
> {
    match result {
        Ok(document) => Ok(document@),
        Err(failure) => Err(failure@),
    }
}

/// Ends the reading of a copy.
pub fn refresh_copy(
    copy: &MeasuredCopy,
    hash: String,
    contents: Result<(), String>,
    text: Result<String, String>,
) -> (result: Result<RefreshedDocument, DocumentRefreshFailure>)
    ensures
        refresh_view(result) == refreshed_copy(
            *copy,
            hash@,
            crate::table::reason_view(contents),
            crate::imports::text_result(text),
        ),
{
    if let Err(message) = contents {
        return Err(
            refresh_failure(
                "externalValidation",
                message,
                Some(copy.file_size),
                Some(hash),
                copy.file_modified_at,
            ),
        );
    }
    match text {
        Err(message) => Err(
            refresh_failure(
                "externalExtract",
                message,
                Some(copy.file_size),
                Some(hash),
                copy.file_modified_at,
            ),
        ),
        Ok(extracted_text) => Ok(
            RefreshedDocument {
                file_size: copy.file_size,
                content_hash: hash,
                file_modified_at: copy.file_modified_at,
                extracted_text,
            },
        ),
    }
}

/// What is recorded of a document after its copy was read again.
#[derive(Debug, Clone, PartialEq, Eq)]
pub struct IndexUpdate {
    pub file_size: i64,
    pub content_hash: Option<String>,
    pub file_modified_at: Option<i64>,
    pub processing_status: DocumentProcessingStatus,
    pub index_status: IndexStatus,
    pub error_stage: Option<String>,
    pub error_message: Option<String>,
    /// The text for the index, where there is one.
    pub text: Option<String>,
    /// The small pictures of the document are no longer of its contents.
    pub drop_thumbnails: bool,
}

/// [`IndexUpdate`] by characters.
#[verifier::ext_equal]
pub struct Update {
    pub file_size: i64,
    pub content_hash: Option<Seq<char>>,
    pub file_modified_at: Option<i64>,
    pub processing_status: DocumentProcessingStatus,
    pub index_status: IndexStatus,
    pub error_stage: Option<Seq<char>>,
    pub error_message: Option<Seq<char>>,
    pub text: Option<Seq<char>>,
    pub drop_thumbnails: bool,
}

impl View for IndexUpdate {
    type V = Update;

    open spec fn view(&self) -> Update {
        Update {
            file_size: self.file_size,
            content_hash: optional(self.content_hash),
            file_modified_at: self.file_modified_at,
            processing_status: self.processing_status,
            index_status: self.index_status,
            error_stage: optional(self.error_stage),
            error_message: optional(self.error_message),
            text: optional(self.text),
            drop_thumbnails: self.drop_thumbnails,
        }
    }
}

/// What is recorded of a document after its copy was read again. Where that failed, what is not known
/// anew stays as it was.
pub open spec fn index_update(
    document: StoredDocumentIndex,
    refresh: Result<Refreshed, RefreshFailure>,
) -> Update {
    match refresh {
        Ok(fresh) => Update {
            file_size: fresh.file_size,
            content_hash: Some(fresh.content_hash),
            file_modified_at: fresh.file_modified_at,
            processing_status: DocumentProcessingStatus::Ready,
            index_status: IndexStatus::Searchable,
            error_stage: None,
            error_message: None,
            text: Some(fresh.extracted_text),
            drop_thumbnails: optional(document.content_hash) != Some(fresh.content_hash),
        },
        Err(failure) => Update {
            file_size: match failure.file_size {
                Some(size) => size,
                None => document.file_size,
            },
            content_hash: match failure.content_hash {
                Some(hash) => Some(hash),
                None => optional(document.content_hash),
            },
            file_modified_at: match failure.file_modified_at {
                Some(time) => Some(time),
                None => document.file_modified_at,
            },
            processing_status: DocumentProcessingStatus::Failed,
            index_status: IndexStatus::Failed,
            error_stage: Some(failure.stage),
            error_message: Some(failure.message),
            text: None,
            drop_thumbnails: false,
        },
    }
}

/// Tells what is recorded of a document after its copy was read again.
pub fn update_index(
    document: &StoredDocumentIndex,
    refresh: Result<RefreshedDocument, DocumentRefreshFailure>,
) -> (update: IndexUpdate)
    ensures
        update@ == index_update(*document, refresh_view(refresh)),
{
    match refresh {
        Ok(fresh) => {
            let hash = Some(fresh.content_hash);
            let drop_thumbnails = !same_option(&document.content_hash, &hash);
            IndexUpdate {
                file_size: fresh.file_size,
                content_hash: hash,
                file_modified_at: fresh.file_modified_at,
                processing_status: DocumentProcessingStatus::Ready,
                index_status: IndexStatus::Searchable,
                error_stage: None,
                error_message: None,
                text: Some(fresh.extracted_text),
                drop_thumbnails,
            }
        },
        Err(failure) => IndexUpdate {
            file_size: match failure.file_size {
                Some(size) => size,
                None => document.file_size,
            },
            content_hash: match failure.content_hash {
                Some(hash) => Some(hash),
                None => copy_option(&document.content_hash),
            },
            file_modified_at: match failure.file_modified_at {
                Some(time) => Some(time),
                None => document.file_modified_at,
            },
            processing_status: DocumentProcessingStatus::Failed,
            index_status: IndexStatus::Failed,
            error_stage: Some(failure.stage),
            error_message: Some(failure.message),
            text: None,
            drop_thumbnails: false,
        },
    }
}

// ---- Watching ----

/// The fingerprint of the copy of a document.
#[derive(Debug, Clone, PartialEq, Eq)]
pub struct WatchedCopy {
    pub document_id: String,
    pub fingerprint: FileFingerprint,
}

impl View for WatchedCopy {
    type V = (Seq<char>, FileFingerprint);

    open spec fn view(&self) -> (Seq<char>, FileFingerprint) {
        (self.document_id@, self.fingerprint)
    }
}

/// The copies by views.
pub open spec fn watched_views(copies: Seq<WatchedCopy>) -> Seq<(Seq<char>, FileFingerprint)> {
    copies.map_values(|copy: WatchedCopy| copy@)
}

/// Every copy of one list is in the other.
pub open spec fn all_in(
    list: Seq<(Seq<char>, FileFingerprint)>,
    other: Seq<(Seq<char>, FileFingerprint)>,
) -> bool {
    forall|i: int| 0 <= i < list.len() ==> other.contains(#[trigger] list[i])
}

/// Two lists hold the same copies; their order does not count.
pub open spec fn same_copies(
    list: Seq<(Seq<char>, FileFingerprint)>,
    other: Seq<(Seq<char>, FileFingerprint)>,
) -> bool {
    all_in(list, other) && all_in(other, list)
}

/// Whether two fingerprints are the same.
fn same_fingerprint(left: &FileFingerprint, right: &FileFingerprint) -> (equal: bool)
    ensures
        equal == (*left == *right),
{
    left.available == right.available && left.is_file == right.is_file && left.size == right.size
        && same_time(left.modified_at, right.modified_at)
}

/// Whether every copy of one list is in the other.
fn holds_all(list: &Vec<WatchedCopy>, other: &Vec<WatchedCopy>) -> (found: bool)
    ensures
        found == all_in(watched_views(list@), watched_views(other@)),
{
    let ghost wanted = watched_views(list@);
    let ghost held = watched_views(other@);
    let mut i: usize = 0;
    while i < list.len()
        invariant
            i <= list@.len(),
            wanted == watched_views(list@),
            held == watched_views(other@),
            forall|k: int| 0 <= k < i ==> held.contains(#[trigger] wanted[k]),
        decreases list@.len() - i,
    {
        let mut j: usize = 0;
        let mut found = false;
        assert(wanted[i as int] == list@[i as int]@);
        while j < other.len() && !found
            invariant
                j <= other@.len(),
                i < list@.len(),
                wanted == watched_views(list@),
                held == watched_views(other@),
                wanted[i as int] == list@[i as int]@,
                found ==> held.contains(wanted[i as int]),
                !found ==> forall|k: int| 0 <= k < j ==> #[trigger] held[k] != wanted[i as int],
            decreases other@.len() - j + if found {
                0int
            } else {
                1int
            },
        {
            assert(held[j as int] == other@[j as int]@);
            if same(list[i].document_id.as_str(), other[j].document_id.as_str())
                && same_fingerprint(&list[i].fingerprint, &other[j].fingerprint) {
                found = true;
            } else {
                j = j + 1;
            }
        }
        if !found {
            assert(!held.contains(wanted[i as int]));
            return false;
        }
        i = i + 1;
    }
    true
}

/// What the watcher remembers between two looks. Times are in milliseconds of one clock.
#[derive(Debug)]
pub struct ChangeWatcher {
    pub library: Option<LibrarySummary>,
    pub copies: Vec<WatchedCopy>,
    /// When the copies will have been left alone for long enough.
    pub quiet_deadline: Option<u64>,
    pub quiet_period: u64,
}

/// [`ChangeWatcher`] by characters.
#[verifier::ext_equal]
pub struct Watch {
    pub library: Option<Library>,
    pub copies: Seq<(Seq<char>, FileFingerprint)>,
    pub quiet_deadline: Option<u64>,
    pub quiet_period: u64,
}

impl View for ChangeWatcher {
    type V = Watch;

    open spec fn view(&self) -> Watch {
        Watch {
            library: crate::data::optional_library(self.library),
            copies: watched_views(self.copies@),
            quiet_deadline: self.quiet_deadline,
            quiet_period: self.quiet_period,
        }
    }
}

/// What one look found.
#[derive(Debug)]
pub struct Look {
    pub library: LibrarySummary,
    /// The documents whose copies were found to be changed.
    pub changed_document_ids: Vec<String>,
    /// How many documents wait to be indexed again.
    pub pending_count: i64,
    pub copies: Vec<WatchedCopy>,
}

/// What the watcher does after a look.
#[derive(Debug)]
pub struct WatchStep {
    /// News of documents that are indexed again.
    pub event: Option<DocumentIndexChangedEvent>,
    /// The documents that wait are indexed now.
    pub index_now: bool,
}

/// Something changed since the last look: documents were found to be changed, or the copies are not
/// what they were. The first look at a library compares with nothing.
pub open spec fn stirred(
    watch: Watch,
    library: Library,
    changed: Seq<Seq<char>>,
    copies: Seq<(Seq<char>, FileFingerprint)>,
) -> bool {
    let known = watch.library matches Some(previous) ==> same_library(previous, library);
    changed.len() > 0 || (known && watch.copies.len() > 0 && !same_copies(copies, watch.copies))
}

/// The deadline that holds during a look: a new one where something changed, none where nothing
/// waits, and one is set where there is none.
pub open spec fn deadline_at(
    watch: Watch,
    library: Library,
    changed: Seq<Seq<char>>,
    pending_count: i64,
    copies: Seq<(Seq<char>, FileFingerprint)>,
    now: u64,
) -> Option<u64> {
    let known = watch.library matches Some(previous) ==> same_library(previous, library);
    let fresh = Some((now + watch.quiet_period) as u64);
    if pending_count == 0 {
        None
    } else if stirred(watch, library, changed, copies) {
        fresh
    } else if known && watch.quiet_deadline is Some {
        watch.quiet_deadline
    } else {
        fresh
    }
}

/// The watcher after a look.
pub open spec fn watch_after(
    watch: Watch,
    library: Library,
    changed: Seq<Seq<char>>,
    pending_count: i64,
    copies: Seq<(Seq<char>, FileFingerprint)>,
    now: u64,
) -> Watch {
    Watch {
        library: Some(library),
        copies,
        quiet_deadline: deadline_at(watch, library, changed, pending_count, copies, now),
        quiet_period: watch.quiet_period,
    }
}

/// The documents that wait are indexed now: there are some, and the copies were left alone for the
/// quiet period.
pub open spec fn time_to_index(
    watch: Watch,
    library: Library,
    changed: Seq<Seq<char>>,
    pending_count: i64,
    copies: Seq<(Seq<char>, FileFingerprint)>,
    now: u64,
) -> bool {
    deadline_at(watch, library, changed, pending_count, copies, now) matches Some(deadline) && now
        >= deadline
}

impl ChangeWatcher {
    /// A watcher that has looked at nothing yet.
    pub fn new(quiet_period: u64) -> (watcher: ChangeWatcher)
        ensures
            watcher@ == (Watch {
                library: None,
                copies: Seq::empty(),
                quiet_deadline: None,
                quiet_period,
            }),
    {
        let copies: Vec<WatchedCopy> = Vec::new();
        assert(watched_views(copies@) =~= Seq::empty());
        ChangeWatcher { library: None, copies, quiet_deadline: None, quiet_period }
    }

    /// Forgets all: no library is open.
    pub fn forget(&mut self)
        ensures
            final(self)@ == (Watch {
                library: None,
                copies: Seq::empty(),
                quiet_deadline: None,
                quiet_period: old(self)@.quiet_period,
            }),
    {
        self.library = None;
        self.copies = Vec::new();
        self.quiet_deadline = None;
        assert(watched_views(self.copies@) =~= Seq::empty());
    }

    /// Takes in what one look found.
    pub fn look(&mut self, look: Look, now: u64) -> (step: WatchStep)
        requires
            now + old(self).quiet_period <= u64::MAX,
        ensures
            final(self)@ == watch_after(
                old(self)@,
                look.library@,
                views(look.changed_document_ids@),
                look.pending_count,
                watched_views(look.copies@),
                now,
            ),
            step.index_now == time_to_index(
                old(self)@,
                look.library@,
                views(look.changed_document_ids@),
                look.pending_count,
                watched_views(look.copies@),
                now,
            ),
            match step.event {
                None => look.changed_document_ids@.len() == 0,
                Some(event) => {
                    &&& look.changed_document_ids@.len() > 0
                    &&& event.library@ == look.library@
                    &&& event.phase == DocumentIndexPhase::Processing
                    &&& views(event.document_ids@) == views(look.changed_document_ids@)
                    &&& event.result is None
                },
            },
    {
        let known = match &self.library {
            Some(previous) => is_same_library(previous, &look.library),
            None => true,
        };
        assert(watched_views(self.copies@).len() == self.copies@.len());
        assert(views(look.changed_document_ids@).len() == look.changed_document_ids@.len());
        let moved = known && self.copies.len() > 0 && !(holds_all(&look.copies, &self.copies)
            && holds_all(&self.copies, &look.copies));
        let found = look.changed_document_ids.len() > 0;
        let fresh: u64 = now + self.quiet_period;
        let deadline: Option<u64> = if look.pending_count == 0 {
            None
        } else if found || moved {
            Some(fresh)
        } else if known {
            match self.quiet_deadline {
                Some(deadline) => Some(deadline),
                None => Some(fresh),
            }
        } else {
            Some(fresh)
        };
        let event = if found {
            Some(
                DocumentIndexChangedEvent {
                    library: look.library.copy(),
                    phase: DocumentIndexPhase::Processing,
                    document_ids: look.changed_document_ids,
                    result: None,
                },
            )
        } else {
            None
        };
        let index_now = match deadline {
            Some(deadline) => now >= deadline,
            None => false,
        };
        self.library = Some(look.library);
        self.copies = look.copies;
        self.quiet_deadline = deadline;
        WatchStep { event, index_now }
    }

    /// Takes in that the documents that waited were indexed, or could not be; where they were, the
    /// news of it is returned.
    pub fn indexed(&mut self, result: Option<IndexRunResult>) -> (event: Option<
        DocumentIndexChangedEvent,
    >)
        requires
            old(self).library is Some,
        ensures
            final(self)@ == (Watch { quiet_deadline: None, ..old(self)@ }),
            match event {
                None => result is None,
                Some(event) => {
                    &&& result is Some
                    &&& old(self)@.library == Some(event.library@)
                    &&& event.phase == DocumentIndexPhase::Completed
                    &&& event.document_ids@.len() == 0
                    &&& event.result == result
                },
            },
    {
        self.quiet_deadline = None;
        match result {
            None => None,
            Some(result) => match &self.library {
                None => None,
                Some(library) => Some(
                    DocumentIndexChangedEvent {
                        library: library.copy(),
                        phase: DocumentIndexPhase::Completed,
                        document_ids: Vec::new(),
                        result: Some(result),
                    },
                ),
            },
        }
    }
}

// ---- Laws ----

/// A copy that changes is not read before it was left alone for the quiet period.
pub proof fn changing_copies_are_left_alone(
    watch: Watch,
    library: Library,
    changed: Seq<Seq<char>>,
    pending_count: i64,
    copies: Seq<(Seq<char>, FileFingerprint)>,
    now: u64,
)
    requires
        watch.quiet_period > 0,
        now + watch.quiet_period <= u64::MAX,
        stirred(watch, library, changed, copies),
    ensures
        !time_to_index(watch, library, changed, pending_count, copies, now),
{
}

/// What waits is indexed in the end: a later look, at which nothing changed, comes when the quiet
/// period is over.
pub proof fn quiet_copies_are_indexed(
    watch: Watch,
    library: Library,
    pending_count: i64,
    copies: Seq<(Seq<char>, FileFingerprint)>,
    now: u64,
)
    requires
        watch.library == Some(library),
        watch.copies == copies,
        pending_count > 0,
        watch.quiet_deadline matches Some(deadline) && now >= deadline,
    ensures
        time_to_index(watch, library, Seq::empty(), pending_count, copies, now),
{
    assert(all_in(copies, copies));
}

/// A document whose copy is as it was recorded is never indexed again: neither by its size and time,
/// nor by its hash.
pub proof fn unchanged_copies_are_kept(
    document: StoredDocumentIndex,
    fingerprint: FileFingerprint,
    hash: Seq<char>,
)
    requires
        fingerprint.available && fingerprint.is_file,
        optional(document.content_hash) == Some(hash),
    ensures
        scan_step(document, Some(fingerprint), true) != ScanStep::Mark,
        scan_step(document, Some(fingerprint), false) != ScanStep::Mark,
        compare_step(optional(document.content_hash), fingerprint.modified_at, Some(hash))
            != CompareStep::Mark,
{
}

/// The counts of a run stay possible.
pub proof fn counts_stay_valid(result: IndexRunResult, status: IndexStatus)
    requires
        counts_valid(result),
        result.processed < i64::MAX,
    ensures
        counts_valid(counted(result, status)),
        counted(result, status).processed == result.processed + 1,
{
}

/// A scan leaves alone what waits already. It marks, once, a document whose copy is gone, and it looks
/// closer at a copy whose size or time is not the recorded one, or at every copy where hashes are asked
/// for.
pub proof fn scans_find_what_changed(
    document: StoredDocumentIndex,
    fingerprint: Option<FileFingerprint>,
    verify_hashes: bool,
)
    ensures
        ({
            let waits = document.processing_status == DocumentProcessingStatus::Processing
                && document.index_status == IndexStatus::Pending;
            let failed = document.processing_status == DocumentProcessingStatus::Failed
                && document.index_status == IndexStatus::Failed;
            let there = fingerprint matches Some(found) && found.available && found.is_file;
            let step = scan_step(document, fingerprint, verify_hashes);
            &&& step == ScanStep::Mark <==> !waits && !there && !failed
            &&& step == ScanStep::Compare <==> !waits && there && (verify_hashes
                || fingerprint->0.size != document.file_size || document.file_modified_at is None
                || fingerprint->0.modified_at != document.file_modified_at)
            &&& waits ==> step == ScanStep::Keep
        }),
{
}

/// A copy is marked for indexing exactly where its hash is not the recorded one or could not be had; the
/// time of a copy with the recorded hash is recorded anew.
pub proof fn hashes_tell_what_changed(
    recorded: Option<Seq<char>>,
    modified_at: Option<i64>,
    hash: Option<Seq<char>>,
)
    ensures
        compare_step(recorded, modified_at, hash) == CompareStep::Mark <==> (hash is None || recorded
            is None || hash->0 != recorded->0),
        hash is Some && recorded == hash && modified_at is Some ==> compare_step(
            recorded,
            modified_at,
            hash,
        ) == CompareStep::Touch(modified_at->0),
        hash is Some && recorded == hash && modified_at is None ==> compare_step(
            recorded,
            modified_at,
            hash,
        ) == CompareStep::Keep,
{
}

/// Each document of a run is counted as processed, and once more under what became of it.
pub proof fn runs_count_what_became_of_documents(result: IndexRunResult, status: IndexStatus)
    requires
        counts_valid(result),
        result.processed < i64::MAX,
    ensures
        counted(result, status).processed - result.processed == 1,
        status == IndexStatus::Searchable ==> counted(result, status).searchable - result.searchable
            == 1 && counted(result, status).failed == result.failed,
        status == IndexStatus::Failed ==> counted(result, status).failed - result.failed == 1
            && counted(result, status).searchable == result.searchable,
        status != IndexStatus::Searchable && status != IndexStatus::Failed ==> counted(
            result,
            status,
        ).searchable == result.searchable && counted(result, status).failed == result.failed,
{
}

/// A copy that was read again is searchable under its new hash, size, time and text, and loses the
/// pictures that were drawn for other contents.
pub proof fn read_copies_become_searchable(document: StoredDocumentIndex, fresh: Refreshed)
    ensures
        ({
            let update = index_update(document, Ok(fresh));
            &&& update.processing_status == DocumentProcessingStatus::Ready
            &&& update.index_status == IndexStatus::Searchable
            &&& update.text == Some(fresh.extracted_text)
            &&& update.content_hash == Some(fresh.content_hash)
            &&& update.file_size == fresh.file_size
            &&& update.file_modified_at == fresh.file_modified_at
            &&& update.error_stage is None && update.error_message is None
            &&& !update.drop_thumbnails <==> (document.content_hash matches Some(hash) && hash@
                == fresh.content_hash)
        }),
{
}

/// A copy that could not be read is marked as failed, with the reason; what the attempt did not learn
/// stays as recorded, and no text and no picture is touched.
pub proof fn unread_copies_keep_their_record(document: StoredDocumentIndex, reason: RefreshFailure)
    ensures
        ({
            let update = index_update(document, Err(reason));
            &&& update.processing_status == DocumentProcessingStatus::Failed
            &&& update.index_status == IndexStatus::Failed
            &&& update.error_stage == Some(reason.stage)
            &&& update.error_message == Some(reason.message)
            &&& update.text is None && !update.drop_thumbnails
            &&& reason.file_size is None ==> update.file_size == document.file_size
            &&& reason.file_size is Some ==> Some(update.file_size) == reason.file_size
            &&& reason.content_hash is None ==> update.content_hash == optional(
                document.content_hash,
            )
            &&& reason.content_hash is Some ==> update.content_hash == reason.content_hash
            &&& reason.file_modified_at is None ==> update.file_modified_at
                == document.file_modified_at
            &&& reason.file_modified_at is Some ==> update.file_modified_at
                == reason.file_modified_at
        }),
{
}

/// A copy is measured where it is a file of a recordable size and still of the type on record. A file
/// of another type is reported as unsupported, with its size and time; what cannot be read at all is
/// reported as unread.
pub proof fn copies_of_the_recorded_type_are_measured(
    path: Seq<char>,
    expected_type: Seq<char>,
    facts: Result<CopyFacts, Seq<char>>,
)
    ensures
        ({
            let measured = measured_copy(path, expected_type, facts);
            let readable = facts matches Ok(found) && found.is_file && found.size <= i64::MAX;
            &&& measured is Ok <==> readable && supported_type(path) == Some(expected_type)
            &&& measured is Ok ==> measured->Ok_0.file_size == facts->Ok_0.size
                && measured->Ok_0.file_modified_at == facts->Ok_0.modified_at
            &&& readable && measured is Err ==> measured->Err_0.stage == "externalUnsupported"@
                && measured->Err_0.file_size == Some(facts->Ok_0.size as i64)
            &&& !readable ==> measured->Err_0.stage == "externalRead"@
                && measured->Err_0.file_size is None
            &&& facts is Ok && measured is Err ==> measured->Err_0.file_modified_at
                == facts->Ok_0.modified_at
            &&& measured is Err ==> measured->Err_0.content_hash is None
        }),
{
}

/// Reading a measured copy again gives what was read, or says at which step it failed; from the hash on
/// a failure tells the hash too.
pub proof fn failures_tell_the_step(
    copy: MeasuredCopy,
    expected_type: Seq<char>,
    hash: Seq<char>,
    reason: Seq<char>,
    text: Seq<char>,
)
    ensures
        hashed_copy(copy, expected_type, Ok(hash)) is Ok <==> format_of_type(expected_type) is Some,
        format_of_type(expected_type) is Some ==> hashed_copy(copy, expected_type, Ok(hash))
            == Ok::<Seq<char>, RefreshFailure>(hash),
        hashed_copy(copy, expected_type, Err(reason)) matches Err(found) && found.stage
            == "externalHash"@ && found.content_hash is None && found.file_size == Some(
            copy.file_size,
        ),
        refreshed_copy(copy, hash, Err(reason), Ok(text)) matches Err(found) && found.stage
            == "externalValidation"@ && found.message == reason && found.content_hash == Some(hash),
        refreshed_copy(copy, hash, Ok(()), Err(reason)) matches Err(found) && found.stage
            == "externalExtract"@ && found.message == reason && found.content_hash == Some(hash),
        refreshed_copy(copy, hash, Ok(()), Ok(text)) matches Ok(found) && found.extracted_text == text
            && found.content_hash == hash && found.file_size == copy.file_size
            && found.file_modified_at == copy.file_modified_at,
{
}

/// Of a copy that is gone, a file in its place is reported where the library cannot read it, with the
/// name of that file; any other copy is just missing under its own name.
pub proof fn missing_copies_name_what_stands_there(path: Seq<char>, other: SoleReplacement)
    ensures
        supported_type(other.path@) is None ==> missing_failure(path, Some(other)).stage
            == "externalUnsupported"@ && missing_failure(path, Some(other)).message
            == "资料库副本已被替换为不支持的文件："@ + display_name(other.path@) && missing_failure(
            path,
            Some(other),
        ).file_modified_at == other.modified_at,
        supported_type(other.path@) is Some ==> missing_failure(path, Some(other)) == missing_failure(
            path,
            None,
        ),
        missing_failure(path, None).stage == "externalRead"@,
        missing_failure(path, None).message == "资料库副本不存在："@ + display_name(path),
        missing_failure(path, None).file_size is None && missing_failure(
            path,
            None,
        ).file_modified_at is None,
{
}

/// A look sets a new deadline where something waits and anything is new: a document was found to be
/// changed, the copies differ from those of the last look, or the library is another one. A deadline
/// that is set stays otherwise, and there is none where nothing waits.
pub proof fn deadlines_follow_the_last_change(
    watch: Watch,
    library: Library,
    changed: Seq<Seq<char>>,
    pending_count: i64,
    copies: Seq<(Seq<char>, FileFingerprint)>,
    now: u64,
)
    requires
        now + watch.quiet_period <= u64::MAX,
    ensures
        ({
            let after = watch_after(watch, library, changed, pending_count, copies, now);
            let same_files = forall|copy: (Seq<char>, FileFingerprint)| #[trigger]
                copies.contains(copy) <==> watch.copies.contains(copy);
            &&& after.library == Some(library) && after.copies == copies && after.quiet_period
                == watch.quiet_period
            &&& after.quiet_deadline is None <==> pending_count == 0
            &&& pending_count != 0 && changed.len() > 0 ==> after.quiet_deadline == Some(
                (now + watch.quiet_period) as u64,
            )
            &&& pending_count != 0 && watch.library == Some(library) && watch.copies.len() > 0
                && !same_files ==> after.quiet_deadline == Some((now + watch.quiet_period) as u64)
            &&& pending_count != 0 && watch.quiet_deadline is None ==> after.quiet_deadline == Some(
                (now + watch.quiet_period) as u64,
            )
            &&& pending_count != 0 && (watch.library matches Some(other) && !same_library(
                other,
                library,
            )) ==> after.quiet_deadline == Some((now + watch.quiet_period) as u64)
            &&& pending_count != 0 && changed.len() == 0 && (watch.library matches Some(other)
                && same_library(other, library)) && same_files && watch.quiet_deadline is Some
                ==> after.quiet_deadline == watch.quiet_deadline
        }),
{
    assert(same_library(library, library));
    let same_files = forall|copy: (Seq<char>, FileFingerprint)| #[trigger]
        copies.contains(copy) <==> watch.copies.contains(copy);
    if same_copies(copies, watch.copies) {
        assert forall|copy: (Seq<char>, FileFingerprint)| #[trigger]
            copies.contains(copy) <==> watch.copies.contains(copy) by {
            if copies.contains(copy) {
                let i = choose|i: int| 0 <= i < copies.len() && copies[i] == copy;
                assert(watch.copies.contains(copies[i]));
            }
            if watch.copies.contains(copy) {
                let i = choose|i: int| 0 <= i < watch.copies.len() && watch.copies[i] == copy;
                assert(copies.contains(watch.copies[i]));
            }
        }
    }
    if same_files {
        assert forall|i: int| 0 <= i < copies.len() implies watch.copies.contains(
            #[trigger] copies[i],
        ) by {
            assert(copies.contains(copies[i]));
        }
        assert forall|i: int| 0 <= i < watch.copies.len() implies copies.contains(
            #[trigger] watch.copies[i],
        ) by {
            assert(watch.copies.contains(watch.copies[i]));
        }
    }
}

} // verus!
