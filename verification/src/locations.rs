//! Where libraries are: which directories can hold one, what creating and opening asks for, and the
//! libraries that were opened last.

use vstd::prelude::*;
use crate::data::{
    optional_sync_warning, recent_record_views, recent_views, Inspection, Library, Recent,
    RecentRecord, SyncWarning,
};
use crate::error::{
    failure, message_of, outcome, ErrorKind, Failure, LibraryError, LibraryResult,
};
use crate::models::{
    CloudSyncWarning, LibraryLocationInspection, LibraryMetadata, LibrarySummary, LocationStatus,
    RecentLibrary, RecentLibraryRecord,
};
use crate::paths::{
    is_separator, path_file_name, path_file_name_of, paths_equal, replace_char, replaced,
    same_place, trimmed_end,
};
use crate::text::{
    ascii_lowercase, chars, contains, decimal, has_prefix, has_text, join, joined_pieces_come_apart,
    lower_chars, optional, pieces_of, push_decimal, same, split, split_chars, starts_with, text_between,
    to_ascii_lowercase, trim, trimmed, views,
};

verus! {

// ---- Names within a library ----

/// The version of the format of libraries.
pub const FORMAT_VERSION: u32 = 1;

/// The directory for the files of the library itself.
pub const INTERNAL_DIR: &'static str = ".pdm";

/// The file that tells what the library is.
pub const METADATA_FILE: &'static str = "library.json";

/// The database of the library.
pub const DATABASE_FILE: &'static str = "library.sqlite3";

/// The directory for the copies of documents.
pub const DOCUMENTS_DIR: &'static str = "documents";

/// The directory for deleted documents.
pub const TRASH_DIR: &'static str = "trash";

/// The directory for small pictures.
pub const THUMBNAILS_DIR: &'static str = "thumbnails";

/// The file that lists the libraries that were opened last.
pub const RECENT_FILE: &'static str = "recent_libraries.json";

/// How many libraries that list holds.
pub const MAX_RECENT_LIBRARIES: usize = 10;

// ---- Paths ----

/// A path without the mark of a literal path.
pub open spec fn plain_path(path: Seq<char>) -> Seq<char> {
    if starts_with(path, "\\\\?\\"@) {
        path.skip("\\\\?\\"@.len() as int)
    } else {
        path
    }
}

/// A path without the mark of a literal path.
pub fn strip_verbatim_prefix(path: &str) -> (out: String)
    ensures
        out@ == plain_path(path@),
{
    let all = chars(path);
    if has_prefix(all.as_slice(), "\\\\?\\") {
        let start: usize = chars("\\\\?\\").len();
        let rest = text_between(all.as_slice(), start, all.len());
        assert(rest@ =~= path@.skip(start as int));
        rest
    } else {
        path.to_owned()
    }
}

/// Checks that a directory was named.
pub fn check_location_named(path: &str) -> (result: LibraryResult<()>)
    ensures
        outcome(result) == (if path@.len() == 0 {
            Err(failure(ErrorKind::InvalidLocation, "请选择资料库目录。"@))
        } else {
            Ok(())
        }),
{
    if chars(path).len() == 0 {
        Err(LibraryError::InvalidLocation("请选择资料库目录。".to_owned()))
    } else {
        Ok(())
    }
}

/// A path without the separators behind its last component.
pub open spec fn without_trailing(path: Seq<char>) -> Seq<char> {
    path.take(trimmed_end(path, path.len() as int))
}

/// A path without the separators behind its last component.
fn trim_separators(path: &str) -> (out: String)
    ensures
        out@ == without_trailing(path@),
{
    let all = chars(path);
    let mut end: usize = all.len();
    while end > 0 && is_separator(all[end - 1])
        invariant
            end <= all@.len(),
            trimmed_end(all@, end as int) == trimmed_end(all@, all@.len() as int),
        decreases end,
    {
        end = end - 1;
    }
    let out = text_between(all.as_slice(), 0, end);
    assert(out@ =~= path@.take(end as int));
    out
}

/// A path in the form in which paths are compared.
pub open spec fn comparable(path: Seq<char>) -> Seq<char> {
    ascii_lowercase(without_trailing(plain_path(path)))
}

/// A path in the form in which paths are compared.
pub fn comparable_path(path: &str) -> (out: String)
    ensures
        out@ == comparable(path@),
{
    to_ascii_lowercase(trim_separators(strip_verbatim_prefix(path).as_str()).as_str())
}

/// The path is the root of a disk.
pub open spec fn disk_root(path: Seq<char>) -> bool {
    let rest = without_trailing(path);
    rest.len() == 0 || rest.last() == ':'
}

/// Whether the path is the root of a disk.
pub fn is_root(path: &str) -> (found: bool)
    ensures
        found == disk_root(path@),
{
    let rest = chars(trim_separators(path).as_str());
    let size: usize = rest.len();
    size == 0 || rest[size - 1] == ':'
}

// ---- Directories of the system ----

/// One of the roots is the place itself.
pub open spec fn is_reserved(candidate: Seq<char>, roots: Seq<Seq<char>>) -> bool {
    exists|i: int| 0 <= i < roots.len() && candidate == comparable(#[trigger] roots[i])
}

/// The place lies under one of the roots.
pub open spec fn is_protected(candidate: Seq<char>, roots: Seq<Seq<char>>) -> bool {
    exists|i: int|
        0 <= i < roots.len() && starts_with(candidate, comparable(#[trigger] roots[i]) + "\\"@)
}

/// Why a place cannot hold a library, given the directories of the system and that of the user.
pub open spec fn reserved_reason(
    path: Seq<char>,
    system_roots: Seq<Seq<char>>,
    user_root: Option<Seq<char>>,
) -> Option<Seq<char>> {
    let candidate = comparable(path);
    if disk_root(path) {
        Some("不能把整个磁盘根目录用作资料库。"@)
    } else if is_reserved(candidate, system_roots) || is_protected(candidate, system_roots)
        || (user_root is Some && candidate == comparable(user_root->Some_0)) {
        Some("系统目录不能用作资料库。"@)
    } else {
        None
    }
}

/// Whether a place is one of the roots, or lies under one.
fn meets_roots(candidate: &str, roots: &Vec<String>) -> (found: bool)
    ensures
        found == (is_reserved(candidate@, views(roots@)) || is_protected(
            candidate@,
            views(roots@),
        )),
{
    let ghost list = views(roots@);
    let place = chars(candidate);
    let mut i: usize = 0;
    while i < roots.len()
        invariant
            i <= roots@.len(),
            list == views(roots@),
            place@ == candidate@,
            forall|j: int| 0 <= j < i ==> candidate@ != comparable(#[trigger] list[j]),
            forall|j: int|
                0 <= j < i ==> !starts_with(candidate@, comparable(#[trigger] list[j]) + "\\"@),
        decreases roots@.len() - i,
    {
        assert(list[i as int] == roots@[i as int]@);
        let mut root = comparable_path(roots[i].as_str());
        if same(candidate, root.as_str()) {
            return true;
        }
        root.append("\\");
        if has_prefix(place.as_slice(), root.as_str()) {
            return true;
        }
        i = i + 1;
    }
    false
}

/// Why a place cannot hold a library: it is the root of a disk, a directory of the system or under
/// one, or the directory of the user itself.
pub fn reserved_location_reason(
    path: &str,
    system_roots: &Vec<String>,
    user_root: &Option<String>,
) -> (reason: Option<String>)
    ensures
        optional(reason) == reserved_reason(path@, views(system_roots@), optional(*user_root)),
{
    if is_root(path) {
        return Some("不能把整个磁盘根目录用作资料库。".to_owned());
    }
    let candidate = comparable_path(path);
    let home = match user_root {
        Some(root) => same(candidate.as_str(), comparable_path(root.as_str()).as_str()),
        None => false,
    };
    if home || meets_roots(candidate.as_str(), system_roots) {
        Some("系统目录不能用作资料库。".to_owned())
    } else {
        None
    }
}

// ---- Directories that a cloud service synchronizes ----

/// The service whose name stands in a component, in lower case.
pub open spec fn provider_of(component: Seq<char>) -> Option<Seq<char>> {
    if contains(component, "onedrive"@) {
        Some("OneDrive"@)
    } else if contains(component, "dropbox"@) {
        Some("Dropbox"@)
    } else if contains(component, "google drive"@) {
        Some("Google Drive"@)
    } else if contains(component, "icloud drive"@) {
        Some("iCloud Drive"@)
    } else if contains(component, "box sync"@) {
        Some("Box"@)
    } else if contains(component, "pcloud"@) {
        Some("pCloud"@)
    } else if contains(component, "nutstore"@) {
        Some("坚果云"@)
    } else {
        None
    }
}

/// The components of a path.
pub open spec fn components(path: Seq<char>) -> Seq<Seq<char>> {
    split(replaced(path, '\\', '/'), '/')
}

/// The service of the first component from `at` on that names one.
pub open spec fn provider_from(pieces: Seq<Seq<char>>, at: int) -> Option<Seq<char>>
    decreases pieces.len() - at,
{
    if at < 0 || at >= pieces.len() {
        None
    } else {
        match provider_of(ascii_lowercase(pieces[at])) {
            Some(provider) => Some(provider),
            None => provider_from(pieces, at + 1),
        }
    }
}

/// The warning on a place that a service synchronizes.
pub open spec fn sync_warning(path: Seq<char>) -> Option<SyncWarning> {
    match provider_from(components(path), 0) {
        None => None,
        Some(provider) => Some(
            SyncWarning {
                provider,
                message: "这个位置看起来位于 "@ + provider
                    + " 同步目录中。同步冲突可能损坏资料库，建议改用本地非同步目录。"@,
            },
        ),
    }
}

fn provider_in(component: &[char]) -> (provider: Option<&'static str>)
    ensures
        (match provider {
            Some(name) => Some(name@),
            None => None,
        }) == provider_of(component@),
{
    if has_text(component, "onedrive") {
        Some("OneDrive")
    } else if has_text(component, "dropbox") {
        Some("Dropbox")
    } else if has_text(component, "google drive") {
        Some("Google Drive")
    } else if has_text(component, "icloud drive") {
        Some("iCloud Drive")
    } else if has_text(component, "box sync") {
        Some("Box")
    } else if has_text(component, "pcloud") {
        Some("pCloud")
    } else if has_text(component, "nutstore") {
        Some("坚果云")
    } else {
        None
    }
}

/// The warning on a place that a service synchronizes.
pub fn cloud_sync_warning(path: &str) -> (warning: Option<CloudSyncWarning>)
    ensures
        optional_sync_warning(warning) == sync_warning(path@),
{
    let even = chars(replace_char(path, '\\', '/').as_str());
    let pieces = split_chars(even.as_slice(), '/');
    let ghost list = pieces_of(pieces@);
    let mut i: usize = 0;
    while i < pieces.len()
        invariant
            i <= pieces@.len(),
            list == pieces_of(pieces@),
            list == components(path@),
            provider_from(list, i as int) == provider_from(list, 0),
        decreases pieces@.len() - i,
    {
        assert(list[i as int] == pieces@[i as int]@);
        let lower = lower_chars(pieces[i].as_slice());
        assert(lower@ == ascii_lowercase(list[i as int]));
        if let Some(provider) = provider_in(lower.as_slice()) {
            let mut message = "这个位置看起来位于 ".to_owned();
            message.append(provider);
            message.append(" 同步目录中。同步冲突可能损坏资料库，建议改用本地非同步目录。");
            return Some(CloudSyncWarning { provider: provider.to_owned(), message });
        }
        i = i + 1;
    }
    None
}

// ---- Inspecting a place ----

/// What is found at a place.
#[derive(Debug, Clone, Copy, PartialEq, Eq, Structural)]
pub struct PlaceFacts {
    pub exists: bool,
    pub is_directory: bool,
    pub is_library: bool,
    /// Something is in the directory.
    pub has_entries: bool,
}

/// What an inspection does next.
#[derive(Debug)]
pub enum Screening {
    /// The inspection is done.
    Decided(LibraryLocationInspection),
    /// It has to be seen whether the place can be written to.
    Probe,
}

/// [`Screening`] by views.
#[verifier::ext_equal]
pub enum Screened {
    Decided(Inspection),
    Probe,
}

impl View for Screening {
    type V = Screened;

    open spec fn view(&self) -> Screened {
        match self {
            Screening::Decided(inspection) => Screened::Decided(inspection@),
            Screening::Probe => Screened::Probe,
        }
    }
}

/// An inspection with this outcome.
pub open spec fn inspected(
    path: Seq<char>,
    status: LocationStatus,
    is_existing_library: bool,
    reason: Option<Seq<char>>,
) -> Inspection {
    Inspection {
        path,
        status,
        is_existing_library,
        cloud_sync_warning: sync_warning(path),
        reason,
    }
}

/// What an inspection does next, given why the place is reserved.
pub open spec fn screened(path: Seq<char>, reserved: Option<Seq<char>>, facts: PlaceFacts) -> Screened {
    if reserved is Some {
        Screened::Decided(inspected(path, LocationStatus::Blocked, false, reserved))
    } else if facts.exists && !facts.is_directory {
        Screened::Decided(
            inspected(path, LocationStatus::Blocked, false, Some("所选位置不是目录。"@)),
        )
    } else if !facts.is_library && facts.exists && facts.has_entries {
        Screened::Decided(
            inspected(
                path,
                LocationStatus::Blocked,
                false,
                Some("目录不为空。请选择一个空目录或已有资料库。"@),
            ),
        )
    } else {
        Screened::Probe
    }
}

fn inspection(
    path: &str,
    status: LocationStatus,
    is_existing_library: bool,
    reason: Option<String>,
) -> (inspection: LibraryLocationInspection)
    ensures
        inspection@ == inspected(path@, status, is_existing_library, optional(reason)),
{
    LibraryLocationInspection {
        path: path.to_owned(),
        status,
        is_existing_library,
        cloud_sync_warning: cloud_sync_warning(path),
        reason,
    }
}

/// Judges a place by what is found there; a place that may hold a library has to be probed next.
pub fn screen_location(path: &str, reserved: Option<String>, facts: PlaceFacts) -> (screening: Screening)
    ensures
        screening@ == screened(path@, optional(reserved), facts),
{
    match reserved {
        Some(reason) => {
            return Screening::Decided(
                inspection(path, LocationStatus::Blocked, false, Some(reason)),
            );
        },
        None => {},
    }
    if facts.exists && !facts.is_directory {
        return Screening::Decided(
            inspection(
                path,
                LocationStatus::Blocked,
                false,
                Some("所选位置不是目录。".to_owned()),
            ),
        );
    }
    if !facts.is_library && facts.exists && facts.has_entries {
        return Screening::Decided(
            inspection(
                path,
                LocationStatus::Blocked,
                false,
                Some("目录不为空。请选择一个空目录或已有资料库。".to_owned()),
            ),
        );
    }
    Screening::Probe
}

/// What came of the attempt to write to a directory.
#[derive(Debug)]
pub enum WriteProbe {
    NotDirectory,
    Written,
    Denied,
    Failed(String),
}

/// Why a directory cannot be written to.
pub open spec fn probe_reason(probe: WriteProbe) -> Option<Seq<char>> {
    match probe {
        WriteProbe::NotDirectory => Some("所选位置不是可写入的目录。"@),
        WriteProbe::Written => None,
        WriteProbe::Denied => Some("所选位置无法写入。请选择其他目录。"@),
        WriteProbe::Failed(detail) => Some("无法验证目录写入权限："@ + detail@),
    }
}

/// Why a directory cannot be written to.
pub fn unwritable_reason(probe: WriteProbe) -> (reason: Option<String>)
    ensures
        optional(reason) == probe_reason(probe),
{
    match probe {
        WriteProbe::NotDirectory => Some("所选位置不是可写入的目录。".to_owned()),
        WriteProbe::Written => None,
        WriteProbe::Denied => Some("所选位置无法写入。请选择其他目录。".to_owned()),
        WriteProbe::Failed(detail) => {
            let mut reason = "无法验证目录写入权限：".to_owned();
            reason.append(detail.as_str());
            Some(reason)
        },
    }
}

/// What an inspection finds of a place that was probed.
pub open spec fn probed(path: Seq<char>, is_library: bool, unwritable: Option<Seq<char>>) -> Inspection {
    if unwritable is Some {
        inspected(path, LocationStatus::Blocked, is_library, unwritable)
    } else if is_library {
        inspected(path, LocationStatus::ExistingLibrary, true, None)
    } else {
        inspected(path, LocationStatus::Usable, false, None)
    }
}

/// Ends the inspection of a place that was probed.
pub fn finish_inspection(path: &str, is_library: bool, unwritable: Option<String>) -> (found:
    LibraryLocationInspection)
    ensures
        found@ == probed(path@, is_library, optional(unwritable)),
{
    if unwritable.is_some() {
        inspection(path, LocationStatus::Blocked, is_library, unwritable)
    } else if is_library {
        inspection(path, LocationStatus::ExistingLibrary, true, None)
    } else {
        inspection(path, LocationStatus::Usable, false, None)
    }
}

// ---- Creating and opening ----

/// The reason of an inspection, or another one where it has none.
pub open spec fn reason_or(inspection: Inspection, other: Seq<char>) -> Seq<char> {
    match inspection.reason {
        Some(reason) => reason,
        None => other,
    }
}

fn reason_or_else(inspection: &LibraryLocationInspection, other: &str) -> (reason: String)
    ensures
        reason@ == reason_or(inspection@, other@),
{
    match &inspection.reason {
        Some(reason) => reason.clone(),
        None => other.to_owned(),
    }
}

/// Whether a library can be created at a place, or why not.
pub open spec fn creation_check(inspection: Inspection) -> Result<(), Failure> {
    match inspection.status {
        LocationStatus::ExistingLibrary => Err(
            failure(ErrorKind::InvalidLocation, "该位置已经包含资料库，请直接打开。"@),
        ),
        LocationStatus::Blocked => Err(
            failure(
                ErrorKind::InvalidLocation,
                reason_or(inspection, "该位置不能用作资料库。"@),
            ),
        ),
        LocationStatus::Usable => Ok(()),
    }
}

/// Checks whether a library can be created at a place.
pub fn check_creation(inspection: &LibraryLocationInspection) -> (result: LibraryResult<()>)
    ensures
        outcome(result) == creation_check(inspection@),
{
    match inspection.status {
        LocationStatus::ExistingLibrary => Err(
            LibraryError::InvalidLocation("该位置已经包含资料库，请直接打开。".to_owned()),
        ),
        LocationStatus::Blocked => Err(
            LibraryError::InvalidLocation(reason_or_else(inspection, "该位置不能用作资料库。")),
        ),
        LocationStatus::Usable => Ok(()),
    }
}

/// Whether the library at a place can be opened, or why not.
pub open spec fn opening_check(inspection: Inspection) -> Result<(), Failure> {
    if inspection.status == LocationStatus::ExistingLibrary {
        Ok(())
    } else {
        Err(
            failure(
                ErrorKind::InvalidLibrary,
                reason_or(inspection, "所选位置不包含可打开的资料库。"@),
            ),
        )
    }
}

/// Checks whether the library at a place can be opened.
pub fn check_opening(inspection: &LibraryLocationInspection) -> (result: LibraryResult<()>)
    ensures
        outcome(result) == opening_check(inspection@),
{
    if inspection.status == LocationStatus::ExistingLibrary {
        Ok(())
    } else {
        Err(
            LibraryError::InvalidLibrary(
                reason_or_else(inspection, "所选位置不包含可打开的资料库。"),
            ),
        )
    }
}

/// Checks the version of the format of a library.
pub fn check_format_version(version: u32) -> (result: LibraryResult<()>)
    ensures
        outcome(result) == (if version == FORMAT_VERSION {
            Ok(())
        } else {
            Err(
                failure(
                    ErrorKind::InvalidLibrary,
                    "不支持资料库格式版本 "@ + decimal(version as nat) + "。"@,
                ),
            )
        }),
{
    if version == FORMAT_VERSION {
        return Ok(());
    }
    let mut detail = "不支持资料库格式版本 ".to_owned();
    push_decimal(&mut detail, version as u64);
    detail.append("。");
    Err(LibraryError::InvalidLibrary(detail))
}

/// The name of the library in a directory.
pub open spec fn library_name(path: Seq<char>) -> Seq<char> {
    match path_file_name_of(path) {
        Some(name) if trim(name).len() > 0 => name,
        _ => "资料库"@,
    }
}

/// The name of the library in a directory.
pub fn directory_name(path: &str) -> (name: String)
    ensures
        name@ == library_name(path@),
{
    match path_file_name(path) {
        Some(name) => {
            if chars(trimmed(name.as_str()).as_str()).len() > 0 {
                name
            } else {
                "资料库".to_owned()
            }
        },
        None => "资料库".to_owned(),
    }
}

/// What tells of a new library.
pub fn new_metadata(path: &str, library_id: &str, created_at: &str) -> (metadata: LibraryMetadata)
    ensures
        metadata.format_version == FORMAT_VERSION,
        metadata.library_id@ == library_id@,
        metadata.name@ == library_name(path@),
        metadata.created_at@ == created_at@,
{
    LibraryMetadata {
        format_version: FORMAT_VERSION,
        library_id: library_id.to_owned(),
        name: directory_name(path),
        created_at: created_at.to_owned(),
    }
}

/// The library at a path, as it is shown.
pub fn summary_from_metadata(path: &str, metadata: &LibraryMetadata) -> (library: LibrarySummary)
    ensures
        library@ == (Library {
            id: metadata.library_id@,
            name: metadata.name@,
            path: path@,
            created_at: metadata.created_at@,
        }),
{
    LibrarySummary {
        id: metadata.library_id.clone(),
        name: metadata.name.clone(),
        path: path.to_owned(),
        created_at: metadata.created_at.clone(),
    }
}

/// What is told of a library that could not be created, given what went wrong when the directory was
/// cleaned up.
pub open spec fn creation_failure(path: Seq<char>, cause: Failure, cleanup: Option<Seq<char>>) -> Failure {
    match cleanup {
        None => cause,
        Some(detail) => failure(
            ErrorKind::InvalidLibrary,
            "创建资料库失败："@ + message_of(cause) + "。清理目录 "@ + path + " 时又发生错误："@
                + detail + "。该位置可能留有部分创建内容，请检查后再重试。"@,
        ),
    }
}

/// What is told of a library that could not be created.
pub fn creation_error_after_cleanup(path: &str, cause: LibraryError, cleanup: Option<String>) -> (error:
    LibraryError)
    ensures
        error@ == creation_failure(path@, cause@, optional(cleanup)),
{
    match cleanup {
        None => cause,
        Some(cleanup_error) => {
            let mut detail = "创建资料库失败：".to_owned();
            detail.append(cause.message().as_str());
            detail.append("。清理目录 ");
            detail.append(path);
            detail.append(" 时又发生错误：");
            detail.append(cleanup_error.as_str());
            detail.append("。该位置可能留有部分创建内容，请检查后再重试。");
            LibraryError::InvalidLibrary(detail)
        },
    }
}

/// The files that creating a library may leave in its own directory, in the order in which they go.
pub open spec fn created_files() -> Seq<Seq<char>> {
    seq![
        DATABASE_FILE@ + "-wal"@,
        DATABASE_FILE@ + "-shm"@,
        DATABASE_FILE@ + "-journal"@,
        DATABASE_FILE@,
        METADATA_FILE@,
    ]
}

/// The files that creating a library may leave in its own directory.
pub fn files_of_creation() -> (names: Vec<String>)
    ensures
        views(names@) == created_files(),
{
    let mut log = DATABASE_FILE.to_owned();
    log.append("-wal");
    let mut shared = DATABASE_FILE.to_owned();
    shared.append("-shm");
    let mut journal = DATABASE_FILE.to_owned();
    journal.append("-journal");
    let mut names: Vec<String> = Vec::new();
    names.push(log);
    names.push(shared);
    names.push(journal);
    names.push(DATABASE_FILE.to_owned());
    names.push(METADATA_FILE.to_owned());
    assert(views(names@) =~= created_files());
    names
}

// ---- Libraries that were opened last ----

/// The records of other places.
pub open spec fn others(list: Seq<RecentRecord>, path: Seq<char>) -> Seq<RecentRecord>
    decreases list.len(),
{
    if list.len() == 0 {
        Seq::empty()
    } else if same_place(list.last().path, path) {
        others(list.drop_last(), path)
    } else {
        others(list.drop_last(), path).push(list.last())
    }
}

/// The list after a library was opened: it comes first, and only once.
pub open spec fn remembered(list: Seq<RecentRecord>, record: RecentRecord) -> Seq<RecentRecord> {
    let all = seq![record] + others(list, record.path);
    if all.len() > MAX_RECENT_LIBRARIES {
        all.take(MAX_RECENT_LIBRARIES as int)
    } else {
        all
    }
}

/// The list without the records of a place.
pub fn forget_recent(list: &Vec<RecentLibraryRecord>, path: &str) -> (kept: Vec<RecentLibraryRecord>)
    ensures
        recent_record_views(kept@) == others(recent_record_views(list@), path@),
{
    let ghost all = recent_record_views(list@);
    let mut kept: Vec<RecentLibraryRecord> = Vec::new();
    let mut i: usize = 0;
    assert(recent_record_views(kept@) =~= others(all.take(0), path@));
    while i < list.len()
        invariant
            i <= list@.len(),
            all == recent_record_views(list@),
            recent_record_views(kept@) == others(all.take(i as int), path@),
        decreases list@.len() - i,
    {
        assert(all.take(i + 1).drop_last() =~= all.take(i as int));
        assert(all.take(i + 1).last() == list@[i as int]@);
        if !paths_equal(list[i].path.as_str(), path) {
            let ghost before = recent_record_views(kept@);
            kept.push(list[i].copy());
            assert(recent_record_views(kept@) =~= before.push(all[i as int]));
        }
        i = i + 1;
    }
    assert(all.take(i as int) =~= all);
    kept
}

/// The list after a library was opened.
pub fn record_recent(list: &Vec<RecentLibraryRecord>, record: RecentLibraryRecord) -> (updated: Vec<
    RecentLibraryRecord,
>)
    ensures
        recent_record_views(updated@) == remembered(recent_record_views(list@), record@),
{
    let ghost newest = record@;
    let mut updated = forget_recent(list, record.path.as_str());
    let ghost rest = recent_record_views(updated@);
    updated.insert(0, record);
    assert(recent_record_views(updated@) =~= seq![newest] + rest);
    if updated.len() > MAX_RECENT_LIBRARIES {
        let ghost all = recent_record_views(updated@);
        updated.truncate(MAX_RECENT_LIBRARIES);
        assert(recent_record_views(updated@) =~= all.take(MAX_RECENT_LIBRARIES as int));
    }
    updated
}

/// The records as they are shown; `available` tells for each whether its library is still there.
pub open spec fn shown_recent(list: Seq<RecentRecord>, available: Seq<bool>) -> Seq<Recent> {
    Seq::new(
        list.len(),
        |i: int|
            Recent {
                path: list[i].path,
                name: list[i].name,
                last_opened_at: list[i].last_opened_at,
                is_available: i < available.len() && available[i],
            },
    )
}

/// The libraries that were opened last, as they are shown.
pub fn list_recent_libraries(list: &Vec<RecentLibraryRecord>, available: &Vec<bool>) -> (shown: Vec<
    RecentLibrary,
>)
    ensures
        recent_views(shown@) == shown_recent(recent_record_views(list@), available@),
{
    let mut shown: Vec<RecentLibrary> = Vec::new();
    let mut i: usize = 0;
    let ghost all = shown_recent(recent_record_views(list@), available@);
    assert(recent_views(shown@) =~= all.take(0));
    while i < list.len()
        invariant
            i <= list@.len(),
            all == shown_recent(recent_record_views(list@), available@),
            recent_views(shown@) == all.take(i as int),
        decreases list@.len() - i,
    {
        let record = &list[i];
        let entry = RecentLibrary {
            path: record.path.clone(),
            name: record.name.clone(),
            last_opened_at: record.last_opened_at.clone(),
            is_available: i < available.len() && available[i],
        };
        assert(entry@ =~= all[i as int]);
        let ghost before = recent_views(shown@);
        let ghost added = entry@;
        shown.push(entry);
        assert(recent_views(shown@) =~= before.push(added));
        assert(all.take(i + 1) =~= all.take(i as int).push(all[i as int]));
        i = i + 1;
    }
    assert(all.take(i as int) =~= all);
    shown
}

/// The library to open at the start: the one that was opened last, unless one is open.
pub fn library_to_reopen(list: &Vec<RecentLibraryRecord>, is_open: bool) -> (path: Option<String>)
    ensures
        optional(path) == (if is_open || list@.len() == 0 {
            None
        } else {
            Some(list@[0].path@)
        }),
{
    if is_open || list.len() == 0 {
        None
    } else {
        Some(list[0].path.clone())
    }
}

// ---- Links ----

/// A control character.
pub open spec fn control(c: char) -> bool {
    c as u32 <= 0x1f || 0x7f <= c as u32 <= 0x9f
}

/// A link that may be opened: one of the web, without control characters, of at most 4096 bytes.
pub open spec fn web_link(url: Seq<char>) -> bool {
    &&& url.len() > 0
    &&& vstd::utf8::encode_utf8(url).len() <= 4096
    &&& forall|i: int| 0 <= i < url.len() ==> !control(#[trigger] url[i])
    &&& starts_with(ascii_lowercase(url), "https://"@) || starts_with(
        ascii_lowercase(url),
        "http://"@,
    )
}

/// Whether a link may be opened.
pub fn is_safe_external_url(url: &str) -> (safe: bool)
    ensures
        safe == web_link(url@),
{
    let all = chars(url);
    if all.len() == 0 || url.as_bytes().len() > 4096 {
        return false;
    }
    let mut i: usize = 0;
    while i < all.len()
        invariant
            i <= all@.len(),
            all@ == url@,
            forall|j: int| 0 <= j < i ==> !control(#[trigger] url@[j]),
        decreases all@.len() - i,
    {
        let code: u32 = all[i] as u32;
        if code <= 0x1f || (0x7f <= code && code <= 0x9f) {
            assert(control(url@[i as int]));
            return false;
        }
        i = i + 1;
    }
    let lower = lower_chars(all.as_slice());
    has_prefix(lower.as_slice(), "https://") || has_prefix(lower.as_slice(), "http://")
}

/// The link to open, without the white space around it, unless it must not be opened.
pub fn external_url_to_open(url: &str) -> (result: LibraryResult<String>)
    ensures
        outcome(result) == (if web_link(trim(url@)) {
            Ok(trim(url@))
        } else {
            Err(
                failure(
                    ErrorKind::InvalidExternalUrl,
                    "只允许打开由用户明确点击的 HTTP 或 HTTPS 链接。"@,
                ),
            )
        }),
{
    let link = trimmed(url);
    if is_safe_external_url(link.as_str()) {
        Ok(link)
    } else {
        Err(
            LibraryError::InvalidExternalUrl(
                "只允许打开由用户明确点击的 HTTP 或 HTTPS 链接。".to_owned(),
            ),
        )
    }
}

// ---- Laws ----

/// No record of a place is among those of other places, and all of them are old ones.
proof fn lemma_others(list: Seq<RecentRecord>, path: Seq<char>)
    ensures
        forall|i: int|
            0 <= i < others(list, path).len() ==> !same_place(
                (#[trigger] others(list, path)[i]).path,
                path,
            ),
        forall|i: int|
            0 <= i < others(list, path).len() ==> list.contains(#[trigger] others(list, path)[i]),
        others(list, path).len() <= list.len(),
    decreases list.len(),
{
    if list.len() > 0 {
        let shorter = list.drop_last();
        lemma_others(shorter, path);
        let kept = others(list, path);
        let before = others(shorter, path);
        assert forall|i: int| 0 <= i < kept.len() implies !same_place((#[trigger] kept[i]).path, path)
            && list.contains(kept[i]) by {
            if i < before.len() {
                assert(kept[i] == before[i]);
                let at = choose|at: int| 0 <= at < shorter.len() && shorter[at] == before[i];
                assert(list[at] == kept[i]);
            } else {
                assert(list[list.len() - 1] == kept[i]);
            }
        }
    }
}

/// No place stands twice in the list.
pub open spec fn places_differ(list: Seq<RecentRecord>) -> bool {
    forall|i: int, j: int|
        0 <= i < j < list.len() ==> !same_place((#[trigger] list[i]).path, (#[trigger] list[j]).path)
}

/// Leaving records out keeps the places apart.
proof fn lemma_others_differ(list: Seq<RecentRecord>, path: Seq<char>)
    requires
        places_differ(list),
    ensures
        places_differ(others(list, path)),
    decreases list.len(),
{
    if list.len() > 0 {
        let shorter = list.drop_last();
        lemma_others_differ(shorter, path);
        lemma_others(shorter, path);
        let kept = others(list, path);
        let before = others(shorter, path);
        assert forall|i: int, j: int| 0 <= i < j < kept.len() implies !same_place(
            (#[trigger] kept[i]).path,
            (#[trigger] kept[j]).path,
        ) by {
            assert(kept[i] == before[i]);
            if j < before.len() {
                assert(kept[j] == before[j]);
            } else {
                let at = choose|at: int| 0 <= at < shorter.len() && shorter[at] == before[i];
                assert(list[at] == kept[i] && list[list.len() - 1] == kept[j]);
            }
        }
    }
}

/// The library that was opened last comes first; the list never grows beyond its limit, and no place
/// stands in it twice.
pub proof fn recent_lists_stay_short_and_distinct(list: Seq<RecentRecord>, record: RecentRecord)
    requires
        places_differ(list),
    ensures
        remembered(list, record).len() >= 1,
        remembered(list, record)[0] == record,
        remembered(list, record).len() <= MAX_RECENT_LIBRARIES,
        places_differ(remembered(list, record)),
{
    lemma_others(list, record.path);
    lemma_others_differ(list, record.path);
    let rest = others(list, record.path);
    let updated = remembered(list, record);
    assert forall|i: int, j: int| 0 <= i < j < updated.len() implies !same_place(
        (#[trigger] updated[i]).path,
        (#[trigger] updated[j]).path,
    ) by {
        assert(updated[j] == rest[j - 1]);
        if i > 0 {
            assert(updated[i] == rest[i - 1]);
        }
    }
}

/// A library that was forgotten is not in the list, and forgetting it again changes nothing.
pub proof fn forgotten_libraries_are_gone(list: Seq<RecentRecord>, path: Seq<char>)
    ensures
        forall|i: int|
            0 <= i < others(list, path).len() ==> !same_place(
                (#[trigger] others(list, path)[i]).path,
                path,
            ),
        others(others(list, path), path) == others(list, path),
{
    lemma_others(list, path);
    lemma_all_others(others(list, path), path);
}

/// Where no record is of a place, all of them are of others.
proof fn lemma_all_others(list: Seq<RecentRecord>, path: Seq<char>)
    requires
        forall|i: int| 0 <= i < list.len() ==> !same_place((#[trigger] list[i]).path, path),
    ensures
        others(list, path) == list,
    decreases list.len(),
{
    if list.len() > 0 {
        lemma_all_others(list.drop_last(), path);
        assert(others(list, path) =~= list);
    }
}

/// A library is created only at a place that holds none and that nothing speaks against, and opened
/// only where there is one: never both.
pub proof fn places_are_created_or_opened(inspection: Inspection)
    ensures
        !(creation_check(inspection) is Ok && opening_check(inspection) is Ok),
        creation_check(inspection) is Ok <==> inspection.status == LocationStatus::Usable,
        opening_check(inspection) is Ok <==> inspection.status == LocationStatus::ExistingLibrary,
{
}

/// A reserved place is never usable, whatever is found there.
pub proof fn reserved_places_are_blocked(path: Seq<char>, reason: Seq<char>, facts: PlaceFacts)
    ensures
        screened(path, Some(reason), facts) matches Screened::Decided(inspection)
            && inspection.status == LocationStatus::Blocked && inspection.reason == Some(reason),
{
}

/// The records of other places are all those there were but the ones of this place, in their order.
pub proof fn other_records_stay(list: Seq<RecentRecord>, path: Seq<char>)
    ensures
        others(list, path) == list.filter(
            |record: RecentRecord| ascii_lowercase(record.path) != ascii_lowercase(path),
        ),
    decreases list.len(),
{
    reveal(Seq::filter);
    if list.len() > 0 {
        other_records_stay(list.drop_last(), path);
    }
}

/// Behind the library that was opened last come the others in their order, as many as there is room
/// for.
pub proof fn recent_lists_keep_their_order(list: Seq<RecentRecord>, record: RecentRecord, at: int)
    requires
        0 < at < remembered(list, record).len(),
    ensures
        remembered(list, record)[at] == list.filter(
            |other: RecentRecord| ascii_lowercase(other.path) != ascii_lowercase(record.path),
        )[at - 1],
        remembered(list, record).len() == MAX_RECENT_LIBRARIES || remembered(list, record).len()
            == list.filter(
            |other: RecentRecord| ascii_lowercase(other.path) != ascii_lowercase(record.path),
        ).len() + 1,
{
    other_records_stay(list, record.path);
}

/// A place cannot hold a library where it is the root of a disk, a directory of the system or one
/// below it, or the directory of the user itself, and can in every other case.
pub proof fn system_places_are_reserved(
    path: Seq<char>,
    system_roots: Seq<Seq<char>>,
    user_root: Option<Seq<char>>,
)
    ensures
        reserved_reason(path, system_roots, user_root) is Some <==> {
            ||| disk_root(path)
            ||| exists|i: int|
                0 <= i < system_roots.len() && comparable(#[trigger] system_roots[i]) == comparable(path)
            ||| exists|i: int, rest: Seq<char>|
                0 <= i < system_roots.len() && comparable(path) == #[trigger] (comparable(
                    system_roots[i],
                ).push('\\') + rest)
            ||| user_root is Some && comparable(user_root->Some_0) == comparable(path)
        },
{
    let candidate = comparable(path);
    reveal_strlit("\\");
    if is_reserved(candidate, system_roots) {
        let i = choose|i: int|
            0 <= i < system_roots.len() && candidate == comparable(#[trigger] system_roots[i]);
        assert(comparable(system_roots[i]) == candidate);
    }
    if is_protected(candidate, system_roots) {
        let i = choose|i: int|
            0 <= i < system_roots.len() && starts_with(
                candidate,
                comparable(#[trigger] system_roots[i]) + "\\"@,
            );
        let start = comparable(system_roots[i]).push('\\');
        assert(comparable(system_roots[i]) + "\\"@ =~= start);
        assert(candidate =~= start + candidate.skip(start.len() as int));
    }
    if exists|i: int, rest: Seq<char>|
        0 <= i < system_roots.len() && candidate == #[trigger] (comparable(system_roots[i]).push('\\')
            + rest) {
        let (i, rest) = choose|i: int, rest: Seq<char>|
            0 <= i < system_roots.len() && candidate == #[trigger] (comparable(system_roots[i]).push('\\')
                + rest);
        let start = comparable(system_roots[i]).push('\\');
        assert(comparable(system_roots[i]) + "\\"@ =~= start);
        assert(candidate.subrange(0, start.len() as int) =~= start);
        assert(starts_with(candidate, comparable(system_roots[i]) + "\\"@));
    }
}

/// An inspection blocks a place that is no directory or holds something that is no library; it probes
/// every other place that is not reserved. What cannot be written to is blocked, a library can be
/// opened, and an empty place can be used.
pub proof fn places_are_judged_by_what_is_there(
    path: Seq<char>,
    facts: PlaceFacts,
    is_library: bool,
    unwritable: Option<Seq<char>>,
)
    ensures
        screened(path, None, facts) == Screened::Probe <==> !(facts.exists && (!facts.is_directory || (
        facts.has_entries && !facts.is_library))),
        screened(path, None, facts) matches Screened::Decided(inspection) ==> inspection.status
            == LocationStatus::Blocked && inspection.reason is Some && inspection.path == path,
        probed(path, is_library, unwritable).status == if unwritable is Some {
            LocationStatus::Blocked
        } else if is_library {
            LocationStatus::ExistingLibrary
        } else {
            LocationStatus::Usable
        },
        probed(path, is_library, unwritable).reason == unwritable,
        probed(path, is_library, unwritable).path == path,
{
}

proof fn lemma_provider_from(pieces: Seq<Seq<char>>, from: int, at: int)
    requires
        0 <= from <= at < pieces.len(),
        provider_of(ascii_lowercase(pieces[at])) is Some,
        forall|i: int| from <= i < at ==> provider_of(ascii_lowercase(#[trigger] pieces[i])) is None,
    ensures
        provider_from(pieces, from) == provider_of(ascii_lowercase(pieces[at])),
    decreases at - from,
{
    if from < at {
        lemma_provider_from(pieces, from + 1, at);
    }
}

/// A place is warned of where a component of its path holds the name of a service that synchronizes,
/// in any case of its letters; the first such component tells which.
pub proof fn synchronized_places_are_warned_of(
    before: Seq<Seq<char>>,
    component: Seq<char>,
    behind: Seq<Seq<char>>,
    path: Seq<char>,
)
    requires
        replaced(path, '\\', '/') == join(before.push(component) + behind, seq!['/']),
        forall|i: int|
            0 <= i < before.len() ==> !(#[trigger] before[i]).contains('/') && provider_of(
                ascii_lowercase(before[i]),
            ) is None,
        !component.contains('/'),
        forall|i: int| 0 <= i < behind.len() ==> !(#[trigger] behind[i]).contains('/'),
        contains(ascii_lowercase(component), "onedrive"@) || contains(
            ascii_lowercase(component),
            "dropbox"@,
        ) || contains(ascii_lowercase(component), "google drive"@) || contains(
            ascii_lowercase(component),
            "icloud drive"@,
        ) || contains(ascii_lowercase(component), "box sync"@) || contains(
            ascii_lowercase(component),
            "pcloud"@,
        ) || contains(ascii_lowercase(component), "nutstore"@),
    ensures
        sync_warning(path) matches Some(warning) && Some(warning.provider) == provider_of(
            ascii_lowercase(component),
        ),
{
    let pieces = before.push(component) + behind;
    assert forall|i: int| 0 <= i < pieces.len() implies !(#[trigger] pieces[i]).contains('/') by {
        if i < before.len() {
            assert(pieces[i] == before[i]);
        } else if i > before.len() {
            assert(pieces[i] == behind[i - before.len() - 1]);
        }
    }
    joined_pieces_come_apart(pieces, '/');
    assert(pieces[before.len() as int] == component);
    assert forall|i: int| 0 <= i < before.len() implies provider_of(
        ascii_lowercase(#[trigger] pieces[i]),
    ) is None by {
        assert(pieces[i] == before[i]);
    }
    lemma_provider_from(pieces, 0, before.len() as int);
}

/// A link is opened where it is one of the web in any case of its letters, holds no control character
/// and is no longer than the limit; no other link is.
pub proof fn only_web_links_are_opened(start: Seq<char>, rest: Seq<char>)
    requires
        forall|i: int| 0 <= i < (start + rest).len() ==> !control(#[trigger] (start + rest)[i]),
        vstd::utf8::encode_utf8(start + rest).len() <= 4096,
    ensures
        ascii_lowercase(start) == "https://"@ || ascii_lowercase(start) == "http://"@ ==> web_link(
            start + rest,
        ),
        start.len() == 8 && ascii_lowercase(start) != "https://"@ && ascii_lowercase(start.take(7))
            != "http://"@ ==> !web_link(start + rest),
{
    reveal_strlit("https://");
    reveal_strlit("http://");
    let url = start + rest;
    let lower = ascii_lowercase(url);
    assert(lower.subrange(0, start.len() as int) =~= ascii_lowercase(start));
    if start.len() == 8 {
        assert(lower.subrange(0, 8) =~= ascii_lowercase(start));
        assert(lower.subrange(0, 7) =~= ascii_lowercase(start.take(7)));
    }
}

} // verus!
