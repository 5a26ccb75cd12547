//! Receiving directories: which directories can be one, which files in them are imported, and what is
//! told of that.

use vstd::prelude::*;
use crate::data::{item_views, Item, LogEntry};
use crate::digest::known_version;
use crate::error::{failure, outcome, ErrorKind, Failure, LibraryError, LibraryResult};
use crate::formats::{supported_file_type, supported_type};
use crate::imports::PathKind;
use crate::locations::{comparable, comparable_path};
use crate::models::{
    import_status_from_str, import_status_name, import_status_named, import_status_to_str,
    import_statuses_read_back, ImportItemResult, ImportItemStatus, ReceiveDirectoryListingItem,
    ReceiveImportLogEntry, ReceiveSource, ReceiveSourceCandidate, ReceiveSourceInput,
    ReceiveSourceKind, ReceiveSourceScanResult, ReceiveSourceStatus,
};
use crate::paths::{
    files_are_named_by_their_last_component, names_are_stems_and_extensions, path_extension,
    path_extension_of, path_file_name, path_file_name_of, paths_equal, replace_char, replaced,
    same_place, separator,
};
use crate::text::{
    ascii_lowercase, before, chars, copy_option, copy_texts, ends_with, has_prefix, has_suffix,
    is_before, last_index, lemma_order_is_total, lemma_order_is_transitive, list_contains, optional,
    rfind_char, same, starts_with, to_ascii_lowercase, trim, trimmed, views,
};

verus! {

/// How many files of a receiving directory are listed.
pub const MAX_RECEIVE_LISTING_ITEMS: usize = 500;

/// Of how many files that were not chosen it is recorded that they are skipped.
pub const MAX_RECEIVE_SKIP_ENUMERATION: usize = 50_000;

/// How many directories deep a receiving directory is searched.
pub const MAX_RECEIVE_SCAN_DEPTH: usize = 4;

/// After how many files no further directory is searched.
pub const MAX_RECEIVE_FILES: usize = 4000;

/// After how many seconds a file that could not be imported is tried again.
pub const RECEIVE_RETRY_COOLDOWN_SECONDS: i64 = 60;

// ---- What the user enters ----

/// The name and the path that were entered, or what is missing.
pub open spec fn entered(display_name: Seq<char>, path: Seq<char>) -> Result<
    (Seq<char>, Seq<char>),
    Failure,
> {
    if trim(display_name).len() == 0 {
        Err(failure(ErrorKind::InvalidLocation, "接收来源名称不能为空。"@))
    } else if trim(path).len() == 0 {
        Err(failure(ErrorKind::InvalidLocation, "请先选择并确认接收目录。"@))
    } else {
        Ok((trim(display_name), trim(path)))
    }
}

/// The name and the path that were entered, without the white space around them.
pub fn check_source_input(input: &ReceiveSourceInput) -> (result: LibraryResult<(String, String)>)
    ensures
        (match result {
            Ok((display_name, path)) => Ok((display_name@, path@)),
            Err(error) => Err(error@),
        }) == entered(input.display_name@, input.path@),
{
    let display_name = trimmed(input.display_name.as_str());
    if chars(display_name.as_str()).len() == 0 {
        return Err(LibraryError::InvalidLocation("接收来源名称不能为空。".to_owned()));
    }
    let path = trimmed(input.path.as_str());
    if chars(path.as_str()).len() == 0 {
        return Err(LibraryError::InvalidLocation("请先选择并确认接收目录。".to_owned()));
    }
    Ok((display_name, path))
}

/// Checks that a path leads to a directory, given what was found there: whether it is one, or why it
/// cannot be seen.
pub fn check_receive_directory(found: Result<bool, String>) -> (result: LibraryResult<()>)
    ensures
        outcome(result) == (match found {
            Ok(true) => Ok(()),
            Ok(false) => Err(failure(ErrorKind::InvalidLocation, "接收目录必须是文件夹。"@)),
            Err(detail) => Err(
                failure(ErrorKind::InvalidLocation, "无法访问接收目录："@ + detail@),
            ),
        }),
{
    match found {
        Ok(is_directory) => {
            if is_directory {
                Ok(())
            } else {
                Err(LibraryError::InvalidLocation("接收目录必须是文件夹。".to_owned()))
            }
        },
        Err(reason) => {
            let mut detail = "无法访问接收目录：".to_owned();
            detail.append(reason.as_str());
            Err(LibraryError::InvalidLocation(detail))
        },
    }
}

/// A place lies under a directory; both in the form in which paths are compared.
pub open spec fn lies_under(place: Seq<char>, directory: Seq<char>) -> bool {
    starts_with(place, directory + "\\"@) || starts_with(place, directory + "/"@)
}

/// Whether a place can be a receiving directory of the library at `library_root`, or why not.
pub open spec fn receive_place(candidate: Seq<char>, library_root: Seq<char>) -> Result<(), Failure> {
    let place = comparable(candidate);
    let library = comparable(library_root);
    if place == library || lies_under(place, library) {
        Err(
            failure(
                ErrorKind::InvalidLocation,
                "不能把资料库自身或其内部目录设为接收目录。"@,
            ),
        )
    } else if lies_under(library, place) {
        Err(
            failure(
                ErrorKind::InvalidLocation,
                "接收目录不能包含资料库本身，否则会把资料库副本当成新文件。"@,
            ),
        )
    } else {
        Ok(())
    }
}

fn is_under(place: &str, directory: &str) -> (found: bool)
    ensures
        found == lies_under(place@, directory@),
{
    let all = chars(place);
    let mut first = directory.to_owned();
    first.append("\\");
    let mut second = directory.to_owned();
    second.append("/");
    has_prefix(all.as_slice(), first.as_str()) || has_prefix(all.as_slice(), second.as_str())
}

/// Checks that a directory and the library do not lie in each other.
pub fn validate_receive_path(library_root: &str, candidate: &str) -> (result: LibraryResult<()>)
    ensures
        outcome(result) == receive_place(candidate@, library_root@),
{
    let place = comparable_path(candidate);
    let library = comparable_path(library_root);
    if same(place.as_str(), library.as_str()) || is_under(place.as_str(), library.as_str()) {
        return Err(
            LibraryError::InvalidLocation(
                "不能把资料库自身或其内部目录设为接收目录。".to_owned(),
            ),
        );
    }
    if is_under(library.as_str(), place.as_str()) {
        return Err(
            LibraryError::InvalidLocation(
                "接收目录不能包含资料库本身，否则会把资料库副本当成新文件。".to_owned(),
            ),
        );
    }
    Ok(())
}

/// Whether a directory has to be confirmed anew: it has changed its path, or is new.
pub fn has_moved(previous: &Option<String>, confirmed: &str) -> (moved: bool)
    ensures
        moved == (match *previous {
            Some(path) => !same_place(path@, confirmed@),
            None => true,
        }),
{
    match previous {
        Some(path) => !paths_equal(path.as_str(), confirmed),
        None => true,
    }
}

// ---- State of a directory ----

/// What came of the attempt to read a directory.
#[derive(Debug)]
pub enum DirectoryProbe {
    Readable,
    Missing,
    Failed(String),
}

/// The state of a directory and what is told of it.
pub open spec fn directory_state(path: Option<Seq<char>>, probe: DirectoryProbe) -> (
    ReceiveSourceStatus,
    Option<Seq<char>>,
) {
    if path is None {
        (ReceiveSourceStatus::Unconfigured, Some("尚未确认接收目录。"@))
    } else {
        match probe {
            DirectoryProbe::Readable => (ReceiveSourceStatus::Ready, None),
            DirectoryProbe::Missing => (
                ReceiveSourceStatus::Missing,
                Some("接收目录不存在或已被移动，请重新确认目录。"@),
            ),
            DirectoryProbe::Failed(detail) => (
                ReceiveSourceStatus::Unreadable,
                Some("无法读取接收目录："@ + detail@ + "。"@),
            ),
        }
    }
}

/// The state of a directory and what is told of it.
pub fn receive_status_for(path: &Option<String>, probe: DirectoryProbe) -> (state: (
    ReceiveSourceStatus,
    Option<String>,
))
    ensures
        (state.0, optional(state.1)) == directory_state(optional(*path), probe),
{
    if path.is_none() {
        return (ReceiveSourceStatus::Unconfigured, Some("尚未确认接收目录。".to_owned()));
    }
    match probe {
        DirectoryProbe::Readable => (ReceiveSourceStatus::Ready, None),
        DirectoryProbe::Missing => (
            ReceiveSourceStatus::Missing,
            Some("接收目录不存在或已被移动，请重新确认目录。".to_owned()),
        ),
        DirectoryProbe::Failed(detail) => {
            let mut message = "无法读取接收目录：".to_owned();
            message.append(detail.as_str());
            message.append("。");
            (ReceiveSourceStatus::Unreadable, Some(message))
        },
    }
}

/// The position of the source with this id.
pub open spec fn source_at(sources: Seq<ReceiveSource>, id: Seq<char>, from: int) -> Option<int>
    decreases sources.len() - from,
{
    if from < 0 || from >= sources.len() {
        None
    } else if sources[from].id@ == id {
        Some(from)
    } else {
        source_at(sources, id, from + 1)
    }
}

/// The position of the source with this id, or that there is none.
pub fn load_receive_source(sources: &Vec<ReceiveSource>, source_id: &str) -> (result: LibraryResult<
    usize,
>)
    ensures
        match source_at(sources@, source_id@, 0) {
            Some(at) => result matches Ok(found) && found == at && found < sources@.len(),
            None => result matches Err(error) && error@ == failure(
                ErrorKind::InvalidLocation,
                "接收来源不存在。"@,
            ),
        },
{
    let mut i: usize = 0;
    while i < sources.len()
        invariant
            i <= sources@.len(),
            source_at(sources@, source_id@, i as int) == source_at(sources@, source_id@, 0),
        decreases sources@.len() - i,
    {
        if same(sources[i].id.as_str(), source_id) {
            return Ok(i);
        }
        i = i + 1;
    }
    Err(LibraryError::InvalidLocation("接收来源不存在。".to_owned()))
}

/// Whether a scan looks at a source: it is on, has a path, and the user has made the first choice.
pub fn is_scanned(source: &ReceiveSource) -> (scanned: bool)
    ensures
        scanned == (source.enabled && source.path is Some && source.last_scanned_at is Some),
{
    source.enabled && source.path.is_some() && source.last_scanned_at.is_some()
}

/// Files of a source are received: it is on, the user has confirmed what its first listing showed, and
/// its directory is there.
pub open spec fn receives(source: ReceiveSource, confirmed: bool, is_directory: bool) -> bool {
    source.enabled && confirmed && source.path is Some && is_directory
}

/// Whether files of a source are received; `confirmed` tells whether the user has confirmed what its
/// first listing showed, and `is_directory` whether there is a directory at its path.
pub fn may_receive(source: &ReceiveSource, confirmed: bool, is_directory: bool) -> (found: bool)
    ensures
        found == receives(*source, confirmed, is_directory),
{
    source.enabled && confirmed && source.path.is_some() && is_directory
}

// ---- Directories to propose ----

/// A directory among the documents of the user that may be a receiving directory.
#[derive(Debug)]
pub struct ProposedDirectory {
    pub name: &'static str,
    pub evidence: &'static str,
}

/// The directories to propose for a kind of source.
pub fn default_receive_directories(kind: ReceiveSourceKind) -> (proposed: Vec<ProposedDirectory>)
    ensures
        kind == ReceiveSourceKind::Wechat ==> proposed@.len() == 2 && proposed@[0].name@
            == "WeChat Files"@ && proposed@[0].evidence@ == "微信默认文档目录"@
            && proposed@[1].name@ == "xwechat_files"@ && proposed@[1].evidence@
            == "微信 4.x 默认文档目录"@,
        kind == ReceiveSourceKind::Qq ==> proposed@.len() == 1 && proposed@[0].name@
            == "Tencent Files"@ && proposed@[0].evidence@ == "QQ 默认文档目录"@,
        kind == ReceiveSourceKind::Other ==> proposed@.len() == 0,
{
    let mut proposed: Vec<ProposedDirectory> = Vec::new();
    match kind {
        ReceiveSourceKind::Wechat => {
            proposed.push(
                ProposedDirectory { name: "WeChat Files", evidence: "微信默认文档目录" },
            );
            proposed.push(
                ProposedDirectory { name: "xwechat_files", evidence: "微信 4.x 默认文档目录" },
            );
        },
        ReceiveSourceKind::Qq => {
            proposed.push(
                ProposedDirectory { name: "Tencent Files", evidence: "QQ 默认文档目录" },
            );
        },
        ReceiveSourceKind::Other => {},
    }
    proposed
}

/// The directory of an account that receives files.
pub const ACCOUNT_DIRECTORY: &'static str = "FileRecv";

/// Why the directory of an account is proposed.
pub const ACCOUNT_EVIDENCE: &'static str = "QQ 用户接收文件目录";

/// A directory that may be proposed.
#[derive(Debug)]
pub struct FoundDirectory {
    pub path: String,
    pub evidence: String,
    pub is_directory: bool,
}

/// The candidates so far, and the places that they are.
#[verifier::ext_equal]
pub struct Proposals {
    pub list: Seq<(Seq<char>, Seq<char>)>,
    pub places: Seq<Seq<char>>,
}

/// The proposals from those of the first directories: each place once, and not the library itself.
pub open spec fn proposals(found: Seq<FoundDirectory>, library_root: Seq<char>) -> Proposals
    decreases found.len(),
{
    if found.len() == 0 {
        Proposals { list: Seq::empty(), places: Seq::empty() }
    } else {
        let so_far = proposals(found.drop_last(), library_root);
        let next = found.last();
        let place = comparable(next.path@);
        if !next.is_directory || place == comparable(library_root) || so_far.places.contains(place) {
            so_far
        } else {
            Proposals {
                list: so_far.list.push((next.path@, next.evidence@)),
                places: so_far.places.push(place),
            }
        }
    }
}

/// The candidates by characters.
pub open spec fn candidate_views(list: Seq<ReceiveSourceCandidate>) -> Seq<(Seq<char>, Seq<char>)> {
    list.map_values(|one: ReceiveSourceCandidate| (one.path@, one.evidence@))
}

/// The directories to propose: those that are there, each place once, and not the library itself.
pub fn receive_source_candidates(found: &Vec<FoundDirectory>, library_root: &str) -> (candidates: Vec<
    ReceiveSourceCandidate,
>)
    ensures
        candidate_views(candidates@) == proposals(found@, library_root@).list,
{
    let library = comparable_path(library_root);
    let mut candidates: Vec<ReceiveSourceCandidate> = Vec::new();
    let mut places: Vec<String> = Vec::new();
    let mut i: usize = 0;
    assert(candidate_views(candidates@) =~= Seq::empty());
    assert(views(places@) =~= Seq::empty());
    assert(found@.take(0) =~= Seq::empty());
    while i < found.len()
        invariant
            i <= found@.len(),
            library@ == comparable(library_root@),
            candidate_views(candidates@) == proposals(found@.take(i as int), library_root@).list,
            views(places@) == proposals(found@.take(i as int), library_root@).places,
        decreases found@.len() - i,
    {
        assert(found@.take(i + 1).drop_last() =~= found@.take(i as int));
        assert(found@.take(i + 1).last() == found@[i as int]);
        if found[i].is_directory {
            let place = comparable_path(found[i].path.as_str());
            if !same(place.as_str(), library.as_str()) && !list_contains(&places, place.as_str()) {
                let ghost before_list = candidate_views(candidates@);
                let ghost before_places = views(places@);
                let ghost added = place@;
                candidates.push(
                    ReceiveSourceCandidate {
                        path: found[i].path.clone(),
                        evidence: found[i].evidence.clone(),
                    },
                );
                places.push(place);
                assert(candidate_views(candidates@) =~= before_list.push(
                    (found@[i as int].path@, found@[i as int].evidence@),
                ));
                assert(views(places@) =~= before_places.push(added));
            }
        }
        i = i + 1;
    }
    assert(found@.take(i as int) =~= found@);
    candidates
}

// ---- Files and directories that count ----

/// The extensions of files that are not finished or that belong to a program.
pub open spec fn passing_extension(extension: Seq<char>) -> bool {
    extension == "tmp"@ || extension == "temp"@ || extension == "part"@ || extension == "partial"@
        || extension == "crdownload"@ || extension == "download"@ || extension == "filepart"@
        || extension == "bak"@ || extension == "db"@ || extension == "db-wal"@ || extension
        == "db-shm"@ || extension == "sqlite"@ || extension == "sqlite3"@ || extension == "dat"@
        || extension == "lnk"@
}

/// What stands before the last dot of a name.
pub open spec fn before_last_dot(name: Seq<char>) -> Seq<char> {
    match last_index(name, '.') {
        Some(at) => name.take(at),
        None => name,
    }
}

/// The endings of the names of files that are not finished.
pub open spec fn passing_stem(stem: Seq<char>) -> bool {
    ends_with(stem, "-temp"@) || ends_with(stem, "_temp"@) || ends_with(stem, ".temp"@)
        || ends_with(stem, " temp"@) || ends_with(stem, "-partial"@) || ends_with(stem, ".part"@)
}

/// A file that may be imported from a receiving directory: neither hidden nor passing.
pub open spec fn receivable(path: Seq<char>) -> bool {
    match path_file_name_of(path) {
        None => false,
        Some(name) => {
            let lower = ascii_lowercase(name);
            &&& !starts_with(lower, "."@)
            &&& !starts_with(lower, "~"@)
            &&& !passing_stem(before_last_dot(lower))
            &&& match path_extension_of(path) {
                Some(extension) => !passing_extension(ascii_lowercase(extension)),
                None => true,
            }
        },
    }
}

fn is_passing_extension(extension: &str) -> (found: bool)
    ensures
        found == passing_extension(extension@),
{
    same(extension, "tmp") || same(extension, "temp") || same(extension, "part") || same(
        extension,
        "partial",
    ) || same(extension, "crdownload") || same(extension, "download") || same(extension, "filepart")
        || same(extension, "bak") || same(extension, "db") || same(extension, "db-wal") || same(
        extension,
        "db-shm",
    ) || same(extension, "sqlite") || same(extension, "sqlite3") || same(extension, "dat") || same(
        extension,
        "lnk",
    )
}

fn has_passing_stem(stem: &[char]) -> (found: bool)
    ensures
        found == passing_stem(stem@),
{
    has_suffix(stem, "-temp") || has_suffix(stem, "_temp") || has_suffix(stem, ".temp")
        || has_suffix(stem, " temp") || has_suffix(stem, "-partial") || has_suffix(stem, ".part")
}

/// Whether a file may be imported from a receiving directory.
pub fn is_receive_candidate_file(path: &str) -> (found: bool)
    ensures
        found == receivable(path@),
{
    let name = match path_file_name(path) {
        None => {
            return false;
        },
        Some(name) => name,
    };
    let lower = chars(to_ascii_lowercase(name.as_str()).as_str());
    if has_prefix(lower.as_slice(), ".") || has_prefix(lower.as_slice(), "~") {
        return false;
    }
    if let Some(extension) = path_extension(path) {
        if is_passing_extension(to_ascii_lowercase(extension.as_str()).as_str()) {
            return false;
        }
    }
    let end: usize = match rfind_char(lower.as_slice(), '.') {
        Some(at) => at,
        None => lower.len(),
    };
    let stem = vstd::slice::slice_subrange(lower.as_slice(), 0, end);
    assert(stem@ =~= before_last_dot(lower@));
    !has_passing_stem(stem)
}

/// A directory that is not searched: hidden, or for passing files.
pub open spec fn unsearched(path: Seq<char>) -> bool {
    match path_file_name_of(path) {
        None => false,
        Some(name) => {
            let lower = ascii_lowercase(name);
            starts_with(lower, "."@) || lower == "$recycle.bin"@ || lower
                == "system volume information"@ || lower == "cache"@ || lower == "temp"@ || lower
                == "tmp"@
        },
    }
}

/// Whether a directory is not searched.
pub fn is_ignored_receive_directory(path: &str) -> (found: bool)
    ensures
        found == unsearched(path@),
{
    match path_file_name(path) {
        None => false,
        Some(name) => {
            let lower = to_ascii_lowercase(name.as_str());
            has_prefix(chars(lower.as_str()).as_slice(), ".") || same(lower.as_str(), "$recycle.bin")
                || same(lower.as_str(), "system volume information") || same(
                lower.as_str(),
                "cache",
            ) || same(lower.as_str(), "temp") || same(lower.as_str(), "tmp")
        },
    }
}

// ---- Searching a directory ----

/// What was found in a directory.
#[derive(Debug)]
pub struct DirectoryEntry {
    pub path: String,
    pub kind: PathKind,
}

/// [`DirectoryEntry`] by characters.
#[verifier::ext_equal]
pub struct Found {
    pub path: Seq<char>,
    pub kind: PathKind,
}

impl View for DirectoryEntry {
    type V = Found;

    open spec fn view(&self) -> Found {
        Found { path: self.path@, kind: self.kind }
    }
}

/// The entries by views.
pub open spec fn found_views(entries: Seq<DirectoryEntry>) -> Seq<Found> {
    entries.map_values(|entry: DirectoryEntry| entry@)
}

/// What the search does with an entry.
#[derive(Debug, Clone, Copy, PartialEq, Eq, Structural)]
pub enum EntryVisit {
    Skip,
    Take,
    Descend,
}

/// What the search does with an entry: links and the like are left alone.
pub open spec fn visit_of(entry: Found) -> EntryVisit {
    if entry.kind == PathKind::Directory {
        if unsearched(entry.path) {
            EntryVisit::Skip
        } else {
            EntryVisit::Descend
        }
    } else if entry.kind == PathKind::File && receivable(entry.path) && supported_type(
        entry.path,
    ) is Some {
        EntryVisit::Take
    } else {
        EntryVisit::Skip
    }
}

/// What the search does with an entry.
pub fn visit_entry(entry: &DirectoryEntry) -> (visit: EntryVisit)
    ensures
        visit == visit_of(entry@),
{
    if entry.kind == PathKind::Directory {
        if is_ignored_receive_directory(entry.path.as_str()) {
            EntryVisit::Skip
        } else {
            EntryVisit::Descend
        }
    } else if entry.kind == PathKind::File && is_receive_candidate_file(entry.path.as_str())
        && supported_file_type(entry.path.as_str()).is_some() {
        EntryVisit::Take
    } else {
        EntryVisit::Skip
    }
}

/// What stands in each directory, in the order of the names; nothing in one that cannot be read.
pub type Tree = spec_fn(Seq<char>) -> Seq<Found>;

/// The files after a directory was searched `depth` directories deep.
pub open spec fn searched(tree: Tree, directory: Seq<char>, depth: nat, files: Seq<Seq<char>>) -> Seq<
    Seq<char>,
>
    decreases depth, 0int, 0int,
{
    if depth == 0 || files.len() >= MAX_RECEIVE_FILES {
        files
    } else {
        entries_searched(tree, tree(directory), 0, (depth - 1) as nat, files)
    }
}

/// The files after the entries from `at` on were visited; directories among them are searched `depth`
/// directories deep.
pub open spec fn entries_searched(
    tree: Tree,
    entries: Seq<Found>,
    at: int,
    depth: nat,
    files: Seq<Seq<char>>,
) -> Seq<Seq<char>>
    decreases depth, 1int, entries.len() - at,
{
    if at < 0 || at >= entries.len() {
        files
    } else {
        let more = match visit_of(entries[at]) {
            EntryVisit::Skip => files,
            EntryVisit::Take => files.push(entries[at].path),
            EntryVisit::Descend => searched(tree, entries[at].path, depth, files),
        };
        entries_searched(tree, entries, at + 1, depth, more)
    }
}

/// Something the search still has to do.
#[verifier::ext_equal]
pub enum Task {
    /// Search a directory so many directories deep.
    Search(Seq<char>, nat),
    /// Visit an entry.
    Visit(Found, nat),
}

/// The files after one task.
pub open spec fn task_done(tree: Tree, task: Task, files: Seq<Seq<char>>) -> Seq<Seq<char>> {
    match task {
        Task::Search(directory, depth) => searched(tree, directory, depth, files),
        Task::Visit(entry, depth) => match visit_of(entry) {
            EntryVisit::Skip => files,
            EntryVisit::Take => files.push(entry.path),
            EntryVisit::Descend => searched(tree, entry.path, depth, files),
        },
    }
}

/// The files after all tasks, the last one first.
pub open spec fn tasks_done(tree: Tree, tasks: Seq<Task>, files: Seq<Seq<char>>) -> Seq<Seq<char>>
    decreases tasks.len(),
{
    if tasks.len() == 0 {
        files
    } else {
        tasks_done(tree, tasks.drop_last(), task_done(tree, tasks.last(), files))
    }
}

/// The tasks that the entries from `at` on make, the first entry last.
pub open spec fn entry_tasks(entries: Seq<Found>, at: int, depth: nat) -> Seq<Task>
    decreases entries.len() - at,
{
    if at < 0 || at >= entries.len() {
        Seq::empty()
    } else {
        entry_tasks(entries, at + 1, depth).push(Task::Visit(entries[at], depth))
    }
}

/// Doing the tasks of entries visits them in their order.
proof fn lemma_entry_tasks(
    tree: Tree,
    tasks: Seq<Task>,
    entries: Seq<Found>,
    at: int,
    depth: nat,
    files: Seq<Seq<char>>,
)
    requires
        0 <= at <= entries.len(),
    ensures
        tasks_done(tree, tasks + entry_tasks(entries, at, depth), files) == tasks_done(
            tree,
            tasks,
            entries_searched(tree, entries, at, depth, files),
        ),
    decreases entries.len() - at,
{
    let all = tasks + entry_tasks(entries, at, depth);
    if at < entries.len() {
        let rest = tasks + entry_tasks(entries, at + 1, depth);
        assert(all.drop_last() =~= rest);
        assert(all.last() == Task::Visit(entries[at], depth));
        lemma_entry_tasks(
            tree,
            tasks,
            entries,
            at + 1,
            depth,
            task_done(tree, all.last(), files),
        );
    } else {
        assert(all =~= tasks);
    }
}

enum WalkTask {
    Search { directory: String, depth: usize },
    Visit { entry: DirectoryEntry, depth: usize },
}

impl View for WalkTask {
    type V = Task;

    closed spec fn view(&self) -> Task {
        match self {
            WalkTask::Search { directory, depth } => Task::Search(directory@, *depth as nat),
            WalkTask::Visit { entry, depth } => Task::Visit(entry@, *depth as nat),
        }
    }
}

spec fn task_views(tasks: Seq<WalkTask>) -> Seq<Task> {
    tasks.map_values(|task: WalkTask| task@)
}

/// How far a search is.
#[verifier::ext_equal]
pub struct Walking {
    pub tasks: Seq<Task>,
    /// The directory that is read, and how deep the directories in it are searched.
    pub open: Option<(Seq<char>, nat)>,
    pub files: Seq<Seq<char>>,
}

/// The files that a search ends with.
pub open spec fn walk_outcome(tree: Tree, walking: Walking) -> Seq<Seq<char>> {
    match walking.open {
        None => tasks_done(tree, walking.tasks, walking.files),
        Some((directory, depth)) => tasks_done(
            tree,
            walking.tasks,
            entries_searched(tree, tree(directory), 0, depth, walking.files),
        ),
    }
}

/// The search of a receiving directory. It tells which directory to read next and takes what was
/// found there.
pub struct ReceiveWalk {
    tasks: Vec<WalkTask>,
    open: Option<(String, usize)>,
    files: Vec<String>,
}

impl View for ReceiveWalk {
    type V = Walking;

    closed spec fn view(&self) -> Walking {
        Walking {
            tasks: task_views(self.tasks@),
            open: match self.open {
                Some((directory, depth)) => Some((directory@, depth as nat)),
                None => None,
            },
            files: views(self.files@),
        }
    }
}

impl ReceiveWalk {
    /// Starts the search of a directory, `depth` directories deep.
    pub fn start(root: &str, depth: usize) -> (walk: ReceiveWalk)
        ensures
            walk@.open is None,
            walk@.files == Seq::<Seq<char>>::empty(),
            forall|tree: Tree|
                #[trigger] walk_outcome(tree, walk@) == searched(
                    tree,
                    root@,
                    depth as nat,
                    Seq::empty(),
                ),
    {
        let mut tasks: Vec<WalkTask> = Vec::new();
        tasks.push(WalkTask::Search { directory: root.to_owned(), depth });
        let walk = ReceiveWalk { tasks, open: None, files: Vec::new() };
        assert(walk@.files =~= Seq::<Seq<char>>::empty());
        assert(walk@.tasks =~= seq![Task::Search(root@, depth as nat)]);
        assert forall|tree: Tree| #[trigger] walk_outcome(tree, walk@) == searched(
            tree,
            root@,
            depth as nat,
            Seq::empty(),
        ) by {
            let rest = walk@.tasks.drop_last();
            assert(rest.len() == 0);
            assert(tasks_done(tree, rest, searched(tree, root@, depth as nat, Seq::empty()))
                == searched(tree, root@, depth as nat, Seq::empty()));
        }
        walk
    }

    /// Goes on to the next directory that has to be read. Without one the search is done.
    pub fn next_directory(&mut self) -> (directory: Option<String>)
        requires
            old(self)@.open is None,
        ensures
            forall|tree: Tree|
                #[trigger] walk_outcome(tree, final(self)@) == walk_outcome(tree, old(self)@),
            match directory {
                Some(path) => final(self)@.open matches Some((open, _)) && open == path@,
                None => final(self)@.open is None && final(self)@.tasks.len() == 0,
            },
    {
        while self.tasks.len() > 0
            invariant
                self@.open is None,
                forall|tree: Tree|
                    #[trigger] walk_outcome(tree, self@) == walk_outcome(tree, old(self)@),
            decreases self.tasks@.len(),
        {
            let ghost before = self@;
            let task = match self.tasks.pop() {
                Some(task) => task,
                None => {
                    return None;
                },
            };
            assert(task_views(self.tasks@) =~= before.tasks.drop_last());
            assert(before.tasks.last() == task@);
            let (directory, depth): (String, usize) = match task {
                WalkTask::Search { directory, depth } => (directory, depth),
                WalkTask::Visit { entry, depth } => match visit_entry(&entry) {
                    EntryVisit::Descend => (entry.path, depth),
                    EntryVisit::Take => {
                        let ghost added = entry.path@;
                        self.files.push(entry.path);
                        assert(views(self.files@) =~= before.files.push(added));
                        assert forall|tree: Tree| #[trigger] walk_outcome(tree, self@)
                            == walk_outcome(tree, before) by {}
                        continue;
                    },
                    EntryVisit::Skip => {
                        assert forall|tree: Tree| #[trigger] walk_outcome(tree, self@)
                            == walk_outcome(tree, before) by {}
                        continue;
                    },
                },
            };
            if depth > 0 && self.files.len() < MAX_RECEIVE_FILES {
                self.open = Some((directory.clone(), depth - 1));
                assert(views(self.files@).len() == self.files@.len());
                assert forall|tree: Tree| #[trigger] walk_outcome(tree, self@) == walk_outcome(
                    tree,
                    before,
                ) by {}
                return Some(directory);
            }
            assert(views(self.files@).len() == self.files@.len());
            assert forall|tree: Tree| #[trigger] walk_outcome(tree, self@) == walk_outcome(
                tree,
                before,
            ) by {}
        }
        None
    }

    /// Takes what was found in the directory that had to be read: nothing where it cannot be read.
    pub fn enter(&mut self, entries: Vec<DirectoryEntry>)
        requires
            old(self)@.open is Some,
        ensures
            final(self)@.open is None,
            forall|tree: Tree|
                tree(old(self)@.open->Some_0.0) == found_views(entries@) ==> #[trigger] walk_outcome(
                    tree,
                    final(self)@,
                ) == walk_outcome(tree, old(self)@),
    {
        let ghost list = found_views(entries@);
        let ghost before = self@;
        let depth: usize = match &self.open {
            Some((_, depth)) => *depth,
            None => 0,
        };
        self.open = None;
        let mut rest = entries;
        let ghost all = rest@;
        while rest.len() > 0
            invariant
                rest@ == all.take(rest@.len() as int),
                rest@.len() <= all.len(),
                list == found_views(all),
                self@.open is None,
                self@.files == before.files,
                self@.tasks == before.tasks + entry_tasks(list, rest@.len() as int, depth as nat),
            decreases rest@.len(),
        {
            let ghost tasks_before = self@.tasks;
            let ghost left = rest@.len();
            match rest.pop() {
                Some(entry) => {
                    assert(entry@ == list[left - 1]);
                    self.tasks.push(WalkTask::Visit { entry, depth });
                    assert(self@.tasks =~= tasks_before.push(
                        Task::Visit(list[left - 1], depth as nat),
                    ));
                    assert(self@.tasks =~= before.tasks + entry_tasks(
                        list,
                        left - 1,
                        depth as nat,
                    ));
                },
                None => {},
            }
        }
        assert forall|tree: Tree|
            tree(before.open->Some_0.0) == list implies #[trigger] walk_outcome(tree, self@)
            == walk_outcome(tree, before) by {
            lemma_entry_tasks(tree, before.tasks, list, 0, depth as nat, before.files);
        }
    }

    /// The files of a search that is done, in the order of their paths.
    pub fn into_files(self) -> (files: Vec<String>)
        requires
            self@.open is None,
            self@.tasks.len() == 0,
        ensures
            forall|tree: Tree|
                views(files@) == paths_sorted(#[trigger] walk_outcome(tree, self@)),
    {
        sort_paths(&self.files)
    }
}

// ---- Order of paths ----

/// A path in the form in which paths are ordered: component by component.
pub open spec fn order_key(path: Seq<char>) -> Seq<char> {
    replaced(replaced(path, '\\', '\u{0}'), '/', '\u{0}')
}

/// The ordered list with one more path.
pub open spec fn with_path(list: Seq<Seq<char>>, path: Seq<char>) -> Seq<Seq<char>>
    decreases list.len(),
{
    if list.len() == 0 || !before(order_key(path), order_key(list.last())) {
        list.push(path)
    } else {
        with_path(list.drop_last(), path).push(list.last())
    }
}

/// The paths in their order.
pub open spec fn paths_sorted(paths: Seq<Seq<char>>) -> Seq<Seq<char>>
    decreases paths.len(),
{
    if paths.len() == 0 {
        Seq::empty()
    } else {
        with_path(paths_sorted(paths.drop_last()), paths.last())
    }
}

fn key_of(path: &str) -> (key: String)
    ensures
        key@ == order_key(path@),
{
    replace_char(replace_char(path, '\\', '\u{0}').as_str(), '/', '\u{0}')
}

fn insert_path(list: &mut Vec<String>, path: &str)
    ensures
        views(final(list)@) == with_path(views(old(list)@), path@),
{
    let key = key_of(path);
    let ghost before_insertion = views(list@);
    let mut at: usize = list.len();
    assert(before_insertion.take(at as int) =~= before_insertion);
    assert(with_path(before_insertion.take(at as int), path@) + before_insertion.skip(at as int)
        =~= with_path(before_insertion, path@));
    while at > 0 && is_before(key.as_str(), key_of(list[at - 1].as_str()).as_str())
        invariant
            at <= list@.len(),
            key@ == order_key(path@),
            before_insertion == views(list@),
            with_path(before_insertion.take(at as int), path@) + before_insertion.skip(at as int)
                == with_path(before_insertion, path@),
        decreases at,
    {
        let ghost head = before_insertion.take(at as int);
        assert(head.last() == list@[at - 1]@);
        assert(head.drop_last() =~= before_insertion.take(at - 1));
        assert(with_path(before_insertion.take(at - 1), path@) + before_insertion.skip(at - 1)
            =~= with_path(head, path@) + before_insertion.skip(at as int));
        at = at - 1;
    }
    proof {
        let head = before_insertion.take(at as int);
        if at > 0 {
            assert(head.last() == list@[at - 1]@);
        }
        assert(with_path(head, path@) == head.push(path@));
    }
    list.insert(at, path.to_owned());
    assert(views(list@) =~= before_insertion.take(at as int).push(path@) + before_insertion.skip(
        at as int,
    ));
}

/// The paths in their order.
pub fn sort_paths(paths: &Vec<String>) -> (list: Vec<String>)
    ensures
        views(list@) == paths_sorted(views(paths@)),
{
    let ghost all = views(paths@);
    let mut list: Vec<String> = Vec::new();
    let mut i: usize = 0;
    assert(views(list@) =~= paths_sorted(all.take(0)));
    while i < paths.len()
        invariant
            i <= paths@.len(),
            all == views(paths@),
            views(list@) == paths_sorted(all.take(i as int)),
        decreases paths@.len() - i,
    {
        assert(all.take(i + 1).drop_last() =~= all.take(i as int));
        assert(all.take(i + 1).last() == paths@[i as int]@);
        insert_path(&mut list, paths[i].as_str());
        i = i + 1;
    }
    assert(all.take(i as int) =~= all);
    list
}

// ---- Files that are imported ----

/// What is known of the last import of a file.
#[derive(Debug)]
pub struct HandledFile {
    pub source_path: String,
    pub status: ImportItemStatus,
    pub created_at: String,
}

/// The last record of a file, as status and time.
pub open spec fn last_handled(history: Seq<HandledFile>, path: Seq<char>) -> Option<
    (ImportItemStatus, Seq<char>),
>
    decreases history.len(),
{
    if history.len() == 0 {
        None
    } else if history.last().source_path@ == path {
        Some((history.last().status, history.last().created_at@))
    } else {
        last_handled(history.drop_last(), path)
    }
}

/// What is done with a file of a receiving directory.
#[derive(Debug, Clone, Copy, PartialEq, Eq, Structural)]
pub enum PendingDecision {
    /// It is left alone.
    Leave,
    /// It is imported.
    Import,
    /// It is imported where it differs from what was imported of it.
    Compare,
}

/// What is done with a file: one that the user skipped is left alone, a new one is imported, one that
/// was imported is compared, and one that failed is tried again, at once where that was asked for and
/// else after a while.
pub open spec fn pending_decision(
    skipped: bool,
    handled: Option<(ImportItemStatus, Seq<char>)>,
    retry_failed: bool,
    retry_cutoff: Seq<char>,
) -> PendingDecision {
    if skipped {
        PendingDecision::Leave
    } else {
        match handled {
            None => PendingDecision::Import,
            Some((status, created_at)) => match status {
                ImportItemStatus::Imported | ImportItemStatus::Duplicate => PendingDecision::Compare,
                ImportItemStatus::Failed => if retry_failed || !before(retry_cutoff, created_at) {
                    PendingDecision::Import
                } else {
                    PendingDecision::Leave
                },
                _ => PendingDecision::Leave,
            },
        }
    }
}

/// What is done with a file of a receiving directory. `history` holds the imports in their order.
pub fn decide_pending(
    path: &str,
    skipped: bool,
    history: &Vec<HandledFile>,
    retry_failed: bool,
    retry_cutoff: &str,
) -> (decision: PendingDecision)
    ensures
        decision == pending_decision(
            skipped,
            last_handled(history@, path@),
            retry_failed,
            retry_cutoff@,
        ),
{
    if skipped {
        return PendingDecision::Leave;
    }
    let mut left: usize = history.len();
    assert(history@.take(left as int) =~= history@);
    while left > 0
        invariant
            left <= history@.len(),
            !skipped,
            last_handled(history@.take(left as int), path@) == last_handled(history@, path@),
        decreases left,
    {
        let last = &history[left - 1];
        assert(history@.take(left as int).last() == history@[left - 1]);
        assert(history@.take(left as int).drop_last() =~= history@.take(left - 1));
        if same(last.source_path.as_str(), path) {
            return match last.status {
                ImportItemStatus::Imported => PendingDecision::Compare,
                ImportItemStatus::Duplicate => PendingDecision::Compare,
                ImportItemStatus::Failed => {
                    if retry_failed || !is_before(retry_cutoff, last.created_at.as_str()) {
                        PendingDecision::Import
                    } else {
                        PendingDecision::Leave
                    }
                },
                _ => PendingDecision::Leave,
            };
        }
        left = left - 1;
    }
    PendingDecision::Import
}

/// What the library holds of a file that was imported.
#[derive(Debug)]
pub struct RecordedSource {
    pub file_size: i64,
    pub file_modified_at: Option<i64>,
    pub content_hash: Option<String>,
}

/// Whether a file differs from what was imported of it.
#[derive(Debug)]
pub enum SourceComparison {
    Changed,
    Unchanged,
    /// Its content has to be hashed and compared with this hash.
    HashNeeded(String),
}

/// [`SourceComparison`] by characters.
#[verifier::ext_equal]
pub enum Compared {
    Changed,
    Unchanged,
    HashNeeded(Seq<char>),
}

impl View for SourceComparison {
    type V = Compared;

    open spec fn view(&self) -> Compared {
        match self {
            SourceComparison::Changed => Compared::Changed,
            SourceComparison::Unchanged => Compared::Unchanged,
            SourceComparison::HashNeeded(hash) => Compared::HashNeeded(hash@),
        }
    }
}

/// A size as it is recorded.
pub open spec fn recorded_size(size: u64) -> i64 {
    if size <= i64::MAX {
        size as i64
    } else {
        i64::MAX
    }
}

/// Whether a file differs from what was imported of it, as far as its size and time tell.
pub open spec fn compared(recorded: Option<RecordedSource>, size: u64, modified_at: Option<i64>) -> Compared {
    match recorded {
        None => Compared::Changed,
        Some(recorded) => if recorded_size(size) == recorded.file_size && modified_at
            == recorded.file_modified_at {
            Compared::Unchanged
        } else {
            match known_version(optional(recorded.content_hash)) {
                None => Compared::Changed,
                Some(hash) => Compared::HashNeeded(hash),
            }
        },
    }
}

/// Compares a file with what was imported of it: only where size or time differ, the content has to be
/// hashed.
pub fn compare_source(recorded: &Option<RecordedSource>, size: u64, modified_at: Option<i64>) -> (comparison:
    SourceComparison)
    ensures
        comparison@ == compared(*recorded, size, modified_at),
{
    match recorded {
        None => SourceComparison::Changed,
        Some(recorded) => {
            let current: i64 = if size <= i64::MAX as u64 {
                size as i64
            } else {
                i64::MAX
            };
            let same_time = match (modified_at, recorded.file_modified_at) {
                (Some(left), Some(right)) => left == right,
                (None, None) => true,
                _ => false,
            };
            if current == recorded.file_size && same_time {
                return SourceComparison::Unchanged;
            }
            match crate::digest::known_content_version(&recorded.content_hash) {
                None => SourceComparison::Changed,
                Some(hash) => SourceComparison::HashNeeded(hash),
            }
        },
    }
}

/// Whether the content of a file differs from a hash; one that cannot be hashed counts as changed.
pub fn source_content_changed(expected: &str, hash: &Option<String>) -> (changed: bool)
    ensures
        changed == (optional(*hash) != Some(expected@)),
{
    match hash {
        Some(hash) => !same(hash.as_str(), expected),
        None => true,
    }
}

// ---- The user's choice ----

/// The files that were not chosen.
pub open spec fn unchosen(files: Seq<Seq<char>>, chosen: Seq<Seq<char>>) -> Seq<Seq<char>>
    decreases files.len(),
{
    if files.len() == 0 {
        Seq::empty()
    } else if chosen.contains(files.last()) {
        unchosen(files.drop_last(), chosen)
    } else {
        unchosen(files.drop_last(), chosen).push(files.last())
    }
}

/// The files of a directory that it is recorded of, up to the limit.
pub open spec fn recorded_files(files: Seq<Seq<char>>) -> Seq<Seq<char>> {
    if files.len() > MAX_RECEIVE_SKIP_ENUMERATION {
        files.take(MAX_RECEIVE_SKIP_ENUMERATION as int)
    } else {
        files
    }
}

/// The files of a directory that are skipped when the user has chosen some.
pub fn unselected_files(files: &Vec<String>, selected: &Vec<String>) -> (skipped: Vec<String>)
    ensures
        views(skipped@) == unchosen(recorded_files(views(files@)), views(selected@)),
{
    let ghost all = views(files@);
    let most: usize = if files.len() > MAX_RECEIVE_SKIP_ENUMERATION {
        MAX_RECEIVE_SKIP_ENUMERATION
    } else {
        files.len()
    };
    let mut skipped: Vec<String> = Vec::new();
    let mut i: usize = 0;
    assert(views(skipped@) =~= unchosen(all.take(0), views(selected@)));
    while i < most
        invariant
            i <= most <= files@.len(),
            all == views(files@),
            views(skipped@) == unchosen(all.take(i as int), views(selected@)),
        decreases most - i,
    {
        assert(all.take(i + 1).drop_last() =~= all.take(i as int));
        assert(all.take(i + 1).last() == files@[i as int]@);
        if !list_contains(selected, files[i].as_str()) {
            let ghost before = views(skipped@);
            skipped.push(files[i].clone());
            assert(views(skipped@) =~= before.push(all[i as int]));
        }
        i = i + 1;
    }
    assert(all.take(most as int) =~= recorded_files(all));
    skipped
}

/// How many of so many files are listed.
pub fn listed_count(count: usize) -> (listed: usize)
    ensures
        listed == (if count > MAX_RECEIVE_LISTING_ITEMS {
            MAX_RECEIVE_LISTING_ITEMS
        } else {
            count
        }),
{
    if count > MAX_RECEIVE_LISTING_ITEMS {
        MAX_RECEIVE_LISTING_ITEMS
    } else {
        count
    }
}

/// A file as the user sees it in the list; without a known size it has none.
pub fn listing_item(path: &str, size: Option<u64>, previously_skipped: bool) -> (item:
    ReceiveDirectoryListingItem)
    ensures
        item.path@ == path@,
        item.file_name@ == (match path_file_name_of(path@) {
            Some(name) => name,
            None => Seq::empty(),
        }),
        optional(item.file_type) == supported_type(path@),
        item.file_size == (match size {
            Some(size) if size <= i64::MAX => size as i64,
            _ => 0,
        }),
        item.previously_skipped == previously_skipped,
{
    let file_name = match path_file_name(path) {
        Some(name) => name,
        None => {
            let nothing = String::new();
            assert(nothing@ =~= Seq::empty());
            nothing
        },
    };
    let file_size: i64 = match size {
        Some(size) => {
            if size <= i64::MAX as u64 {
                size as i64
            } else {
                0
            }
        },
        None => 0,
    };
    ReceiveDirectoryListingItem {
        path: path.to_owned(),
        file_name,
        file_type: supported_file_type(path),
        file_size,
        previously_skipped,
    }
}

/// Checks that a source has a directory that is there.
pub fn check_listed_directory(path: &Option<String>, is_directory: bool) -> (result: LibraryResult<()>)
    ensures
        outcome(result) == (match optional(*path) {
            None => Err(failure(ErrorKind::InvalidLocation, "该接收来源尚未确认目录。"@)),
            Some(path) => if is_directory {
                Ok(())
            } else {
                Err(
                    failure(
                        ErrorKind::InvalidLocation,
                        "接收目录不存在或无法访问："@ + path + "。请重新确认目录。"@,
                    ),
                )
            },
        }),
{
    match path {
        None => Err(LibraryError::InvalidLocation("该接收来源尚未确认目录。".to_owned())),
        Some(path) => {
            if is_directory {
                return Ok(());
            }
            let mut detail = "接收目录不存在或无法访问：".to_owned();
            detail.append(path.as_str());
            detail.append("。请重新确认目录。");
            Err(LibraryError::InvalidLocation(detail))
        },
    }
}

// ---- What is told ----

/// How many items have one of the states that `counts` names.
pub open spec fn counted(items: Seq<Item>, counts: spec_fn(ImportItemStatus) -> bool) -> nat
    decreases items.len(),
{
    if items.len() == 0 {
        0
    } else {
        counted(items.drop_last(), counts) + (if counts(items.last().status) {
            1nat
        } else {
            0
        })
    }
}

/// The items that were left out.
pub open spec fn left_out(status: ImportItemStatus) -> bool {
    status == ImportItemStatus::Duplicate || status == ImportItemStatus::Ignored || status
        == ImportItemStatus::Skipped
}

/// The result of a scan tells of these items.
pub open spec fn tells(result: ReceiveSourceScanResult, source_id: Seq<char>, items: Seq<Item>) -> bool {
    &&& result.source_id@ == source_id
    &&& result.scanned_count == items.len()
    &&& result.imported_count == counted(
        items,
        |status: ImportItemStatus| status == ImportItemStatus::Imported,
    )
    &&& result.skipped_count == counted(items, |status: ImportItemStatus| left_out(status))
    &&& result.pending_count == counted(
        items,
        |status: ImportItemStatus| status == ImportItemStatus::SourceChanged,
    )
    &&& result.failed_count == counted(
        items,
        |status: ImportItemStatus| status == ImportItemStatus::Failed,
    )
}

/// What a scan of a source did.
pub fn receive_scan_result(source_id: &str, items: &Vec<ImportItemResult>) -> (result:
    ReceiveSourceScanResult)
    requires
        items@.len() <= i64::MAX,
    ensures
        tells(result, source_id@, item_views(items@)),
{
    let ghost list = item_views(items@);
    let ghost imported = |status: ImportItemStatus| status == ImportItemStatus::Imported;
    let ghost skipped = |status: ImportItemStatus| left_out(status);
    let ghost pending = |status: ImportItemStatus| status == ImportItemStatus::SourceChanged;
    let ghost failed = |status: ImportItemStatus| status == ImportItemStatus::Failed;
    let mut imported_count: i64 = 0;
    let mut skipped_count: i64 = 0;
    let mut pending_count: i64 = 0;
    let mut failed_count: i64 = 0;
    let mut i: usize = 0;
    assert(list.take(0) =~= Seq::empty());
    while i < items.len()
        invariant
            i <= items@.len() <= i64::MAX,
            list == item_views(items@),
            imported == (|status: ImportItemStatus| status == ImportItemStatus::Imported),
            skipped == (|status: ImportItemStatus| left_out(status)),
            pending == (|status: ImportItemStatus| status == ImportItemStatus::SourceChanged),
            failed == (|status: ImportItemStatus| status == ImportItemStatus::Failed),
            0 <= imported_count <= i,
            0 <= skipped_count <= i,
            0 <= pending_count <= i,
            0 <= failed_count <= i,
            imported_count == counted(list.take(i as int), imported),
            skipped_count == counted(list.take(i as int), skipped),
            pending_count == counted(list.take(i as int), pending),
            failed_count == counted(list.take(i as int), failed),
        decreases items@.len() - i,
    {
        assert(list.take(i + 1).drop_last() =~= list.take(i as int));
        assert(list.take(i + 1).last() == items@[i as int]@);
        match items[i].status {
            ImportItemStatus::Imported => {
                imported_count = imported_count + 1;
            },
            ImportItemStatus::SourceChanged => {
                pending_count = pending_count + 1;
            },
            ImportItemStatus::Failed => {
                failed_count = failed_count + 1;
            },
            _ => {
                skipped_count = skipped_count + 1;
            },
        }
        i = i + 1;
    }
    assert(list.take(i as int) =~= list);
    ReceiveSourceScanResult {
        source_id: source_id.to_owned(),
        scanned_count: items.len() as i64,
        imported_count,
        skipped_count,
        pending_count,
        failed_count,
    }
}

/// What is recorded of a file: where it was put, if it was imported, else where it should have gone.
pub open spec fn recorded_entry(
    source_id: Seq<char>,
    item: Item,
    put: Option<(Seq<char>, Seq<Seq<char>>)>,
    matched_rule_ids: Seq<Seq<char>>,
    created_at: Seq<char>,
) -> LogEntry {
    let known = item.status == ImportItemStatus::Imported && item.document_id is Some && put is Some;
    LogEntry {
        source_id,
        source_path: item.source_path,
        file_name: item.file_name,
        status: item.status,
        document_id: item.document_id,
        collection_id: if known {
            Some(put->Some_0.0)
        } else {
            item.collection_id
        },
        tag_ids: if known {
            put->Some_0.1
        } else {
            Seq::empty()
        },
        matched_rule_ids,
        error_message: item.error_message,
        created_at,
    }
}

/// What is recorded of a file that was imported from a receiving directory. `put` tells the collection
/// and the tags of its document, where they could be read.
pub fn receive_import_log_entry(
    source_id: &str,
    item: &ImportItemResult,
    put: &Option<(String, Vec<String>)>,
    matched_rule_ids: &Vec<String>,
    created_at: &str,
) -> (entry: ReceiveImportLogEntry)
    ensures
        entry@ == recorded_entry(
            source_id@,
            item@,
            match *put {
                Some((collection_id, tag_ids)) => Some((collection_id@, views(tag_ids@))),
                None => None,
            },
            views(matched_rule_ids@),
            created_at@,
        ),
{
    let mut collection_id = copy_option(&item.collection_id);
    let mut tag_ids: Vec<String> = Vec::new();
    assert(views(tag_ids@) =~= Seq::empty());
    if item.status == ImportItemStatus::Imported && item.document_id.is_some() {
        if let Some((collection, tags)) = put {
            collection_id = Some(collection.clone());
            tag_ids = copy_texts(tags);
        }
    }
    ReceiveImportLogEntry {
        source_id: source_id.to_owned(),
        source_path: item.source_path.clone(),
        file_name: item.file_name.clone(),
        status: item.status,
        document_id: copy_option(&item.document_id),
        collection_id,
        tag_ids,
        matched_rule_ids: copy_texts(matched_rule_ids),
        error_message: copy_option(&item.error_message),
        created_at: created_at.to_owned(),
    }
}

/// The JSON text of a list of texts, where it can be written.
pub uninterp spec fn json_list(texts: Seq<Seq<char>>) -> Option<Seq<char>>;

/// The list of texts that a JSON text holds, where it holds one.
pub uninterp spec fn json_texts(text: Seq<char>) -> Option<Seq<Seq<char>>>;

/// `serde_json::to_string` of a list of texts: a function of the list, which never fails on one, and from
/// whose result the list can be read back. The form of the text is not stated.
#[verifier::external_body]
fn write_json_list(texts: &Vec<String>) -> (text: Option<String>)
    ensures
        optional(text) == json_list(views(texts@)),
        text is Some,
        json_texts(text->Some_0@) == Some(views(texts@)),
{
    serde_json::to_string(texts).ok()
}

/// `serde_json::from_str` for a list of texts: a function of the text. Which texts it refuses is not
/// stated.
#[verifier::external_body]
fn read_json_list(text: &str) -> (texts: Option<Vec<String>>)
    ensures
        (match texts {
            Some(texts) => Some(views(texts@)),
            None => None,
        }) == json_texts(text@),
{
    serde_json::from_str(text).ok()
}

/// The list that a stored text holds; a text that cannot be read holds nothing.
pub open spec fn stored_list(text: Seq<char>) -> Seq<Seq<char>> {
    match json_texts(text) {
        Some(texts) => texts,
        None => Seq::empty(),
    }
}

/// The list that was read, or an empty one.
pub fn list_or_nothing(texts: Option<Vec<String>>) -> (list: Vec<String>)
    ensures
        views(list@) == (match texts {
            Some(texts) => views(texts@),
            None => Seq::empty(),
        }),
{
    match texts {
        Some(texts) => texts,
        None => {
            let list: Vec<String> = Vec::new();
            assert(views(list@) =~= Seq::empty());
            list
        },
    }
}

/// A record of an import in the form in which it is stored.
pub struct StoredLogEntry {
    pub source_id: String,
    pub source_path: String,
    pub file_name: String,
    pub status: String,
    pub document_id: Option<String>,
    pub collection_id: Option<String>,
    pub tag_ids: String,
    pub matched_rule_ids: String,
    pub error_message: Option<String>,
    pub created_at: String,
}

impl StoredLogEntry {
    /// The record that is read from what is stored.
    pub open spec fn entry(self) -> LogEntry {
        LogEntry {
            source_id: self.source_id@,
            source_path: self.source_path@,
            file_name: self.file_name@,
            status: import_status_named(self.status@),
            document_id: optional(self.document_id),
            collection_id: optional(self.collection_id),
            tag_ids: stored_list(self.tag_ids@),
            matched_rule_ids: stored_list(self.matched_rule_ids@),
            error_message: optional(self.error_message),
            created_at: self.created_at@,
        }
    }
}

/// The text in which a list is stored. The list is read back from it.
pub fn store_list(texts: &Vec<String>) -> (text: String)
    ensures
        Some(text@) == json_list(views(texts@)),
        stored_list(text@) == views(texts@),
{
    match write_json_list(texts) {
        Some(text) => text,
        None => "[]".to_owned(),
    }
}

/// The record in the form in which it is stored. The record is read back from it.
pub fn store_log_entry(entry: &ReceiveImportLogEntry) -> (stored: StoredLogEntry)
    ensures
        stored.status@ == import_status_name(entry.status),
        Some(stored.tag_ids@) == json_list(views(entry.tag_ids@)),
        Some(stored.matched_rule_ids@) == json_list(views(entry.matched_rule_ids@)),
        stored.entry() == entry@,
{
    proof {
        import_statuses_read_back(entry.status);
    }
    StoredLogEntry {
        source_id: entry.source_id.clone(),
        source_path: entry.source_path.clone(),
        file_name: entry.file_name.clone(),
        status: import_status_to_str(entry.status).to_owned(),
        document_id: copy_option(&entry.document_id),
        collection_id: copy_option(&entry.collection_id),
        tag_ids: store_list(&entry.tag_ids),
        matched_rule_ids: store_list(&entry.matched_rule_ids),
        error_message: copy_option(&entry.error_message),
        created_at: entry.created_at.clone(),
    }
}

/// The record that is read from what is stored.
pub fn read_log_entry(stored: &StoredLogEntry) -> (entry: ReceiveImportLogEntry)
    ensures
        entry@ == stored.entry(),
{
    ReceiveImportLogEntry {
        source_id: stored.source_id.clone(),
        source_path: stored.source_path.clone(),
        file_name: stored.file_name.clone(),
        status: import_status_from_str(&stored.status),
        document_id: copy_option(&stored.document_id),
        collection_id: copy_option(&stored.collection_id),
        tag_ids: list_or_nothing(read_json_list(&stored.tag_ids)),
        matched_rule_ids: list_or_nothing(read_json_list(&stored.matched_rule_ids)),
        error_message: copy_option(&stored.error_message),
        created_at: stored.created_at.clone(),
    }
}

/// The item of a record that still waits for a decision: once that was made, none is offered.
pub fn undecided_item(item_id: &Option<String>, resolved_at: &Option<String>) -> (offered: Option<String>)
    ensures
        optional(offered) == if *resolved_at is Some {
            None
        } else {
            optional(*item_id)
        },
{
    if resolved_at.is_some() {
        None
    } else {
        copy_option(item_id)
    }
}

/// How many records of imports are listed: at least one, at most 500.
pub fn log_limit(limit: usize) -> (clamped: usize)
    ensures
        clamped == crate::limits::clamped(limit, 1, 500),
{
    if limit < 1 {
        1
    } else if limit > 500 {
        500
    } else {
        limit
    }
}

// ---- Laws ----

/// Nothing is received from a source before the user has confirmed what its first listing showed, nor
/// from one that is off.
pub proof fn nothing_is_received_unconfirmed(
    source: ReceiveSource,
    confirmed: bool,
    is_directory: bool,
)
    requires
        !confirmed || !source.enabled,
    ensures
        !receives(source, confirmed, is_directory),
{
}

/// A receiving directory and the library never lie in each other.
pub proof fn receiving_directories_are_apart(candidate: Seq<char>, library_root: Seq<char>)
    requires
        receive_place(candidate, library_root) is Ok,
    ensures
        comparable(candidate) != comparable(library_root),
        !lies_under(comparable(candidate), comparable(library_root)),
        !lies_under(comparable(library_root), comparable(candidate)),
{
}

/// Every file of the directory, up to the limit, is either chosen by the user or recorded as skipped,
/// so that no file that was never shown is imported later.
pub proof fn every_file_is_chosen_or_skipped(
    files: Seq<Seq<char>>,
    chosen: Seq<Seq<char>>,
    file: Seq<char>,
)
    requires
        recorded_files(files).contains(file),
    ensures
        chosen.contains(file) || unchosen(recorded_files(files), chosen).contains(file),
{
    lemma_unchosen(recorded_files(files), chosen, file);
}

/// What is not chosen is exactly what is left.
proof fn lemma_unchosen(files: Seq<Seq<char>>, chosen: Seq<Seq<char>>, file: Seq<char>)
    ensures
        unchosen(files, chosen).contains(file) <==> files.contains(file) && !chosen.contains(file),
    decreases files.len(),
{
    if files.len() > 0 {
        let shorter = files.drop_last();
        lemma_unchosen(shorter, chosen, file);
        let rest = unchosen(shorter, chosen);
        let all = unchosen(files, chosen);
        if files.contains(file) {
            let at = choose|at: int| 0 <= at < files.len() && files[at] == file;
            if at < shorter.len() {
                assert(shorter[at] == file);
            }
        }
        if shorter.contains(file) {
            let at = choose|at: int| 0 <= at < shorter.len() && shorter[at] == file;
            assert(files[at] == file);
        }
        if rest.contains(file) {
            let at = choose|at: int| 0 <= at < rest.len() && rest[at] == file;
            assert(all[at] == file);
        }
        if all.contains(file) && !rest.contains(file) {
            let at = choose|at: int| 0 <= at < all.len() && all[at] == file;
            if at < rest.len() {
                assert(rest[at] == file);
            }
            assert(files[files.len() - 1] == file);
        }
        if files.last() == file && !chosen.contains(file) {
            assert(all[all.len() - 1] == file);
        }
    }
}

/// A file that the user skipped is never imported by a scan, whatever is known of it.
pub proof fn skipped_files_are_left_alone(
    handled: Option<(ImportItemStatus, Seq<char>)>,
    retry_failed: bool,
    retry_cutoff: Seq<char>,
)
    ensures
        pending_decision(true, handled, retry_failed, retry_cutoff) == PendingDecision::Leave,
{
}

/// A file that awaits a decision of the user is not imported again by a scan.
pub proof fn open_decisions_are_left_alone(
    created_at: Seq<char>,
    skipped: bool,
    retry_failed: bool,
    retry_cutoff: Seq<char>,
)
    ensures
        pending_decision(
            skipped,
            Some((ImportItemStatus::SourceChanged, created_at)),
            retry_failed,
            retry_cutoff,
        ) == PendingDecision::Leave,
{
}

/// A file with the size and the time that were recorded is not imported again.
pub proof fn unchanged_files_are_left_alone(recorded: RecordedSource, size: u64, modified_at: Option<i64>)
    requires
        recorded.file_size == recorded_size(size),
        recorded.file_modified_at == modified_at,
    ensures
        compared(Some(recorded), size, modified_at) == Compared::Unchanged,
{
}

/// Every item of a scan is told of exactly once.
pub proof fn every_item_is_told_of(result: ReceiveSourceScanResult, source_id: Seq<char>, items: Seq<Item>)
    requires
        tells(result, source_id, items),
    ensures
        result.imported_count + result.skipped_count + result.pending_count + result.failed_count
            == result.scanned_count,
{
    lemma_counts_add_up(items);
}

proof fn lemma_counts_add_up(items: Seq<Item>)
    ensures
        counted(items, |status: ImportItemStatus| status == ImportItemStatus::Imported) + counted(
            items,
            |status: ImportItemStatus| left_out(status),
        ) + counted(items, |status: ImportItemStatus| status == ImportItemStatus::SourceChanged)
            + counted(items, |status: ImportItemStatus| status == ImportItemStatus::Failed)
            == items.len(),
    decreases items.len(),
{
    if items.len() > 0 {
        lemma_counts_add_up(items.drop_last());
    }
}

/// Every file that a search takes is one that may be received and whose format the library knows.
pub proof fn searches_take_only_receivable_files(
    tree: Tree,
    directory: Seq<char>,
    depth: nat,
    file: Seq<char>,
)
    requires
        searched(tree, directory, depth, Seq::empty()).contains(file),
    ensures
        receivable(file),
        supported_type(file) is Some,
{
    lemma_searched_files(tree, directory, depth, Seq::empty());
    let files = searched(tree, directory, depth, Seq::empty());
    let at = choose|at: int| 0 <= at < files.len() && files[at] == file;
    assert(takeable(files[at]));
}

/// The file may be received, and the library knows its format.
spec fn takeable(file: Seq<char>) -> bool {
    receivable(file) && supported_type(file) is Some
}

spec fn all_takeable(files: Seq<Seq<char>>) -> bool {
    forall|i: int| 0 <= i < files.len() ==> takeable(#[trigger] files[i])
}

proof fn lemma_searched_files(tree: Tree, directory: Seq<char>, depth: nat, files: Seq<Seq<char>>)
    requires
        all_takeable(files),
    ensures
        all_takeable(searched(tree, directory, depth, files)),
    decreases depth, 0int, 0int,
{
    if depth > 0 && files.len() < MAX_RECEIVE_FILES {
        lemma_entries_files(tree, tree(directory), 0, (depth - 1) as nat, files);
    }
}

proof fn lemma_entries_files(
    tree: Tree,
    entries: Seq<Found>,
    at: int,
    depth: nat,
    files: Seq<Seq<char>>,
)
    requires
        all_takeable(files),
    ensures
        all_takeable(entries_searched(tree, entries, at, depth, files)),
    decreases depth, 1int, entries.len() - at,
{
    if 0 <= at < entries.len() {
        match visit_of(entries[at]) {
            EntryVisit::Skip => {
                lemma_entries_files(tree, entries, at + 1, depth, files);
            },
            EntryVisit::Take => {
                let more = files.push(entries[at].path);
                assert forall|i: int| 0 <= i < more.len() implies takeable(#[trigger] more[i]) by {
                    if i < files.len() {
                        assert(more[i] == files[i]);
                    }
                }
                lemma_entries_files(tree, entries, at + 1, depth, more);
            },
            EntryVisit::Descend => {
                lemma_searched_files(tree, entries[at].path, depth, files);
                lemma_entries_files(
                    tree,
                    entries,
                    at + 1,
                    depth,
                    searched(tree, entries[at].path, depth, files),
                );
            },
        }
    }
}

/// Sorting keeps the paths and puts none before one that comes before it.
pub proof fn sorted_paths_are_ordered(paths: Seq<Seq<char>>)
    ensures
        paths_sorted(paths).to_multiset() == paths.to_multiset(),
        forall|i: int, j: int|
            0 <= i < j < paths_sorted(paths).len() ==> !before(
                order_key(#[trigger] paths_sorted(paths)[j]),
                order_key(#[trigger] paths_sorted(paths)[i]),
            ),
    decreases paths.len(),
{
    broadcast use vstd::seq_lib::group_to_multiset_ensures;

    if paths.len() > 0 {
        let shorter = paths.drop_last();
        sorted_paths_are_ordered(shorter);
        lemma_with_path(paths_sorted(shorter), paths.last());
        assert(paths =~= shorter.push(paths.last()));
    }
}

proof fn lemma_with_path(list: Seq<Seq<char>>, path: Seq<char>)
    requires
        forall|i: int, j: int|
            0 <= i < j < list.len() ==> !before(
                order_key(#[trigger] list[j]),
                order_key(#[trigger] list[i]),
            ),
    ensures
        with_path(list, path).to_multiset() == list.to_multiset().insert(path),
        forall|i: int, j: int|
            0 <= i < j < with_path(list, path).len() ==> !before(
                order_key(#[trigger] with_path(list, path)[j]),
                order_key(#[trigger] with_path(list, path)[i]),
            ),
        with_path(list, path).len() == list.len() + 1,
        forall|i: int|
            0 <= i < with_path(list, path).len() ==> list.contains(
                #[trigger] with_path(list, path)[i],
            ) || with_path(list, path)[i] == path,
    decreases list.len(),
{
    broadcast use vstd::seq_lib::group_to_multiset_ensures;

    let all = with_path(list, path);
    let key = order_key(path);
    if list.len() == 0 || !before(key, order_key(list.last())) {
        assert forall|i: int, j: int| 0 <= i < j < all.len() implies !before(
            order_key(#[trigger] all[j]),
            order_key(#[trigger] all[i]),
        ) by {
            if j == list.len() && i < list.len() - 1 {
                let last = order_key(list.last());
                let other = order_key(list[i]);
                assert(!before(order_key(list[list.len() - 1]), order_key(list[i])));
                assert(key.take(0) =~= last.take(0));
                assert(other.take(0) =~= last.take(0));
                assert(key.take(0) =~= other.take(0));
                lemma_order_is_total(key, last, 0);
                lemma_order_is_total(last, other, 0);
                lemma_order_is_total(key, other, 0);
                if before(key, other) {
                    if other != last {
                        lemma_order_is_transitive(key, other, last, 0);
                    }
                }
            }
        }
        assert forall|i: int| 0 <= i < all.len() implies list.contains(#[trigger] all[i]) || all[i]
            == path by {
            if i < list.len() {
                assert(list[i] == all[i]);
            }
        }
    } else {
        let shorter = list.drop_last();
        lemma_with_path(shorter, path);
        let inner = with_path(shorter, path);
        assert(list =~= shorter.push(list.last()));
        assert(all.to_multiset() == inner.to_multiset().insert(list.last()));
        assert(list.to_multiset() == shorter.to_multiset().insert(list.last()));
        assert(all.to_multiset() =~= list.to_multiset().insert(path));
        assert forall|i: int, j: int| 0 <= i < j < all.len() implies !before(
            order_key(#[trigger] all[j]),
            order_key(#[trigger] all[i]),
        ) by {
            if j < inner.len() {
                assert(all[i] == inner[i] && all[j] == inner[j]);
            } else {
                assert(all[i] == inner[i]);
                let last = order_key(list.last());
                if inner[i] == path {
                    assert(key.take(0) =~= last.take(0));
                    lemma_order_is_total(key, last, 0);
                } else {
                    let at = choose|at: int| 0 <= at < shorter.len() && shorter[at] == inner[i];
                    assert(list[at] == inner[i]);
                    assert(!before(order_key(list[list.len() - 1]), order_key(list[at])));
                }
            }
        }
        assert forall|i: int| 0 <= i < all.len() implies list.contains(#[trigger] all[i]) || all[i]
            == path by {
            if i < inner.len() {
                assert(all[i] == inner[i]);
                if inner[i] != path {
                    let at = choose|at: int| 0 <= at < shorter.len() && shorter[at] == inner[i];
                    assert(list[at] == all[i]);
                }
            } else {
                assert(list[list.len() - 1] == all[i]);
            }
        }
    }
}

/// A file that was not skipped is imported where nothing is known of it, or where it failed and a try
/// was asked for or a while has passed; it is compared where it was imported or found a duplicate, and
/// left alone in every other case.
pub proof fn files_are_decided_on(
    handled: Option<(ImportItemStatus, Seq<char>)>,
    retry_failed: bool,
    retry_cutoff: Seq<char>,
)
    ensures
        ({
            let decision = pending_decision(false, handled, retry_failed, retry_cutoff);
            &&& decision == PendingDecision::Import <==> handled is None || (handled->Some_0.0
                == ImportItemStatus::Failed && (retry_failed || handled->Some_0.1 == retry_cutoff
                || before(handled->Some_0.1, retry_cutoff)))
            &&& decision == PendingDecision::Compare <==> handled is Some && (handled->Some_0.0
                == ImportItemStatus::Imported || handled->Some_0.0 == ImportItemStatus::Duplicate)
        }),
{
    if handled is Some {
        let created_at = handled->Some_0.1;
        assert(retry_cutoff.take(0) =~= created_at.take(0));
        crate::text::lemma_order_is_total(retry_cutoff, created_at, 0);
    }
}

/// A file that was imported is looked at again where its size or its time differs from the record:
/// its hash tells where one is known, and it counts as changed where none is.
pub proof fn other_files_are_compared(recorded: RecordedSource, size: u64, modified_at: Option<i64>)
    requires
        size <= i64::MAX,
    ensures
        compared(Some(recorded), size, modified_at) == Compared::Unchanged <==> recorded.file_size == size
            && recorded.file_modified_at == modified_at,
        compared(Some(recorded), size, modified_at) matches Compared::HashNeeded(hash) ==> known_version(
            optional(recorded.content_hash),
        ) == Some(hash),
        compared(Some(recorded), size, modified_at) == Compared::Changed <==> !(recorded.file_size == size
            && recorded.file_modified_at == modified_at) && known_version(
            optional(recorded.content_hash),
        ) is None,
        compared(None, size, modified_at) == Compared::Changed,
{
}

/// The files that were not chosen are recorded as skipped, those and no others, in their order.
pub proof fn skipped_are_those_not_chosen(files: Seq<Seq<char>>, chosen: Seq<Seq<char>>)
    ensures
        unchosen(files, chosen) == files.filter(|file: Seq<char>| !chosen.contains(file)),
    decreases files.len(),
{
    reveal(Seq::filter);
    if files.len() > 0 {
        skipped_are_those_not_chosen(files.drop_last(), chosen);
    }
}

/// A place can be a receiving directory unless it is the library, lies in it or holds it, and is
/// refused in each of these cases.
pub proof fn receiving_places_lie_apart(candidate: Seq<char>, library_root: Seq<char>)
    ensures
        ({
            let place = comparable(candidate);
            let library = comparable(library_root);
            receive_place(candidate, library_root) is Err <==> {
                ||| place == library
                ||| exists|rest: Seq<char>| place == #[trigger] (library.push('\\') + rest)
                ||| exists|rest: Seq<char>| place == #[trigger] (library.push('/') + rest)
                ||| exists|rest: Seq<char>| library == #[trigger] (place.push('\\') + rest)
                ||| exists|rest: Seq<char>| library == #[trigger] (place.push('/') + rest)
            }
        }),
{
    let place = comparable(candidate);
    let library = comparable(library_root);
    reveal_strlit("\\");
    reveal_strlit("/");
    assert(library + "\\"@ =~= library.push('\\'));
    assert(library + "/"@ =~= library.push('/'));
    assert(place + "\\"@ =~= place.push('\\'));
    assert(place + "/"@ =~= place.push('/'));
    lemma_starts(place, library.push('\\'));
    lemma_starts(place, library.push('/'));
    lemma_starts(library, place.push('\\'));
    lemma_starts(library, place.push('/'));
}

proof fn lemma_starts(text: Seq<char>, start: Seq<char>)
    ensures
        starts_with(text, start) <==> exists|rest: Seq<char>| text == #[trigger] (start + rest),
{
    if starts_with(text, start) {
        assert(text =~= start + text.skip(start.len() as int));
    }
    if exists|rest: Seq<char>| text == #[trigger] (start + rest) {
        let rest = choose|rest: Seq<char>| text == #[trigger] (start + rest);
        assert(text.subrange(0, start.len() as int) =~= start);
    }
}

/// A file whose name opens with a dot or a tilde is never received, nor one with the extension of a
/// file that is not finished or belongs to a program, in any case of its letters.
pub proof fn passing_files_are_not_received(
    directory: Seq<char>,
    stem: Seq<char>,
    extension: Seq<char>,
)
    requires
        directory.len() > 0 ==> separator(directory.last()),
        stem.len() > 0,
        extension.len() > 0,
        !extension.contains('.'),
        forall|i: int| 0 <= i < stem.len() ==> !separator(#[trigger] stem[i]),
        forall|i: int| 0 <= i < extension.len() ==> !separator(#[trigger] extension[i]),
    ensures
        ({
            let path = directory + (stem + seq!['.'] + extension);
            let kind = ascii_lowercase(extension);
            &&& stem[0] == '.' || stem[0] == '~' ==> !receivable(path)
            &&& kind == "tmp"@ || kind == "temp"@ || kind == "part"@ || kind == "partial"@ || kind
                == "crdownload"@ || kind == "download"@ || kind == "filepart"@ || kind == "bak"@ || kind
                == "db"@ || kind == "db-wal"@ || kind == "db-shm"@ || kind == "sqlite"@ || kind
                == "sqlite3"@ || kind == "dat"@ || kind == "lnk"@ ==> !receivable(path)
            &&& receivable(path) <==> {
                &&& stem[0] != '.' && stem[0] != '~'
                &&& !passing_extension(kind)
                &&& !passing_stem(ascii_lowercase(stem))
            }
        }),
{
    let name = stem + seq!['.'] + extension;
    let path = directory + name;
    let nothing = Seq::<char>::empty();
    reveal_strlit(".");
    reveal_strlit("..");
    reveal_strlit("~");
    assert forall|i: int| 0 <= i < name.len() implies !separator(#[trigger] name[i]) by {
        if i < stem.len() {
            assert(name[i] == stem[i]);
        } else if i > stem.len() {
            assert(name[i] == extension[i - stem.len() - 1]);
        }
    }
    assert(name.last() == extension[extension.len() - 1]);
    assert(name.last() != '.');
    assert(name != "."@ && name != ".."@) by {
        assert("."@.last() == '.' && ".."@.last() == '.');
    }
    files_are_named_by_their_last_component(directory, name, nothing);
    assert(directory + name + nothing =~= path);
    names_are_stems_and_extensions(stem, extension);
    let lower = ascii_lowercase(name);
    let small = ascii_lowercase(extension);
    let low_stem = ascii_lowercase(stem);
    assert(lower =~= low_stem + seq!['.'] + small);
    assert forall|i: int| low_stem.len() < i < lower.len() implies (#[trigger] lower[i]) != '.' by {
        let k = i - low_stem.len() - 1;
        assert(lower[i] == crate::text::ascii_lower(extension[k]));
        assert(extension[k] != '.');
    }
    crate::paths::lemma_last_index(lower, '.', low_stem.len() as int);
    assert(lower.take(low_stem.len() as int) =~= low_stem);
    assert(lower[0] == crate::text::ascii_lower(stem[0]));
    let first = lower.subrange(0, 1);
    assert(first[0] == lower[0]);
    if lower[0] == '.' {
        assert(first =~= "."@);
    }
    if lower[0] == '~' {
        assert(first =~= "~"@);
    }
    assert(lower[0] == '.' <==> stem[0] == '.');
    assert(lower[0] == '~' <==> stem[0] == '~');
}

/// A file lies in a directory or, up to so many directories deep, in one of those below that are
/// searched.
pub open spec fn lies_in_tree(tree: Tree, directory: Seq<char>, file: Seq<char>, depth: nat) -> bool
    decreases depth,
{
    depth > 0 && exists|i: int|
        0 <= i < tree(directory).len() && (((#[trigger] tree(directory)[i]).kind == PathKind::File
            && tree(directory)[i].path == file) || (tree(directory)[i].kind == PathKind::Directory
            && !unsearched(tree(directory)[i].path) && lies_in_tree(
            tree,
            tree(directory)[i].path,
            file,
            (depth - 1) as nat,
        )))
}

/// The entry is the file, or a directory in which the file lies.
spec fn leads_on(tree: Tree, directory: Seq<char>, i: int, file: Seq<char>, depth: nat) -> bool {
    let entry = tree(directory)[i];
    ||| entry.kind == PathKind::File && entry.path == file
    ||| entry.kind == PathKind::Directory && !unsearched(entry.path) && lies_in_tree(
        tree,
        entry.path,
        file,
        (depth - 1) as nat,
    )
}

/// Where an entry leads to the file, if it lies in the directory.
proof fn lemma_entry_leads_on(tree: Tree, directory: Seq<char>, file: Seq<char>, depth: nat) -> (place: int)
    requires
        lies_in_tree(tree, directory, file, depth),
    ensures
        depth > 0,
        0 <= place < tree(directory).len(),
        leads_on(tree, directory, place, file, depth),
{
    choose|i: int|
        0 <= i < tree(directory).len() && (((#[trigger] tree(directory)[i]).kind == PathKind::File
            && tree(directory)[i].path == file) || (tree(directory)[i].kind == PathKind::Directory
            && !unsearched(tree(directory)[i].path) && lies_in_tree(
            tree,
            tree(directory)[i].path,
            file,
            (depth - 1) as nat,
        )))
}

proof fn lemma_searching_only_adds(tree: Tree, directory: Seq<char>, depth: nat, files: Seq<Seq<char>>)
    ensures
        files.len() <= searched(tree, directory, depth, files).len(),
        searched(tree, directory, depth, files).take(files.len() as int) == files,
    decreases depth, 0int, 0int,
{
    if depth == 0 || files.len() >= MAX_RECEIVE_FILES {
        assert(files.take(files.len() as int) =~= files);
    } else {
        lemma_visiting_only_adds(tree, tree(directory), 0, (depth - 1) as nat, files);
    }
}

proof fn lemma_visiting_only_adds(
    tree: Tree,
    entries: Seq<Found>,
    at: int,
    depth: nat,
    files: Seq<Seq<char>>,
)
    ensures
        files.len() <= entries_searched(tree, entries, at, depth, files).len(),
        entries_searched(tree, entries, at, depth, files).take(files.len() as int) == files,
    decreases depth, 1int, entries.len() - at,
{
    if at < 0 || at >= entries.len() {
        assert(files.take(files.len() as int) =~= files);
    } else {
        let more = match visit_of(entries[at]) {
            EntryVisit::Skip => files,
            EntryVisit::Take => files.push(entries[at].path),
            EntryVisit::Descend => searched(tree, entries[at].path, depth, files),
        };
        if visit_of(entries[at]) == EntryVisit::Descend {
            lemma_searching_only_adds(tree, entries[at].path, depth, files);
        } else {
            assert(more.take(files.len() as int) =~= files);
        }
        lemma_visiting_only_adds(tree, entries, at + 1, depth, more);
        let all = entries_searched(tree, entries, at, depth, files);
        assert(all.take(more.len() as int).take(files.len() as int) =~= all.take(files.len() as int));
    }
}

proof fn lemma_longer_list_holds(list: Seq<Seq<char>>, longer: Seq<Seq<char>>, file: Seq<char>)
    requires
        list.len() <= longer.len(),
        longer.take(list.len() as int) == list,
        list.contains(file),
    ensures
        longer.contains(file),
{
    let k = choose|k: int| 0 <= k < list.len() && list[k] == file;
    assert(longer.take(list.len() as int)[k] == longer[k]);
}

proof fn lemma_visits_find(
    tree: Tree,
    directory: Seq<char>,
    at: int,
    place: int,
    depth: nat,
    files: Seq<Seq<char>>,
    file: Seq<char>,
)
    requires
        depth > 0,
        0 <= at <= place < tree(directory).len(),
        leads_on(tree, directory, place, file, depth),
        receivable(file),
        supported_type(file) is Some,
        entries_searched(tree, tree(directory), at, (depth - 1) as nat, files).len() < MAX_RECEIVE_FILES,
    ensures
        entries_searched(tree, tree(directory), at, (depth - 1) as nat, files).contains(file),
    decreases depth, place - at,
{
    let entries = tree(directory);
    let below = (depth - 1) as nat;
    let entry = entries[at];
    let more = match visit_of(entry) {
        EntryVisit::Skip => files,
        EntryVisit::Take => files.push(entry.path),
        EntryVisit::Descend => searched(tree, entry.path, below, files),
    };
    let all = entries_searched(tree, entries, at, below, files);
    lemma_visiting_only_adds(tree, entries, at + 1, below, more);
    if at < place {
        lemma_visits_find(tree, directory, at + 1, place, depth, more, file);
    } else {
        if entry.kind == PathKind::File && entry.path == file {
            assert(more[more.len() - 1] == file);
        } else {
            lemma_searching_only_adds(tree, entry.path, below, files);
            let next = lemma_entry_leads_on(tree, entry.path, file, below);
            lemma_visits_find(tree, entry.path, 0, next, below, files, file);
        }
        lemma_longer_list_holds(more, all, file);
    }
}

/// A search takes every file that may be received and whose format the library knows, in the directory
/// and so many directories deep, unless it has come to its limit.
pub proof fn searches_find_every_receivable_file(
    tree: Tree,
    directory: Seq<char>,
    depth: nat,
    file: Seq<char>,
)
    requires
        lies_in_tree(tree, directory, file, depth),
        receivable(file),
        supported_type(file) is Some,
        searched(tree, directory, depth, Seq::empty()).len() < MAX_RECEIVE_FILES,
    ensures
        searched(tree, directory, depth, Seq::empty()).contains(file),
{
    let place = lemma_entry_leads_on(tree, directory, file, depth);
    lemma_visits_find(tree, directory, 0, place, depth, Seq::empty(), file);
}

/// What is recorded of a file: for one that was imported, the collection and the tags that it was
/// given, for any other the collection that it should have gone to, and no tags.
pub proof fn records_tell_what_became_of_files(
    source_id: Seq<char>,
    item: Item,
    put: (Seq<char>, Seq<Seq<char>>),
    matched_rule_ids: Seq<Seq<char>>,
    created_at: Seq<char>,
)
    ensures
        ({
            let entry = recorded_entry(source_id, item, Some(put), matched_rule_ids, created_at);
            &&& entry.source_id == source_id && entry.source_path == item.source_path
                && entry.file_name == item.file_name && entry.status == item.status
                && entry.document_id == item.document_id && entry.error_message == item.error_message
                && entry.created_at == created_at && entry.matched_rule_ids == matched_rule_ids
            &&& item.status == ImportItemStatus::Imported && item.document_id is Some
                ==> entry.collection_id == Some(put.0) && entry.tag_ids == put.1
            &&& item.status != ImportItemStatus::Imported ==> entry.collection_id == item.collection_id
                && entry.tag_ids.len() == 0
        }),
{
}

} // verus!
