use document_library::batches::{
    count_items, decision_fits, ensure_current_library, import_batch_from_items, is_same_library,
    ClassificationMode, ImportBatches, ImportItemContext, ImportItems, ImportResolution,
};
use document_library::copies::{
    CopyFailure, CreateStep, FileAction, FileReply, NewCopy, ReplaceStep, Replacement, SingleCopy,
    SingleStep,
};
use document_library::digest::content_hash;
use document_library::imports::{
    check_replacing_source, check_single_source, choose_import, document_of, document_title,
    failure_item, imported, item_without_file, library_path, measure_source, prepare_source,
    refused, scan_directory_entry, scan_explicit_path, single_document_of, unreadable_directory,
    without_source, FileFacts, ImportChoice, PathKind, PendingImport, ScanEntry,
};
use document_library::models::{
    DocumentProcessingStatus, ImportDecision, ImportItemResult, ImportItemStatus, ImportSource,
    IndexStatus, LibrarySummary,
};
use document_library::scanning::{sort_entries, ImportWalk, InsideEntry, ListingFailure};

fn library(id: &str) -> LibrarySummary {
    LibrarySummary {
        id: id.to_string(),
        name: "n".to_string(),
        path: "D:\\Library".to_string(),
        created_at: "t".to_string(),
    }
}

fn pending() -> PendingImport {
    PendingImport {
        source_path: "D:\\in\\a.b.pdf".to_string(),
        file_name: "a.b.pdf".to_string(),
        file_type: "PDF".to_string(),
        file_size: 9,
        source_identifier: "d:\\in\\a.b.pdf".to_string(),
        content_hash: "h".to_string(),
        existing_document_id: "".to_string(),
        target_collection_id: None,
    }
}

fn failed(id: &str) -> ImportItemResult {
    failure_item(
        id.to_string(),
        "D:\\in\\a.pdf".to_string(),
        None,
        None,
        "scan",
        "reason".to_string(),
    )
}

fn inside(name: &str, kind: PathKind) -> InsideEntry {
    InsideEntry { name: name.to_string(), path: format!("D:\\in\\{}", name), kind: Ok(kind) }
}

/// The files of a pretended disk, by path and contents.
struct Disk {
    files: Vec<(String, String)>,
    record: FileReply,
    broken: Option<String>,
}

impl Disk {
    fn position(&self, path: &str) -> Option<usize> {
        self.files.iter().position(|(one, _)| one == path)
    }

    fn contents(&self, path: &str) -> Option<String> {
        self.position(path).map(|at| self.files[at].1.clone())
    }

    fn put(&mut self, path: &str, contents: String) {
        self.remove(path);
        self.files.push((path.to_string(), contents));
    }

    fn remove(&mut self, path: &str) {
        self.files.retain(|(one, _)| one != path);
    }

    fn perform(&mut self, action: &FileAction) -> FileReply {
        match action {
            FileAction::Copy(from, to) | FileAction::Rename(from, to) => {
                if self.broken.as_ref() == Some(to) {
                    return FileReply::Failed("disk".to_string());
                }
                match self.contents(from) {
                    None => FileReply::Failed("missing".to_string()),
                    Some(contents) => {
                        if matches!(action, FileAction::Rename(..)) {
                            self.remove(from);
                        }
                        self.put(to, contents);
                        FileReply::Done
                    }
                }
            }
            FileAction::Hash(path) => match self.contents(path) {
                None => FileReply::Failed("missing".to_string()),
                Some(contents) => FileReply::Hashed(contents),
            },
            FileAction::Find(path) => FileReply::Found(self.position(path).is_some()),
            FileAction::RemoveFile(path) | FileAction::RemoveCopy(path) => {
                self.remove(path);
                FileReply::Done
            }
            FileAction::Record => match &self.record {
                FileReply::Refused(stage, reason) => FileReply::Refused(stage.clone(), reason.clone()),
                _ => FileReply::Done,
            },
            FileAction::CreateDirectory(_) => FileReply::Done,
            FileAction::RemoveDirectory(directory) => {
                let inner = format!("{}/", directory);
                self.files.retain(|(one, _)| !one.starts_with(&inner));
                FileReply::Done
            }
        }
    }

    fn create(&mut self, hash: &str) -> Result<(), CopyFailure> {
        let mut copy = NewCopy::start(
            "source".to_string(),
            "dir".to_string(),
            "dir/temporary".to_string(),
            "dir/copy".to_string(),
            hash.to_string(),
        );
        loop {
            let reply = self.perform(&copy.action());
            match copy.advance(reply) {
                CreateStep::Next(next) => copy = next,
                CreateStep::Made => return Ok(()),
                CreateStep::Refused(failure) => {
                    for action in &failure.cleanup {
                        self.perform(action);
                    }
                    return Err(failure);
                }
            }
        }
    }

    fn replace(&mut self, hash: &str, old: &str) -> Result<(), CopyFailure> {
        let mut replacement = Replacement::start(
            "source".to_string(),
            hash.to_string(),
            "dir".to_string(),
            "dir/temporary".to_string(),
            "dir/copy".to_string(),
            old.to_string(),
            old != "dir/copy",
            "dir/old-backup".to_string(),
            "dir/current-backup".to_string(),
        );
        loop {
            let reply = self.perform(&replacement.action());
            match replacement.advance(reply) {
                ReplaceStep::Next(next) => replacement = next,
                ReplaceStep::Replaced(rest) => {
                    for action in &rest {
                        self.perform(action);
                    }
                    return Ok(());
                }
                ReplaceStep::Refused(failure) => {
                    for action in &failure.cleanup {
                        self.perform(action);
                    }
                    return Err(failure);
                }
            }
        }
    }
}

fn disk(files: &[(&str, &str)]) -> Disk {
    Disk {
        files: files.iter().map(|(path, contents)| (path.to_string(), contents.to_string())).collect(),
        record: FileReply::Done,
        broken: None,
    }
}

#[test]
fn explicit_paths_are_files_or_folders() {
    let scan = |input: &str, found: Result<(String, PathKind), String>| {
        scan_explicit_path(input, found, ImportSource::FilePicker)
    };
    match scan("D:\\a.pdf", Ok(("D:\\a.pdf".to_string(), PathKind::File))) {
        Ok(ScanEntry::File(path)) => assert_eq!(path, "D:\\a.pdf"),
        _ => panic!("a file"),
    }
    match scan("D:\\in", Ok(("D:\\in".to_string(), PathKind::Directory))) {
        Err(directory) => assert_eq!(directory, "D:\\in"),
        _ => panic!("a directory"),
    }
    match scan("D:\\x", Err("gone".to_string())) {
        Ok(ScanEntry::Failed { message, .. }) => assert!(message.contains("gone")),
        _ => panic!("a failure"),
    }
    match scan_directory_entry("D:\\in\\x".to_string(), Ok(PathKind::Symlink)) {
        Ok(ScanEntry::Ignored { .. }) => {}
        _ => panic!("ignored"),
    }
    match unreadable_directory("D:\\in".to_string(), false, "denied") {
        ScanEntry::Failed { message, .. } => assert_eq!(message, "无法扫描文件夹：denied"),
        _ => panic!("a failure"),
    }
}

#[test]
fn directories_are_walked_in_the_order_of_names() {
    let mut walk = ImportWalk::new();
    walk.add(ScanEntry::File("D:\\first.pdf".to_string()));
    walk.enter(
        "D:\\in".to_string(),
        Ok(vec![
            inside("b", PathKind::Directory),
            inside("c.pdf", PathKind::File),
            inside("a.pdf", PathKind::File),
        ]),
    );
    let directory = walk.next_directory().unwrap();
    assert_eq!(directory, "D:\\in\\b");
    walk.enter(directory, Ok(vec![inside("d.pdf", PathKind::File)]));
    assert_eq!(walk.next_directory(), None);
    let paths: Vec<String> = walk.into_entries().iter().map(|one| one.source_path()).collect();
    assert_eq!(
        paths,
        vec![
            "D:\\first.pdf".to_string(),
            "D:\\in\\a.pdf".to_string(),
            "D:\\in\\d.pdf".to_string(),
            "D:\\in\\c.pdf".to_string()
        ]
    );
    let sorted = sort_entries(vec![inside("b", PathKind::File), inside("a", PathKind::File)]);
    assert_eq!(sorted[0].name, "a");
}

#[test]
fn a_directory_that_cannot_be_listed_is_told_of() {
    let mut walk = ImportWalk::new();
    walk.enter(
        "D:\\in".to_string(),
        Err(ListingFailure { listed: true, reason: "denied".to_string() }),
    );
    match walk.into_entries().pop() {
        Some(ScanEntry::Failed { message, .. }) => assert_eq!(message, "无法读取文件夹内容：denied"),
        _ => panic!("a failure"),
    }
}

#[test]
fn entries_without_a_file_have_results_at_once() {
    assert!(item_without_file(&ScanEntry::File("a".to_string()), "i".to_string(), &None).is_none());
    let ignored = ScanEntry::Ignored { source_path: "D:\\x.exe".to_string() };
    let item = item_without_file(&ignored, "i".to_string(), &Some("c".to_string())).unwrap();
    assert_eq!(item.status, ImportItemStatus::Ignored);
    let broken = ScanEntry::Failed { source_path: "D:\\x".to_string(), message: "m".to_string() };
    let item = item_without_file(&broken, "i".to_string(), &None).unwrap();
    assert_eq!(item.status, ImportItemStatus::Failed);
    assert_eq!(item.error_message.as_deref(), Some("m"));
    assert!(item.retryable);
}

#[test]
fn a_file_is_measured_hashed_and_then_chosen() {
    let facts = |size: u64| Ok(FileFacts { is_file: true, size });
    let source = measure_source(
        "i".to_string(),
        "D:\\in\\A.pdf".to_string(),
        Ok("D:\\in\\A.pdf".to_string()),
        facts(9),
    );
    let source = match source {
        Ok(source) => source,
        Err(_) => panic!("measured"),
    };
    assert_eq!(source.file_type, "PDF");
    let ready = match prepare_source(source, Ok(()), Ok("h".to_string()), &None) {
        Ok(ready) => ready,
        Err(_) => panic!("prepared"),
    };
    assert_eq!(ready.source_identifier, "d:\\in\\a.pdf");
    assert_eq!(ready.content_hash, "h");
    match choose_import("i".to_string(), ready.copy(), Ok(None), Ok(None)) {
        ImportChoice::Create(_) => {}
        _ => panic!("a new document"),
    }
    match choose_import("i".to_string(), ready.copy(), Ok(Some("d".to_string())), Ok(None)) {
        ImportChoice::Ask(item, kept) => {
            assert_eq!(item.status, ImportItemStatus::SourceChanged);
            assert_eq!(kept.existing_document_id, "d");
        }
        _ => panic!("a question"),
    }
    match choose_import("i".to_string(), ready.copy(), Ok(None), Ok(Some("d".to_string()))) {
        ImportChoice::Ask(item, _) => {
            assert_eq!(item.status, ImportItemStatus::Duplicate);
            assert_eq!(item.duplicate_document_id.as_deref(), Some("d"));
        }
        _ => panic!("a question"),
    }
    match choose_import("i".to_string(), ready, Err("db".to_string()), Ok(None)) {
        ImportChoice::Fail(item) => assert!(item.error_message.unwrap().contains("db")),
        _ => panic!("a failure"),
    }
}

#[test]
fn files_that_cannot_be_measured_fail_with_the_reason() {
    let measure = |located: Result<String, String>, facts: Result<FileFacts, String>| {
        match measure_source("i".to_string(), "D:\\a.pdf".to_string(), located, facts) {
            Err(item) => item.error_message.unwrap(),
            Ok(_) => panic!("refused"),
        }
    };
    let here = || Ok("D:\\a.pdf".to_string());
    assert!(measure(Err("gone".to_string()), Err("gone".to_string())).contains("gone"));
    assert!(measure(here(), Ok(FileFacts { is_file: false, size: 0 })).contains("只能导入"));
    assert!(measure(here(), Ok(FileFacts { is_file: true, size: u64::MAX })).contains("超出支持范围"));
    assert!(measure(Ok("D:\\a.exe".to_string()), Ok(FileFacts { is_file: true, size: 1 })).contains("不支持"));
}

#[test]
fn documents_are_named_after_their_files() {
    assert_eq!(document_title("a.b.pdf"), "a.b");
    assert_eq!(library_path("id", "a.pdf"), "documents/id/a.pdf");
    let document = document_of(&pending(), "id".to_string(), "inbox".to_string(), "now".to_string());
    assert_eq!(document.title, "a.b");
    assert_eq!(document.collection_id, "inbox");
    assert_eq!(document.content_hash.as_deref(), Some("h"));
    let item = imported("i".to_string(), "D:\\a".to_string(), &document, &None, None);
    assert_eq!(item.status, ImportItemStatus::Imported);
    assert_eq!(item.document_id.as_deref(), Some("id"));
    let failure = CopyFailure { stage: "copy".to_string(), message: "m".to_string(), cleanup: Vec::new() };
    let item = refused("i".to_string(), &pending(), "D:\\a".to_string(), &failure);
    assert_eq!(item.error_stage.as_deref(), Some("copy"));
}

#[test]
fn single_files_are_imported_without_a_batch() {
    let facts = FileFacts { is_file: true, size: 3 };
    let source = check_single_source("D:\\a.txt".to_string(), facts, Ok(())).unwrap();
    let document = single_document_of(source, "id".to_string(), Ok("h".to_string()), "now".to_string());
    assert_eq!(document.file_type, "TXT");
    assert_eq!(document.content_hash.as_deref(), Some("h"));
    let marked = without_source(document, "db");
    assert_eq!(marked.processing_status, DocumentProcessingStatus::Failed);
    assert_eq!(marked.error_message.as_deref(), Some("无法记录来源信息：db"));
    let directory = FileFacts { is_file: false, size: 0 };
    assert!(check_single_source("D:\\in".to_string(), directory, Ok(())).is_err());
}

#[test]
fn a_replacing_file_is_measured_again() {
    let again = check_replacing_source(
        "i".to_string(),
        pending(),
        Ok("D:\\in\\a.b.pdf".to_string()),
        Ok(12),
        Ok("other".to_string()),
    );
    match again {
        Ok(pending) => {
            assert_eq!(pending.file_size, 12);
            assert_eq!(pending.content_hash, "other");
        }
        Err(_) => panic!("measured"),
    }
    let lost = check_replacing_source(
        "i".to_string(),
        pending(),
        Err("gone".to_string()),
        Ok(1),
        Ok("h".to_string()),
    );
    assert!(lost.is_err());
}

#[test]
fn a_new_copy_is_made_or_nothing_is_left() {
    let mut good = disk(&[("source", "h")]);
    assert!(good.create("h").is_ok());
    assert_eq!(good.contents("dir/copy").as_deref(), Some("h"));
    assert_eq!(good.contents("dir/temporary"), None);
    let mut changed = disk(&[("source", "h")]);
    let failure = changed.create("other").unwrap_err();
    assert_eq!(failure.stage, "hash");
    assert_eq!(failure.message, "源文件在导入过程中发生变化，请重试。");
    assert_eq!(changed.files.len(), 1);
    let mut full = disk(&[("source", "h")]);
    full.broken = Some("dir/temporary".to_string());
    assert_eq!(full.create("h").unwrap_err().message, "无法复制源文件：disk");
    let mut unrecorded = disk(&[("source", "h")]);
    unrecorded.record = FileReply::Refused("database".to_string(), "locked".to_string());
    assert_eq!(unrecorded.create("h").unwrap_err().stage, "database");
    assert_eq!(unrecorded.files.len(), 1);
}

#[test]
fn a_replacement_is_made_or_the_old_copy_is_back() {
    let before: &[(&str, &str)] = &[("source", "new"), ("dir/copy", "now"), ("dir/old", "old")];
    let mut good = disk(before);
    assert!(good.replace("new", "dir/old").is_ok());
    assert_eq!(good.contents("dir/copy").as_deref(), Some("new"));
    assert_eq!(good.files.len(), 2);
    let mut unrecorded = disk(before);
    unrecorded.record = FileReply::Refused("database".to_string(), "locked".to_string());
    assert_eq!(unrecorded.replace("new", "dir/old").unwrap_err().message, "locked");
    assert_eq!(unrecorded.contents("dir/copy").as_deref(), Some("now"));
    assert_eq!(unrecorded.contents("dir/old").as_deref(), Some("old"));
    assert_eq!(unrecorded.files.len(), 3);
    let mut changed = disk(before);
    assert_eq!(changed.replace("expected", "dir/copy").unwrap_err().stage, "hash");
    assert_eq!(changed.files.len(), 3);
    assert_eq!(changed.contents("dir/copy").as_deref(), Some("now"));
    let mut stuck = disk(before);
    stuck.broken = Some("dir/copy".to_string());
    assert!(stuck.replace("new", "dir/old").is_err());
}

#[test]
fn a_batch_hands_out_its_entries_in_order() {
    let mut batches = ImportBatches::new();
    let entries = vec![ScanEntry::File("D:\\a.pdf".to_string()), ScanEntry::File("D:\\b.pdf".to_string())];
    let started = batches.begin(
        library("l"),
        "batch".to_string(),
        entries,
        None,
        ClassificationMode::ApplyRules,
        None,
    );
    assert_eq!(started.total, 2);
    assert_eq!(started.completed, 0);
    let current = Some(library("l"));
    let task = batches.take("batch", &current).unwrap();
    assert_eq!(task.entry.source_path(), "D:\\a.pdf");
    let progress = batches.complete("batch", failed("one")).unwrap();
    assert_eq!(progress.completed, 1);
    assert!(batches.peek("batch").unwrap().is_some());
    assert!(batches.take("batch", &current).is_ok());
    batches.complete("batch", failed("two")).unwrap();
    assert!(batches.peek("batch").unwrap().is_none());
    assert!(batches.finished_progress("batch").unwrap().finished);
    assert_eq!(batches.library_of("batch").unwrap().id, "l");
    let batch = batches.finish("batch").unwrap();
    assert_eq!(batch.failed_count, 2);
    assert_eq!(batch.items[0].item_id, "one");
    assert!(batches.finish("batch").is_err());
}

#[test]
fn a_batch_stops_when_the_library_changes() {
    let mut batches = ImportBatches::new();
    batches.begin(
        library("l"),
        "batch".to_string(),
        vec![ScanEntry::File("D:\\a.pdf".to_string())],
        None,
        ClassificationMode::KeepExisting,
        Some("source".to_string()),
    );
    assert!(batches.take("batch", &Some(library("other"))).is_err());
    assert!(batches.take("batch", &None).is_err());
    batches.abort("batch");
    assert!(batches.library_of("batch").is_err());
    assert!(is_same_library(&library("l"), &library("l")));
    assert!(!is_same_library(&library("l"), &library("m")));
    assert!(ensure_current_library(&Some(library("l")), &library("l")).is_ok());
    assert!(ensure_current_library(&None, &library("l")).is_err());
}

#[test]
fn items_are_counted_by_their_status() {
    let items = vec![failed("a"), failed("b")];
    assert_eq!(count_items(&items, ImportItemStatus::Failed), 2);
    assert_eq!(count_items(&items, ImportItemStatus::Imported), 0);
    let batch = import_batch_from_items("batch".to_string(), items, Some("c".to_string()));
    assert_eq!(batch.failed_count, 2);
    assert_eq!(batch.target_collection_id.as_deref(), Some("c"));
}

fn waiting(status: ImportItemStatus) -> ImportItems {
    let mut item = failed("item");
    item.status = status;
    item.duplicate_document_id = Some("existing".to_string());
    let mut items = ImportItems::new();
    items.remember(ImportItemContext {
        owner_library: library("l"),
        item,
        pending: Some(pending()),
        target_collection_id: Some("c".to_string()),
    });
    items
}

#[test]
fn decisions_fit_the_status_they_answer() {
    assert!(decision_fits(ImportItemStatus::Duplicate, ImportDecision::UseExisting));
    assert!(!decision_fits(ImportItemStatus::Duplicate, ImportDecision::ReplaceExisting));
    assert!(decision_fits(ImportItemStatus::SourceChanged, ImportDecision::ReplaceExisting));
    let current = Some(library("l"));
    match waiting(ImportItemStatus::Duplicate).resolve("item", ImportDecision::UseExisting, &current) {
        Ok(ImportResolution::Settled(item)) => assert_eq!(item.document_id.as_deref(), Some("existing")),
        _ => panic!("settled"),
    }
    match waiting(ImportItemStatus::Duplicate).resolve("item", ImportDecision::ImportAnyway, &current) {
        Ok(ImportResolution::Create(_)) => {}
        _ => panic!("a new document"),
    }
    match waiting(ImportItemStatus::SourceChanged).resolve("item", ImportDecision::ReplaceExisting, &current) {
        Ok(ImportResolution::Replace(_)) => {}
        _ => panic!("a replacement"),
    }
    let wrong = waiting(ImportItemStatus::Duplicate).resolve("item", ImportDecision::CreateNew, &current);
    assert_eq!(wrong.map(|_| ()).unwrap_err().code(), "invalidImportDecision");
    let other = waiting(ImportItemStatus::Duplicate).resolve("item", ImportDecision::Cancel, &Some(library("m")));
    assert!(other.is_err());
    let unknown = waiting(ImportItemStatus::Duplicate).resolve("none", ImportDecision::Cancel, &current);
    assert_eq!(unknown.map(|_| ()).unwrap_err().code(), "importItemNotFound");
}

#[test]
fn only_failed_items_are_tried_again() {
    let current = Some(library("l"));
    let mut items = waiting(ImportItemStatus::Failed);
    let (path, target) = items.retry("item", &current).unwrap();
    assert_eq!(path, "D:\\in\\a.pdf");
    assert_eq!(target.as_deref(), Some("c"));
    assert!(waiting(ImportItemStatus::Duplicate).retry("item", &current).is_err());
    let mut items = waiting(ImportItemStatus::Failed);
    items.remember_target("item", &Some("d".to_string()));
    assert_eq!(items.retry("item", &current).unwrap().1.as_deref(), Some("d"));
}

fn single_copy() -> SingleCopy {
    SingleCopy::start(
        "D:\\a.txt".to_string(),
        "L/d".to_string(),
        "L/d/tmp".to_string(),
        "L/d/a.txt".to_string(),
    )
}

fn next_single(copy: SingleCopy, reply: FileReply) -> SingleCopy {
    match copy.advance(reply) {
        SingleStep::Next(next) => next,
        other => panic!("{:?}", other),
    }
}

#[test]
fn a_single_file_is_copied_under_a_temporary_name_first() {
    let copy = single_copy();
    assert_eq!(copy.action(), FileAction::CreateDirectory("L/d".to_string()));
    let copy = next_single(copy, FileReply::Done);
    assert_eq!(copy.action(), FileAction::Copy("D:\\a.txt".to_string(), "L/d/tmp".to_string()));
    let copy = next_single(copy, FileReply::Done);
    assert_eq!(copy.action(), FileAction::Rename("L/d/tmp".to_string(), "L/d/a.txt".to_string()));
    let copy = next_single(copy, FileReply::Done);
    assert_eq!(copy.action(), FileAction::Hash("L/d/a.txt".to_string()));
    match copy.clone().advance(FileReply::Hashed("h".to_string())) {
        SingleStep::Copied(hash) => assert_eq!(hash, Ok("h".to_string())),
        other => panic!("{:?}", other),
    }
    match copy.advance(FileReply::Failed("gone".to_string())) {
        SingleStep::Copied(hash) => assert_eq!(hash, Err("gone".to_string())),
        other => panic!("{:?}", other),
    }
}

#[test]
fn a_single_file_that_cannot_be_copied_leaves_no_temporary_file() {
    let refused = |copy: SingleCopy| match copy.advance(FileReply::Failed("full".to_string())) {
        SingleStep::Refused(error, cleanup) => {
            assert_eq!(error.code(), "filesystem");
            cleanup
        }
        other => panic!("{:?}", other),
    };
    assert!(refused(single_copy()).is_empty());
    let copying = next_single(single_copy(), FileReply::Done);
    let removal = vec![FileAction::RemoveFile("L/d/tmp".to_string())];
    assert_eq!(refused(copying.clone()), removal);
    assert_eq!(refused(next_single(copying, FileReply::Done)), removal);
}

#[test]
fn two_single_imports_of_a_file_give_two_documents_with_one_hash() {
    let import = |id: &str| {
        let facts = FileFacts { is_file: true, size: 3 };
        let source = check_single_source("D:\\in\\a.b.txt".to_string(), facts, Ok(())).unwrap();
        single_document_of(source, id.to_string(), Ok(content_hash(b"abc")), "now".to_string())
    };
    let (first, second) = (import("d1"), import("d2"));
    assert_ne!(first.id, second.id);
    assert_eq!(first.content_hash, second.content_hash);
    assert_eq!(
        second.content_hash.as_deref(),
        Some("ba7816bf8f01cfea414140de5dae2223b00361a396177a9cb410ff61f20015ad")
    );
    assert_eq!(second.collection_id, "inbox");
    assert_eq!(second.title, "a.b");
    assert!(second.tags.is_empty());
    assert_eq!(second.processing_status, DocumentProcessingStatus::Ready);
    assert_eq!(second.index_status, IndexStatus::Pending);
}
