use document_library::batches::ClassificationMode;
use document_library::copies::{FileAction, FileReply};
use document_library::error::LibraryError;
use document_library::imports::{FileFacts, PendingImport};
use document_library::models::{
    ClassificationRule, DocumentProcessingStatus, DocumentSummary, ImportItemStatus, IndexStatus,
};
use document_library::runs::{
    document_directory, join_path, locate_source, recorded_rows, ImportAction, ImportOrder,
    ImportReply, ImportRun, ImportStep, ReplaceAction, ReplaceOrder, ReplaceReply, ReplaceRun,
    ReplaceRunStep,
};

fn order(force: bool, target: Option<&str>, mode: ClassificationMode) -> ImportOrder {
    ImportOrder {
        item_id: "item".to_string(),
        source_path: "D:/in/Report.pdf".to_string(),
        from_file: true,
        force,
        target_collection_id: target.map(str::to_string),
        classification: mode,
        document_id: "doc".to_string(),
        root: "D:/Library".to_string(),
        unique: "u".to_string(),
    }
}

fn pending() -> PendingImport {
    PendingImport {
        source_path: "D:/in/Report.pdf".to_string(),
        file_name: "Report.pdf".to_string(),
        file_type: "PDF".to_string(),
        file_size: 3,
        source_identifier: "d:/in/report.pdf".to_string(),
        content_hash: "hash".to_string(),
        existing_document_id: "old".to_string(),
        target_collection_id: None,
    }
}

fn rule() -> ClassificationRule {
    ClassificationRule {
        id: "r1".to_string(),
        name: "reports".to_string(),
        enabled: true,
        position: 0,
        file_name_pattern: "report".to_string(),
        file_type: None,
        source_directory: None,
        collection_id: Some("reports".to_string()),
        tag_ids: vec!["t".to_string()],
    }
}

/// What the run is told.
struct Answers {
    located: Result<String, String>,
    checked: Result<(), String>,
    copied_hash: String,
    changed: Option<String>,
    duplicate: Option<String>,
    target_exists: bool,
    rules_known: bool,
}

fn answers() -> Answers {
    Answers {
        located: Ok("D:/in/Report.pdf".to_string()),
        checked: Ok(()),
        copied_hash: "hash".to_string(),
        changed: None,
        duplicate: None,
        target_exists: true,
        rules_known: true,
    }
}

fn finish(mut run: ImportRun, told: &Answers) -> (ImportStep, Vec<String>) {
    let mut log: Vec<String> = Vec::new();
    loop {
        let reply = match run.action() {
            ImportAction::Locate(_) => ImportReply::Located(told.located.clone()),
            ImportAction::Measure(_) => ImportReply::Measured(Ok(FileFacts { is_file: true, size: 3 })),
            ImportAction::Check(_, _) => ImportReply::Checked(told.checked.clone()),
            ImportAction::Hash(_) => ImportReply::Hashed(Ok("hash".to_string())),
            ImportAction::FindChange(source, hash) => {
                assert_eq!((source.as_str(), hash.as_str()), ("d:/in/report.pdf", "hash"));
                ImportReply::Found(Ok(told.changed.clone()))
            }
            ImportAction::FindDuplicate(_) => ImportReply::Found(Ok(told.duplicate.clone())),
            ImportAction::FindCollection(_) => ImportReply::Exists(Ok(told.target_exists)),
            ImportAction::ReadRules => ImportReply::Rules(if told.rules_known {
                Ok((vec![rule()], "inbox".to_string()))
            } else {
                Err(LibraryError::Database("locked".to_string()))
            }),
            ImportAction::File(action) => {
                log.push(format!("{:?}", action));
                ImportReply::File(match action {
                    FileAction::Hash(_) => FileReply::Hashed(told.copied_hash.clone()),
                    FileAction::Record => {
                        let record = run.record("now").unwrap();
                        log.push(format!("{} {:?}", record.document.collection_id, record.tag_ids));
                        log.push(record.library_path);
                        FileReply::Done
                    }
                    _ => FileReply::Done,
                })
            }
        };
        match run.advance(reply) {
            ImportStep::Next(next) => run = next,
            step => return (step, log),
        }
    }
}

#[test]
fn a_file_goes_where_the_rules_say() {
    let run = ImportRun::start(order(false, None, ClassificationMode::ApplyRules));
    let (step, log) = finish(run, &answers());
    match step {
        ImportStep::Imported(item) => {
            assert_eq!(item.status, ImportItemStatus::Imported);
            assert_eq!(item.document_id.as_deref(), Some("doc"));
            assert_eq!(item.collection_id.as_deref(), Some("reports"));
            assert_eq!(item.notice, None);
        }
        _ => panic!("imported"),
    }
    assert!(log.contains(&"reports [\"t\"]".to_string()));
    assert!(log.contains(&"documents/doc/Report.pdf".to_string()));
    assert!(log[0].contains("D:/Library/documents/doc"));
}

#[test]
fn a_target_counts_before_the_rules_while_it_is_there() {
    let chosen = || order(false, Some("mine"), ClassificationMode::ApplyRules);
    match finish(ImportRun::start(chosen()), &answers()).0 {
        ImportStep::Imported(item) => {
            assert_eq!(item.collection_id.as_deref(), Some("mine"));
            assert_eq!(item.target_collection_id.as_deref(), Some("mine"));
        }
        _ => panic!("imported"),
    }
    let mut gone = answers();
    gone.target_exists = false;
    match finish(ImportRun::start(chosen()), &gone).0 {
        ImportStep::Imported(item) => {
            assert_eq!(item.collection_id.as_deref(), Some("reports"));
            assert!(item.notice.is_some());
        }
        _ => panic!("imported"),
    }
    let keep = order(false, None, ClassificationMode::KeepExisting);
    match finish(ImportRun::start(keep), &answers()).0 {
        ImportStep::Imported(item) => assert_eq!(item.collection_id.as_deref(), Some("inbox")),
        _ => panic!("imported"),
    }
}

#[test]
fn conflicts_become_questions_unless_forced() {
    let mut known = answers();
    known.duplicate = Some("other".to_string());
    let run = ImportRun::start(order(false, Some("mine"), ClassificationMode::ApplyRules));
    match finish(run, &known).0 {
        ImportStep::Ask(item, pending) => {
            assert_eq!(item.status, ImportItemStatus::Duplicate);
            assert_eq!(item.target_collection_id.as_deref(), Some("mine"));
            assert_eq!(pending.existing_document_id, "other");
            let mut resumed = order(false, Some("mine"), ClassificationMode::ApplyRules);
            resumed.from_file = false;
            assert!(matches!(
                finish(ImportRun::resume(resumed, pending), &known).0,
                ImportStep::Imported(_)
            ));
        }
        _ => panic!("a question"),
    }
    let forced = ImportRun::start(order(true, None, ClassificationMode::ApplyRules));
    assert!(matches!(finish(forced, &known).0, ImportStep::Imported(_)));
    known.changed = Some("older".to_string());
    let run = ImportRun::start(order(false, None, ClassificationMode::ApplyRules));
    match finish(run, &known).0 {
        ImportStep::Ask(item, _) => assert_eq!(item.status, ImportItemStatus::SourceChanged),
        _ => panic!("a question"),
    }
}

#[test]
fn what_fails_names_its_stage() {
    let start = || ImportRun::start(order(false, Some("mine"), ClassificationMode::ApplyRules));
    let failed = |told: &Answers| match finish(start(), told).0 {
        ImportStep::Failed(item, cleanup) => (item, cleanup.len()),
        _ => panic!("failed"),
    };
    let mut lost = answers();
    lost.located = Err("gone".to_string());
    let (item, cleanup) = failed(&lost);
    assert_eq!(item.error_stage.as_deref(), Some("scan"));
    assert_eq!(item.target_collection_id.as_deref(), Some("mine"));
    assert_eq!(cleanup, 0);
    let mut broken = answers();
    broken.checked = Err("no pdf".to_string());
    assert_eq!(failed(&broken).0.error_stage.as_deref(), Some("validate"));
    let mut changed = answers();
    changed.copied_hash = "other".to_string();
    let (item, cleanup) = failed(&changed);
    assert_eq!(item.error_stage.as_deref(), Some("hash"));
    assert_eq!(cleanup, 1);
    let mut locked = answers();
    locked.rules_known = false;
    assert!(matches!(finish(start(), &locked).0, ImportStep::Broken(_)));
}

#[test]
fn a_copy_is_replaced_and_the_document_read_again() {
    let mut run = ReplaceRun::start(ReplaceOrder {
        item_id: "item".to_string(),
        pending: pending(),
        root: "D:/Library".to_string(),
        temporary_unique: "t".to_string(),
        old_unique: "o".to_string(),
        current_unique: "c".to_string(),
    });
    let item = loop {
        let reply = match run.action() {
            ReplaceAction::Locate(path) => ReplaceReply::Located(Ok(path)),
            ReplaceAction::Measure(_) => ReplaceReply::Measured(Ok(9)),
            ReplaceAction::Hash(_) => ReplaceReply::Hashed(Ok("new".to_string())),
            ReplaceAction::FindExisting(id) => {
                assert_eq!(id, "old");
                ReplaceReply::Existing(Ok(Some("documents/old/Before.pdf".to_string())))
            }
            ReplaceAction::File(action) => ReplaceReply::File(match action {
                FileAction::Hash(_) => FileReply::Hashed("new".to_string()),
                FileAction::Find(path) => FileReply::Found(path.ends_with("Before.pdf")),
                FileAction::Record => {
                    let record = run.record().unwrap();
                    assert_eq!(record.document_id, "old");
                    assert_eq!(record.file_size, 9);
                    assert_eq!(record.content_hash, "new");
                    assert_eq!(record.library_path, "documents/old/Report.pdf");
                    assert_eq!(record.index_status, IndexStatus::Pending);
                    recorded_rows(1)
                }
                _ => FileReply::Done,
            }),
            ReplaceAction::Load(rest, id) => {
                assert_eq!(
                    rest,
                    vec![FileAction::RemoveFile("D:/Library/documents/old/.o.previous".to_string())]
                );
                assert_eq!(id, "old");
                ReplaceReply::Loaded(Ok(document("old")))
            }
        };
        match run.advance(reply) {
            ReplaceRunStep::Next(next) => run = next,
            ReplaceRunStep::Replaced(item) => break item,
            _ => panic!("replaced"),
        }
    };
    assert_eq!(item.document_id.as_deref(), Some("old"));
    assert_eq!(item.collection_id.as_deref(), Some("kept"));
}

fn document(id: &str) -> DocumentSummary {
    DocumentSummary {
        id: id.to_string(),
        title: "T".to_string(),
        description: None,
        document_date: None,
        file_name: "Report.pdf".to_string(),
        file_type: "PDF".to_string(),
        file_size: 9,
        content_hash: Some("new".to_string()),
        collection_id: "kept".to_string(),
        tags: Vec::new(),
        processing_status: DocumentProcessingStatus::Ready,
        index_status: IndexStatus::Pending,
        error_stage: None,
        error_message: None,
        imported_at: "then".to_string(),
        source_path: "D:/in/Report.pdf".to_string(),
        source_identifier: "d:/in/report.pdf".to_string(),
        last_imported_at: "now".to_string(),
    }
}

#[test]
fn documents_that_are_gone_cannot_be_replaced() {
    assert_eq!(
        recorded_rows(0),
        FileReply::Refused("database".to_string(), "要替换的文档不存在或已删除。".to_string())
    );
    assert_eq!(recorded_rows(1), FileReply::Done);
    let mut run = ReplaceRun::start(ReplaceOrder {
        item_id: "item".to_string(),
        pending: pending(),
        root: "D:/Library".to_string(),
        temporary_unique: "t".to_string(),
        old_unique: "o".to_string(),
        current_unique: "c".to_string(),
    });
    let error = loop {
        let reply = match run.action() {
            ReplaceAction::Locate(path) => ReplaceReply::Located(Ok(path)),
            ReplaceAction::Measure(_) => ReplaceReply::Measured(Ok(9)),
            ReplaceAction::Hash(_) => ReplaceReply::Hashed(Ok("new".to_string())),
            _ => ReplaceReply::Existing(Ok(None)),
        };
        match run.advance(reply) {
            ReplaceRunStep::Next(next) => run = next,
            ReplaceRunStep::Broken(error) => break error,
            _ => panic!("gone"),
        }
    };
    assert!(error.message().contains("要替换的文档不存在或已删除。"));
}

#[test]
fn sources_are_located_before_they_are_read() {
    let place = || Ok("D:/a.pdf".to_string());
    assert_eq!(locate_source("a.pdf", true, place(), true).unwrap(), "D:/a.pdf");
    assert!(locate_source("", true, place(), true).unwrap_err().message().contains("请选择"));
    assert!(locate_source("a.pdf", false, place(), true).unwrap_err().message().contains("不存在：a.pdf"));
    assert!(locate_source("a", true, place(), false).unwrap_err().message().contains("只能导入文件：D:/a.pdf"));
    assert_eq!(locate_source("a", true, Err("x".to_string()), true).unwrap_err().code(), "filesystem");
    assert_eq!(join_path("a", "b"), "a/b");
    assert_eq!(document_directory("r", "d"), "r/documents/d");
}
