use document_library::imports::PathKind;
use document_library::models::{
    ImportItemResult, ImportItemStatus, ReceiveSource, ReceiveSourceInput, ReceiveSourceKind,
    ReceiveSourceStatus,
};
use document_library::receive::{
    check_listed_directory, check_receive_directory, check_source_input, compare_source,
    decide_pending, default_receive_directories, has_moved, is_ignored_receive_directory,
    is_receive_candidate_file, is_scanned, list_or_nothing, listed_count, listing_item,
    load_receive_source, log_limit, may_receive, read_log_entry, receive_import_log_entry, receive_scan_result,
    receive_source_candidates, receive_status_for, sort_paths, source_content_changed, store_list,
    store_log_entry, undecided_item, unselected_files, validate_receive_path, DirectoryEntry,
    DirectoryProbe, FoundDirectory, HandledFile, PendingDecision, ReceiveWalk, RecordedSource,
    SourceComparison, MAX_RECEIVE_SCAN_DEPTH,
};

fn file(path: &str) -> DirectoryEntry {
    DirectoryEntry { path: path.to_string(), kind: PathKind::File }
}

fn directory(path: &str) -> DirectoryEntry {
    DirectoryEntry { path: path.to_string(), kind: PathKind::Directory }
}

fn item(status: ImportItemStatus, document: Option<&str>) -> ImportItemResult {
    ImportItemResult {
        item_id: "item".to_string(),
        source_path: "D:\\in\\a.pdf".to_string(),
        file_name: "a.pdf".to_string(),
        file_type: Some("PDF".to_string()),
        status,
        document_id: document.map(str::to_string),
        duplicate_document_id: None,
        error_stage: None,
        error_message: None,
        retryable: false,
        target_collection_id: None,
        collection_id: Some("planned".to_string()),
        notice: None,
    }
}

fn handled(path: &str, status: ImportItemStatus, time: &str) -> HandledFile {
    HandledFile { source_path: path.to_string(), status, created_at: time.to_string() }
}

#[test]
fn a_receiving_directory_has_a_name_and_a_place() {
    let input = |name: &str, path: &str| ReceiveSourceInput {
        kind: ReceiveSourceKind::Wechat,
        display_name: name.to_string(),
        path: path.to_string(),
        enabled: true,
    };
    assert_eq!(
        check_source_input(&input(" 微信 ", " D:\\in ")).unwrap(),
        ("微信".to_string(), "D:\\in".to_string())
    );
    assert!(check_source_input(&input(" ", "x")).unwrap_err().message().contains("名称不能为空"));
    assert!(check_source_input(&input("x", " ")).unwrap_err().message().contains("确认接收目录"));
    assert!(check_receive_directory(Ok(true)).is_ok());
    assert!(check_receive_directory(Ok(false)).is_err());
    assert!(check_receive_directory(Err("gone".to_string()))
        .unwrap_err()
        .message()
        .contains("gone"));
}

#[test]
fn a_receiving_directory_and_the_library_lie_apart() {
    assert!(validate_receive_path("D:\\Library", "D:\\in").is_ok());
    assert!(validate_receive_path("D:\\Library", "d:\\library\\").is_err());
    assert!(validate_receive_path("D:\\Library", "D:\\Library\\documents").is_err());
    assert!(validate_receive_path("D:\\all\\Library", "D:\\all").is_err());
    assert!(validate_receive_path("D:\\Library", "D:\\Library2").is_ok());
    assert!(has_moved(&Some("D:\\a".to_string()), "D:\\b"));
    assert!(!has_moved(&Some("D:\\a".to_string()), "d:\\A"));
}

#[test]
fn the_state_of_a_receiving_directory_is_told() {
    let path = Some("D:\\in".to_string());
    assert_eq!(receive_status_for(&path, DirectoryProbe::Readable), (ReceiveSourceStatus::Ready, None));
    assert_eq!(receive_status_for(&None, DirectoryProbe::Readable).0, ReceiveSourceStatus::Unconfigured);
    assert_eq!(receive_status_for(&path, DirectoryProbe::Missing).0, ReceiveSourceStatus::Missing);
    let failed = receive_status_for(&path, DirectoryProbe::Failed("denied".to_string()));
    assert_eq!(failed.0, ReceiveSourceStatus::Unreadable);
    assert!(failed.1.unwrap().contains("denied"));
    assert!(check_listed_directory(&None, true).is_err());
    assert!(check_listed_directory(&path, false).is_err());
    assert!(check_listed_directory(&path, true).is_ok());
}

#[test]
fn receiving_directories_are_found_by_id() {
    let source = ReceiveSource {
        id: "one".to_string(),
        kind: ReceiveSourceKind::Qq,
        display_name: "QQ".to_string(),
        path: Some("D:\\in".to_string()),
        enabled: true,
        status: ReceiveSourceStatus::Ready,
        status_message: None,
        pending_count: 0,
        last_scanned_at: None,
    };
    assert!(!is_scanned(&source));
    let mut chosen = source.clone();
    chosen.last_scanned_at = Some("now".to_string());
    assert!(is_scanned(&chosen));
    chosen.enabled = false;
    assert!(!is_scanned(&chosen));
    let list = vec![source];
    assert_eq!(load_receive_source(&list, "one").unwrap(), 0);
    assert!(load_receive_source(&list, "two").unwrap_err().message().contains("接收来源不存在"));
}

#[test]
fn directories_of_messengers_are_proposed() {
    let proposed = default_receive_directories(ReceiveSourceKind::Qq);
    assert_eq!(proposed[0].name, "Tencent Files");
    assert_eq!(default_receive_directories(ReceiveSourceKind::Wechat)[0].name, "WeChat Files");
    assert!(default_receive_directories(ReceiveSourceKind::Other).is_empty());
    let found = |path: &str, is_directory: bool| FoundDirectory {
        path: path.to_string(),
        evidence: "why".to_string(),
        is_directory,
    };
    let candidates = receive_source_candidates(
        &vec![
            found("D:\\in", true),
            found("D:\\none", false),
            found("d:\\IN\\", true),
            found("d:\\library", true),
        ],
        "D:\\Library",
    );
    assert_eq!(candidates.len(), 1);
    assert_eq!(candidates[0].path, "D:\\in");
    assert_eq!(candidates[0].evidence, "why");
}

#[test]
fn unfinished_and_hidden_files_are_not_received() {
    assert!(is_receive_candidate_file("D:\\in\\a.pdf"));
    assert!(!is_receive_candidate_file("D:\\in\\report-temp.pdf"));
    assert!(!is_receive_candidate_file("D:\\in\\.a.pdf"));
    assert!(!is_receive_candidate_file("D:\\in\\~$a.docx"));
    assert!(!is_receive_candidate_file("D:\\in\\a.pdf.crdownload"));
    assert!(is_ignored_receive_directory("D:\\in\\.git"));
    assert!(!is_ignored_receive_directory("D:\\in\\2026-01"));
}

#[test]
fn a_walk_takes_files_before_deeper_ones_of_other_directories() {
    let mut walk = ReceiveWalk::start("D:\\in", MAX_RECEIVE_SCAN_DEPTH);
    let mut seen: Vec<String> = Vec::new();
    while let Some(place) = walk.next_directory() {
        let entries = match place.as_str() {
            "D:\\in" => vec![
                file("D:\\in\\a.pdf"),
                directory("D:\\in\\b"),
                directory("D:\\in\\.hidden"),
                file("D:\\in\\c.txt"),
                file("D:\\in\\skip.exe"),
            ],
            "D:\\in\\b" => vec![file("D:\\in\\b\\d.csv")],
            _ => Vec::new(),
        };
        seen.push(place);
        walk.enter(entries);
    }
    assert_eq!(seen, vec!["D:\\in".to_string(), "D:\\in\\b".to_string()]);
    let files = sort_paths(&walk.into_files());
    assert_eq!(
        files,
        vec![
            "D:\\in\\a.pdf".to_string(),
            "D:\\in\\b\\d.csv".to_string(),
            "D:\\in\\c.txt".to_string()
        ]
    );
}

#[test]
fn a_walk_ends_at_its_depth() {
    let mut walk = ReceiveWalk::start("r", 1);
    let mut visited: usize = 0;
    while let Some(place) = walk.next_directory() {
        visited += 1;
        walk.enter(vec![directory(&format!("{}/x", place)), file(&format!("{}/f.txt", place))]);
    }
    assert_eq!(visited, 1);
    assert_eq!(walk.into_files().len(), 1);
}

#[test]
fn handled_files_are_left_alone() {
    let path = "D:\\in\\a.pdf";
    let none: Vec<HandledFile> = Vec::new();
    assert!(matches!(decide_pending(path, false, &none, true, "5"), PendingDecision::Import));
    assert!(matches!(decide_pending(path, true, &none, true, "5"), PendingDecision::Leave));
    let failed = vec![handled(path, ImportItemStatus::Failed, "7")];
    assert!(matches!(decide_pending(path, false, &failed, false, "5"), PendingDecision::Leave));
    assert!(matches!(decide_pending(path, false, &failed, false, "9"), PendingDecision::Import));
    assert!(matches!(decide_pending(path, false, &failed, true, "5"), PendingDecision::Import));
    let open = vec![handled(path, ImportItemStatus::SourceChanged, "1")];
    assert!(matches!(decide_pending(path, false, &open, true, "5"), PendingDecision::Leave));
    let done = vec![handled(path, ImportItemStatus::Imported, "1")];
    assert!(matches!(decide_pending(path, false, &done, true, "5"), PendingDecision::Compare));
}

#[test]
fn changed_files_are_imported_again() {
    let recorded = Some(RecordedSource {
        file_size: 10,
        file_modified_at: Some(5),
        content_hash: Some("h".to_string()),
    });
    assert!(matches!(compare_source(&None, 10, Some(5)), SourceComparison::Changed));
    assert!(matches!(compare_source(&recorded, 11, Some(5)), SourceComparison::HashNeeded(_)));
    let unknown = Some(RecordedSource {
        file_size: 10,
        file_modified_at: None,
        content_hash: Some("".to_string()),
    });
    assert!(matches!(compare_source(&unknown, 10, Some(5)), SourceComparison::Changed));
    assert!(matches!(compare_source(&unknown, 10, None), SourceComparison::Unchanged));
    assert!(matches!(compare_source(&recorded, 10, Some(5)), SourceComparison::Unchanged));
    match compare_source(&recorded, 10, Some(6)) {
        SourceComparison::HashNeeded(expected) => {
            assert_eq!(expected, "h");
            assert!(!source_content_changed(&expected, &Some("h".to_string())));
            assert!(source_content_changed(&expected, &Some("other".to_string())));
        }
        _ => panic!("the hash decides"),
    }
}

#[test]
fn files_that_were_not_chosen_are_skipped() {
    let files = vec!["D:\\a".to_string(), "D:\\b".to_string()];
    assert_eq!(unselected_files(&files, &vec!["D:\\a".to_string()]), vec!["D:\\b".to_string()]);
    assert_eq!(listed_count(600), 500);
    assert_eq!(listed_count(3), 3);
    let listed = listing_item("D:\\a.pdf", Some(7), true);
    assert_eq!(listed.file_name, "a.pdf");
    assert_eq!(listed.file_type.as_deref(), Some("PDF"));
    assert_eq!(listed.file_size, 7);
    assert!(listed.previously_skipped);
}

#[test]
fn every_outcome_of_a_scan_is_counted() {
    let items = vec![
        item(ImportItemStatus::Imported, Some("d")),
        item(ImportItemStatus::Duplicate, None),
        item(ImportItemStatus::SourceChanged, None),
        item(ImportItemStatus::Failed, None),
        item(ImportItemStatus::Ignored, None),
        item(ImportItemStatus::Skipped, None),
    ];
    let result = receive_scan_result("source", &items);
    assert_eq!(result.scanned_count, 6);
    assert_eq!(result.imported_count, 1);
    assert_eq!(result.pending_count, 1);
    assert_eq!(result.failed_count, 1);
    assert_eq!(result.skipped_count, 3);
}

#[test]
fn records_of_imports_are_read_back() {
    let put = Some(("inbox".to_string(), vec!["tag-a".to_string(), "引号\"".to_string()]));
    let rules = vec!["rule-1".to_string()];
    let entry = receive_import_log_entry(
        "source",
        &item(ImportItemStatus::Imported, Some("document-1")),
        &put,
        &rules,
        "2026-09-23T08:00:01Z",
    );
    assert_eq!(entry.collection_id.as_deref(), Some("inbox"));
    let stored = store_log_entry(&entry);
    assert_eq!(stored.status, "imported");
    assert_eq!(stored.tag_ids, "[\"tag-a\",\"引号\\\"\"]");
    assert_eq!(read_log_entry(&stored), entry);
    let failed = receive_import_log_entry(
        "source",
        &item(ImportItemStatus::Failed, None),
        &put,
        &Vec::new(),
        "now",
    );
    assert_eq!(failed.collection_id.as_deref(), Some("planned"));
    assert!(failed.tag_ids.is_empty());
    assert_eq!(store_list(&Vec::new()), "[]");
    let mut broken = store_log_entry(&failed);
    broken.tag_ids = "no list".to_string();
    assert!(read_log_entry(&broken).tag_ids.is_empty());
    assert!(list_or_nothing(None).is_empty());
}

#[test]
fn decided_items_are_not_offered_again() {
    let id = Some("item".to_string());
    assert_eq!(undecided_item(&id, &None), id);
    assert_eq!(undecided_item(&id, &Some("then".to_string())), None);
    assert_eq!(log_limit(0), 1);
    assert_eq!(log_limit(40), 40);
    assert_eq!(log_limit(9000), 500);
}

#[test]
fn nothing_is_received_before_the_first_listing_was_confirmed() {
    let source = ReceiveSource {
        id: "one".to_string(),
        kind: ReceiveSourceKind::Qq,
        display_name: "QQ".to_string(),
        path: Some("D:\\in".to_string()),
        enabled: true,
        status: ReceiveSourceStatus::Ready,
        status_message: None,
        pending_count: 0,
        last_scanned_at: None,
    };
    assert!(may_receive(&source, true, true));
    assert!(!may_receive(&source, false, true));
    assert!(!may_receive(&source, true, false));
    let off = ReceiveSource { enabled: false, ..source.clone() };
    assert!(!may_receive(&off, true, true));
    let nowhere = ReceiveSource { path: None, ..source };
    assert!(!may_receive(&nowhere, true, true));
}
