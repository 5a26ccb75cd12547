use document_library::copies::{FileAction, FileReply};
use document_library::error::LibraryError;
use document_library::indexing::{
    count_document, decide_compare, decide_scan, fingerprint_of, hash_copy, measure_copy,
    missing_copy, missing_fingerprint, progress_is_due, refresh_copy, sole_replacement_file,
    update_index, ChangeWatcher, CompareStep, CopyFacts, DocumentRefreshFailure, Look,
    MeasuredCopy, RefreshedDocument, ScanStep, SiblingFile, SoleReplacement, StoredDocumentIndex,
    WatchedCopy,
};
use document_library::models::{
    CommandError, DocumentIndexPhase, DocumentProcessingStatus, ImportItemStatus, IndexRunResult,
    IndexStatus, LibrarySummary, ReceiveSourceKind, ReceiveSourceStatus,
};
use document_library::models::{
    import_status_from_str, import_status_to_str, receive_kind_from_str, receive_kind_to_str,
    receive_status_from_str, receive_status_to_str,
};
use document_library::recovery::{
    artifact_kind, artifact_name, choose_recovery, copy_matches_recorded_content, document_path,
    ensure_document_copy_exists, finish_deletion, invalid_copy_path, isolate_failure,
    plan_directory, settle_tombstone, start_deletion, tombstone_settled, unrecoverable,
    ArtifactKind, CopyProbe, DeletionStart, Recovery, RecoveryChoice, RecoveryStep, TombstoneFate,
};
use document_library::text::{
    eq_ignore_ascii_case, from_utf8, is_before, is_white, sort_texts, split_lines, trimmed,
};

fn stored() -> StoredDocumentIndex {
    StoredDocumentIndex {
        id: "d".to_string(),
        file_name: "a.pdf".to_string(),
        file_type: "PDF".to_string(),
        file_size: 10,
        content_hash: Some("h".to_string()),
        file_modified_at: Some(5),
        library_path: "documents/d/a.pdf".to_string(),
        processing_status: DocumentProcessingStatus::Ready,
        index_status: IndexStatus::Searchable,
    }
}

fn library(id: &str) -> LibrarySummary {
    LibrarySummary {
        id: id.to_string(),
        name: "n".to_string(),
        path: "p".to_string(),
        created_at: "t".to_string(),
    }
}

fn look(changed: &[&str], pending: i64, size: u64) -> Look {
    Look {
        library: library("l"),
        changed_document_ids: changed.iter().map(|one| one.to_string()).collect(),
        pending_count: pending,
        copies: vec![WatchedCopy {
            document_id: "d".to_string(),
            fingerprint: fingerprint_of(true, size, Some(1)),
        }],
    }
}

fn names(list: &[&str]) -> Vec<String> {
    list.iter().map(|one| one.to_string()).collect()
}

#[test]
fn runs_of_the_index_count_their_documents() {
    let mut result = IndexRunResult::default();
    count_document(&mut result, IndexStatus::Searchable);
    count_document(&mut result, IndexStatus::Failed);
    assert_eq!((result.processed, result.searchable, result.failed), (2, 1, 1));
    assert!(progress_is_due(100) && progress_is_due(700));
    assert!(!progress_is_due(0) && !progress_is_due(101));
}

#[test]
fn unchanged_copies_are_kept() {
    let document = stored();
    assert!(matches!(
        decide_scan(&document, Some(fingerprint_of(true, 10, Some(5))), false),
        ScanStep::Keep
    ));
    assert!(!matches!(
        decide_scan(&document, Some(fingerprint_of(true, 11, Some(5))), false),
        ScanStep::Keep
    ));
    assert!(!matches!(decide_scan(&document, Some(missing_fingerprint()), false), ScanStep::Keep));
    assert!(matches!(
        decide_scan(&document, Some(fingerprint_of(true, 10, Some(5))), true),
        ScanStep::Compare
    ));
    let print = fingerprint_of(true, 10, Some(6));
    assert!(matches!(
        decide_compare(&document, &print, &Some("h".to_string())),
        CompareStep::Touch(6)
    ));
    assert!(matches!(
        decide_compare(&document, &print, &Some("other".to_string())),
        CompareStep::Mark
    ));
}

#[test]
fn a_lost_copy_may_have_been_replaced() {
    let files = |list: &[(&str, bool)]| {
        list.iter()
            .map(|(name, is_file)| SiblingFile { name: name.to_string(), is_file: *is_file })
            .collect::<Vec<SiblingFile>>()
    };
    assert_eq!(sole_replacement_file(&files(&[("b.exe", true)])), Some(0));
    assert_eq!(sole_replacement_file(&files(&[("b.exe", true), ("c.exe", true)])), None);
    assert_eq!(sole_replacement_file(&files(&[])), None);
    assert!(missing_copy("documents/d/a.pdf", &None).message.contains("资料库副本不存在：a.pdf"));
    let other = Some(SoleReplacement {
        path: "documents/d/b.exe".to_string(),
        size: Some(1),
        modified_at: None,
    });
    assert!(missing_copy("documents/d/a.pdf", &other).message.contains("b.exe"));
}

#[test]
fn copies_are_measured_hashed_and_read_again() {
    let facts = |is_file: bool, size: u64| Ok(CopyFacts { is_file, size, modified_at: Some(7) });
    let measured = match measure_copy("documents/d/a.pdf", "PDF", facts(true, 12)) {
        Ok(measured) => measured,
        Err(_) => panic!("measured"),
    };
    assert_eq!(measured.file_size, 12);
    let reason = |path: &str, facts: Result<CopyFacts, String>| match measure_copy(path, "PDF", facts) {
        Err(failure) => failure.message,
        Ok(_) => panic!("refused"),
    };
    assert!(reason("d/a.pdf", facts(false, 0)).contains("不是文件"));
    assert!(reason("d/a.txt", facts(true, 1)).contains("文件类型已变为 TXT"));
    assert!(reason("d/a.exe", facts(true, 1)).contains("不支持的文件类型"));
    assert!(reason("d/a.pdf", facts(true, u64::MAX)).contains("超出支持范围"));
    assert!(reason("d/a.pdf", Err("denied".to_string())).contains("denied"));
    assert_eq!(hash_copy(&measured, "PDF", Ok("h".to_string())).ok(), Some("h".to_string()));
    assert!(hash_copy(&measured, "PDF", Err("x".to_string())).is_err());
    let read = refresh_copy(&measured, "h".to_string(), Ok(()), Ok("text".to_string()));
    let read = match read {
        Ok(read) => read,
        Err(_) => panic!("read"),
    };
    assert_eq!(read.extracted_text, "text");
    let update = update_index(&stored(), Ok(read));
    assert_eq!(update.index_status, IndexStatus::Searchable);
    assert_eq!(update.text.as_deref(), Some("text"));
    assert_eq!(update.error_message, None);
}

#[test]
fn what_could_not_be_read_is_told_in_the_index() {
    let copy = MeasuredCopy { file_size: 12, file_modified_at: None };
    let failure = match refresh_copy(&copy, "h".to_string(), Err("broken".to_string()), Ok("t".to_string())) {
        Err(failure) => failure,
        Ok(_) => panic!("refused"),
    };
    let update = update_index(&stored(), Err(failure));
    assert_eq!(update.index_status, IndexStatus::Failed);
    assert!(update.error_message.unwrap().contains("broken"));
    assert_eq!(update.text, None);
    let changed = update_index(
        &stored(),
        Ok(RefreshedDocument {
            file_size: 10,
            content_hash: "new".to_string(),
            file_modified_at: None,
            extracted_text: "".to_string(),
        }),
    );
    assert!(changed.drop_thumbnails);
    let lost = DocumentRefreshFailure {
        stage: "read".to_string(),
        message: "m".to_string(),
        file_size: None,
        content_hash: None,
        file_modified_at: None,
    };
    assert_eq!(update_index(&stored(), Err(lost)).file_size, 10);
}

#[test]
fn changes_are_indexed_once_they_are_quiet() {
    let mut watcher = ChangeWatcher::new(10);
    let first = watcher.look(look(&[], 0, 1), 0);
    assert!(first.event.is_none());
    assert!(!first.index_now);
    let changed = watcher.look(look(&["d"], 1, 2), 5);
    match changed.event {
        Some(event) => assert_eq!(event.phase, DocumentIndexPhase::Processing),
        None => panic!("an event"),
    }
    assert!(!changed.index_now);
    assert!(!watcher.look(look(&[], 1, 2), 9).index_now);
    assert!(watcher.look(look(&[], 1, 2), 15).index_now);
    match watcher.indexed(Some(IndexRunResult { processed: 1, searchable: 1, failed: 0 })) {
        Some(event) => assert_eq!(event.phase, DocumentIndexPhase::Completed),
        None => panic!("an event"),
    }
    watcher.forget();
    assert!(watcher.library.is_none());
}

#[test]
fn leftover_files_are_known_by_their_names() {
    for kind in [ArtifactKind::Tombstone, ArtifactKind::Backup, ArtifactKind::Temporary] {
        assert_eq!(artifact_kind(&artifact_name(kind, "u")), kind);
    }
    assert_eq!(artifact_kind("a.pdf"), ArtifactKind::Copy);
    assert_eq!(artifact_name(ArtifactKind::Tombstone, "u"), ".pdm-delete-u.tombstone");
    assert_eq!(artifact_name(ArtifactKind::Backup, "u"), ".u.previous");
    assert_eq!(artifact_name(ArtifactKind::Temporary, "u"), ".u.importing");
}

#[test]
fn copies_lie_inside_the_library() {
    assert_eq!(
        document_path("documents/d/a.pdf").unwrap(),
        names(&["documents", "d", "a.pdf"])
    );
    assert_eq!(document_path("../a.pdf").unwrap_err().code(), "documentFileMissing");
    assert!(document_path("/etc/passwd").is_err());
    assert!(invalid_copy_path("a.pdf").message().contains("资料库副本路径无效：a.pdf"));
    assert!(ensure_document_copy_exists("p", true).is_ok());
    assert!(ensure_document_copy_exists("p", false).is_err());
}

#[test]
fn deletions_are_finished_or_undone() {
    assert!(matches!(start_deletion("p", CopyProbe::File), Ok(DeletionStart::MoveAside)));
    assert!(matches!(start_deletion("p", CopyProbe::Missing), Ok(DeletionStart::LookForTombstone)));
    assert!(start_deletion("p", CopyProbe::NotFile).is_err());
    assert!(start_deletion("p", CopyProbe::Failed("x".to_string())).is_err());
    assert_eq!(
        settle_tombstone(TombstoneFate::Recorded, "t", "p", false),
        FileAction::Rename("t".to_string(), "p".to_string())
    );
    let removed = FileAction::RemoveCopy("t".to_string());
    assert_eq!(settle_tombstone(TombstoneFate::Recorded, "t", "p", true), removed);
    assert_eq!(settle_tombstone(TombstoneFate::Deleted, "t", "p", false), removed);
    assert_eq!(
        settle_tombstone(TombstoneFate::Stray, "t", "", false),
        FileAction::RemoveFile("t".to_string())
    );
    assert!(tombstone_settled(FileReply::Done).is_ok());
    let locked = FileReply::Failed("locked".to_string());
    assert_eq!(tombstone_settled(locked.clone()).unwrap_err().code(), "filesystem");

    assert!(finish_deletion(Ok(()), Some(locked.clone())).is_ok());
    let refused = || Err(LibraryError::Database("busy".to_string()));
    assert_eq!(finish_deletion(refused(), Some(FileReply::Done)).unwrap_err().code(), "database");
    assert_eq!(finish_deletion(refused(), None).unwrap_err().code(), "database");
    assert_eq!(finish_deletion(refused(), Some(locked)).unwrap_err().code(), "filesystem");
}

#[test]
fn interrupted_replacements_are_recovered() {
    let found = plan_directory(
        &names(&[".pdm-delete-u.tombstone", ".u.previous", "a.pdf"]),
        &names(&["a.pdf"]),
        true,
    );
    assert_eq!(found.tombstones, names(&[".pdm-delete-u.tombstone"]));
    assert_eq!(found.leftovers, names(&[".u.previous"]));
    let hash = Some("h".to_string());
    assert!(copy_matches_recorded_content(true, &hash, &hash));
    assert!(!copy_matches_recorded_content(false, &hash, &hash));
    assert!(!copy_matches_recorded_content(true, &hash, &Some("x".to_string())));
    assert!(matches!(choose_recovery(true, &vec![false]), RecoveryChoice::Clean));
    assert!(matches!(choose_recovery(false, &vec![false, true]), RecoveryChoice::Adopt(1)));
    assert!(matches!(choose_recovery(false, &vec![false]), RecoveryChoice::Fail));
    assert!(Recovery::start("p", &names(&["x"]), RecoveryChoice::Fail).action().is_none());
    assert!(unrecoverable("d", "p").message.contains("（p）"));
    let isolated = isolate_failure("d", LibraryError::Io("locked".to_string()));
    match isolated {
        Ok(failure) => assert!(failure.message.contains("locked")),
        Err(_) => panic!("told of"),
    }
}

#[test]
fn stored_names_are_read_back() {
    for status in [
        ImportItemStatus::Imported,
        ImportItemStatus::Duplicate,
        ImportItemStatus::SourceChanged,
        ImportItemStatus::Failed,
        ImportItemStatus::Ignored,
        ImportItemStatus::Skipped,
    ] {
        assert_eq!(import_status_from_str(import_status_to_str(status)), status);
    }
    for kind in [ReceiveSourceKind::Qq, ReceiveSourceKind::Wechat, ReceiveSourceKind::Other] {
        assert_eq!(receive_kind_from_str(receive_kind_to_str(kind)), kind);
    }
    for status in [
        ReceiveSourceStatus::Unconfigured,
        ReceiveSourceStatus::Ready,
        ReceiveSourceStatus::Missing,
        ReceiveSourceStatus::Unreadable,
    ] {
        assert_eq!(receive_status_from_str(receive_status_to_str(status)), status);
    }
    assert_eq!(DocumentProcessingStatus::from_database("ready"), Some(DocumentProcessingStatus::Ready));
    assert_eq!(IndexStatus::from_database("none"), None);
}

#[test]
fn errors_have_codes_and_messages() {
    let errors = vec![
        LibraryError::InvalidLocation("x".to_string()),
        LibraryError::InvalidLibrary("x".to_string()),
        LibraryError::RecentLibrary("x".to_string()),
        LibraryError::Io("x".to_string()),
        LibraryError::Database("x".to_string()),
        LibraryError::Json("x".to_string()),
        LibraryError::OpenDirectory("x".to_string()),
        LibraryError::Preview("x".to_string()),
        LibraryError::UnsafePreview("x".to_string()),
        LibraryError::ImportFile("x".to_string()),
        LibraryError::UnsupportedFile("x".to_string()),
        LibraryError::InvalidImportDecision("x".to_string()),
        LibraryError::ImportItemNotFound("x".to_string()),
        LibraryError::ProtectedCollection("x".to_string()),
        LibraryError::CollectionCycle("x".to_string()),
        LibraryError::CollectionNotFound("x".to_string()),
        LibraryError::InvalidCollection("x".to_string()),
        LibraryError::InvalidTag("x".to_string()),
        LibraryError::TagNotFound("x".to_string()),
        LibraryError::TagAlreadyExists("x".to_string()),
        LibraryError::DocumentNotFound("x".to_string()),
        LibraryError::DocumentFileMissing("x".to_string()),
        LibraryError::InvalidDocumentMetadata("x".to_string()),
        LibraryError::StaleThumbnail("x".to_string()),
        LibraryError::OpenDocument("x".to_string()),
        LibraryError::InvalidExternalUrl("x".to_string()),
    ];
    let mut codes: Vec<&str> = errors.iter().map(|error| error.code()).collect();
    for error in &errors {
        assert!(error.message().contains('x'), "{}", error.code());
        let shown = CommandError::of(error);
        assert_eq!(shown.code, error.code());
        assert_eq!(shown.message, error.message());
    }
    codes.sort();
    codes.dedup();
    assert!(codes.len() > 20);
    assert!(!LibraryError::NoCurrentLibrary.message().is_empty());
    assert!(!LibraryError::StateLock.message().is_empty());
}

#[test]
fn white_space_is_what_the_standard_library_says() {
    for code in 0..=0x10ffffu32 {
        if let Some(c) = char::from_u32(code) {
            assert_eq!(is_white(c), c.is_whitespace(), "{}", code);
        }
    }
    assert_eq!(trimmed("\u{3000} a b \t"), "a b");
}

#[test]
fn texts_are_compared_and_split_as_the_standard_library_does() {
    let texts = names(&["b", "", "a", "ab", "é", "B", "\u{ffff}", "\u{10000}"]);
    let mut expected = texts.clone();
    expected.sort();
    assert_eq!(sort_texts(&texts), expected);
    for left in &texts {
        for right in &texts {
            assert_eq!(is_before(left, right), left < right);
            assert_eq!(eq_ignore_ascii_case(left, right), left.eq_ignore_ascii_case(right));
        }
    }
    for text in ["", "a", "a\n", "a\r\nb", "\n\n", "a\rb\n", "a\n\r\n"] {
        let expected: Vec<String> = text.lines().map(str::to_string).collect();
        assert_eq!(split_lines(text), expected);
    }
    assert_eq!(from_utf8("é".as_bytes()), Ok("é".to_string()));
    assert_eq!(from_utf8(b"ab\xff"), Err(2));
}

fn recover_with(replies: &[FileReply], choice: RecoveryChoice) -> (Vec<FileAction>, Option<LibraryError>) {
    let mut recovery = Recovery::start("p", &names(&["x", "y"]), choice);
    let mut performed = Vec::new();
    while let Some(action) = recovery.action() {
        let reply = replies[performed.len()].clone();
        performed.push(action.clone());
        match recovery.advance(reply) {
            RecoveryStep::Next(next) => recovery = next,
            RecoveryStep::Failed(error) => return (performed, Some(error)),
        }
    }
    (performed, None)
}

#[test]
fn a_recovery_fails_only_where_the_copy_cannot_be_put_in_its_place() {
    let (done, locked) = (FileReply::Done, FileReply::Failed("locked".to_string()));
    let remove = |path: &str| FileAction::RemoveCopy(path.to_string());
    let adopted =
        vec![remove("p"), FileAction::Rename("y".to_string(), "p".to_string()), remove("x")];

    let adopt = RecoveryChoice::Adopt(1);
    let (performed, error) = recover_with(&[done.clone(), done.clone(), locked.clone()], adopt);
    assert_eq!(performed, adopted);
    assert!(error.is_none());

    let (performed, error) = recover_with(&[locked.clone()], adopt);
    assert_eq!(performed, adopted[..1].to_vec());
    assert_eq!(error.unwrap().code(), "filesystem");

    let (performed, error) = recover_with(&[done.clone(), locked.clone()], adopt);
    assert_eq!(performed, adopted[..2].to_vec());
    assert!(error.unwrap().message().contains("locked"));

    let (performed, error) = recover_with(&[locked.clone(), locked], RecoveryChoice::Clean);
    assert_eq!(performed, vec![remove("x"), remove("y")]);
    assert!(error.is_none());
}
