use document_library::collections::{
    check_tag_name, collection_is_descendant, create_collection, delete_collection,
    ensure_collection_exists, ensure_document_exists, ensure_tag_exists, load_collection_summary,
    move_collection, normalize_optional_text, rename_collection, restored_collection,
    tag_name_exists, update_document_metadata, validate_collection_name, validate_document_date,
    validate_document_title, validate_tag_name, INBOX_ID,
};
use document_library::documents::{
    batch_item_result, documents_of_batch, empty_trash_result, ensure_in_trash,
    ensure_moved_to_trash, move_to_trash, restore_from_trash, trash_item_result, BatchRun,
    DocumentPlace,
};
use document_library::error::LibraryError;
use document_library::models::{
    BatchDocumentItemStatus, BatchDocumentOperation, BatchDocumentOperationRequest,
    CollectionSummary, DocumentMetadataUpdate, DocumentProcessingStatus, DocumentSearchFilters,
    DocumentSummary, IndexStatus, SearchMatchKind, TagSummary,
};
use document_library::search::{
    check_filter_targets, fts_phrase, full_text_question, metadata_matches, normalize_search_filters, passes_filters,
    search_documents, to_ascii_uppercase, CollectionName, ContentMatch,
};

fn collection(id: &str, parent: Option<&str>) -> CollectionSummary {
    CollectionSummary {
        id: id.to_string(),
        name: id.to_string(),
        parent_id: parent.map(str::to_string),
        is_inbox: id == INBOX_ID,
        document_count: 2,
    }
}

fn tree() -> Vec<CollectionSummary> {
    vec![
        collection("inbox", None),
        collection("a", None),
        collection("b", Some("a")),
        collection("c", Some("b")),
    ]
}

fn tag(id: &str, name: &str) -> TagSummary {
    TagSummary { id: id.to_string(), name: name.to_string(), document_count: 0 }
}

fn document(id: &str, title: &str, collection: &str, date: Option<&str>) -> DocumentSummary {
    DocumentSummary {
        id: id.to_string(),
        title: title.to_string(),
        description: None,
        document_date: date.map(str::to_string),
        file_name: format!("{}.pdf", id),
        file_type: "PDF".to_string(),
        file_size: 1,
        content_hash: None,
        collection_id: collection.to_string(),
        tags: vec![tag("t1", "税务")],
        processing_status: DocumentProcessingStatus::Ready,
        index_status: IndexStatus::Searchable,
        error_stage: None,
        error_message: None,
        imported_at: "now".to_string(),
        source_path: "D:\\x".to_string(),
        source_identifier: "s".to_string(),
        last_imported_at: "now".to_string(),
    }
}

fn no_filters() -> DocumentSearchFilters {
    DocumentSearchFilters::default()
}

#[test]
fn names_are_trimmed_and_bounded() {
    assert_eq!(validate_collection_name(" 合同 ").unwrap(), "合同");
    assert_eq!(validate_collection_name(" ").unwrap_err().code(), "invalidCollection");
    assert_eq!(validate_tag_name(&"x".repeat(50)).unwrap().len(), 50);
    assert_eq!(validate_tag_name(&"x".repeat(51)).unwrap_err().code(), "invalidTag");
    assert!(validate_tag_name("").is_err());
    assert_eq!(validate_document_title(&"字".repeat(500)).unwrap().chars().count(), 500);
    assert_eq!(
        validate_document_title(&"字".repeat(501)).unwrap_err().code(),
        "invalidDocumentMetadata"
    );
    assert_eq!(normalize_optional_text(&Some(" a ".to_string())), Some("a".to_string()));
    assert_eq!(normalize_optional_text(&Some("  ".to_string())), None);
    assert_eq!(normalize_optional_text(&None), None);
}

#[test]
fn dates_are_days_of_the_calendar() {
    assert!(validate_document_date("2024-02-29").is_ok());
    assert!(validate_document_date("2023-02-29").is_err());
    assert!(validate_document_date("1900-02-29").is_err());
    assert!(validate_document_date("2000-02-29").is_ok());
    assert!(validate_document_date("0000-01-01").is_ok());
    assert!(validate_document_date("9999-12-31").is_ok());
    assert!(validate_document_date("2024-04-31").is_err());
    assert!(validate_document_date("2024-00-10").is_err());
    assert!(validate_document_date("2024-05-00").is_err());
    assert!(validate_document_date("2024-13-01").is_err());
    assert!(validate_document_date("yesterday").is_err());
    assert!(validate_document_date("").is_err());
}

#[test]
fn collections_form_a_tree() {
    let list = tree();
    assert!(collection_is_descendant(&list, "a", "c"));
    assert!(collection_is_descendant(&list, "a", "a"));
    assert!(!collection_is_descendant(&list, "c", "a"));
    assert!(!collection_is_descendant(&list, "zzz", "zzz"));
    let made = create_collection(&list, " new ", &Some("a".to_string()), "n").unwrap();
    assert_eq!(made.name, "new");
    assert_eq!(made.parent_id.as_deref(), Some("a"));
    assert_eq!(made.document_count, 0);
    assert_eq!(
        create_collection(&list, "x", &Some("zzz".to_string()), "n").unwrap_err().code(),
        "collectionNotFound"
    );
    assert_eq!(rename_collection(&list, "b", "B").unwrap().name, "B");
    assert_eq!(rename_collection(&list, "inbox", "B").unwrap_err().code(), "protectedCollection");
    assert_eq!(
        move_collection(&list, "a", &Some("c".to_string())).unwrap_err().code(),
        "collectionCycle"
    );
    assert_eq!(
        move_collection(&list, "a", &Some("a".to_string())).unwrap_err().code(),
        "collectionCycle"
    );
    assert_eq!(move_collection(&list, "c", &None).unwrap().parent_id, None);
    assert_eq!(load_collection_summary(&list, "b").unwrap().id, "b");
    assert!(load_collection_summary(&list, "zzz").is_err());
    assert!(ensure_collection_exists(&list, "zzz").is_err());
}

#[test]
fn deleted_collections_hand_their_contents_on() {
    let removal = delete_collection(&tree(), "b").unwrap();
    assert_eq!(removal.result.collection_id, "b");
    assert_eq!(removal.result.target_collection_id, "inbox");
    assert_eq!(removal.result.moved_document_count, 2);
    assert_eq!(removal.children_parent_id.as_deref(), Some("a"));
    assert!(delete_collection(&tree(), "inbox").is_err());
    assert!(delete_collection(&tree(), "zzz").is_err());
    assert_eq!(restored_collection(&tree(), &Some("b".to_string())), "b");
    assert_eq!(restored_collection(&tree(), &Some("gone".to_string())), "inbox");
    assert_eq!(restored_collection(&tree(), &None), "inbox");
}

#[test]
fn tags_have_names_of_their_own() {
    let tags = vec![tag("t1", "Tax"), tag("t2", "Home")];
    assert!(tag_name_exists(&tags, "tax", &None));
    assert!(!tag_name_exists(&tags, "tax", &Some("t1".to_string())));
    assert_eq!(check_tag_name(&tags, " New ", &None).unwrap(), "New");
    assert_eq!(check_tag_name(&tags, "HOME", &None).unwrap_err().code(), "tagAlreadyExists");
    assert_eq!(check_tag_name(&tags, "HOME", &Some("t2".to_string())).unwrap(), "HOME");
    assert_eq!(
        check_tag_name(&tags, "x", &Some("t9".to_string())).unwrap_err().code(),
        "tagNotFound"
    );
    assert!(ensure_tag_exists(&tags, "t1").is_ok());
    assert!(ensure_tag_exists(&tags, "t9").is_err());
}

#[test]
fn metadata_names_existing_things_once() {
    let update = |date: &str, collection: &str, tags: &[&str]| DocumentMetadataUpdate {
        title: " Title ".to_string(),
        description: Some(" ".to_string()),
        document_date: Some(date.to_string()),
        collection_id: collection.to_string(),
        tag_ids: tags.iter().map(|one| one.to_string()).collect(),
    };
    let tags = vec!["t1".to_string(), "t2".to_string()];
    let good = update_document_metadata(&update("2024-01-01", "a", &["t2", "t1", "t2"]), "d", true, &tree(), &tags);
    let good = good.unwrap();
    assert_eq!(good.title, "Title");
    assert_eq!(good.description, None);
    assert_eq!(good.document_date.as_deref(), Some("2024-01-01"));
    assert_eq!(good.tag_ids, vec!["t2".to_string(), "t1".to_string()]);
    let refused = |update: DocumentMetadataUpdate, exists: bool| {
        match update_document_metadata(&update, "d", exists, &tree(), &tags) {
            Err(error) => error.code().to_string(),
            Ok(_) => panic!("refused"),
        }
    };
    assert_eq!(refused(update("2024-99-01", "a", &[]), true), "invalidDocumentMetadata");
    assert_eq!(refused(update("2024-01-01", "zzz", &[]), true), "collectionNotFound");
    assert_eq!(refused(update("2024-01-01", "a", &["t9"]), true), "tagNotFound");
    assert_eq!(refused(update("2024-01-01", "a", &[]), false), "documentNotFound");
    assert!(ensure_document_exists("d", true).is_ok());
    assert!(ensure_document_exists("d", false).is_err());
}

#[test]
fn filters_are_checked_and_normalized() {
    let mut filters = no_filters();
    filters.file_type = Some("pdf".to_string());
    filters.collection_id = Some("  ".to_string());
    filters.document_date_from = Some("2024-01-01".to_string());
    filters.document_date_to = Some("2024-12-31".to_string());
    let normal = normalize_search_filters(&filters).unwrap();
    assert_eq!(normal.file_type.as_deref(), Some("PDF"));
    assert_eq!(normal.collection_id, None);
    assert!(passes_filters(&normal, &document("d", "T", "a", Some("2024-06-01"))));
    assert!(!passes_filters(&normal, &document("d", "T", "a", Some("2025-06-01"))));
    assert!(!passes_filters(&normal, &document("d", "T", "a", None)));
    filters.document_date_to = Some("2023-12-31".to_string());
    assert!(normalize_search_filters(&filters).unwrap_err().message().contains("不能晚于"));
    filters.document_date_to = Some("never".to_string());
    assert!(normalize_search_filters(&filters).is_err());
    assert_eq!(to_ascii_uppercase("aß1"), "Aß1");
}

#[test]
fn questions_are_quoted_for_the_index() {
    assert_eq!(fts_phrase("a \"b\""), "\"a \"\"b\"\"\"");
    assert_eq!(full_text_question("ab"), None);
    assert_eq!(full_text_question("abc"), Some("extracted_text : \"abc\"".to_string()));
}

#[test]
fn searches_look_at_contents_and_metadata() {
    let documents = vec![document("d1", "税务申报", "a", None), document("d2", "Other", "b", None)];
    let names = vec![
        CollectionName { id: "a".to_string(), name: "合同".to_string() },
        CollectionName { id: "b".to_string(), name: "杂项".to_string() },
    ];
    let none: Vec<ContentMatch> = Vec::new();
    assert_eq!(search_documents(&documents, "", &none, &names).len(), 2);
    assert!(metadata_matches(&documents[1], "other", &names));
    assert!(metadata_matches(&documents[1], "杂项", &names));
    assert!(!metadata_matches(&documents[1], "absent", &names));
    let matches = vec![ContentMatch { document_id: "d2".to_string(), snippet: "…here…".to_string() }];
    let found = search_documents(&documents, "申报", &matches, &names);
    assert_eq!(found.len(), 1);
    let found = search_documents(&documents, "something long", &matches, &names);
    assert_eq!(found.len(), 1);
    assert_eq!(found[0].document.id, "d2");
    assert_eq!(found[0].match_kind, SearchMatchKind::Content);
    assert_eq!(found[0].snippet.as_deref(), Some("…here…"));
}

#[test]
fn every_document_of_a_batch_gets_a_result() {
    let request = BatchDocumentOperationRequest {
        job_id: "job".to_string(),
        document_ids: vec!["a".to_string(), "b".to_string(), "a".to_string(), "c".to_string()],
        operation: BatchDocumentOperation::MoveToTrash,
    };
    assert_eq!(documents_of_batch(&request).len(), 3);
    let mut run = BatchRun::start(&request);
    assert_eq!(run.next_document().as_deref(), Some("a"));
    run.record(Some(Ok(())));
    run.record(Some(Err(LibraryError::DocumentNotFound("b".to_string()))));
    run.record(None);
    assert_eq!(run.next_document(), None);
    let result = run.finish("job".to_string(), BatchDocumentOperation::MoveToTrash);
    assert_eq!(result.succeeded_count, 1);
    assert_eq!(result.failed_count, 1);
    assert_eq!(result.cancelled_count, 1);
    assert_eq!(result.results[1].error_code.as_deref(), Some("documentNotFound"));
    assert_eq!(result.results[2].status, BatchDocumentItemStatus::Cancelled);
    assert_eq!(result.results[2].error_message, None);
    assert_eq!(batch_item_result("x", Some(Ok(()))).status, BatchDocumentItemStatus::Succeeded);
}

#[test]
fn the_trash_tells_what_was_deleted() {
    assert!(ensure_moved_to_trash("d", true).is_ok());
    assert!(ensure_moved_to_trash("d", false).unwrap_err().message().contains("已在回收站中"));
    assert!(ensure_in_trash("d", true).is_ok());
    assert!(ensure_in_trash("d", false).unwrap_err().message().contains("回收站中不存在文档"));
    let items = vec![
        trash_item_result("a", "a.pdf", Ok(())),
        trash_item_result("b", "b.pdf", Err(LibraryError::Io("locked".to_string()))),
    ];
    assert_eq!(items[1].error_code.as_deref(), Some("filesystem"));
    let result = empty_trash_result(items);
    assert_eq!(result.deleted_count, 1);
    assert_eq!(result.failed_count, 1);
}

#[test]
fn searches_name_collections_and_tags_that_are_there() {
    let tags = vec!["t1".to_string()];
    let check = |collection: Option<&str>, tag: Option<&str>| {
        let filters = DocumentSearchFilters {
            collection_id: collection.map(str::to_string),
            tag_id: tag.map(str::to_string),
            ..no_filters()
        };
        check_filter_targets(&filters, &tree(), &tags)
    };
    assert!(check(None, None).is_ok());
    assert!(check(Some("a"), Some("t1")).is_ok());
    let error = check(Some("gone"), Some("gone")).unwrap_err();
    assert_eq!(error.code(), "collectionNotFound");
    assert_eq!(error.message(), "集合不存在：gone");
    let error = check(Some("a"), Some("gone")).unwrap_err();
    assert_eq!(error.code(), "tagNotFound");
    assert_eq!(error.message(), "标签不存在：gone");
}

#[test]
fn documents_go_to_the_trash_and_come_back_once() {
    let place = DocumentPlace {
        collection_id: "b".to_string(),
        original_collection_id: None,
        in_trash: false,
    };
    assert!(restore_from_trash("d", Some(place.clone()), &tree()).is_err());
    let gone = move_to_trash("d", Some(place)).unwrap();
    assert!(gone.in_trash);
    assert_eq!(gone.original_collection_id.as_deref(), Some("b"));
    let error = move_to_trash("d", Some(gone.clone())).unwrap_err();
    assert_eq!(error.message(), "文档不存在或已在回收站中：d");
    assert!(move_to_trash("d", None).is_err());

    let back = restore_from_trash("d", Some(gone.clone()), &tree()).unwrap();
    assert_eq!(back.collection_id, "b");
    assert!(!back.in_trash && back.original_collection_id.is_none());
    let error = restore_from_trash("d", Some(back), &tree()).unwrap_err();
    assert_eq!(error.code(), "documentNotFound");
    assert_eq!(error.message(), "回收站中不存在文档：d");

    let fewer = vec![collection("inbox", None), collection("a", None)];
    assert_eq!(restore_from_trash("d", Some(gone), &fewer).unwrap().collection_id, INBOX_ID);
    assert!(restore_from_trash("d", None, &fewer).is_err());
}
