use document_library::error::LibraryError;
use document_library::locations::{
    check_creation, check_format_version, check_location_named, check_opening, cloud_sync_warning,
    comparable_path, creation_error_after_cleanup, directory_name, external_url_to_open,
    files_of_creation, finish_inspection, forget_recent, is_root, is_safe_external_url,
    library_to_reopen, list_recent_libraries, new_metadata, record_recent,
    reserved_location_reason, screen_location, strip_verbatim_prefix, summary_from_metadata,
    unwritable_reason, PlaceFacts, Screening, WriteProbe, MAX_RECENT_LIBRARIES,
};
use document_library::models::{LibraryLocationInspection, LocationStatus, RecentLibraryRecord};
use document_library::paths::{
    display_file_name, file_stem, path_extension, path_file_name, paths_equal,
};

fn record(path: &str, time: &str) -> RecentLibraryRecord {
    RecentLibraryRecord {
        path: path.to_string(),
        name: "name".to_string(),
        last_opened_at: time.to_string(),
    }
}

fn facts(exists: bool, is_directory: bool, is_library: bool, has_entries: bool) -> PlaceFacts {
    PlaceFacts { exists, is_directory, is_library, has_entries }
}

fn decided(screening: Screening) -> LibraryLocationInspection {
    match screening {
        Screening::Decided(inspection) => inspection,
        Screening::Probe => panic!("a decision"),
    }
}

#[test]
fn paths_are_compared_without_case() {
    assert_eq!(strip_verbatim_prefix("\\\\?\\C:\\Library"), "C:\\Library");
    assert_eq!(strip_verbatim_prefix("/home/x"), "/home/x");
    assert!(paths_equal("C:\\Docs\\A.pdf", "c:\\docs\\a.PDF"));
    assert!(!paths_equal("C:\\Docs\\A.pdf", "C:\\Docs\\B.pdf"));
    assert_eq!(comparable_path("C:\\Docs\\"), comparable_path("c:\\docs"));
    assert!(is_root("C:\\"));
    assert!(is_root("/"));
    assert!(!is_root("C:\\Docs"));
}

#[test]
fn the_parts_of_file_names_are_found() {
    assert_eq!(path_file_name("/a/b.txt"), Some("b.txt".to_string()));
    assert_eq!(path_extension("/a/b.tar.gz"), Some("gz".to_string()));
    assert_eq!(path_extension("/a/b"), None);
    assert_eq!(path_extension("/a/.hidden"), None);
    assert_eq!(display_file_name("/a/b.txt"), "b.txt");
    assert_eq!(file_stem("b.tar.gz"), "b.tar");
    assert_eq!(file_stem(".hidden"), ".hidden");
}

#[test]
fn reserved_places_cannot_hold_a_library() {
    let roots = vec!["C:\\Windows".to_string()];
    assert_eq!(
        reserved_location_reason("C:\\", &roots, &None).as_deref(),
        Some("不能把整个磁盘根目录用作资料库。")
    );
    assert_eq!(
        reserved_location_reason("c:\\windows\\system32", &roots, &None).as_deref(),
        Some("系统目录不能用作资料库。")
    );
    assert_eq!(reserved_location_reason("D:\\Library", &roots, &None), None);
    let blocked = decided(screen_location(
        "C:\\",
        Some("reason".to_string()),
        facts(true, true, false, false),
    ));
    assert_eq!(blocked.status, LocationStatus::Blocked);
    assert_eq!(blocked.reason.as_deref(), Some("reason"));
    assert!(check_creation(&blocked).is_err());
    assert!(check_opening(&blocked).is_err());
}

#[test]
fn empty_places_are_probed_and_then_usable() {
    let file = decided(screen_location("D:\\a.txt", None, facts(true, false, false, false)));
    assert_eq!(file.reason.as_deref(), Some("所选位置不是目录。"));
    let full = decided(screen_location("D:\\full", None, facts(true, true, false, true)));
    assert_eq!(full.reason.as_deref(), Some("目录不为空。请选择一个空目录或已有资料库。"));
    assert!(matches!(
        screen_location("D:\\new", None, facts(false, false, false, false)),
        Screening::Probe
    ));
    let usable = finish_inspection("D:\\new", false, unwritable_reason(WriteProbe::Written));
    assert_eq!(usable.status, LocationStatus::Usable);
    assert!(check_creation(&usable).is_ok());
    assert!(check_opening(&usable).is_err());
    let library = finish_inspection("D:\\old", true, None);
    assert_eq!(library.status, LocationStatus::ExistingLibrary);
    assert!(check_opening(&library).is_ok());
    assert_eq!(
        check_creation(&library).unwrap_err().message(),
        LibraryError::InvalidLocation("该位置已经包含资料库，请直接打开。".to_string()).message()
    );
    let denied = finish_inspection("D:\\new", false, unwritable_reason(WriteProbe::Denied));
    assert_eq!(denied.status, LocationStatus::Blocked);
    assert_eq!(
        unwritable_reason(WriteProbe::Failed("disk".to_string())).as_deref(),
        Some("无法验证目录写入权限：disk")
    );
    assert!(unwritable_reason(WriteProbe::NotDirectory).is_some());
}

#[test]
fn synchronized_places_are_warned_of() {
    assert_eq!(cloud_sync_warning("C:\\Users\\a\\OneDrive\\Library").unwrap().provider, "OneDrive");
    assert_eq!(cloud_sync_warning("C:\\Library"), None);
}

#[test]
fn libraries_have_a_version_and_a_name() {
    assert!(check_location_named("").is_err());
    assert!(check_location_named("D:\\x").is_ok());
    assert!(check_format_version(1).is_ok());
    assert!(check_format_version(2).unwrap_err().message().contains("不支持资料库格式版本 2。"));
    assert_eq!(directory_name("D:\\Papers"), "Papers");
    let metadata = new_metadata("D:\\Papers", "id", "now");
    let summary = summary_from_metadata("D:\\Papers", &metadata);
    assert_eq!(summary.id, "id");
    assert_eq!(summary.name, "Papers");
    assert_eq!(summary.path, "D:\\Papers");
    assert_eq!(summary.created_at, "now");
    assert!(!files_of_creation().is_empty());
    let cause = || LibraryError::InvalidLibrary("broken".to_string());
    assert_eq!(
        creation_error_after_cleanup("D:\\x", cause(), None).message(),
        cause().message()
    );
    let both = creation_error_after_cleanup("D:\\x", cause(), Some("locked".to_string())).message();
    assert!(both.contains("broken") && both.contains("locked"));
}

#[test]
fn recent_libraries_stay_few_and_distinct() {
    let mut list: Vec<RecentLibraryRecord> = Vec::new();
    for number in 0..15 {
        list = record_recent(&list, record(&format!("D:\\{}", number), "t"));
    }
    assert_eq!(list.len(), MAX_RECENT_LIBRARIES);
    assert_eq!(list[0].path, "D:\\14");
    list = record_recent(&list, record("d:\\10", "later"));
    assert_eq!(list.len(), MAX_RECENT_LIBRARIES);
    assert_eq!(list[0].last_opened_at, "later");
    assert_eq!(list.iter().filter(|one| paths_equal(&one.path, "D:\\10")).count(), 1);
    let shown = list_recent_libraries(&list, &vec![true; list.len()]);
    assert!(shown.iter().all(|one| one.is_available));
    assert_eq!(library_to_reopen(&list, false).as_deref(), Some("d:\\10"));
    assert_eq!(library_to_reopen(&list, true), None);
    let kept = forget_recent(&list, "D:\\10");
    assert_eq!(kept.len(), MAX_RECENT_LIBRARIES - 1);
}

#[test]
fn only_web_links_are_opened() {
    assert!(is_safe_external_url("https://example.com"));
    assert!(is_safe_external_url("HTTP://example.com"));
    assert!(!is_safe_external_url("file:///etc/passwd"));
    assert!(!is_safe_external_url("javascript:alert(1)"));
    assert_eq!(external_url_to_open("https://example.com").unwrap(), "https://example.com");
    assert_eq!(external_url_to_open("ftp://x").unwrap_err().code(), "invalidExternalUrl");
}
