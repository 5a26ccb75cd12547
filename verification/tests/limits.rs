use document_library::limits::{
    bound_extracted_text, clamp_table_range, read_capacity, read_stream_limited, ArchiveLimits, ExpansionBudget,
    INDEX_ARCHIVE_EXPANDED_BYTES, MAX_ARCHIVE_INPUT_BYTES, MAX_ENTRY_COMPRESSION_RATIO,
    MAX_EXTRACTED_TEXT_CHARS, MAX_TABLE_PREVIEW_COLUMNS, MAX_TABLE_PREVIEW_ROWS,
};

fn tiny_limits() -> ArchiveLimits {
    ArchiveLimits {
        max_input_bytes: 1024,
        max_entry_bytes: 64,
        max_expanded_bytes: 100,
        max_compression_ratio: 10,
    }
}

#[test]
fn rejects_input_larger_than_the_budget() {
    let budget = ExpansionBudget::new(tiny_limits());
    assert!(budget.check_input_size(1024).is_ok());
    let error = budget.check_input_size(1025).unwrap_err();
    assert!(error.message().contains("文档过大"));
}

#[test]
fn rejects_an_entry_whose_declared_size_exceeds_the_limit() {
    let mut budget = ExpansionBudget::new(tiny_limits());
    let error = budget.check_entry_size("word/document.xml", 4096).unwrap_err();
    assert!(error.message().contains("单条目上限"));
    assert_eq!(budget.expanded_bytes(), 0);
    assert!(read_stream_limited(&b"x"[..], "big.xml", 4096, &mut budget).is_err());
}

#[test]
fn rejects_a_compression_bomb_ratio() {
    let budget = ExpansionBudget::new(tiny_limits());
    assert!(budget.check_compression_ratio("ok.xml", 100, 500).is_ok());
    let error = budget.check_compression_ratio("bomb.xml", 10, 10_000).unwrap_err();
    assert!(error.message().contains("压缩比"));
    assert!(budget
        .check_compression_ratio("zero.xml", 0, 10)
        .unwrap_err()
        .message()
        .contains("压缩大小声明为 0"));
    assert!(budget.check_compression_ratio("empty.xml", 0, 0).is_ok());
}

#[test]
fn reads_an_entry_exactly_at_the_limit() {
    let mut budget = ExpansionBudget::new(tiny_limits());
    let payload = vec![b'a'; 64];
    let read = read_stream_limited(&payload[..], "ok.xml", 64, &mut budget).unwrap();
    assert_eq!(read.len(), 64);
    assert_eq!(budget.expanded_bytes(), 64);
}

#[test]
fn rejects_an_entry_that_lies_about_its_size_before_full_allocation() {
    let mut budget = ExpansionBudget::new(tiny_limits());
    let payload = vec![b'a'; 4096];
    let error = read_stream_limited(&payload[..], "liar.xml", 8, &mut budget).unwrap_err();
    assert!(error.message().contains("实际解压量"));
    assert_eq!(budget.expanded_bytes(), 0);
}

#[test]
fn stops_when_cumulative_expansion_exceeds_the_budget() {
    let mut budget = ExpansionBudget::new(tiny_limits());
    let first = vec![b'a'; 60];
    let second = vec![b'b'; 60];
    read_stream_limited(&first[..], "a.xml", 60, &mut budget).unwrap();
    let error = read_stream_limited(&second[..], "b.xml", 60, &mut budget).unwrap_err();
    assert!(error.message().contains("累计解压量"));
    assert_eq!(budget.expanded_bytes(), 120);
    assert!(budget.ensure_within_budget().is_err());
}

#[test]
fn extracted_text_is_bounded_and_reports_truncation() {
    let short = bound_extracted_text("你好 world".to_string());
    assert_eq!(short.text, "你好 world");
    assert!(!short.truncated);

    let long = "中".repeat(MAX_EXTRACTED_TEXT_CHARS + 10);
    let bounded = bound_extracted_text(long);
    assert_eq!(bounded.text.chars().count(), MAX_EXTRACTED_TEXT_CHARS);
    assert!(bounded.truncated);
}

#[test]
fn table_ranges_are_clamped_to_the_preview_limits() {
    assert_eq!(clamp_table_range(0, 50, 8), (0, 50, 8));
    assert_eq!(
        clamp_table_range(10, 100_000, 10_000),
        (10, MAX_TABLE_PREVIEW_ROWS, MAX_TABLE_PREVIEW_COLUMNS)
    );
    assert_eq!(clamp_table_range(5, 0, 0), (5, 1, 1));
}

#[test]
fn named_presets_narrow_the_expansion_budget_for_preview_work() {
    assert_eq!(
        ArchiveLimits::for_index().max_expanded_bytes,
        INDEX_ARCHIVE_EXPANDED_BYTES
    );
    assert!(
        ArchiveLimits::for_preview().max_expanded_bytes
            < ArchiveLimits::for_index().max_expanded_bytes
    );
    assert!(
        ArchiveLimits::for_table_preview().max_expanded_bytes
            < ArchiveLimits::for_preview().max_expanded_bytes
    );
    assert_eq!(ArchiveLimits::for_preview().max_input_bytes, MAX_ARCHIVE_INPUT_BYTES);
    assert_eq!(
        ArchiveLimits::for_index().max_compression_ratio,
        MAX_ENTRY_COMPRESSION_RATIO
    );
}

#[test]
fn the_messages_of_the_limits_name_the_numbers() {
    let budget = ExpansionBudget::new(tiny_limits());
    let error = budget.check_input_size(2048).unwrap_err();
    assert_eq!(error.code(), "preview");
    assert!(error.message().contains("2048"));
    assert!(error.message().contains("1024"));
}

#[test]
fn room_is_made_for_what_is_declared_within_the_limit() {
    assert_eq!(read_capacity(10, 100), 11);
    assert_eq!(read_capacity(1_000_000_000, 100), 101);
}
