use std::collections::HashSet;

use document_library::formats::{
    canonical_file_type, capability_for_file_type, capability_for_path,
    document_format_capabilities, importable_display_types, require_capability_for_file_type,
    supported_file_type, unsupported_message, DocumentFormatId, PreviewStrategy, SecurityPolicy,
    TextExtractionStrategy, ThumbnailStrategy, ValidationStrategy,
};

#[test]
fn capability_table_is_complete_unique_and_fully_enabled() {
    let capabilities = document_format_capabilities();
    assert_eq!(
        capabilities
            .iter()
            .map(|capability| capability.display_type.as_str())
            .collect::<Vec<_>>(),
        ["PDF", "DOCX", "TXT", "Markdown", "JPG", "PNG", "PPTX", "CSV", "XLSX"]
    );

    let mut extensions = HashSet::new();
    for capability in &capabilities {
        assert!(!capability.extensions.is_empty());
        for extension in &capability.extensions {
            assert!(extensions.insert(extension), "duplicate extension: {extension}");
        }
        assert_eq!(capability.security.macros, SecurityPolicy::Blocked);
        assert_eq!(capability.security.scripts, SecurityPolicy::Blocked);
        assert_eq!(capability.security.remote_resources, SecurityPolicy::Blocked);
        assert_eq!(capability.security.media_autoplay, SecurityPolicy::Blocked);
        assert_eq!(capability.security.source_mutation, SecurityPolicy::Blocked);
    }

    let pptx = capability_for_file_type("PPTX").unwrap();
    assert_eq!(capability_for_file_type("pptx").unwrap().id, DocumentFormatId::Pptx);
    assert!(pptx.import_enabled);
    assert_eq!(pptx.validation, ValidationStrategy::PptxPackage);
    assert_eq!(pptx.preview, PreviewStrategy::PptxPages);
    assert_eq!(pptx.thumbnail, ThumbnailStrategy::PptxFirstPage);
    assert_eq!(pptx.text_extraction, TextExtractionStrategy::PptxText);

    let csv = capability_for_file_type("csv").unwrap();
    assert_eq!(csv.id, DocumentFormatId::Csv);
    assert_eq!(csv.validation, ValidationStrategy::CsvText);
    assert_eq!(csv.preview, PreviewStrategy::TablePaged);
    assert_eq!(csv.text_extraction, TextExtractionStrategy::TableText);
    assert!(csv.searchable);

    let xlsx = capability_for_path("C:/Docs/账目.XLSX").unwrap();
    assert_eq!(xlsx.id, DocumentFormatId::Xlsx);
    assert_eq!(xlsx.validation, ValidationStrategy::XlsxPackage);
    assert_eq!(xlsx.preview, PreviewStrategy::TablePaged);
    assert_eq!(xlsx.text_extraction, TextExtractionStrategy::TableText);

    assert_eq!(importable_display_types().len(), 9);
    assert!(unsupported_message().contains("PPTX"));
    assert!(unsupported_message().contains("CSV"));
    assert!(unsupported_message().contains("XLSX"));
}

#[test]
fn every_format_is_found_by_its_name_and_its_extensions() {
    for capability in document_format_capabilities() {
        let by_name = capability_for_file_type(&capability.display_type).unwrap();
        assert_eq!(by_name.id, capability.id);
        assert_eq!(
            canonical_file_type(&capability.display_type.to_lowercase()).as_deref(),
            Some(capability.display_type.as_str())
        );
        for extension in &capability.extensions {
            let path = format!("/docs/a.b.{}", extension.to_uppercase());
            assert_eq!(capability_for_path(&path).unwrap().id, capability.id);
            assert_eq!(
                supported_file_type(&path).as_deref(),
                Some(capability.display_type.as_str())
            );
        }
    }
    assert!(capability_for_path("/docs/archive.zip").is_none());
    assert!(capability_for_path("/docs/.pdf").is_none());
}

#[test]
fn unknown_file_types_are_reported_with_their_name() {
    let error = require_capability_for_file_type("EXE").unwrap_err();
    assert_eq!(error.code(), "unsupportedFile");
    assert_eq!(error.message(), "不支持的文档格式：EXE");
}
