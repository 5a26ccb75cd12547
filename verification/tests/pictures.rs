use document_library::content::{
    content_needed, extract_search_text, read_utf8_text, validate_content_size,
    validate_file_content, ContentNeed, MAX_TEXT_READ_BYTES,
};
use document_library::digest::{content_hash, known_content_version, to_hex};
use document_library::error::LibraryError;
use document_library::formats::{capability, DocumentFormatId, ThumbnailStrategy, ValidationStrategy};
use document_library::images::{
    accept_picture, data_url, decode_validated_thumbnail_data_url, image_dimensions, is_png,
    is_supported_thumbnail_image, is_thumbnail_to_remove, jpeg_dimensions, pptx_thumbnail_version,
    safe_cache_component, thumbnail_cache_name, thumbnail_extension, MAX_THUMBNAIL_BYTES,
};
use document_library::models::{DocumentPreview, DocumentThumbnail};
use document_library::package::{write_package_entries, PackageEntry};
use document_library::preview::{
    accept_generated_thumbnail, accept_rendered_page, bounded_preview_text, cached_page_count,
    check_thumbnail_saving, document_thumbnail, judge_cached_picture, judge_cached_png, no_pptx_thumbnail,
    page_to_render, preview_document, preview_page, shown_preview, CachedPicture, RenderedPdfPage,
};

fn png(width: u32, height: u32) -> Vec<u8> {
    let mut bytes = b"\x89PNG\r\n\x1a\n\0\0\0\rIHDR".to_vec();
    bytes.extend_from_slice(&width.to_be_bytes());
    bytes.extend_from_slice(&height.to_be_bytes());
    bytes.extend_from_slice(&[8, 6, 0, 0, 0]);
    bytes
}

fn jpeg(width: u16, height: u16) -> Vec<u8> {
    let mut bytes = vec![0xff, 0xd8, 0xff, 0xe0, 0, 4, 1, 2, 0xff, 0xc0, 0, 11, 8];
    bytes.extend_from_slice(&height.to_be_bytes());
    bytes.extend_from_slice(&width.to_be_bytes());
    bytes.extend_from_slice(&[1, 1, 0x11, 0, 0xff, 0xd9]);
    bytes
}

fn word_document() -> Vec<u8> {
    write_package_entries(&[
        PackageEntry {
            name: "[Content_Types].xml".to_string(),
            contents: b"<Types/>".to_vec(),
        },
        PackageEntry {
            name: "word/document.xml".to_string(),
            contents: b"<w:document><w:p><w:t>body</w:t></w:p></w:document>".to_vec(),
        },
    ])
}

#[test]
fn hashes_have_their_known_values() {
    assert_eq!(
        content_hash(b""),
        "e3b0c44298fc1c149afbf4c8996fb92427ae41e4649b934ca495991b7852b855"
    );
    assert_eq!(
        content_hash(b"abc"),
        "ba7816bf8f01cfea414140de5dae2223b00361a396177a9cb410ff61f20015ad"
    );
    assert_eq!(to_hex(&[0, 15, 160, 255]), "000fa0ff");
}

#[test]
fn an_empty_hash_is_no_version() {
    assert_eq!(known_content_version(&None), None);
    assert_eq!(known_content_version(&Some("".to_string())), None);
    assert_eq!(known_content_version(&Some("ab".to_string())), Some("ab".to_string()));
}

#[test]
fn the_sizes_of_pictures_are_read() {
    assert!(is_png(&png(3, 4)));
    assert!(!is_png(b"\x89PNG"));
    assert_eq!(image_dimensions(&png(640, 480)), Some((640, 480)));
    assert_eq!(jpeg_dimensions(&jpeg(320, 200)), Some((320, 200)));
    assert_eq!(image_dimensions(&jpeg(320, 200)), Some((320, 200)));
    assert_eq!(image_dimensions(b"text"), None);
    assert_eq!(jpeg_dimensions(&[0xff, 0xd8, 0xff]), None);
    assert!(is_supported_thumbnail_image(&png(640, 480)));
    assert!(!is_supported_thumbnail_image(&png(1, 1)));
}

#[test]
fn pictures_travel_in_links() {
    assert_eq!(data_url("image/png", b""), "data:image/png;base64,");
    assert_eq!(data_url("image/png", b"a"), "data:image/png;base64,YQ==");
    assert_eq!(data_url("image/png", b"ab"), "data:image/png;base64,YWI=");
    assert_eq!(data_url("image/png", &[0xfb, 0xff, 0xbf, 0x00]), "data:image/png;base64,+/+/AA==");
    assert_eq!(data_url("image/png", b"abc"), "data:image/png;base64,YWJj");
    let picture = png(640, 480);
    let (media, bytes) = decode_validated_thumbnail_data_url(&data_url("image/png", &picture)).unwrap();
    assert_eq!(media, "image/png");
    assert_eq!(bytes, picture);
    let (media, _) = decode_validated_thumbnail_data_url(&data_url("image/jpg", &jpeg(640, 480))).unwrap();
    assert_eq!(media, "image/jpeg");
}

#[test]
fn bad_pictures_are_refused_with_the_reason() {
    let refused = |url: &str| decode_validated_thumbnail_data_url(url).unwrap_err().message();
    assert!(refused("data:image/gif;base64,AAAA").contains("必须是 PNG 或 JPEG"));
    assert!(refused("data:image/png;base64,***").contains("数据无效"));
    assert!(refused("data:image/png;base64,YR==").contains("数据无效"));
    assert!(refused("data:image/png;base64,YQ=").contains("数据无效"));
    assert!(refused("data:image/png;base64,YQ").contains("数据无效"));
    assert!(refused("data:image/png;base64,AAAA").contains("真实 PNG 或 JPEG"));
    let large = vec![0u8; MAX_THUMBNAIL_BYTES + 1];
    assert!(accept_picture(Some(large)).unwrap_err().message().contains("2 MB"));
    assert!(accept_picture(None).is_err());
    assert!(accept_picture(Some(png(640, 480))).is_ok());
}

#[test]
fn cached_pictures_are_named_by_document_and_version() {
    let name = thumbnail_cache_name("doc-1", "abc", "png");
    assert!(is_thumbnail_to_remove(&name, "doc-1", &None));
    assert!(!is_thumbnail_to_remove(&name, "doc-1", &Some(name.clone())));
    assert!(!is_thumbnail_to_remove(&name, "doc-2", &None));
    assert_eq!(pptx_thumbnail_version("abc"), "first-slide-v2-abc");
    assert_eq!(thumbnail_extension("image/png"), "png");
    assert_eq!(thumbnail_extension("image/jpeg"), "jpg");
    assert_eq!(safe_cache_component("a/b:c"), "abc");
    assert_eq!(safe_cache_component("/:"), "unknown");
}

#[test]
fn files_must_hold_what_their_names_promise() {
    let check = |id: DocumentFormatId, bytes: &[u8]| validate_file_content(&capability(id), bytes);
    assert!(check(DocumentFormatId::Pdf, b"%PDF-1.7").is_ok());
    assert_eq!(check(DocumentFormatId::Pdf, b"text").unwrap_err(), "文件内容不是有效的 PDF。");
    assert!(check(DocumentFormatId::Jpg, &jpeg(2, 2)).is_ok());
    assert_eq!(check(DocumentFormatId::Jpg, b"x").unwrap_err(), "文件内容不是有效的 JPG。");
    assert!(check(DocumentFormatId::Png, &png(2, 2)).is_ok());
    assert_eq!(check(DocumentFormatId::Png, b"x").unwrap_err(), "文件内容不是有效的 PNG。");
    assert!(check(DocumentFormatId::Docx, &word_document()).is_ok());
    assert_eq!(check(DocumentFormatId::Docx, b"x").unwrap_err(), "文件内容不是有效的 DOCX。");
    assert!(check(DocumentFormatId::Txt, b"\xff\xff").is_ok());
    assert!(check(DocumentFormatId::Pptx, b"\xd0\xcf\x11\xe0\xa1\xb1\x1a\xe1")
        .unwrap_err()
        .contains("已加密"));
    assert!(check(DocumentFormatId::Pptx, b"x").unwrap_err().contains("缺少 OOXML"));
    assert!(check(DocumentFormatId::Xlsx, b"x").is_err());
}

#[test]
fn only_the_part_that_decides_is_read() {
    assert_eq!(content_needed(ValidationStrategy::PlainText), ContentNeed::Nothing);
    assert_eq!(content_needed(ValidationStrategy::CsvText), ContentNeed::Whole);
    assert!(matches!(content_needed(ValidationStrategy::PdfSignature), ContentNeed::Start(_)));
    assert!(validate_content_size(ValidationStrategy::CsvText, 64 * 1024 * 1024).is_ok());
    assert!(validate_content_size(ValidationStrategy::CsvText, 64 * 1024 * 1024 + 1).is_err());
    assert!(validate_content_size(ValidationStrategy::PdfSignature, u64::MAX).is_ok());
}

#[test]
fn text_that_is_not_utf8_is_read_with_marks() {
    assert_eq!(read_utf8_text("你好".as_bytes()), "你好");
    assert_eq!(read_utf8_text(b"a\xffb"), "a\u{fffd}b");
    assert_eq!(MAX_TEXT_READ_BYTES, 8 * 1024 * 1024 + 4);
    assert_eq!(extract_search_text(b"plain", "TXT").unwrap(), "plain");
    assert_eq!(extract_search_text(&word_document(), "DOCX").unwrap(), "body");
    assert_eq!(extract_search_text(&png(2, 2), "PNG").unwrap(), "");
    assert!(extract_search_text(b"x", "EXE").is_err());
}

#[test]
fn documents_are_shown_by_their_kind() {
    match preview_document(&capability(DocumentFormatId::Txt), b"hello").unwrap() {
        DocumentPreview::Text { text } => assert_eq!(text, "hello"),
        _ => panic!("text"),
    }
    match preview_document(&capability(DocumentFormatId::Markdown), b"# a").unwrap() {
        DocumentPreview::Markdown { text } => assert_eq!(text, "# a"),
        _ => panic!("markdown"),
    }
    match preview_document(&capability(DocumentFormatId::Png), b"abc").unwrap() {
        DocumentPreview::Image { data_url } => assert_eq!(data_url, "data:image/png;base64,YWJj"),
        _ => panic!("an image"),
    }
    match preview_document(&capability(DocumentFormatId::Docx), &word_document()).unwrap() {
        DocumentPreview::Docx { text, notice, degraded_features, .. } => {
            assert_eq!(text, "body");
            assert_eq!(notice, "DOCX 版式预览为本地只读近似呈现。");
            assert!(degraded_features.is_empty());
        }
        _ => panic!("a word document"),
    }
    match shown_preview(preview_document(&capability(DocumentFormatId::Docx), b"broken")) {
        DocumentPreview::Failure { code, message } => {
            assert_eq!(code, "importFile");
            assert!(!message.is_empty());
        }
        _ => panic!("a failure"),
    }
}

#[test]
fn long_texts_are_cut_with_a_note() {
    assert_eq!(bounded_preview_text("short".to_string()), "short");
    let long = bounded_preview_text("x".repeat(2 * 1024 * 1024 + 1));
    assert!(long.ends_with("（正文超过 2097152 个字符的预览上限，已截断）"));
    assert_eq!(long.chars().filter(|c| *c == 'x').count(), 2 * 1024 * 1024);
}

#[test]
fn pages_are_numbered_from_one() {
    assert_eq!(page_to_render(None), 1);
    assert_eq!(page_to_render(Some(0)), 1);
    assert_eq!(page_to_render(Some(3)), 3);
    let rendered = accept_rendered_page(RenderedPdfPage { png: png(2, 2), page_count: 7 });
    match preview_page(&rendered.unwrap(), Some(3)) {
        DocumentPreview::Pdf { page_count, page, data_url } => {
            assert_eq!(page_count, Some(7));
            assert_eq!(page, 3);
            assert!(data_url.starts_with("data:image/png;base64,"));
        }
        _ => panic!("a page"),
    }
    let refused = accept_rendered_page(RenderedPdfPage { png: b"x".to_vec(), page_count: 7 });
    assert!(refused.is_err());
}

#[test]
fn broken_cached_pictures_are_made_anew() {
    assert!(matches!(judge_cached_png(&None), CachedPicture::Missing));
    assert!(matches!(judge_cached_png(&Some(b"x".to_vec())), CachedPicture::Broken));
    assert!(matches!(judge_cached_png(&Some(png(2, 2))), CachedPicture::Usable));
    assert!(matches!(judge_cached_picture(&Some(png(640, 480))), CachedPicture::Usable));
    assert!(matches!(judge_cached_picture(&Some(b"x".to_vec())), CachedPicture::Broken));
    assert_eq!(cached_page_count(&None), None);
}

#[test]
fn thumbnails_fall_back_to_the_icon() {
    let icon = document_thumbnail(
        ThumbnailStrategy::TypeIcon,
        "TXT",
        Err(LibraryError::Preview("unused".to_string())),
    );
    match icon {
        DocumentThumbnail::Fallback { reason } => assert_eq!(reason, "TXT 使用类型图标。"),
        _ => panic!("an icon"),
    }
    match document_thumbnail(ThumbnailStrategy::PptxFirstPage, "PPTX", Err(no_pptx_thumbnail())) {
        DocumentThumbnail::Fallback { reason } => assert!(reason.starts_with("无法生成缩略图：")),
        _ => panic!("an icon"),
    }
    match document_thumbnail(ThumbnailStrategy::LocalImage, "PNG", Ok(("image/png", b"abc".to_vec()))) {
        DocumentThumbnail::Image { data_url } => assert_eq!(data_url, "data:image/png;base64,YWJj"),
        _ => panic!("a picture"),
    }
    assert!(accept_generated_thumbnail(b"x".to_vec()).is_err());
    assert!(accept_generated_thumbnail(png(640, 480)).is_ok());
}

#[test]
fn pictures_of_an_older_content_are_refused() {
    let current = Some("new".to_string());
    let stale = check_thumbnail_saving(&current, "old", ThumbnailStrategy::PptxFirstPage, "PPTX");
    assert_eq!(stale.unwrap_err().code(), "staleThumbnail");
    assert!(check_thumbnail_saving(&current, "new", ThumbnailStrategy::PptxFirstPage, "PPTX").is_ok());
    let other = check_thumbnail_saving(&current, "new", ThumbnailStrategy::TypeIcon, "TXT");
    assert!(other.unwrap_err().message().contains("TXT 不接受前端生成缩略图。"));
}
