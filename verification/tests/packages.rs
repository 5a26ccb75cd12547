use document_library::archive::{crc32, find_zip_eocd};
use document_library::extraction::{
    extract_docx_text_from_bytes, extract_pptx_text_from_bytes, inspect_docx_degradations,
    inspect_pptx_degradations, read_zip_entry_for, tidy_text, zip_entry_names_for,
};
use document_library::limits::{ArchiveLimits, ExpansionBudget};
use document_library::markup::{escape_xml_attribute, extract_attribute};
use document_library::package::{read_package_entries, write_package_entries, PackageEntry};
use document_library::parts::{
    normalize_part_name, relationship_part_name, resolve_internal_target,
    source_part_for_relationships, target_is_external,
};
use document_library::sanitize::{sanitize_docx_package, sanitize_pptx_package};
use document_library::slides::{
    pptx_presentation_graph, validate_pptx_package, PRESENTATION_CONTENT_TYPE, SLIDE_CONTENT_TYPE,
};
use document_library::xml::read_attributes;
use flate2::write::DeflateEncoder;
use flate2::Compression;
use std::io::Write;

fn deflated(contents: &[u8]) -> Vec<u8> {
    let mut encoder = DeflateEncoder::new(Vec::new(), Compression::default());
    encoder.write_all(contents).unwrap();
    encoder.finish().unwrap()
}

/// An archive whose entries are deflated.
fn deflated_archive(entries: &[(&str, &str)]) -> Vec<u8> {
    let mut archive: Vec<u8> = Vec::new();
    let mut directory: Vec<u8> = Vec::new();
    for (name, contents) in entries {
        let offset = archive.len() as u32;
        let packed = deflated(contents.as_bytes());
        let crc = crc32(contents.as_bytes());
        let mut common: Vec<u8> = Vec::new();
        common.extend_from_slice(&20u16.to_le_bytes());
        common.extend_from_slice(&0u16.to_le_bytes());
        common.extend_from_slice(&8u16.to_le_bytes());
        common.extend_from_slice(&0u32.to_le_bytes());
        common.extend_from_slice(&crc.to_le_bytes());
        common.extend_from_slice(&(packed.len() as u32).to_le_bytes());
        common.extend_from_slice(&(contents.len() as u32).to_le_bytes());
        common.extend_from_slice(&(name.len() as u16).to_le_bytes());
        common.extend_from_slice(&0u16.to_le_bytes());
        archive.extend_from_slice(&0x04034b50u32.to_le_bytes());
        archive.extend_from_slice(&common);
        archive.extend_from_slice(name.as_bytes());
        archive.extend_from_slice(&packed);
        directory.extend_from_slice(&0x02014b50u32.to_le_bytes());
        directory.extend_from_slice(&20u16.to_le_bytes());
        directory.extend_from_slice(&common);
        directory.extend_from_slice(&[0u8; 10]);
        directory.extend_from_slice(&offset.to_le_bytes());
        directory.extend_from_slice(name.as_bytes());
    }
    let start = archive.len() as u32;
    archive.extend_from_slice(&directory);
    archive.extend_from_slice(&0x06054b50u32.to_le_bytes());
    archive.extend_from_slice(&[0u8; 4]);
    archive.extend_from_slice(&(entries.len() as u16).to_le_bytes());
    archive.extend_from_slice(&(entries.len() as u16).to_le_bytes());
    archive.extend_from_slice(&(directory.len() as u32).to_le_bytes());
    archive.extend_from_slice(&start.to_le_bytes());
    archive.extend_from_slice(&0u16.to_le_bytes());
    archive
}

fn stored_archive(entries: &[(&str, &str)]) -> Vec<u8> {
    let list: Vec<PackageEntry> = entries
        .iter()
        .map(|(name, contents)| PackageEntry {
            name: name.to_string(),
            contents: contents.as_bytes().to_vec(),
        })
        .collect();
    write_package_entries(&list)
}

fn entry_text(archive: &[u8], name: &str) -> Option<String> {
    let entries = read_package_entries(archive, "DOCX", ArchiveLimits::for_preview()).unwrap();
    entries
        .iter()
        .find(|entry| entry.name == name)
        .map(|entry| String::from_utf8(entry.contents.clone()).unwrap())
}

const WORD_TEXT: &str = "<w:document><w:body><w:p><w:r><w:t>Hello</w:t><w:tab/>\
     <w:t>world</w:t></w:r></w:p><w:p><w:r><w:t>second</w:t><w:br/><w:t>line</w:t></w:r></w:p>\
     </w:body></w:document>";

const PPTX_TYPES: &str = "<Types>\
     <Default Extension=\"rels\" ContentType=\"application/vnd.openxmlformats-package.relationships+xml\"/>\
     <Default Extension=\"xml\" ContentType=\"application/xml\"/>\
     <Override PartName=\"/ppt/presentation.xml\" ContentType=\"application/vnd.openxmlformats-officedocument.presentationml.presentation.main+xml\"/>\
     <Override PartName=\"/ppt/slides/slide1.xml\" ContentType=\"application/vnd.openxmlformats-officedocument.presentationml.slide+xml\"/>\
     <Override PartName=\"/ppt/slides/slide2.xml\" ContentType=\"application/vnd.openxmlformats-officedocument.presentationml.slide+xml\"/>\
     </Types>";

const PPTX_ROOT: &str = "<Relationships><Relationship Id=\"rId1\" \
     Type=\"http://schemas.openxmlformats.org/officeDocument/2006/relationships/officeDocument\" \
     Target=\"ppt/presentation.xml\"/></Relationships>";

const PPTX_SLIDES: &str = "<Relationships>\
     <Relationship Id=\"rId1\" Type=\"http://schemas.openxmlformats.org/officeDocument/2006/relationships/slide\" Target=\"slides/slide1.xml\"/>\
     <Relationship Id=\"rId2\" Type=\"http://schemas.openxmlformats.org/officeDocument/2006/relationships/slide\" Target=\"slides/slide2.xml\"/>\
     </Relationships>";

const PPTX_PRESENTATION: &str = "<p:presentation><p:sldIdLst><p:sldId id=\"256\" r:id=\"rId2\"/>\
     <p:sldId id=\"257\" r:id=\"rId1\"/></p:sldIdLst></p:presentation>";

fn pptx_parts() -> Vec<(&'static str, &'static str)> {
    vec![
        ("[Content_Types].xml", PPTX_TYPES),
        ("_rels/.rels", PPTX_ROOT),
        ("ppt/presentation.xml", PPTX_PRESENTATION),
        ("ppt/_rels/presentation.xml.rels", PPTX_SLIDES),
        ("ppt/slides/slide1.xml", "<p:sld><a:p><a:t>later</a:t></a:p></p:sld>"),
        ("ppt/slides/slide2.xml", "<p:sld><a:p><a:t>first</a:t></a:p></p:sld>"),
    ]
}

#[test]
fn checksums_have_their_known_values() {
    assert_eq!(crc32(b""), 0);
    assert_eq!(crc32(b"123456789"), 0xcbf43926);
}

#[test]
fn written_packages_are_read_back() {
    let archive = stored_archive(&[("a.xml", "<a/>"), ("b/c.bin", "more")]);
    let entries = read_package_entries(&archive, "DOCX", ArchiveLimits::for_preview()).unwrap();
    assert_eq!(entries.len(), 2);
    assert_eq!(entries[0].name, "a.xml");
    assert_eq!(entries[0].contents, b"<a/>");
    assert_eq!(entries[1].name, "b/c.bin");
    assert_eq!(entries[1].contents, b"more");
    assert_eq!(find_zip_eocd(&archive), Some(archive.len() - 22));
    assert_eq!(find_zip_eocd(b"nothing here"), None);
}

#[test]
fn deflated_entries_are_expanded() {
    let long = "abc".repeat(1000);
    let archive = deflated_archive(&[("long.txt", long.as_str()), ("short.txt", "x")]);
    let names = zip_entry_names_for(&archive, "DOCX", ArchiveLimits::for_index()).unwrap();
    assert_eq!(names, vec!["long.txt".to_string(), "short.txt".to_string()]);
    let mut budget = ExpansionBudget::new(ArchiveLimits::for_index());
    let read = read_zip_entry_for(&archive, "long.txt", "DOCX", &mut budget).unwrap();
    assert_eq!(read, long.as_bytes());
    assert_eq!(budget.expanded_bytes(), 3000);
    let entries = read_package_entries(&archive, "DOCX", ArchiveLimits::for_preview()).unwrap();
    assert_eq!(entries[0].contents, long.as_bytes());
}

#[test]
fn a_missing_entry_is_reported_by_name() {
    let archive = stored_archive(&[("a.xml", "<a/>")]);
    let mut budget = ExpansionBudget::new(ArchiveLimits::for_index());
    let error = read_zip_entry_for(&archive, "word/document.xml", "DOCX", &mut budget).unwrap_err();
    assert!(error.message().contains("缺少 word/document.xml"));
}

#[test]
fn a_wrong_checksum_is_refused() {
    let mut archive = stored_archive(&[("a.xml", "<a/>")]);
    let at = archive.windows(4).position(|four| four == b"<a/>").unwrap();
    archive[at + 1] = b'b';
    assert!(read_package_entries(&archive, "DOCX", ArchiveLimits::for_preview()).is_err());
}

#[test]
fn archives_over_a_limit_are_refused() {
    let archive = deflated_archive(&[("zeros", "0".repeat(200_000).as_str())]);
    let narrow = ArchiveLimits {
        max_input_bytes: 64,
        max_entry_bytes: 1_000_000,
        max_expanded_bytes: 1_000_000,
        max_compression_ratio: 100_000,
    };
    assert!(read_package_entries(&archive, "DOCX", narrow).is_err());
    let mut budget = ExpansionBudget::new(ArchiveLimits::for_index());
    let error = read_zip_entry_for(&archive, "zeros", "DOCX", &mut budget).unwrap_err();
    assert!(error.message().contains("压缩比"));
}

#[test]
fn the_text_of_a_word_document_is_read() {
    let archive = deflated_archive(&[("word/document.xml", WORD_TEXT)]);
    let text = extract_docx_text_from_bytes(&archive).unwrap();
    assert_eq!(text, "Hello\tworld\nsecond\nline");
    let empty = deflated_archive(&[("word/document.xml", "<w:document/>")]);
    assert_eq!(extract_docx_text_from_bytes(&empty).unwrap(), "文档中没有可提取的文本。");
    assert!(extract_docx_text_from_bytes(b"PK no archive").is_err());
}

#[test]
fn references_to_entities_are_no_text() {
    let archive = stored_archive(&[(
        "word/document.xml",
        "<w:document><w:p><w:t>a &amp; b</w:t></w:p><w:p><w:t><![CDATA[c & d]]></w:t></w:p></w:document>",
    )]);
    assert_eq!(extract_docx_text_from_bytes(&archive).unwrap(), "a  b\nc & d");
}

#[test]
fn lines_lose_the_white_space_at_their_ends() {
    assert_eq!(tidy_text("  a  \n b\t\n\n"), "a\n b");
    assert_eq!(tidy_text(""), "");
}

#[test]
fn what_a_word_document_loses_is_listed() {
    let archive = stored_archive(&[
        ("word/document.xml", "<w:document><w:txbxContent/><w:fldSimple/><w:altChunk/></w:document>"),
        ("word/charts/chart1.xml", "<c/>"),
        ("word/embeddings/object.bin", "x"),
        ("word/vbaProject.bin", "x"),
    ]);
    let features = inspect_docx_degradations(&archive);
    for name in ["图表或 SmartArt", "嵌入对象", "宏或 ActiveX", "形状或文本框", "字段", "替换内容"] {
        assert!(features.contains(&name.to_string()), "{}", name);
    }
    assert_eq!(features.len(), 6);
    let plain = stored_archive(&[("word/document.xml", WORD_TEXT)]);
    assert!(inspect_docx_degradations(&plain).is_empty());
}

#[test]
fn slides_are_read_in_the_order_of_the_presentation() {
    let archive = deflated_archive(&pptx_parts());
    let graph = validate_pptx_package(&archive).unwrap();
    assert_eq!(
        graph.slide_parts,
        vec!["ppt/slides/slide2.xml".to_string(), "ppt/slides/slide1.xml".to_string()]
    );
    assert!(graph.chart_parts.is_empty());
    let again = pptx_presentation_graph(&archive).unwrap();
    assert_eq!(again.slide_parts, graph.slide_parts);
    let read = extract_pptx_text_from_bytes(&archive).unwrap();
    let first = read.text.find("first").unwrap();
    let later = read.text.find("later").unwrap();
    assert!(first < later);
    assert!(inspect_pptx_degradations(&archive).is_empty());
    assert!(PRESENTATION_CONTENT_TYPE.ends_with("presentation.main+xml"));
    assert!(SLIDE_CONTENT_TYPE.ends_with("slide+xml"));
}

#[test]
fn presentations_with_missing_slides_are_refused() {
    let mut parts = pptx_parts();
    parts.pop();
    let archive = stored_archive(&parts);
    let error = match validate_pptx_package(&archive) {
        Err(error) => error,
        Ok(_) => panic!("a slide is missing"),
    };
    assert!(error.message().contains("ppt/slides/slide2.xml"));
}

#[test]
fn presentations_with_unknown_slide_ids_are_refused() {
    let mut parts = pptx_parts();
    parts[2] = (
        "ppt/presentation.xml",
        "<p:presentation><p:sldIdLst><p:sldId r:id=\"rId9\"/></p:sldIdLst></p:presentation>",
    );
    assert!(validate_pptx_package(&stored_archive(&parts)).is_err());
}

#[test]
fn macros_and_links_outside_are_taken_out_of_word_documents() {
    let archive = stored_archive(&[
        (
            "[Content_Types].xml",
            "<Types><Default Extension=\"xml\" ContentType=\"application/xml\"/>\
             <Override PartName =\"/word/vbaProject.bin\" ContentType=\"application/vnd.ms-office.vbaProject\"/></Types>",
        ),
        ("word/document.xml", "<w:document><a r:embed=\"rId1\"/><a r:id=\"rId2\"/></w:document>"),
        (
            "word/_rels/document.xml.rels",
            "<Relationships>\
             <Relationship Id=\"rId1\" Type=\"http://x/image\" Target=\"http://example.com/a.png\" TargetMode=\"External\"/>\
             <Relationship Id=\"rId2\" Type=\"http://x/styles\" Target=\"styles.xml\"/>\
             <Relationship Id=\"rId3\" Type=\"http://schemas.microsoft.com/office/2006/relationships/vbaProject\" Target=\"vbaProject.bin\"/>\
             </Relationships>",
        ),
        ("word/styles.xml", "<s/>"),
        ("word/vbaProject.bin", "macro"),
    ]);
    let clean = sanitize_docx_package(&archive).unwrap();
    assert_eq!(entry_text(&clean, "word/vbaProject.bin"), None);
    assert!(entry_text(&clean, "word/styles.xml").is_some());
    let links = entry_text(&clean, "word/_rels/document.xml.rels").unwrap();
    assert!(!links.contains("example.com"));
    assert!(!links.contains("vbaProject"));
    assert!(links.contains("styles.xml"));
    let document = entry_text(&clean, "word/document.xml").unwrap();
    assert!(!document.contains("rId1"));
    assert!(document.contains("rId2"));
    let types = entry_text(&clean, "[Content_Types].xml").unwrap();
    assert!(!types.contains("vbaProject"));
}

#[test]
fn sanitized_presentations_keep_their_slides() {
    let mut parts = pptx_parts();
    parts.push(("ppt/vbaProject.bin", "macro"));
    let clean = sanitize_pptx_package(&stored_archive(&parts)).unwrap();
    assert_eq!(entry_text(&clean, "ppt/vbaProject.bin"), None);
    assert!(entry_text(&clean, "ppt/slides/slide1.xml").is_some());
    assert!(entry_text(&clean, "ppt/slides/slide2.xml").is_some());
    let graph = validate_pptx_package(&clean).unwrap();
    assert_eq!(graph.slide_parts.len(), 2);
}

#[test]
fn part_names_are_normalized() {
    assert_eq!(normalize_part_name("/word/document.xml", "部件").unwrap(), "word/document.xml");
    assert!(normalize_part_name("../secret", "部件").is_err());
    assert!(normalize_part_name("word\\document.xml", "部件").is_err());
    assert_eq!(
        resolve_internal_target("ppt/slides/slide1.xml", "../media/a.png", "PPTX", "目标").unwrap(),
        "ppt/media/a.png"
    );
    assert_eq!(
        resolve_internal_target("ppt/presentation.xml", "/ppt/a.xml", "PPTX", "目标").unwrap(),
        "ppt/a.xml"
    );
    assert!(resolve_internal_target("a.xml", "../b.xml", "PPTX", "目标").is_err());
    assert!(target_is_external("http://example.com"));
    assert!(!target_is_external("slides/slide1.xml"));
}

#[test]
fn relationship_parts_lie_beside_their_sources() {
    assert_eq!(relationship_part_name("ppt/presentation.xml"), "ppt/_rels/presentation.xml.rels");
    assert_eq!(
        source_part_for_relationships("ppt/_rels/presentation.xml.rels").unwrap(),
        "ppt/presentation.xml"
    );
}

#[test]
fn attributes_are_escaped_and_read() {
    assert_eq!(escape_xml_attribute("a&b<c>\"d\""), "a&amp;b&lt;c&gt;&quot;d&quot;");
    assert_eq!(extract_attribute("<a Id =\"x\" B='y'/>", "Id"), Some("x".to_string()));
    assert_eq!(extract_attribute("<a Id = 'x'/>", "Id"), Some("x".to_string()));
    assert_eq!(extract_attribute("<a Id =\"x\"/>", "Target"), None);
    assert_eq!(extract_attribute("<a Id=\"x\"/>", "Id"), None);
}

#[test]
fn tags_with_other_letters_are_split_behind_their_names() {
    let pairs = read_attributes("é ключ=\"1\" b='&lt;ü'", "x").unwrap();
    assert_eq!(pairs.len(), 2);
    assert_eq!((pairs[0].key.as_str(), pairs[0].value.as_str()), ("ключ", "1"));
    assert_eq!((pairs[1].key.as_str(), pairs[1].value.as_str()), ("b", "<ü"));
    assert!(read_attributes("é=\"1\"", "x").unwrap().is_empty());
    assert!(read_attributes("", "x").unwrap().is_empty());
}
