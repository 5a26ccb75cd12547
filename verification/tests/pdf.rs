use std::io::Write;

use document_library::error::LibraryError;
use document_library::pdf_security::{ensure_safe_pdf_preview, parse_pdf_name};
use document_library::pdf_text::{
    accept_stream_content, decode_pdf_text_bytes, estimate_pdf_page_count,
    extract_pdf_content_text, extract_pdf_text, parse_pdf_hex_string, parse_pdf_literal,
};
use flate2::write::ZlibEncoder;

fn zlib(contents: &[u8]) -> Vec<u8> {
    let mut encoder = ZlibEncoder::new(Vec::new(), flate2::Compression::default());
    encoder.write_all(contents).unwrap();
    encoder.finish().unwrap()
}

fn object_stream_pdf(contents: &[u8]) -> Vec<u8> {
    let compressed = zlib(contents);
    let mut pdf =
        b"%PDF-1.7\n6 0 obj << /Type /ObjStm /N 1 /First 4 /Filter /FlateDecode /Length ".to_vec();
    pdf.extend_from_slice(compressed.len().to_string().as_bytes());
    pdf.extend_from_slice(b" >>\nstream\n");
    pdf.extend_from_slice(&compressed);
    pdf.extend_from_slice(b"\nendstream\nendobj\n%%EOF\n");
    pdf
}

#[test]
fn allows_a_safe_pdf_dictionary_and_ignores_stream_text() {
    let pdf = b"%PDF-1.7\n1 0 obj << /Type /Catalog /Pages 2 0 R >> endobj\n2 0 obj << /Length 34 >> stream\n(/JavaScript /OpenAction) Tj\nendstream endobj\n%%EOF";
    assert!(ensure_safe_pdf_preview(pdf).is_ok());
}

#[test]
fn rejects_direct_and_indirect_active_objects() {
    assert_eq!(parse_pdf_name(b"/OpenAction 2 0 R", 0).unwrap().0, b"openaction");
    let open_action = b"%PDF-1.7\n1 0 obj << /Type /Catalog /OpenAction 2 0 R >> endobj\n%%EOF";
    assert!(matches!(
        ensure_safe_pdf_preview(open_action),
        Err(LibraryError::UnsafePreview(_))
    ));

    let javascript = b"%PDF-1.7\n1 0 obj << /S /JavaScript /JS (app.alert(1)) >> endobj\n%%EOF";
    assert!(matches!(
        ensure_safe_pdf_preview(javascript),
        Err(LibraryError::UnsafePreview(_))
    ));
}

#[test]
fn rejects_active_objects_hidden_in_a_flate_compressed_object_stream() {
    let pdf = object_stream_pdf(b"5 0 << /S /JavaScript /JS (alert(1)) >>");
    assert!(matches!(
        ensure_safe_pdf_preview(&pdf),
        Err(LibraryError::UnsafePreview(_))
    ));
}

#[test]
fn escapes_in_names_cannot_hide_active_objects() {
    let pdf = b"%PDF-1.7\n1 0 obj << /Open#41ction 2 0 R >> endobj\n%%EOF";
    assert!(matches!(
        ensure_safe_pdf_preview(pdf),
        Err(LibraryError::UnsafePreview(_))
    ));
}

#[test]
fn harmless_objects_in_a_compressed_object_stream_are_allowed() {
    let pdf = object_stream_pdf(b"5 0 << /Type /Font /BaseFont /Arial >>");
    assert!(ensure_safe_pdf_preview(&pdf).is_ok());
}

#[test]
fn the_text_of_plain_and_compressed_streams_is_read() {
    let mut pdf = b"%PDF-1.4\n1 0 obj << /Length 30 >> stream\nBT (Hello) Tj (World) Tj ET\nendstream endobj\n".to_vec();
    pdf.extend_from_slice(b"2 0 obj << /Filter /FlateDecode >> stream\r\n");
    pdf.extend_from_slice(&zlib(b"BT (  second \\(page\\)) Tj ET"));
    pdf.extend_from_slice(b"\nendstream endobj\n");
    assert_eq!(extract_pdf_text(&pdf).unwrap(), "Hello World\nsecond (page)");
}

#[test]
fn a_stream_that_cannot_be_expanded_is_reported() {
    let pdf = b"<< /Filter /FlateDecode >> stream\nnot zlib at all\nendstream";
    let error = extract_pdf_text(pdf).unwrap_err();
    assert_eq!(error.code(), "preview");
    assert!(error.message().starts_with("无法解压 PDF 正文流："));
    let refused = accept_stream_content(Err("broken".to_string())).unwrap_err();
    assert_eq!(refused.message(), "无法解压 PDF 正文流：broken");
    assert_eq!(accept_stream_content(Ok(vec![1, 2])).unwrap(), vec![1, 2]);
}

#[test]
fn streams_without_text_operators_give_nothing() {
    assert_eq!(extract_pdf_content_text(b"(ignored)"), "");
    assert_eq!(extract_pdf_content_text(b"(one) Tj <74776f> Tj"), "one two");
    assert_eq!(extract_pdf_content_text(b"(one) Tj (   ) Tj (unclosed"), "one");
    assert_eq!(extract_pdf_content_text(b"(one) Tj << /A >> (two) Tj"), "one");
}

#[test]
fn escapes_in_literal_strings_are_resolved() {
    let (bytes, next) = parse_pdf_literal(b"a\\n\\t\\101\\7(\\)b)\\\rc\\\r\nd\\xe) rest", 0).unwrap();
    assert_eq!(bytes, b"a\n\tA\x07()b)cdxe".to_vec());
    assert_eq!(next, 27);
    assert!(parse_pdf_literal(b"no end", 0).is_none());
    assert!(parse_pdf_literal(b"ends with \\", 0).is_none());
    assert_eq!(parse_pdf_literal(b"\\777)", 0).unwrap().0, vec![0xff]);
}

#[test]
fn hexadecimal_strings_need_pairs_of_digits() {
    assert_eq!(
        parse_pdf_hex_string(b"48 65\n6C>x", 0).unwrap(),
        (b"Hel".to_vec(), 9)
    );
    assert!(parse_pdf_hex_string(b"486>", 0).is_none());
    assert!(parse_pdf_hex_string(b"4g>", 0).is_none());
    assert!(parse_pdf_hex_string(b"48", 0).is_none());
}

#[test]
fn strings_are_decoded_by_their_marks() {
    assert_eq!(decode_pdf_text_bytes(&[0xfe, 0xff, 0x4f, 0x60, 0x59, 0x7d]), "你好");
    assert_eq!(decode_pdf_text_bytes(&[0xff, 0xfe, 0x60, 0x4f, 0x7d, 0x59]), "你好");
    assert_eq!(decode_pdf_text_bytes("你好".as_bytes()), "你好");
    assert_eq!(
        decode_pdf_text_bytes(&[0xfe, 0xff, 0xd8, 0x3d, 0xde, 0x00, 0x00, 0x41]),
        "\u{1f600}A"
    );
    assert_eq!(decode_pdf_text_bytes(&[0xfe, 0xff, 0xd8, 0x3d, 0x00, 0x41]), "\u{fffd}A");
    assert_eq!(decode_pdf_text_bytes(&[0x88, 0x68]), "\u{8868}");
    assert_eq!(decode_pdf_text_bytes(&[0x41, 0xff, 0x42]), "A\u{fffd}B");
}

#[test]
fn surrogates_decode_as_the_standard_library_does() {
    let units: [u16; 8] = [0x41, 0xd800, 0xdc00, 0xdc00, 0xd800, 0x42, 0xdbff, 0xdfff];
    let mut bytes = vec![0xfe, 0xff];
    for unit in units {
        bytes.extend_from_slice(&unit.to_be_bytes());
    }
    assert_eq!(decode_pdf_text_bytes(&bytes), String::from_utf16_lossy(&units));
}

#[test]
fn the_largest_page_count_is_taken() {
    assert_eq!(estimate_pdf_page_count(b"/Count 3 x /Count\n\t12 /Count 5"), Some(12));
    assert_eq!(estimate_pdf_page_count(b"/Count 4294967296 /Count 7"), Some(7));
    assert_eq!(estimate_pdf_page_count(b"/Count x"), None);
    assert_eq!(estimate_pdf_page_count(b"nothing"), None);
    assert_eq!(estimate_pdf_page_count(b"/Count 0"), None);
}

#[test]
fn names_that_start_behind_the_bytes_are_refused() {
    for start in [2, 3, 100] {
        let error = parse_pdf_name(b"/A", start).unwrap_err();
        assert_eq!(error.code(), "unsafePreview");
    }
    assert!(parse_pdf_name(b"", 0).is_err());
    assert_eq!(parse_pdf_name(b"/A", 0).unwrap(), (b"a".to_vec(), 2));
}
