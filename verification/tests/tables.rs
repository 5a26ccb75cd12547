use document_library::csv::{csv_degradations, decode_csv_text, parse_csv_rows};
use document_library::formats::{capability, DocumentFormatId};
use document_library::limits::ArchiveLimits;
use document_library::models::{DocumentPreview, TablePreviewRequest};
use document_library::package::{write_package_entries, PackageEntry};
use document_library::preview::{get_table_preview, read_table_preview, table_sheets_for};
use document_library::spreadsheet::workbook_sheet_references;
use document_library::table::{
    extract_table_text, read_csv_table, read_xlsx_table, table_format_id, validate_table_document,
};
use document_library::worksheet::{cell_reference_column, parse_row_number};

fn archive_of(entries: &[(&str, &str)]) -> Vec<u8> {
    let list: Vec<PackageEntry> = entries
        .iter()
        .map(|(name, contents)| PackageEntry {
            name: name.to_string(),
            contents: contents.as_bytes().to_vec(),
        })
        .collect();
    write_package_entries(&list)
}

const TYPES: &str = "<Types>\
     <Default Extension=\"xml\" ContentType=\"application/xml\"/>\
     <Override PartName=\"/xl/workbook.xml\" ContentType=\"application/vnd.openxmlformats-officedocument.spreadsheetml.sheet.main+xml\"/>\
     </Types>";

const WORKBOOK: &str = "<workbook><sheets><sheet name=\"First\" sheetId=\"1\" r:id=\"rId1\"/>\
     <sheet name=\"Second\" sheetId=\"2\" r:id=\"rId2\"/></sheets></workbook>";

const LINKS: &str = "<Relationships>\
     <Relationship Id=\"rId1\" Type=\"http://schemas.openxmlformats.org/officeDocument/2006/relationships/worksheet\" Target=\"worksheets/sheet1.xml\"/>\
     <Relationship Id=\"rId2\" Type=\"http://schemas.openxmlformats.org/officeDocument/2006/relationships/worksheet\" Target=\"worksheets/sheet2.xml\"/>\
     <Relationship Id=\"rId3\" Type=\"http://schemas.openxmlformats.org/officeDocument/2006/relationships/sharedStrings\" Target=\"sharedStrings.xml\"/>\
     </Relationships>";

const STRINGS: &str = "<sst><si><t>alpha</t></si><si><r><t>be</t></r><r><t>ta</t></r></si></sst>";

const SHEET_ONE: &str = "<worksheet><sheetData>\
     <row r=\"1\"><c r=\"A1\" t=\"s\"><v>0</v></c><c r=\"C1\" t=\"s\"><v>1</v></c></row>\
     <row r=\"3\"><c r=\"A3\"><v>42</v></c><c r=\"B3\" t=\"b\"><v>1</v></c>\
     <c r=\"C3\"><f>A3+1</f></c><c r=\"D3\" t=\"inlineStr\"><is><t>in</t></is></c></row>\
     </sheetData></worksheet>";

const SHEET_TWO: &str = "<worksheet><sheetData/></worksheet>";

fn workbook() -> Vec<u8> {
    archive_of(&[
        ("[Content_Types].xml", TYPES),
        ("xl/workbook.xml", WORKBOOK),
        ("xl/_rels/workbook.xml.rels", LINKS),
        ("xl/sharedStrings.xml", STRINGS),
        ("xl/worksheets/sheet1.xml", SHEET_ONE),
        ("xl/worksheets/sheet2.xml", SHEET_TWO),
    ])
}

#[test]
fn quoted_cells_keep_separators_and_line_ends() {
    let parsed = parse_csv_rows("a,\"b,c\"\r\n\"d\"\"e\",\"f\ng\"\n", None, 10);
    assert_eq!(
        parsed.rows,
        vec![
            vec!["a".to_string(), "b,c".to_string()],
            vec!["d\"e".to_string(), "f\ng".to_string()],
        ]
    );
    assert_eq!(parsed.total_rows, 2);
    assert_eq!(parsed.max_columns, 2);
    assert!(csv_degradations(&parsed).is_empty());
}

#[test]
fn a_window_keeps_only_its_rows() {
    let parsed = parse_csv_rows("1\n2\n3\n4\n", Some((1, 2)), 10);
    assert_eq!(parsed.rows, vec![vec!["2".to_string()], vec!["3".to_string()]]);
    assert_eq!(parsed.row_numbers, vec![1, 2]);
    assert_eq!(parsed.total_rows, 4);
}

#[test]
fn long_cells_are_cut_and_reported() {
    let long = "x".repeat(5000);
    let parsed = parse_csv_rows(&long, None, 10);
    assert_eq!(parsed.rows[0][0].chars().count(), 4096);
    assert_eq!(parsed.truncated_cells, 1);
    assert_eq!(csv_degradations(&parsed), vec!["部分单元格文本超过 4096 字符已截断。".to_string()]);
}

#[test]
fn only_utf8_text_is_a_csv_file() {
    assert_eq!(decode_csv_text("值,1".as_bytes()).unwrap(), ("值,1".to_string(), false));
    assert_eq!(decode_csv_text(b"\xef\xbb\xbfa").unwrap(), ("a".to_string(), true));
    assert!(decode_csv_text(b"\xff\xfea\0").unwrap_err().message().contains("UTF-16"));
    assert!(decode_csv_text(b"PK\x03\x04").unwrap_err().message().contains("压缩包"));
    assert!(decode_csv_text(b"a\0b").unwrap_err().message().contains("NUL"));
    assert!(decode_csv_text(b"ab\xc4\xe3").unwrap_err().message().contains("第 2 字节"));
}

#[test]
fn a_csv_table_is_read_by_ranges() {
    let table = read_csv_table(b"\xef\xbb\xbfa,b\nc\nd,e,f\n", 1, 5, 2, ArchiveLimits::for_preview()).unwrap();
    assert_eq!(table.cells, vec![vec!["c".to_string()], vec!["d".to_string(), "e".to_string()]]);
    assert_eq!(table.row_numbers, vec![1, 2]);
    assert!(!table.has_more_rows);
    assert_eq!(table.notice.as_deref(), Some("已忽略文件开头的 UTF-8 BOM。"));
    let first = read_csv_table(b"a\nb\nc\n", 0, 2, 2, ArchiveLimits::for_preview()).unwrap();
    assert!(first.has_more_rows);
    assert_eq!(first.cells.len(), 2);
}

#[test]
fn a_worksheet_is_read_by_ranges() {
    let table = read_xlsx_table(&workbook(), 0, 0, 10, 10, ArchiveLimits::for_table_preview()).unwrap();
    assert_eq!(
        table.cells,
        vec![
            vec!["alpha".to_string(), "".to_string(), "beta".to_string()],
            vec![
                "42".to_string(),
                "TRUE".to_string(),
                "未缓存".to_string(),
                "in".to_string()
            ],
        ]
    );
    assert_eq!(table.row_numbers, vec![0, 2]);
    assert_eq!(table.sheets.len(), 2);
    assert_eq!(table.sheets[1].name, "Second");
    assert!(table
        .degraded_features
        .contains(&"部分公式缺少缓存值，已显示为「未缓存」。".to_string()));
    let missing = read_xlsx_table(&workbook(), 2, 0, 10, 10, ArchiveLimits::for_table_preview());
    match missing {
        Err(error) => assert!(error.message().contains("工作簿共有 2 张工作表")),
        Ok(_) => panic!("there is no third sheet"),
    }
}

#[test]
fn the_text_of_tables_is_searched() {
    let text = extract_table_text(&workbook(), "XLSX").unwrap();
    assert!(text.contains("alpha"));
    assert!(text.contains("beta"));
    let csv = extract_table_text(b"a,b\nc,d\n", "CSV").unwrap();
    assert_eq!(csv, "a b\nc d");
    assert!(extract_table_text(b"x", "PDF").unwrap_err().message().contains("不是表格文档"));
    assert!(extract_table_text(b"x", "ODS").unwrap_err().message().contains("不支持的文档格式"));
    assert_eq!(table_format_id("xlsx").unwrap(), DocumentFormatId::Xlsx);
}

#[test]
fn broken_workbooks_are_refused_with_the_reason() {
    assert!(validate_table_document(&workbook(), "XLSX").is_ok());
    assert!(validate_table_document(b"a,b", "CSV").is_ok());
    let old = validate_table_document(b"\xd0\xcf\x11\xe0\xa1\xb1\x1a\xe1 rest", "XLSX").unwrap_err();
    assert!(old.contains("OLE"), "{}", old);
    let macros = archive_of(&[("[Content_Types].xml", TYPES), ("xl/workbook.xml", WORKBOOK), ("xl/vbaProject.bin", "x")]);
    assert!(validate_table_document(&macros, "XLSX").unwrap_err().contains("XLSM"));
    let binary = archive_of(&[("xl/workbook.bin", "x")]);
    assert!(validate_table_document(&binary, "XLSX").unwrap_err().contains("XLSB"));
    let no_links = archive_of(&[("[Content_Types].xml", TYPES), ("xl/workbook.xml", WORKBOOK)]);
    assert!(validate_table_document(&no_links, "XLSX").unwrap_err().contains("xl/_rels/workbook.xml.rels"));
}

#[test]
fn references_to_cells_are_numbers_of_columns() {
    assert_eq!(cell_reference_column("A1").unwrap(), Some(0));
    assert_eq!(cell_reference_column("Z9").unwrap(), Some(25));
    assert_eq!(cell_reference_column("AA10").unwrap(), Some(26));
    assert!(cell_reference_column("12").is_err());
    assert_eq!(parse_row_number("3").unwrap(), Some(2));
    assert!(parse_row_number("x").is_err());
}

#[test]
fn a_table_preview_has_default_sizes() {
    let request = TablePreviewRequest::default();
    match read_table_preview(b"a,b\n1,2\n", DocumentFormatId::Csv, &request).unwrap() {
        DocumentPreview::Table { cells, sheets, start_row, .. } => {
            assert_eq!(cells.len(), 2);
            assert_eq!(sheets.len(), 1);
            assert_eq!(start_row, 0);
        }
        _ => panic!("a table"),
    }
    match get_table_preview(&capability(DocumentFormatId::Pdf), b"", &request) {
        DocumentPreview::Unsupported { message } => assert_eq!(message, "PDF 不是表格文档。"),
        _ => panic!("no table"),
    }
    match get_table_preview(&capability(DocumentFormatId::Xlsx), b"broken", &request) {
        DocumentPreview::Failure { code, .. } => assert!(!code.is_empty()),
        _ => panic!("a failure"),
    }
    let sheets = table_sheets_for(&workbook(), DocumentFormatId::Xlsx).unwrap();
    assert_eq!(sheets.len(), 2);
    assert_eq!(sheets[0].name, "First");
}

#[test]
fn the_sheets_of_a_workbook_have_names_and_ids() {
    let sheets = workbook_sheet_references(WORKBOOK.as_bytes()).unwrap();
    assert_eq!(sheets.len(), 2);
    assert_eq!(sheets[1].name, "Second");
    assert_eq!(sheets[1].relationship_id, "rId2");
    let broken = b"<workbook><sheets><sheet name=\"A\"/></sheets></workbook>";
    assert!(workbook_sheet_references(broken).is_err());
}

#[test]
fn a_window_selects_rows_and_changes_nothing_else() {
    let text = "a,b\n\"x\ny\",1,2\nc\n\nd,\"\"\"\"";
    let whole = parse_csv_rows(text, None, 2);
    assert_eq!(whole.rows.len(), 4);
    assert_eq!(whole.rows[1], vec!["x\ny", "1"]);
    assert_eq!(whole.rows[3], vec!["d", "\""]);
    assert_eq!(whole.max_columns, 3);
    for (start, count) in [(0, 4), (1, 2), (2, usize::MAX), (3, 0), (9, 1), (usize::MAX, usize::MAX)] {
        let part = parse_csv_rows(text, Some((start, count)), 2);
        let first = start.min(whole.total_rows);
        let end = start.saturating_add(count).min(whole.total_rows);
        assert_eq!(part.rows, whole.rows[first..end].to_vec());
        assert_eq!(part.row_numbers, (first..end).collect::<Vec<usize>>());
        assert_eq!(part.total_rows, whole.total_rows);
        assert_eq!(part.max_columns, whole.max_columns);
    }
}

#[test]
fn a_mark_in_front_changes_only_the_notice() {
    let limits = ArchiveLimits::for_table_preview();
    let plain = read_csv_table("名,1\nb,2\n".as_bytes(), 0, 5, 5, limits).unwrap();
    let marked = read_csv_table("\u{feff}名,1\nb,2\n".as_bytes(), 0, 5, 5, limits).unwrap();
    assert!(plain.notice.is_none());
    assert_eq!(marked.notice.as_deref(), Some("已忽略文件开头的 UTF-8 BOM。"));
    assert_eq!(marked.cells, plain.cells);
    assert_eq!(marked.cells[0][0], "名");
    assert_eq!(marked.row_numbers, plain.row_numbers);
    assert_eq!(marked.column_count, plain.column_count);
    assert_eq!(marked.has_more_rows, plain.has_more_rows);
    assert_eq!(marked.degraded_features, plain.degraded_features);
}
