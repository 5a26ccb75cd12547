//! Tables, from CSV text and XLSX workbooks: a part for the preview, all text for the index, and the
//! check of a file. Bytes go in and plain data come out; every limit comes from the budget.

use vstd::prelude::*;
use crate::csv::{
    csv_degradations, csv_text, cut_cells, cut_cells_note, cut_fields, cut_note, decode_csv_text,
    every_record_has_a_field, kept_cell, kept_fields, kept_numbers, kept_rows, opens_with, parse_csv_rows, records, row_views, utf8_mark, widest, Window,
};
use crate::error::{failure, outcome, ErrorKind, Failure, LibraryError, LibraryResult};
use crate::formats::{capability_for_file_type, format_name, format_of_type, DocumentFormatId};
use crate::limits::{
    bound_extracted_text, charge_check, clamp_table_range, clamped, input_check, limits_for,
    ArchiveLimits, ExpansionBudget, INDEX_ARCHIVE_EXPANDED_BYTES, MAX_EXTRACTED_TEXT_CHARS,
    MAX_TABLE_CELL_CHARS,
    MAX_TABLE_PREVIEW_COLUMNS, MAX_TABLE_PREVIEW_ROWS,
};
use crate::spreadsheet::{
    opened_package, package_sheets, package_strings, shared_view, sheet_views, SharedStrings,
    WorkbookSheet, XlsxPackage,
};
use crate::text::{chars, decimal, join, join_texts, optional, push_decimal, same, views};
use crate::workbook::{has_entry_under, needed_part, Meta};
use crate::worksheet::{
    parse_sheet_xml, sheet_in, uncached_text, window_at, Asked, Sheet, SheetParse,
};
use crate::xml::{root_name, xml_root_local_name, xml_tokens};

verus! {

// ---- Parts of tables ----

/// A worksheet: its place, its name and, where it was read, its extent.
#[derive(Debug, Clone, PartialEq, Eq)]
pub struct TableSheetInfo {
    pub index: usize,
    pub name: String,
    pub row_count: Option<usize>,
    pub column_count: Option<usize>,
}

/// [`TableSheetInfo`] by characters.
#[verifier::ext_equal]
pub struct SheetInfo {
    pub index: usize,
    pub name: Seq<char>,
    pub row_count: Option<usize>,
    pub column_count: Option<usize>,
}

impl View for TableSheetInfo {
    type V = SheetInfo;

    open spec fn view(&self) -> SheetInfo {
        SheetInfo {
            index: self.index,
            name: self.name@,
            row_count: self.row_count,
            column_count: self.column_count,
        }
    }
}

/// The worksheets by views.
pub open spec fn info_views(infos: Seq<TableSheetInfo>) -> Seq<SheetInfo> {
    infos.map_values(|info: TableSheetInfo| info@)
}

/// A part of a table, as a preview shows it.
#[derive(Debug, Clone, PartialEq, Eq)]
pub struct TableRange {
    pub sheets: Vec<TableSheetInfo>,
    pub sheet_index: usize,
    pub start_row: usize,
    /// The cells; empty cells stand between others, but not behind the last.
    pub cells: Vec<Vec<String>>,
    /// The numbers of the rows, from zero. Those of a worksheet may leave some out.
    pub row_numbers: Vec<usize>,
    pub column_count: usize,
    pub has_more_rows: bool,
    pub degraded_features: Vec<String>,
    pub notice: Option<String>,
}

/// [`TableRange`] by characters.
#[verifier::ext_equal]
pub struct Table {
    pub sheets: Seq<SheetInfo>,
    pub sheet_index: usize,
    pub start_row: usize,
    pub cells: Seq<Seq<Seq<char>>>,
    pub row_numbers: Seq<usize>,
    pub column_count: usize,
    pub has_more_rows: bool,
    pub degraded_features: Seq<Seq<char>>,
    pub notice: Option<Seq<char>>,
}

impl View for TableRange {
    type V = Table;

    open spec fn view(&self) -> Table {
        Table {
            sheets: info_views(self.sheets@),
            sheet_index: self.sheet_index,
            start_row: self.start_row,
            cells: row_views(self.cells@),
            row_numbers: self.row_numbers@,
            column_count: self.column_count,
            has_more_rows: self.has_more_rows,
            degraded_features: views(self.degraded_features@),
            notice: optional(self.notice),
        }
    }
}

/// The rows that are asked for: at least one, at most the limit.
pub open spec fn asked_rows(row_count: usize) -> usize {
    clamped(row_count, 1, MAX_TABLE_PREVIEW_ROWS)
}

/// The columns that are asked for: at least one, at most the limit.
pub open spec fn asked_columns(column_count: usize) -> usize {
    clamped(column_count, 1, MAX_TABLE_PREVIEW_COLUMNS)
}

/// Rows follow behind those that are asked for.
pub open spec fn more_rows(start_row: usize, rows: usize, total: nat) -> bool {
    start_row + rows < total && start_row + rows < usize::MAX
}

// ---- CSV ----

/// The text of a CSV file, whether a mark was dropped, or why the file is refused. The text is
/// charged to an account of its own.
pub open spec fn charged_csv(bytes: Seq<u8>, limits: ArchiveLimits) -> Result<
    (Seq<char>, bool),
    Failure,
> {
    match input_check(limits, bytes.len() as u64) {
        Err(error) => Err(error),
        Ok(()) => match csv_text(bytes) {
            Err(error) => Err(error),
            Ok((text, marked)) => {
                let size = if marked {
                    bytes.len() - 3
                } else {
                    bytes.len() as int
                };
                match charge_check(limits, "CSV"@, size as u64) {
                    Err(error) => Err(error),
                    Ok(()) => Ok((text, marked)),
                }
            },
        },
    }
}

/// The part of a CSV table that is asked for, or why the file is refused.
pub open spec fn csv_table(
    bytes: Seq<u8>,
    start_row: usize,
    row_count: usize,
    column_count: usize,
    limits: ArchiveLimits,
) -> Result<Table, Failure> {
    match charged_csv(bytes, limits) {
        Err(error) => Err(error),
        Ok((text, marked)) => {
            let all = records(text);
            let rows = asked_rows(row_count);
            let columns = asked_columns(column_count);
            let window = window_at(start_row, rows);
            Ok(
                Table {
                    sheets: seq![
                        SheetInfo {
                            index: 0,
                            name: "CSV"@,
                            row_count: Some(all.len() as usize),
                            column_count: Some(widest(all) as usize),
                        },
                    ],
                    sheet_index: 0,
                    start_row,
                    cells: kept_rows(all, window, columns),
                    row_numbers: kept_numbers(all, window, columns),
                    column_count: columns,
                    has_more_rows: more_rows(start_row, rows, all.len()),
                    degraded_features: if cut_cells(all, window, columns) == 0 {
                        Seq::empty()
                    } else {
                        seq![cut_note()]
                    },
                    notice: if marked {
                        Some("已忽略文件开头的 UTF-8 BOM。"@)
                    } else {
                        None
                    },
                },
            )
        },
    }
}

/// The text of a CSV file within the limits.
fn read_charged_csv(bytes: &[u8], limits: ArchiveLimits) -> (result: LibraryResult<(String, bool)>)
    ensures
        (match result {
            Ok((text, marked)) => Ok((text@, marked)),
            Err(error) => Err(error@),
        }) == charged_csv(bytes@, limits),
        result matches Ok((text, _)) ==> text@.len() <= bytes@.len(),
{
    let mut budget = ExpansionBudget::new(limits);
    let size: usize = bytes.len();
    if let Err(error) = budget.check_input_size(size as u64) {
        return Err(error);
    }
    match decode_csv_text(bytes) {
        Err(error) => Err(error),
        Ok((text, marked)) => {
            proof {
                let contents = if marked {
                    bytes@.skip(3)
                } else {
                    bytes@
                };
                lemma_decoding_shortens(contents);
            }
            let length: usize = if marked {
                size - 3
            } else {
                size
            };
            match budget.charge("CSV", length) {
                Err(error) => Err(error),
                Ok(()) => Ok((text, marked)),
            }
        },
    }
}

/// A text has no more characters than bytes.
proof fn lemma_decoding_shortens(bytes: Seq<u8>)
    requires
        vstd::utf8::valid_utf8(bytes),
    ensures
        vstd::utf8::decode_utf8(bytes).len() <= bytes.len(),
    decreases bytes.len(),
{
    if bytes.len() > 0 {
        lemma_decoding_shortens(vstd::utf8::pop_first_scalar(bytes));
    }
}

/// Reads a part of a CSV table. The whole file is decoded and counted; only the cells that are asked
/// for are kept.
pub fn read_csv_table(
    bytes: &[u8],
    start_row: usize,
    row_count: usize,
    column_count: usize,
    limits: ArchiveLimits,
) -> (result: LibraryResult<TableRange>)
    requires
        bytes@.len() < usize::MAX,
    ensures
        outcome(result) == csv_table(bytes@, start_row, row_count, column_count, limits),
{
    let (text, marked) = match read_charged_csv(bytes, limits) {
        Err(error) => {
            return Err(error);
        },
        Ok(read) => read,
    };
    let (start_row, rows, columns) = clamp_table_range(start_row, row_count, column_count);
    let parsed = parse_csv_rows(text.as_str(), Some((start_row, rows)), columns);
    let degraded_features = csv_degradations(&parsed);
    let total: usize = parsed.total_rows;
    let mut sheets: Vec<TableSheetInfo> = Vec::new();
    sheets.push(
        TableSheetInfo {
            index: 0,
            name: "CSV".to_owned(),
            row_count: Some(total),
            column_count: Some(parsed.max_columns),
        },
    );
    let notice = if marked {
        Some("已忽略文件开头的 UTF-8 BOM。".to_owned())
    } else {
        None
    };
    let range = TableRange {
        sheets,
        sheet_index: 0,
        start_row,
        cells: parsed.rows,
        row_numbers: parsed.row_numbers,
        column_count: columns,
        has_more_rows: start_row.saturating_add(rows) < total,
        degraded_features,
        notice,
    };
    proof {
        let table = csv_table(bytes@, start_row, row_count, column_count, limits)->Ok_0;
        assert(range@.sheets =~= table.sheets);
        assert(range@ =~= table);
    }
    Ok(range)
}

// ---- XLSX ----

/// What is said of a worksheet that was read in part.
pub open spec fn sheet_notes(sheet: Sheet, entries: Seq<Meta>) -> Seq<Seq<char>> {
    let formulas: Seq<Seq<char>> = if sheet.uncached > 0 {
        seq!["部分公式缺少缓存值，已显示为「未缓存」。"@]
    } else {
        Seq::empty()
    };
    let cells: Seq<Seq<char>> = if sheet.truncated > 0 {
        seq![cut_note()]
    } else {
        Seq::empty()
    };
    let outside: Seq<Seq<char>> = if has_entry_under(entries, "xl/externalLinks/"@) {
        seq!["工作簿包含外部链接，已跳过其内容。"@]
    } else {
        Seq::empty()
    };
    let embedded: Seq<Seq<char>> = if has_entry_under(entries, "xl/embeddings/"@) {
        seq!["工作簿包含嵌入对象，已跳过。"@]
    } else {
        Seq::empty()
    };
    formulas + cells + outside + embedded
}

/// The worksheets of a workbook, of which one was read.
pub open spec fn sheet_infos(sheets: Seq<(Seq<char>, Seq<char>)>, chosen: usize, sheet: Sheet) -> Seq<
    SheetInfo,
> {
    Seq::new(
        sheets.len(),
        |i: int|
            SheetInfo {
                index: i as usize,
                name: sheets[i].0,
                row_count: if i == chosen {
                    Some(sheet.row_count)
                } else {
                    None
                },
                column_count: if i == chosen {
                    Some(sheet.column_count)
                } else {
                    None
                },
            },
    )
}

/// The worksheet in a part, read with the shared strings, or why it is refused.
#[verifier::opaque]
pub open spec fn sheet_in_part(
    bytes: Seq<u8>,
    entries: Seq<Meta>,
    part: Seq<char>,
    window: Window,
    columns: usize,
    limits: ArchiveLimits,
    spent: u64,
) -> Result<Sheet, Failure> {
    match package_strings(bytes, entries, limits, spent) {
        Err(error) => Err(error),
        Ok((shared, spent)) => match needed_part(bytes, entries, part, limits, spent, "XLSX"@) {
            Err(error) => Err(error),
            Ok((xml, _)) => sheet_in(
                xml_tokens(xml, false),
                Asked { shared, window, columns },
                "XLSX"@,
            ),
        },
    }
}

/// The worksheets of a workbook, its entries and what the account holds, or why it is refused.
#[verifier::opaque]
pub open spec fn workbook_sheets(bytes: Seq<u8>, limits: ArchiveLimits) -> Result<
    (Seq<Meta>, Seq<(Seq<char>, Seq<char>)>, u64),
    Failure,
> {
    match input_check(limits, bytes.len() as u64) {
        Err(error) => Err(error),
        Ok(()) => match opened_package(bytes, limits, 0) {
            Err(error) => Err(error),
            Ok((entries, spent)) => match package_sheets(bytes, entries, limits, spent) {
                Err(error) => Err(error),
                Ok((sheets, spent)) => Ok((entries, sheets, spent)),
            },
        },
    }
}

/// The part of a worksheet that is asked for, or why the workbook is refused.
pub open spec fn xlsx_table(
    bytes: Seq<u8>,
    sheet_index: usize,
    start_row: usize,
    row_count: usize,
    column_count: usize,
    limits: ArchiveLimits,
) -> Result<Table, Failure> {
    let rows = asked_rows(row_count);
    let columns = asked_columns(column_count);
    match workbook_sheets(bytes, limits) {
        Err(error) => Err(error),
        Ok((entries, sheets, spent)) => if sheet_index >= sheets.len() {
            Err(
                failure(
                    ErrorKind::Preview,
                    "工作表 "@ + decimal(sheet_index as nat) + " 不存在：工作簿共有 "@ + decimal(
                        sheets.len(),
                    ) + " 张工作表。"@,
                ),
            )
        } else {
            match sheet_in_part(
                bytes,
                entries,
                sheets[sheet_index as int].1,
                window_at(start_row, rows),
                columns,
                limits,
                spent,
            ) {
                Err(error) => Err(error),
                Ok(sheet) => Ok(
                    Table {
                        sheets: sheet_infos(sheets, sheet_index, sheet),
                        sheet_index,
                        start_row,
                        cells: sheet.rows,
                        row_numbers: sheet.row_numbers,
                        column_count: columns,
                        has_more_rows: more_rows(start_row, rows, sheet.row_count as nat),
                        degraded_features: sheet_notes(sheet, entries),
                        notice: None,
                    },
                ),
            }
        },
    }
}

/// Opens a workbook and reads the list of its worksheets.
fn open_workbook<'a>(bytes: &'a [u8], budget: &mut ExpansionBudget) -> (result: LibraryResult<
    (XlsxPackage<'a>, Vec<WorkbookSheet>),
>)
    requires
        old(budget).spent() == 0,
    ensures
        final(budget).allowed() == old(budget).allowed(),
        result matches Ok(opened) ==> opened.0.bytes == bytes,
        (match result {
            Ok(opened) => Ok(
                (opened.0.directory.metas(), sheet_views(opened.1@), final(budget).spent()),
            ),
            Err(error) => Err(error@),
        }) == workbook_sheets(bytes@, old(budget).allowed()),
{
    reveal(workbook_sheets);
    if let Err(error) = budget.check_input_size(bytes.len() as u64) {
        return Err(error);
    }
    let package = match XlsxPackage::open(bytes, budget) {
        Err(error) => {
            return Err(error);
        },
        Ok(package) => package,
    };
    match package.sheets(budget) {
        Err(error) => Err(error),
        Ok(sheets) => Ok((package, sheets)),
    }
}

/// Reads the worksheet in a part.
fn read_sheet(
    package: &XlsxPackage,
    part: &str,
    window: (usize, usize),
    columns: usize,
    budget: &mut ExpansionBudget,
) -> (result: LibraryResult<SheetParse>)
    ensures
        outcome(result) == sheet_in_part(
            package.bytes@,
            package.directory.metas(),
            part@,
            window_at(window.0, window.1),
            columns,
            old(budget).allowed(),
            old(budget).spent(),
        ),
{
    reveal(sheet_in_part);
    let shared = match package.shared_strings(budget) {
        Err(error) => {
            return Err(error);
        },
        Ok(shared) => shared,
    };
    match package.read_part(part, budget) {
        Err(error) => Err(error),
        Ok(xml) => parse_sheet_xml(xml.as_slice(), &shared, window, columns, "XLSX"),
    }
}

/// What is said of a worksheet that was read in part.
fn notes_on_sheet(parsed: &SheetParse, package: &XlsxPackage) -> (notes: Vec<String>)
    ensures
        views(notes@) == sheet_notes(parsed@, package.directory.metas()),
{
    let mut notes: Vec<String> = Vec::new();
    if parsed.uncached_formulas > 0 {
        notes.push("部分公式缺少缓存值，已显示为「未缓存」。".to_owned());
    }
    if parsed.truncated_cells > 0 {
        notes.push(cut_cells_note());
    }
    if package.has_part_prefix("xl/externalLinks/") {
        notes.push("工作簿包含外部链接，已跳过其内容。".to_owned());
    }
    if package.has_part_prefix("xl/embeddings/") {
        notes.push("工作簿包含嵌入对象，已跳过。".to_owned());
    }
    assert(views(notes@) =~= sheet_notes(parsed@, package.directory.metas()));
    notes
}

/// The worksheets of a workbook, of which one was read.
fn describe_sheets(sheets: &[WorkbookSheet], chosen: usize, parsed: &SheetParse) -> (infos: Vec<
    TableSheetInfo,
>)
    ensures
        info_views(infos@) == sheet_infos(sheet_views(sheets@), chosen, parsed@),
{
    let mut infos: Vec<TableSheetInfo> = Vec::new();
    let mut i: usize = 0;
    let ghost all = sheet_infos(sheet_views(sheets@), chosen, parsed@);
    assert(info_views(infos@) =~= all.take(0));
    while i < sheets.len()
        invariant
            i <= sheets@.len(),
            all == sheet_infos(sheet_views(sheets@), chosen, parsed@),
            info_views(infos@) == all.take(i as int),
        decreases sheets@.len() - i,
    {
        let row_count: Option<usize> = if i == chosen {
            Some(parsed.row_count)
        } else {
            None
        };
        let column_count: Option<usize> = if i == chosen {
            Some(parsed.column_count)
        } else {
            None
        };
        let info = TableSheetInfo { index: i, name: sheets[i].name.clone(), row_count, column_count };
        assert(sheet_views(sheets@)[i as int] == sheets@[i as int]@);
        assert(info@ == all[i as int]);
        let ghost before = info_views(infos@);
        infos.push(info);
        assert(info_views(infos@) =~= before.push(all[i as int]));
        assert(all.take(i + 1) =~= all.take(i as int).push(all[i as int]));
        i = i + 1;
    }
    assert(all.take(i as int) =~= all);
    infos
}

/// Reads a part of a worksheet. Worksheets count in the order of the workbook; of the others only
/// the names are given.
pub fn read_xlsx_table(
    bytes: &[u8],
    sheet_index: usize,
    start_row: usize,
    row_count: usize,
    column_count: usize,
    limits: ArchiveLimits,
) -> (result: LibraryResult<TableRange>)
    ensures
        outcome(result) == xlsx_table(
            bytes@,
            sheet_index,
            start_row,
            row_count,
            column_count,
            limits,
        ),
{
    let mut budget = ExpansionBudget::new(limits);
    let (package, sheets) = match open_workbook(bytes, &mut budget) {
        Err(error) => {
            return Err(error);
        },
        Ok(opened) => opened,
    };
    let count: usize = sheets.len();
    assert(sheet_views(sheets@).len() == count);
    if sheet_index >= count {
        let mut detail = "工作表 ".to_owned();
        push_decimal(&mut detail, sheet_index as u64);
        detail.append(" 不存在：工作簿共有 ");
        push_decimal(&mut detail, count as u64);
        detail.append(" 张工作表。");
        return Err(LibraryError::Preview(detail));
    }
    let (start_row, rows, columns) = clamp_table_range(start_row, row_count, column_count);
    assert(sheet_views(sheets@)[sheet_index as int] == sheets@[sheet_index as int]@);
    let parsed = match read_sheet(
        &package,
        sheets[sheet_index].part.as_str(),
        (start_row, rows),
        columns,
        &mut budget,
    ) {
        Err(error) => {
            return Err(error);
        },
        Ok(parsed) => parsed,
    };
    let degraded_features = notes_on_sheet(&parsed, &package);
    let infos = describe_sheets(sheets.as_slice(), sheet_index, &parsed);
    let has_more_rows = start_row.saturating_add(rows) < parsed.row_count;
    Ok(
        TableRange {
            sheets: infos,
            sheet_index,
            start_row,
            cells: parsed.rows,
            row_numbers: parsed.row_numbers,
            column_count: columns,
            has_more_rows,
            degraded_features,
            notice: None,
        },
    )
}

// ---- Text for the index ----

/// The cell adds to the text of its row.
pub open spec fn indexed_cell(cell: Seq<char>) -> bool {
    cell.len() > 0 && cell != uncached_text()
}

/// The cells that add to the text of a row.
pub open spec fn indexed_cells(row: Seq<Seq<char>>) -> Seq<Seq<char>>
    decreases row.len(),
{
    if row.len() == 0 {
        Seq::empty()
    } else if indexed_cell(row.last()) {
        indexed_cells(row.drop_last()).push(row.last())
    } else {
        indexed_cells(row.drop_last())
    }
}

/// The text after one more row, on a line of its own.
pub open spec fn with_row_text(target: Seq<char>, row: Seq<Seq<char>>) -> Seq<char> {
    let visible = join(indexed_cells(row), " "@);
    if visible.len() == 0 {
        target
    } else if target.len() > 0 && target.last() != '\n' {
        target.push('\n') + visible
    } else {
        target + visible
    }
}

/// The text after all rows.
pub open spec fn with_rows_text(target: Seq<char>, rows: Seq<Seq<Seq<char>>>) -> Seq<char>
    decreases rows.len(),
{
    if rows.len() == 0 {
        target
    } else {
        with_row_text(with_rows_text(target, rows.drop_last()), rows.last())
    }
}

/// The text is open for a line end: it holds something, and no line end stands last.
pub open spec fn line_is_open(text: Seq<char>) -> bool {
    text.len() > 0 && text.last() != '\n'
}

/// Adds a row to the text. The text for a missing value is not indexed. Whether the text is open for
/// a line end is handed in and back.
pub fn append_row_text(target: &mut String, row: &[String], open_line: bool) -> (still_open: bool)
    requires
        open_line == line_is_open(old(target)@),
    ensures
        final(target)@ == with_row_text(old(target)@, views(row@)),
        still_open == line_is_open(final(target)@),
{
    let mut visible: Vec<String> = Vec::new();
    let ghost all = views(row@);
    let mut i: usize = 0;
    assert(views(visible@) =~= indexed_cells(all.take(0)));
    while i < row.len()
        invariant
            i <= row@.len(),
            all == views(row@),
            *target == *old(target),
            views(visible@) == indexed_cells(all.take(i as int)),
        decreases row@.len() - i,
    {
        assert(all.take(i + 1).drop_last() =~= all.take(i as int));
        assert(all.take(i + 1).last() == row@[i as int]@);
        if chars(row[i].as_str()).len() > 0 && !same(row[i].as_str(), "未缓存") {
            let ghost before = views(visible@);
            visible.push(row[i].clone());
            assert(views(visible@) =~= before.push(row@[i as int]@));
        }
        i = i + 1;
    }
    assert(all.take(i as int) =~= all);
    let text = join_texts(visible.as_slice(), " ");
    let added = chars(text.as_str());
    let size: usize = added.len();
    if size == 0 {
        return open_line;
    }
    if open_line {
        target.push('\n');
    }
    target.append(text.as_str());
    assert(target@.last() == added@[size - 1]);
    added[size - 1] != '\n'
}

/// Adds rows to the text.
fn append_rows_text(target: &mut String, rows: &[Vec<String>], open_line: bool)
    requires
        open_line == line_is_open(old(target)@),
    ensures
        final(target)@ == with_rows_text(old(target)@, row_views(rows@)),
{
    let ghost all = row_views(rows@);
    let ghost start = target@;
    let mut is_open = open_line;
    let mut i: usize = 0;
    assert(with_rows_text(start, all.take(0)) == start);
    while i < rows.len()
        invariant
            i <= rows@.len(),
            all == row_views(rows@),
            start == old(target)@,
            is_open == line_is_open(target@),
            target@ == with_rows_text(start, all.take(i as int)),
        decreases rows@.len() - i,
    {
        assert(all.take(i + 1).drop_last() =~= all.take(i as int));
        assert(all.take(i + 1).last() == views(rows@[i as int]@));
        is_open = append_row_text(target, rows[i].as_slice(), is_open);
        i = i + 1;
    }
    assert(all.take(i as int) =~= all);
}

/// The first characters of a text, as many as the index takes.
pub open spec fn bounded(text: Seq<char>) -> Seq<char> {
    if text.len() > MAX_EXTRACTED_TEXT_CHARS {
        text.take(MAX_EXTRACTED_TEXT_CHARS as int)
    } else {
        text
    }
}

/// All records.
pub open spec fn whole_window() -> Window {
    Window { all: true, start: 0, rows: usize::MAX }
}

/// The text of a CSV file for the index, or why the file is refused.
pub open spec fn csv_index_text(bytes: Seq<u8>) -> Result<Seq<char>, Failure> {
    match charged_csv(bytes, limits_for(INDEX_ARCHIVE_EXPANDED_BYTES)) {
        Err(error) => Err(error),
        Ok((text, _)) => Ok(
            bounded(
                with_rows_text(Seq::empty(), kept_rows(records(text), whole_window(), usize::MAX)),
            ),
        ),
    }
}

/// The text `joined` and that of the worksheets from `at` on, or why one is refused.
pub open spec fn sheets_text(
    bytes: Seq<u8>,
    entries: Seq<Meta>,
    sheets: Seq<(Seq<char>, Seq<char>)>,
    at: int,
    joined: Seq<char>,
    shared: Option<Seq<Seq<char>>>,
    limits: ArchiveLimits,
    spent: u64,
) -> Result<Seq<char>, Failure>
    decreases sheets.len() - at,
{
    if at < 0 || at >= sheets.len() {
        Ok(joined)
    } else {
        let parted = if joined.len() > 0 {
            joined.push('\n')
        } else {
            joined
        };
        let named = (parted + sheets[at].0).push('\n');
        match needed_part(bytes, entries, sheets[at].1, limits, spent, "XLSX"@) {
            Err(error) => Err(error),
            Ok((xml, spent)) => match sheet_in(
                xml_tokens(xml, false),
                Asked { shared, window: window_at(0, usize::MAX), columns: usize::MAX },
                "XLSX"@,
            ) {
                Err(error) => Err(error),
                Ok(sheet) => sheets_text(
                    bytes,
                    entries,
                    sheets,
                    at + 1,
                    with_rows_text(named, sheet.rows),
                    shared,
                    limits,
                    spent,
                ),
            },
        }
    }
}

/// The text of a workbook for the index, or why the workbook is refused.
pub open spec fn xlsx_index_text(bytes: Seq<u8>) -> Result<Seq<char>, Failure> {
    let limits = limits_for(INDEX_ARCHIVE_EXPANDED_BYTES);
    match workbook_sheets(bytes, limits) {
        Err(error) => Err(error),
        Ok((entries, sheets, spent)) => match package_strings(bytes, entries, limits, spent) {
            Err(error) => Err(error),
            Ok((shared, spent)) => match sheets_text(
                bytes,
                entries,
                sheets,
                0,
                Seq::empty(),
                shared,
                limits,
                spent,
            ) {
                Err(error) => Err(error),
                Ok(text) => Ok(bounded(text)),
            },
        },
    }
}

/// The format of a table, or that the file type is none of a table.
pub open spec fn table_format(file_type: Seq<char>) -> Result<DocumentFormatId, Failure> {
    match format_of_type(file_type) {
        None => Err(failure(ErrorKind::UnsupportedFile, "不支持的文档格式："@ + file_type)),
        Some(id) => if id == DocumentFormatId::Csv || id == DocumentFormatId::Xlsx {
            Ok(id)
        } else {
            Err(failure(ErrorKind::UnsupportedFile, format_name(id) + " 不是表格文档。"@))
        },
    }
}

/// The format of a table, or that the file type is none of a table.
pub fn table_format_id(file_type: &str) -> (result: LibraryResult<DocumentFormatId>)
    ensures
        (match result {
            Ok(id) => Ok(id),
            Err(error) => Err(error@),
        }) == table_format(file_type@),
{
    match capability_for_file_type(file_type) {
        None => {
            let mut detail = "不支持的文档格式：".to_owned();
            detail.append(file_type);
            Err(LibraryError::UnsupportedFile(detail))
        },
        Some(capability) => {
            if capability.id == DocumentFormatId::Csv || capability.id == DocumentFormatId::Xlsx {
                return Ok(capability.id);
            }
            let mut detail = capability.id.as_str().to_owned();
            detail.append(" 不是表格文档。");
            Err(LibraryError::UnsupportedFile(detail))
        },
    }
}

/// The text of a table for the index, or why the file is refused.
pub open spec fn table_index_text(bytes: Seq<u8>, file_type: Seq<char>) -> Result<Seq<char>, Failure> {
    match table_format(file_type) {
        Err(error) => Err(error),
        Ok(id) => if id == DocumentFormatId::Csv {
            csv_index_text(bytes)
        } else {
            xlsx_index_text(bytes)
        },
    }
}

/// The text of a CSV file for the index.
fn extract_csv_text(bytes: &[u8]) -> (result: LibraryResult<String>)
    requires
        bytes@.len() < usize::MAX,
    ensures
        outcome(result) == csv_index_text(bytes@),
{
    match read_charged_csv(bytes, ArchiveLimits::for_index()) {
        Err(error) => Err(error),
        Ok((text, _)) => {
            let parsed = parse_csv_rows(text.as_str(), None, usize::MAX);
            let mut joined = String::new();
            assert(joined@ =~= Seq::empty());
            append_rows_text(&mut joined, parsed.rows.as_slice(), false);
            Ok(bound_extracted_text(joined).text)
        },
    }
}

/// The text of a workbook for the index.
fn extract_xlsx_text(bytes: &[u8]) -> (result: LibraryResult<String>)
    ensures
        outcome(result) == xlsx_index_text(bytes@),
{
    let mut budget = ExpansionBudget::new(ArchiveLimits::for_index());
    let (package, sheets) = match open_workbook(bytes, &mut budget) {
        Err(error) => {
            return Err(error);
        },
        Ok(opened) => opened,
    };
    let shared = match package.shared_strings(&mut budget) {
        Err(error) => {
            return Err(error);
        },
        Ok(shared) => shared,
    };
    match join_sheets(&package, sheets.as_slice(), &shared, &mut budget) {
        Err(error) => Err(error),
        Ok(joined) => Ok(bound_extracted_text(joined).text),
    }
}

/// The text of all worksheets, each below its name.
fn join_sheets(
    package: &XlsxPackage,
    sheets: &[WorkbookSheet],
    shared: &SharedStrings,
    budget: &mut ExpansionBudget,
) -> (result: LibraryResult<String>)
    ensures
        outcome(result) == sheets_text(
            package.bytes@,
            package.directory.metas(),
            sheet_views(sheets@),
            0,
            Seq::empty(),
            shared_view(*shared),
            old(budget).allowed(),
            old(budget).spent(),
        ),
{
    let ghost list = sheet_views(sheets@);
    let ghost limits = budget.allowed();
    let ghost at_start = sheets_text(
        package.bytes@,
        package.directory.metas(),
        list,
        0,
        Seq::empty(),
        shared_view(*shared),
        limits,
        budget.spent(),
    );
    let mut joined = String::new();
    assert(joined@ =~= Seq::empty());
    let mut i: usize = 0;
    while i < sheets.len()
        invariant
            i <= sheets@.len(),
            list == sheet_views(sheets@),
            budget.allowed() == limits,
            at_start == sheets_text(
                package.bytes@,
                package.directory.metas(),
                list,
                i as int,
                joined@,
                shared_view(*shared),
                limits,
                budget.spent(),
            ),
            at_start == sheets_text(
                package.bytes@,
                package.directory.metas(),
                list,
                0,
                Seq::empty(),
                shared_view(*shared),
                old(budget).allowed(),
                old(budget).spent(),
            ),
        decreases sheets@.len() - i,
    {
        assert(list[i as int] == sheets@[i as int]@);
        if chars(joined.as_str()).len() > 0 {
            joined.push('\n');
        }
        joined.append(sheets[i].name.as_str());
        joined.push('\n');
        let xml = match package.read_part(sheets[i].part.as_str(), budget) {
            Err(error) => {
                return Err(error);
            },
            Ok(xml) => xml,
        };
        let parsed = match parse_sheet_xml(
            xml.as_slice(),
            shared,
            (0, usize::MAX),
            usize::MAX,
            "XLSX",
        ) {
            Err(error) => {
                return Err(error);
            },
            Ok(parsed) => parsed,
        };
        append_rows_text(&mut joined, parsed.rows.as_slice(), false);
        i = i + 1;
    }
    Ok(joined)
}

/// The visible text of a table, for the index. Formulas add the value that was stored with them, and
/// nothing where there is none.
pub fn extract_table_text(bytes: &[u8], file_type: &str) -> (result: LibraryResult<String>)
    requires
        bytes@.len() < usize::MAX,
    ensures
        outcome(result) == table_index_text(bytes@, file_type@),
{
    match table_format_id(file_type) {
        Err(error) => Err(error),
        Ok(id) => if id == DocumentFormatId::Csv {
            extract_csv_text(bytes)
        } else {
            extract_xlsx_text(bytes)
        },
    }
}

// ---- Checking a file ----

/// Why the roots of the worksheets from `at` on are refused, if they are.
pub open spec fn sheet_roots(
    bytes: Seq<u8>,
    entries: Seq<Meta>,
    sheets: Seq<(Seq<char>, Seq<char>)>,
    at: int,
    limits: ArchiveLimits,
    spent: u64,
) -> Result<(), Seq<char>>
    decreases sheets.len() - at,
{
    if at < 0 || at >= sheets.len() {
        Ok(())
    } else {
        match needed_part(bytes, entries, sheets[at].1, limits, spent, "XLSX"@) {
            Err(error) => Err(refused("XLSX"@, error)),
            Ok((xml, spent)) => match root_name(xml_tokens(xml, true), "XLSX"@) {
                Err(error) => Err(refused("XLSX"@, error)),
                Ok(root) => if root != "worksheet"@ {
                    Err(
                        "XLSX 结构校验失败：工作表「"@ + sheets[at].0 + "」的根节点是 "@ + root
                            + "，不是 worksheet。"@,
                    )
                } else {
                    sheet_roots(bytes, entries, sheets, at + 1, limits, spent)
                },
            },
        }
    }
}

/// The reason for refusing a file: the format, and the text of the error.
pub open spec fn refused(format: Seq<char>, error: Failure) -> Seq<char> {
    format + " 结构校验失败："@ + crate::error::lead_of(error.kind) + error.detail
}

/// The reason for refusing a file.
fn refusal(format: &str, error: &LibraryError) -> (reason: String)
    ensures
        reason@ == refused(format@, error@),
{
    let mut reason = format.to_owned();
    reason.append(" 结构校验失败：");
    reason.append(error.message().as_str());
    assert(reason@ =~= refused(format@, error@));
    reason
}

/// Whether a workbook has the structure of one, or why not.
pub open spec fn workbook_check(bytes: Seq<u8>) -> Result<(), Seq<char>> {
    let limits = limits_for(INDEX_ARCHIVE_EXPANDED_BYTES);
    match workbook_sheets(bytes, limits) {
        Err(error) => Err(refused("XLSX"@, error)),
        Ok((entries, sheets, spent)) => sheet_roots(bytes, entries, sheets, 0, limits, spent),
    }
}

/// Whether a file is the table that its type says, or why not.
pub open spec fn table_check(bytes: Seq<u8>, file_type: Seq<char>) -> Result<(), Seq<char>> {
    match table_format(file_type) {
        Err(error) => Err(crate::error::lead_of(error.kind) + error.detail),
        Ok(id) => if id == DocumentFormatId::Csv {
            match csv_text(bytes) {
                Err(error) => Err(refused("CSV"@, error)),
                Ok(_) => Ok(()),
            }
        } else {
            workbook_check(bytes)
        },
    }
}

/// The reason in a result, by characters.
pub open spec fn reason_view(result: Result<(), String>) -> Result<(), Seq<char>> {
    match result {
        Ok(()) => Ok(()),
        Err(reason) => Err(reason@),
    }
}

/// Checks the structure of a workbook.
fn validate_workbook(bytes: &[u8]) -> (result: Result<(), String>)
    ensures
        reason_view(result) == workbook_check(bytes@),
{
    let mut budget = ExpansionBudget::new(ArchiveLimits::for_index());
    let (package, sheets) = match open_workbook(bytes, &mut budget) {
        Err(error) => {
            return Err(refusal("XLSX", &error));
        },
        Ok(opened) => opened,
    };
    validate_sheet_roots(&package, sheets.as_slice(), &mut budget)
}

/// Checks that every worksheet is one.
fn validate_sheet_roots(package: &XlsxPackage, sheets: &[WorkbookSheet], budget: &mut ExpansionBudget)
    -> (result: Result<(), String>)
    ensures
        reason_view(result) == sheet_roots(
            package.bytes@,
            package.directory.metas(),
            sheet_views(sheets@),
            0,
            old(budget).allowed(),
            old(budget).spent(),
        ),
{
    let ghost list = sheet_views(sheets@);
    let ghost limits = budget.allowed();
    let mut i: usize = 0;
    while i < sheets.len()
        invariant
            i <= sheets@.len(),
            list == sheet_views(sheets@),
            budget.allowed() == limits,
            limits == old(budget).allowed(),
            sheet_roots(
                package.bytes@,
                package.directory.metas(),
                list,
                i as int,
                limits,
                budget.spent(),
            ) == sheet_roots(
                package.bytes@,
                package.directory.metas(),
                list,
                0,
                old(budget).allowed(),
                old(budget).spent(),
            ),
        decreases sheets@.len() - i,
    {
        assert(list[i as int] == sheets@[i as int]@);
        let xml = match package.read_part(sheets[i].part.as_str(), budget) {
            Err(error) => {
                return Err(refusal("XLSX", &error));
            },
            Ok(xml) => xml,
        };
        let root = match xml_root_local_name(xml.as_slice(), "XLSX") {
            Err(error) => {
                return Err(refusal("XLSX", &error));
            },
            Ok(root) => root,
        };
        if !same(root.as_str(), "worksheet") {
            let mut reason = "XLSX 结构校验失败：工作表「".to_owned();
            reason.append(sheets[i].name.as_str());
            reason.append("」的根节点是 ");
            reason.append(root.as_str());
            reason.append("，不是 worksheet。");
            return Err(reason);
        }
        i = i + 1;
    }
    Ok(())
}

/// Checks that a file is the table that its type says: CSV must decode as a whole, and XLSX must be
/// a complete workbook. The extension and the first bytes are not enough.
pub fn validate_table_document(bytes: &[u8], file_type: &str) -> (result: Result<(), String>)
    ensures
        reason_view(result) == table_check(bytes@, file_type@),
{
    match table_format_id(file_type) {
        Err(error) => Err(error.message()),
        Ok(id) => {
            if id == DocumentFormatId::Csv {
                match decode_csv_text(bytes) {
                    Err(error) => Err(refusal("CSV", &error)),
                    Ok(_) => Ok(()),
                }
            } else {
                validate_workbook(bytes)
            }
        },
    }
}

// ---- Laws ----

/// A CSV file whose text can be indexed is one that the check accepts.
pub proof fn indexed_csv_files_are_valid(bytes: Seq<u8>, file_type: Seq<char>)
    requires
        table_format(file_type) == Ok::<_, Failure>(DocumentFormatId::Csv),
        table_index_text(bytes, file_type) is Ok,
    ensures
        table_check(bytes, file_type) is Ok,
{
}

/// The text for the index is never longer than its limit.
pub proof fn index_text_is_bounded(bytes: Seq<u8>, file_type: Seq<char>)
    requires
        table_index_text(bytes, file_type) is Ok,
    ensures
        table_index_text(bytes, file_type)->Ok_0.len() <= MAX_EXTRACTED_TEXT_CHARS,
{
}

/// A mark of UTF-8 in front of a CSV file changes nothing but the notice: it is told of, and is never
/// part of a cell.
pub proof fn marks_change_only_the_notice(
    bytes: Seq<u8>,
    start_row: usize,
    row_count: usize,
    column_count: usize,
    limits: ArchiveLimits,
)
    requires
        !opens_with(bytes, utf8_mark()),
        csv_table(bytes, start_row, row_count, column_count, limits) is Ok,
        bytes.len() + 3 <= limits.max_input_bytes,
    ensures
        csv_table(bytes, start_row, row_count, column_count, limits)->Ok_0.notice is None,
        csv_table(utf8_mark() + bytes, start_row, row_count, column_count, limits) == Ok::<_, Failure>(
            Table {
                notice: Some("已忽略文件开头的 UTF-8 BOM。"@),
                ..csv_table(bytes, start_row, row_count, column_count, limits)->Ok_0
            },
        ),
{
    let marked = utf8_mark() + bytes;
    assert(marked.subrange(0, 3) =~= utf8_mark());
    assert(marked.skip(3) =~= bytes);
    assert(marked[0] == 0xef);
    assert(!opens_with(marked, seq![0xffu8, 0xfe])) by {
        if opens_with(marked, seq![0xffu8, 0xfe]) {
            assert(marked.subrange(0, 2)[0] == 0xff);
        }
    }
    assert(!opens_with(marked, seq![0xfeu8, 0xff])) by {
        if opens_with(marked, seq![0xfeu8, 0xff]) {
            assert(marked.subrange(0, 2)[0] == 0xfe);
        }
    }
    assert(!opens_with(marked, crate::archive::local_mark())) by {
        if opens_with(marked, crate::archive::local_mark()) {
            assert(marked.subrange(0, 4)[0] == 0x50);
        }
    }
}

/// A text as a table shows it: no longer than the limit.
pub open spec fn shown_cell(cell: Seq<char>) -> Seq<char> {
    cell.take(
        if cell.len() < MAX_TABLE_CELL_CHARS {
            cell.len() as int
        } else {
            MAX_TABLE_CELL_CHARS as int
        },
    )
}

/// A record as a table shows it: its first `columns` fields.
pub open spec fn shown_record(record: Seq<Seq<char>>, columns: usize) -> Seq<Seq<char>> {
    Seq::new(
        if record.len() < columns {
            record.len()
        } else {
            columns as nat
        },
        |i: int| shown_cell(record[i]),
    )
}

proof fn lemma_fields_shown(record: Seq<Seq<char>>, columns: usize)
    ensures
        kept_fields(record, columns) == shown_record(record, columns),
        cut_fields(record, columns) > 0 <==> exists|i: int|
            0 <= i < record.len() && i < columns && (#[trigger] record[i]).len() > MAX_TABLE_CELL_CHARS,
    decreases record.len(),
{
    if record.len() == 0 {
        assert(kept_fields(record, columns) =~= shown_record(record, columns));
    } else {
        let shorter = record.drop_last();
        lemma_fields_shown(shorter, columns);
        let last = record.last();
        assert(kept_cell(last) =~= shown_cell(last));
        assert(kept_fields(record, columns) =~= shown_record(record, columns));
        assert(forall|i: int| 0 <= i < shorter.len() ==> shorter[i] == record[i]);
        if cut_fields(shorter, columns) > 0 {
            let k = choose|k: int|
                0 <= k < shorter.len() && k < columns && (#[trigger] shorter[k]).len()
                    > MAX_TABLE_CELL_CHARS;
            assert(record[k].len() > MAX_TABLE_CELL_CHARS);
        } else if cut_fields(record, columns) > 0 {
            assert(record[record.len() - 1].len() > MAX_TABLE_CELL_CHARS);
        } else {
            assert forall|i: int| 0 <= i < record.len() && i < columns implies (#[trigger] record[i]).len()
                <= MAX_TABLE_CELL_CHARS by {
                if i < shorter.len() {
                    assert(shorter[i].len() <= MAX_TABLE_CELL_CHARS);
                }
            }
        }
    }
}

/// How many of the first `total` records lie in a window.
pub open spec fn count_in(start: usize, rows: usize, total: int) -> int {
    if total <= start {
        0
    } else if total - start < rows {
        total - start
    } else {
        rows as int
    }
}

proof fn lemma_window_shows(all: Seq<Seq<Seq<char>>>, start: usize, rows: usize, columns: usize)
    requires
        columns > 0,
        forall|i: int| 0 <= i < all.len() ==> (#[trigger] all[i]).len() > 0,
    ensures
        kept_rows(all, window_at(start, rows), columns) == Seq::new(
            count_in(start, rows, all.len() as int) as nat,
            |i: int| shown_record(all[start + i], columns),
        ),
        kept_numbers(all, window_at(start, rows), columns) == Seq::new(
            count_in(start, rows, all.len() as int) as nat,
            |i: int| (start + i) as usize,
        ),
        cut_cells(all, window_at(start, rows), columns) > 0 <==> exists|i: int, k: int|
            #![trigger all[i][k]]
            start <= i < all.len() && i - start < rows && 0 <= k < all[i].len() && k < columns
                && all[i][k].len() > MAX_TABLE_CELL_CHARS,
    decreases all.len(),
{
    let window = window_at(start, rows);
    let shown = Seq::new(
        count_in(start, rows, all.len() as int) as nat,
        |i: int| shown_record(all[start + i], columns),
    );
    let numbers = Seq::new(
        count_in(start, rows, all.len() as int) as nat,
        |i: int| (start + i) as usize,
    );
    if all.len() == 0 {
        assert(kept_rows(all, window, columns) =~= shown);
        assert(kept_numbers(all, window, columns) =~= numbers);
    } else {
        let shorter = all.drop_last();
        assert(forall|i: int| 0 <= i < shorter.len() ==> shorter[i] == all[i]);
        lemma_window_shows(shorter, start, rows, columns);
        lemma_fields_shown(all.last(), columns);
        assert(all[all.len() - 1].len() > 0);
        assert(kept_rows(all, window, columns) =~= shown);
        assert(kept_numbers(all, window, columns) =~= numbers);
        if cut_cells(shorter, window, columns) > 0 {
            let (i, k) = choose|i: int, k: int|
                #![trigger shorter[i][k]]
                start <= i < shorter.len() && i - start < rows && 0 <= k < shorter[i].len() && k < columns
                    && shorter[i][k].len() > MAX_TABLE_CELL_CHARS;
            assert(all[i][k].len() > MAX_TABLE_CELL_CHARS);
        } else if cut_cells(all, window, columns) > 0 {
            let last = all.last();
            let k = choose|k: int|
                0 <= k < last.len() && k < columns && (#[trigger] last[k]).len() > MAX_TABLE_CELL_CHARS;
            assert(all[all.len() - 1][k].len() > MAX_TABLE_CELL_CHARS);
        } else {
            assert forall|i: int, k: int|
                #![trigger all[i][k]]
                start <= i < all.len() && i - start < rows && 0 <= k < all[i].len() && k < columns implies all[i][k].len()
                <= MAX_TABLE_CELL_CHARS by {
                if i < shorter.len() {
                    assert(shorter[i][k].len() <= MAX_TABLE_CELL_CHARS);
                } else {
                    assert(all.last()[k].len() <= MAX_TABLE_CELL_CHARS);
                }
            }
        }
    }
}

/// The smallest number from `low` to `high` that is nearest to `wanted`.
pub open spec fn nearest(wanted: usize, low: usize, high: usize) -> usize {
    if wanted < low {
        low
    } else if wanted > high {
        high
    } else {
        wanted
    }
}

/// A part of a CSV table shows the records from the first one asked for on, as many as asked for and
/// at least one, each with its number and its first fields, cut to the limit; it tells the extent of
/// the whole, whether more records follow, whether a cell was cut, and whether a mark was dropped.
pub proof fn csv_tables_show_their_records(
    bytes: Seq<u8>,
    start_row: usize,
    row_count: usize,
    column_count: usize,
    limits: ArchiveLimits,
)
    requires
        csv_table(bytes, start_row, row_count, column_count, limits) is Ok,
        csv_text(bytes) is Ok ==> records(csv_text(bytes)->Ok_0.0).len() <= usize::MAX,
    ensures
        csv_text(bytes) is Ok,
        ({
            let table = csv_table(bytes, start_row, row_count, column_count, limits)->Ok_0;
            let all = records(csv_text(bytes)->Ok_0.0);
            let rows = nearest(row_count, 1, MAX_TABLE_PREVIEW_ROWS);
            let columns = nearest(column_count, 1, MAX_TABLE_PREVIEW_COLUMNS);
            &&& table.cells == Seq::new(
                count_in(start_row, rows, all.len() as int) as nat,
                |i: int| shown_record(all[start_row + i], columns),
            )
            &&& table.row_numbers == Seq::new(
                count_in(start_row, rows, all.len() as int) as nat,
                |i: int| (start_row + i) as usize,
            )
            &&& table.sheets.len() == 1
            &&& table.sheets[0].row_count == Some(all.len() as usize)
            &&& table.start_row == start_row
            &&& table.column_count == columns
            &&& table.has_more_rows <==> start_row + rows < all.len()
            &&& table.degraded_features.len() > 0 <==> exists|i: int, k: int|
                #![trigger all[i][k]]
                start_row <= i < all.len() && i - start_row < rows && 0 <= k < all[i].len() && k < columns
                    && all[i][k].len() > MAX_TABLE_CELL_CHARS
            &&& table.notice is Some <==> bytes.len() >= 3 && bytes[0] == 0xef && bytes[1] == 0xbb && bytes[2]
                == 0xbf
        }),
{
    let text = csv_text(bytes)->Ok_0.0;
    let all = records(text);
    let rows = asked_rows(row_count);
    let columns = asked_columns(column_count);
    every_record_has_a_field(text);
    lemma_window_shows(all, start_row, rows, columns);
    if bytes.len() >= 3 {
        let first = bytes.subrange(0, 3);
        assert(first[0] == bytes[0] && first[1] == bytes[1] && first[2] == bytes[2]);
        if bytes[0] == 0xef && bytes[1] == 0xbb && bytes[2] == 0xbf {
            assert(first =~= utf8_mark());
        }
    }
}

/// The worksheet that is read in part is told of as what it is: a note stands for each of what was
/// left out, and for nothing else.
pub proof fn notes_tell_what_is_left_out(sheet: Sheet, entries: Seq<Meta>)
    ensures
        sheet_notes(sheet, entries).contains("部分公式缺少缓存值，已显示为「未缓存」。"@) <==> sheet.uncached
            > 0,
        sheet_notes(sheet, entries).contains(cut_note()) <==> sheet.truncated > 0,
        sheet_notes(sheet, entries).contains("工作簿包含外部链接，已跳过其内容。"@) <==> has_entry_under(
            entries,
            "xl/externalLinks/"@,
        ),
        sheet_notes(sheet, entries).contains("工作簿包含嵌入对象，已跳过。"@) <==> has_entry_under(
            entries,
            "xl/embeddings/"@,
        ),
        sheet_notes(sheet, entries).no_duplicates(),
{
    reveal_strlit("部分公式缺少缓存值，已显示为「未缓存」。");
    reveal_strlit("工作簿包含外部链接，已跳过其内容。");
    reveal_strlit("工作簿包含嵌入对象，已跳过。");
    let formulas = "部分公式缺少缓存值，已显示为「未缓存」。"@;
    let cells = cut_note();
    let outside = "工作簿包含外部链接，已跳过其内容。"@;
    let embedded = "工作簿包含嵌入对象，已跳过。"@;
    reveal_strlit("部分单元格文本超过 ");
    assert(formulas[2] == '公' && cells[2] == '单' && outside[2] == '簿' && embedded[2] == '簿');
    assert(outside[5] == '外' && embedded[5] == '嵌');
    let notes = sheet_notes(sheet, entries);
    if sheet.uncached > 0 {
        assert(notes[0] == formulas);
    }
    let second: int = if sheet.uncached > 0 {
        1
    } else {
        0
    };
    if sheet.truncated > 0 {
        assert(notes[second] == cells);
    }
    let third: int = second + if sheet.truncated > 0 {
        1int
    } else {
        0int
    };
    if has_entry_under(entries, "xl/externalLinks/"@) {
        assert(notes[third] == outside);
    }
    let fourth: int = third + if has_entry_under(entries, "xl/externalLinks/"@) {
        1int
    } else {
        0int
    };
    if has_entry_under(entries, "xl/embeddings/"@) {
        assert(notes[fourth] == embedded);
    }
}

/// The cells of a row that the index takes: those with a text of the file.
pub open spec fn telling_cells(row: Seq<Seq<char>>) -> Seq<Seq<char>> {
    row.filter(|cell: Seq<char>| cell.len() > 0 && cell != "未缓存"@)
}

proof fn lemma_telling_cells(row: Seq<Seq<char>>)
    ensures
        indexed_cells(row) == telling_cells(row),
    decreases row.len(),
{
    reveal(Seq::filter);
    if row.len() > 0 {
        lemma_telling_cells(row.drop_last());
    }
}

/// The text of rows for the index is one line for each row, in their order, with spaces between the
/// texts of its cells; what stands for a value that is not stored is left out.
pub proof fn rows_are_lines_of_the_index(rows: Seq<Seq<Seq<char>>>)
    requires
        forall|i: int|
            0 <= i < rows.len() ==> join(telling_cells(#[trigger] rows[i]), seq![' ']).len() > 0 && join(
                telling_cells(rows[i]),
                seq![' '],
            ).last() != '\n',
    ensures
        with_rows_text(Seq::empty(), rows) == join(
            Seq::new(rows.len(), |i: int| join(telling_cells(rows[i]), seq![' '])),
            seq!['\n'],
        ),
    decreases rows.len(),
{
    let lines = Seq::new(rows.len(), |i: int| join(telling_cells(rows[i]), seq![' ']));
    let whole = with_rows_text(Seq::empty(), rows);
    if rows.len() == 0 {
        assert(whole =~= join(lines, seq!['\n']));
    } else {
        let shorter = rows.drop_last();
        let before = with_rows_text(Seq::empty(), shorter);
        assert forall|i: int| 0 <= i < shorter.len() implies join(
            telling_cells(#[trigger] shorter[i]),
            seq![' '],
        ).len() > 0 && join(telling_cells(shorter[i]), seq![' ']).last() != '\n' by {
            assert(shorter[i] == rows[i]);
        }
        rows_are_lines_of_the_index(shorter);
        let fewer = Seq::new(shorter.len(), |i: int| join(telling_cells(shorter[i]), seq![' ']));
        assert(lines.drop_last() =~= fewer);
        lemma_telling_cells(rows.last());
        reveal_strlit(" ");
        assert(" "@ =~= seq![' ']);
        let last = join(telling_cells(rows.last()), seq![' ']);
        assert(rows[rows.len() - 1] == rows.last());
        assert(last.len() > 0);
        if shorter.len() == 0 {
            assert(before.len() == 0);
            assert(whole =~= last);
        } else {
            assert(shorter.last() == rows[rows.len() - 2]);
            assert(fewer.last() == join(telling_cells(shorter.last()), seq![' ']));
            let end = fewer.last();
            if fewer.len() > 1 {
                assert(before.last() == end.last());
            } else {
                assert(before == end);
            }
            assert(whole =~= before + seq!['\n'] + last);
        }
    }
}

/// The text of a CSV file for the index is that of all its records, cut to the limit.
pub proof fn csv_files_are_indexed_whole(bytes: Seq<u8>, file_type: Seq<char>, lines: Seq<char>)
    requires
        table_format(file_type) == Ok::<_, Failure>(DocumentFormatId::Csv),
        table_index_text(bytes, file_type) is Ok,
        csv_text(bytes) is Ok,
        ({
            let all = records(csv_text(bytes)->Ok_0.0);
            let shown = Seq::new(all.len(), |i: int| shown_record(all[i], usize::MAX));
            &&& all.len() <= usize::MAX
            &&& lines == with_rows_text(Seq::empty(), shown)
        }),
    ensures
        table_index_text(bytes, file_type) == Ok::<_, Failure>(
            lines.take(
                if lines.len() < MAX_EXTRACTED_TEXT_CHARS {
                    lines.len() as int
                } else {
                    MAX_EXTRACTED_TEXT_CHARS as int
                },
            ),
        ),
{
    let text = csv_text(bytes)->Ok_0.0;
    let all = records(text);
    every_record_has_a_field(text);
    lemma_all_shown(all);
    assert(lines.take(lines.len() as int) =~= lines);
}

proof fn lemma_all_shown(all: Seq<Seq<Seq<char>>>)
    requires
        forall|i: int| 0 <= i < all.len() ==> (#[trigger] all[i]).len() > 0,
    ensures
        kept_rows(all, whole_window(), usize::MAX) == Seq::new(
            all.len(),
            |i: int| shown_record(all[i], usize::MAX),
        ),
    decreases all.len(),
{
    let shown = Seq::new(all.len(), |i: int| shown_record(all[i], usize::MAX));
    if all.len() > 0 {
        let shorter = all.drop_last();
        assert(forall|i: int| 0 <= i < shorter.len() ==> shorter[i] == all[i]);
        lemma_all_shown(shorter);
        lemma_fields_shown(all.last(), usize::MAX);
        assert(all[all.len() - 1].len() > 0);
        assert(kept_rows(all, whole_window(), usize::MAX) =~= shown);
    } else {
        assert(kept_rows(all, whole_window(), usize::MAX) =~= shown);
    }
}

} // verus!
