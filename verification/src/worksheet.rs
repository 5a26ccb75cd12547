//! Worksheets: the cells of a part of the sheet, and the extent of the whole.

use vstd::prelude::*;
use crate::csv::{in_window, kept_cell, row_views, Window};
use crate::error::{failure, outcome, ErrorKind, Failure, LibraryError, LibraryResult};
use crate::limits::MAX_TABLE_CELL_CHARS;
use crate::spreadsheet::{decode_xml_text, shared_string, shared_view, xml_text, SharedStrings};
use crate::text::{
    chars, decimal, decimals_are_digits, optional, same, text_between, trim, trimmed, views, white,
};
use crate::xml::{
    element_name, element_pairs, get_value, local_name, local_tag_name, read_attributes, read_events,
    tokens, value_of, without_prefix, xml_tokens, Token, XmlEvent,
};

verus! {

// ---- Numbers ----

/// A decimal digit.
pub open spec fn is_digit(c: char) -> bool {
    '0' <= c && c <= '9'
}

/// The number that decimal digits stand for.
pub open spec fn digits_value(digits: Seq<char>) -> nat
    decreases digits.len(),
{
    if digits.len() == 0 {
        0
    } else {
        digits_value(digits.drop_last()) * 10 + (digits.last() as nat - '0' as nat) as nat
    }
}

/// The text without a leading plus sign.
pub open spec fn without_plus(text: Seq<char>) -> Seq<char> {
    if text.len() > 0 && text[0] == '+' {
        text.skip(1)
    } else {
        text
    }
}

/// The number that a text stands for: digits, with a plus sign before them or not, and no more than
/// a `usize` can hold.
pub open spec fn parsed_number(text: Seq<char>) -> Option<nat> {
    let digits = without_plus(text);
    if digits.len() > 0 && (forall|i: int| 0 <= i < digits.len() ==> is_digit(#[trigger] digits[i]))
        && digits_value(digits) <= usize::MAX {
        Some(digits_value(digits))
    } else {
        None
    }
}

proof fn lemma_longer_digits_are_larger(digits: Seq<char>, count: int)
    requires
        0 <= count <= digits.len(),
    ensures
        digits_value(digits.take(count)) <= digits_value(digits),
    decreases digits.len() - count,
{
    if count < digits.len() {
        lemma_longer_digits_are_larger(digits, count + 1);
        assert(digits.take(count + 1).drop_last() =~= digits.take(count));
    } else {
        assert(digits.take(count) =~= digits);
    }
}

/// The number that a text stands for.
pub fn parse_number(text: &str) -> (found: Option<usize>)
    ensures
        (match found {
            Some(number) => Some(number as nat),
            None => None,
        }) == parsed_number(text@),
{
    let all = chars(text);
    let size: usize = all.len();
    let start: usize = if size > 0 && all[0] == '+' {
        1
    } else {
        0
    };
    let ghost digits = without_plus(text@);
    assert(digits =~= all@.skip(start as int));
    if start == size {
        return None;
    }
    let mut value: usize = 0;
    let mut i: usize = start;
    assert(digits.take(0) =~= Seq::empty());
    while i < size
        invariant
            start <= i <= size,
            size == all@.len(),
            digits == without_plus(text@),
            digits == all@.skip(start as int),
            forall|j: int| 0 <= j < i - start ==> is_digit(#[trigger] digits[j]),
            value == digits_value(digits.take(i - start)),
        decreases size - i,
    {
        let c = all[i];
        assert(digits[i - start] == c);
        if c < '0' || c > '9' {
            return None;
        }
        let digit: usize = (c as u32 - '0' as u32) as usize;
        assert(digits.take(i - start + 1).drop_last() =~= digits.take(i - start));
        assert(digits_value(digits.take(i - start + 1)) == value * 10 + digit);
        proof {
            lemma_longer_digits_are_larger(digits, i - start + 1);
        }
        let tenfold: usize = match value.checked_mul(10) {
            None => {
                return None;
            },
            Some(tenfold) => tenfold,
        };
        value = match tenfold.checked_add(digit) {
            None => {
                return None;
            },
            Some(sum) => sum,
        };
        i = i + 1;
    }
    assert(digits.take(size - start) =~= digits);
    Some(value)
}

/// The number behind another; the first one again behind the last that there is.
pub open spec fn following(index: usize) -> usize {
    if index == usize::MAX {
        0
    } else {
        (index + 1) as usize
    }
}

/// The number behind the last one that was used, or the first.
pub open spec fn after(last: Option<usize>) -> usize {
    match last {
        Some(index) => following(index),
        None => 0,
    }
}

/// The number behind another.
fn next_index(index: usize) -> (next: usize)
    ensures
        next == following(index),
{
    index.wrapping_add(1)
}

/// The number behind the last one that was used, or the first.
fn index_after(last: Option<usize>) -> (next: usize)
    ensures
        next == after(last),
{
    match last {
        Some(index) => next_index(index),
        None => 0,
    }
}

/// The larger of the largest so far and one more.
pub open spec fn largest(so_far: Option<usize>, index: usize) -> usize {
    match so_far {
        Some(current) => if current >= index {
            current
        } else {
            index
        },
        None => index,
    }
}

/// The larger of the largest so far and one more.
fn larger_of(so_far: Option<usize>, index: usize) -> (found: usize)
    ensures
        found == largest(so_far, index),
{
    match so_far {
        Some(current) => if current >= index {
            current
        } else {
            index
        },
        None => index,
    }
}

// ---- Rows and columns ----

/// The index of a row by its number, which counts from one; none for an empty text.
pub open spec fn row_index(value: Seq<char>) -> Result<Option<usize>, Failure> {
    let digits = trim(value);
    if digits.len() == 0 {
        Ok(None)
    } else {
        match parsed_number(digits) {
            None => Err(
                failure(
                    ErrorKind::ImportFile,
                    "XLSX 结构无效：行号 "@ + digits + " 不是有效数字。"@,
                ),
            ),
            Some(number) => if number == 0 {
                Ok(Some(0))
            } else {
                Ok(Some((number - 1) as usize))
            },
        }
    }
}

/// The index of a row by its number, which counts from one; none for an empty text.
pub fn parse_row_number(value: &str) -> (result: LibraryResult<Option<usize>>)
    ensures
        (match result {
            Ok(index) => Ok(index),
            Err(error) => Err(error@),
        }) == row_index(value@),
{
    let digits = trimmed(value);
    if chars(digits.as_str()).len() == 0 {
        return Ok(None);
    }
    match parse_number(digits.as_str()) {
        None => {
            let mut detail = "XLSX 结构无效：行号 ".to_owned();
            detail.append(digits.as_str());
            detail.append(" 不是有效数字。");
            Err(LibraryError::ImportFile(detail))
        },
        Some(number) => Ok(Some(number.saturating_sub(1))),
    }
}

/// A letter from A to Z, in either case.
pub open spec fn is_letter(c: char) -> bool {
    ('a' <= c && c <= 'z') || ('A' <= c && c <= 'Z')
}

/// The place of a letter in the alphabet, from one.
pub open spec fn letter_value(c: char) -> nat {
    if 'a' <= c && c <= 'z' {
        (c as nat - 'a' as nat + 1) as nat
    } else {
        (c as nat - 'A' as nat + 1) as nat
    }
}

/// The number of the column whose letters start at `at` behind those worth `value`; none where a
/// `usize` cannot hold it.
pub open spec fn column_number(text: Seq<char>, at: int, value: nat) -> Option<nat>
    decreases text.len() - at,
{
    if at < 0 || at >= text.len() || !is_letter(text[at]) {
        Some(value)
    } else {
        let next = value * 26 + letter_value(text[at]);
        if next > usize::MAX {
            None
        } else {
            column_number(text, at + 1, next)
        }
    }
}

/// The index of the column in a cell reference; none for an empty text.
pub open spec fn reference_column(reference: Seq<char>) -> Result<Option<usize>, Failure> {
    let text = trim(reference);
    if text.len() == 0 {
        Ok(None)
    } else {
        match column_number(text, 0, 0) {
            None => Err(
                failure(
                    ErrorKind::ImportFile,
                    "XLSX 结构无效：单元格引用 "@ + text + " 超出范围。"@,
                ),
            ),
            Some(number) => if !is_letter(text[0]) {
                Err(
                    failure(
                        ErrorKind::ImportFile,
                        "XLSX 结构无效：单元格引用 "@ + text + " 缺少列字母。"@,
                    ),
                )
            } else {
                Ok(Some((number - 1) as usize))
            },
        }
    }
}

/// The index of the column in a cell reference such as `C12`; none for an empty text.
pub fn cell_reference_column(reference: &str) -> (result: LibraryResult<Option<usize>>)
    ensures
        (match result {
            Ok(index) => Ok(index),
            Err(error) => Err(error@),
        }) == reference_column(reference@),
{
    let text = trimmed(reference);
    let all = chars(text.as_str());
    let size: usize = all.len();
    if size == 0 {
        return Ok(None);
    }
    let mut column: usize = 0;
    let mut i: usize = 0;
    while i < size && ((all[i] >= 'a' && all[i] <= 'z') || (all[i] >= 'A' && all[i] <= 'Z'))
        invariant
            i <= size,
            size == all@.len(),
            size > 0,
            all@ == text@,
            text@ == trim(reference@),
            i > 0 ==> column > 0 && is_letter(all@[0]),
            column_number(text@, i as int, column as nat) == column_number(text@, 0, 0),
        decreases size - i,
    {
        let c = all[i];
        let value: usize = if c >= 'a' && c <= 'z' {
            (c as u32 - 'a' as u32) as usize + 1
        } else {
            (c as u32 - 'A' as u32) as usize + 1
        };
        assert(value == letter_value(c));
        let next: Option<usize> = match column.checked_mul(26) {
            None => None,
            Some(product) => product.checked_add(value),
        };
        match next {
            None => {
                let mut detail = "XLSX 结构无效：单元格引用 ".to_owned();
                detail.append(text.as_str());
                detail.append(" 超出范围。");
                return Err(LibraryError::ImportFile(detail));
            },
            Some(number) => {
                column = number;
            },
        }
        i = i + 1;
    }
    if i == 0 {
        let mut detail = "XLSX 结构无效：单元格引用 ".to_owned();
        detail.append(text.as_str());
        detail.append(" 缺少列字母。");
        return Err(LibraryError::ImportFile(detail));
    }
    Ok(Some(column - 1))
}

// ---- Cells ----

/// What a cell holds.
#[derive(Debug, Clone, Copy, PartialEq, Eq, Structural)]
pub enum CellKind {
    SharedString,
    InlineString,
    Boolean,
    Error,
    Text,
    Number,
}

/// What a cell holds, by its attribute.
pub open spec fn kind_of(value: Option<Seq<char>>) -> CellKind {
    match value {
        None => CellKind::Number,
        Some(value) => {
            let name = trim(value);
            if name == "s"@ {
                CellKind::SharedString
            } else if name == "inlineStr"@ {
                CellKind::InlineString
            } else if name == "b"@ {
                CellKind::Boolean
            } else if name == "e"@ {
                CellKind::Error
            } else if name == "str"@ {
                CellKind::Text
            } else {
                CellKind::Number
            }
        },
    }
}

impl CellKind {
    /// What a cell holds, by its attribute.
    pub fn from_attribute(value: Option<&String>) -> (kind: CellKind)
        ensures
            kind == kind_of(
                match value {
                    Some(text) => Some(text@),
                    None => None,
                },
            ),
    {
        match value {
            None => CellKind::Number,
            Some(value) => {
                let name = trimmed(value.as_str());
                if same(name.as_str(), "s") {
                    CellKind::SharedString
                } else if same(name.as_str(), "inlineStr") {
                    CellKind::InlineString
                } else if same(name.as_str(), "b") {
                    CellKind::Boolean
                } else if same(name.as_str(), "e") {
                    CellKind::Error
                } else if same(name.as_str(), "str") {
                    CellKind::Text
                } else {
                    CellKind::Number
                }
            },
        }
    }
}

/// A cell that is being read.
#[derive(Debug)]
pub struct OpenCell {
    pub column: usize,
    pub kind: CellKind,
    pub has_formula: bool,
    pub value: String,
    pub inline_text: String,
    pub in_value: bool,
    pub in_inline: bool,
    pub in_text: bool,
}

/// [`OpenCell`] by characters.
#[verifier::ext_equal]
pub struct Cell {
    pub column: usize,
    pub kind: CellKind,
    pub has_formula: bool,
    pub value: Seq<char>,
    pub inline_text: Seq<char>,
    pub in_value: bool,
    pub in_inline: bool,
    pub in_text: bool,
}

impl View for OpenCell {
    type V = Cell;

    open spec fn view(&self) -> Cell {
        Cell {
            column: self.column,
            kind: self.kind,
            has_formula: self.has_formula,
            value: self.value@,
            inline_text: self.inline_text@,
            in_value: self.in_value,
            in_inline: self.in_inline,
            in_text: self.in_text,
        }
    }
}

/// A text, where it is not empty.
pub open spec fn non_empty(text: Seq<char>) -> Option<Seq<char>> {
    if text.len() == 0 {
        None
    } else {
        Some(text)
    }
}

/// The text that a cell holds, or why it is refused. A formula is never computed: only the value
/// that was stored with it counts.
pub open spec fn cell_text(cell: Cell, shared: Option<Seq<Seq<char>>>) -> Result<
    Option<Seq<char>>,
    Failure,
> {
    let raw = trim(cell.value);
    match cell.kind {
        CellKind::SharedString => if raw.len() == 0 {
            Ok(None)
        } else {
            match parsed_number(raw) {
                None => Err(
                    failure(
                        ErrorKind::ImportFile,
                        "XLSX 结构无效：共享字符串索引 "@ + raw + " 不是有效数字。"@,
                    ),
                ),
                Some(index) => match shared_string(shared, index) {
                    Err(error) => Err(error),
                    Ok(text) => Ok(non_empty(text)),
                },
            }
        },
        CellKind::InlineString => Ok(non_empty(cell.inline_text)),
        CellKind::Boolean => if raw == "1"@ {
            Ok(Some("TRUE"@))
        } else if raw == "0"@ {
            Ok(Some("FALSE"@))
        } else {
            Ok(non_empty(raw))
        },
        CellKind::Error => Ok(non_empty(raw)),
        CellKind::Text | CellKind::Number => Ok(non_empty(cell.value)),
    }
}

/// Where the text of a cell comes from, so that a formula without a stored value can be told: an
/// empty text that was stored counts as none, but not as missing.
pub open spec fn stored_empty(cell: Cell) -> bool {
    match cell.kind {
        CellKind::SharedString => trim(cell.value).len() > 0,
        CellKind::InlineString => true,
        _ => false,
    }
}

/// The text to keep, where it is not empty.
fn kept_text(text: String) -> (kept: Option<String>)
    ensures
        optional(kept) == non_empty(text@),
{
    if chars(text.as_str()).len() == 0 {
        None
    } else {
        Some(text)
    }
}

/// The text that a cell holds, or why it is refused.
fn read_cell_text(cell: &OpenCell, shared: &SharedStrings) -> (result: LibraryResult<Option<String>>)
    ensures
        (match result {
            Ok(text) => Ok(optional(text)),
            Err(error) => Err(error@),
        }) == cell_text(cell@, shared_view(*shared)),
{
    let raw = trimmed(cell.value.as_str());
    match cell.kind {
        CellKind::SharedString => {
            if chars(raw.as_str()).len() == 0 {
                return Ok(None);
            }
            match parse_number(raw.as_str()) {
                None => {
                    let mut detail = "XLSX 结构无效：共享字符串索引 ".to_owned();
                    detail.append(raw.as_str());
                    detail.append(" 不是有效数字。");
                    Err(LibraryError::ImportFile(detail))
                },
                Some(index) => match shared.get(index) {
                    Err(error) => Err(error),
                    Ok(text) => Ok(kept_text(text.to_owned())),
                },
            }
        },
        CellKind::InlineString => Ok(kept_text(cell.inline_text.clone())),
        CellKind::Boolean => {
            if same(raw.as_str(), "1") {
                Ok(Some("TRUE".to_owned()))
            } else if same(raw.as_str(), "0") {
                Ok(Some("FALSE".to_owned()))
            } else {
                Ok(kept_text(raw))
            }
        },
        CellKind::Error => Ok(kept_text(raw)),
        CellKind::Text => Ok(kept_text(cell.value.clone())),
        CellKind::Number => Ok(kept_text(cell.value.clone())),
    }
}

// ---- Reading a worksheet ----

/// What is asked of a worksheet: its shared strings, which rows and how many columns.
pub struct Asked {
    pub shared: Option<Seq<Seq<char>>>,
    pub window: Window,
    pub columns: usize,
}

/// How far the reading of a worksheet is.
#[verifier::ext_equal]
pub struct SheetReading {
    pub current_row: Option<usize>,
    pub last_column: Option<usize>,
    pub row_cells: Seq<Seq<char>>,
    pub cell: Option<Cell>,
    pub max_row: Option<usize>,
    pub max_column: Option<usize>,
    pub rows: Seq<Seq<Seq<char>>>,
    pub row_numbers: Seq<usize>,
    pub uncached: nat,
    pub truncated: nat,
}

/// Nothing was read yet.
pub open spec fn unread_sheet() -> SheetReading {
    SheetReading {
        current_row: None,
        last_column: None,
        row_cells: Seq::empty(),
        cell: None,
        max_row: None,
        max_column: None,
        rows: Seq::empty(),
        row_numbers: Seq::empty(),
        uncached: 0,
        truncated: 0,
    }
}

/// The text that stands for a formula without a stored value.
pub open spec fn uncached_text() -> Seq<char> {
    "未缓存"@
}

/// The index of the row that starts with this tag: the one that it names, else the next.
pub open spec fn started_row(reading: SheetReading, tag: Seq<char>) -> Result<usize, Failure> {
    match element_pairs(tag, "XLSX worksheet row"@) {
        Err(error) => Err(error),
        Ok(pairs) => match value_of(pairs, "r"@) {
            None => Ok(after(reading.current_row)),
            Some(value) => match row_index(value) {
                Err(error) => Err(error),
                Ok(Some(index)) => Ok(index),
                Ok(None) => Ok(after(reading.current_row)),
            },
        },
    }
}

/// After the start of a row.
pub open spec fn with_row(reading: SheetReading, tag: Seq<char>) -> Result<SheetReading, Failure> {
    match started_row(reading, tag) {
        Err(error) => Err(error),
        Ok(index) => Ok(
            SheetReading {
                current_row: Some(index),
                last_column: None,
                row_cells: Seq::empty(),
                ..reading
            },
        ),
    }
}

/// The index of the column of the cell that starts with this tag: the one that it names, else the
/// next.
pub open spec fn started_column(
    reading: SheetReading,
    pairs: Seq<(Seq<char>, Seq<char>)>,
) -> Result<usize, Failure> {
    match value_of(pairs, "r"@) {
        None => Ok(after(reading.last_column)),
        Some(value) => match reference_column(value) {
            Err(error) => Err(error),
            Ok(Some(index)) => Ok(index),
            Ok(None) => Ok(after(reading.last_column)),
        },
    }
}

/// After the start of a cell.
pub open spec fn with_cell(reading: SheetReading, tag: Seq<char>) -> Result<SheetReading, Failure> {
    match element_pairs(tag, "XLSX worksheet cell"@) {
        Err(error) => Err(error),
        Ok(pairs) => match started_column(reading, pairs) {
            Err(error) => Err(error),
            Ok(column) => Ok(
                SheetReading {
                    cell: Some(
                        Cell {
                            column,
                            kind: kind_of(value_of(pairs, "t"@)),
                            has_formula: false,
                            value: Seq::empty(),
                            inline_text: Seq::empty(),
                            in_value: false,
                            in_inline: false,
                            in_text: false,
                        },
                    ),
                    ..reading
                },
            ),
        },
    }
}

/// The cells of a row, filled up with empty ones to `width`, but to no more than `limit`.
pub open spec fn padded(cells: Seq<Seq<char>>, width: nat, limit: nat) -> Seq<Seq<char>>
    decreases width - cells.len(),
{
    if cells.len() < width && cells.len() < limit {
        padded(cells.push(Seq::empty()), width, limit)
    } else {
        cells
    }
}

/// The cells of a row after one more in this column.
pub open spec fn with_value(cells: Seq<Seq<char>>, column: usize, value: Seq<char>, columns: usize)
    -> Seq<Seq<char>> {
    if columns > 0 && cells.len() < columns {
        let filled = padded(cells, column as nat, columns as nat);
        if column < columns {
            filled.push(kept_cell(value))
        } else {
            filled
        }
    } else {
        cells
    }
}

/// The cell loses characters when it is kept.
pub open spec fn loses(cells: Seq<Seq<char>>, column: usize, value: Seq<char>, columns: usize) -> bool {
    columns > 0 && cells.len() < columns && column < columns && value.len() > MAX_TABLE_CELL_CHARS
}

/// The index of the row that is being read.
pub open spec fn row_of(reading: SheetReading) -> usize {
    match reading.current_row {
        Some(index) => index,
        None => 0,
    }
}

/// After a cell with this text.
pub open spec fn with_text(reading: SheetReading, column: usize, text: Seq<char>, asked: Asked)
    -> SheetReading {
    let row = row_of(reading);
    let inside = in_window(asked.window, row as nat);
    SheetReading {
        last_column: Some(column),
        max_row: Some(largest(reading.max_row, row)),
        max_column: Some(largest(reading.max_column, column)),
        row_cells: if inside {
            with_value(reading.row_cells, column, text, asked.columns)
        } else {
            reading.row_cells
        },
        truncated: reading.truncated + if inside && loses(
            reading.row_cells,
            column,
            text,
            asked.columns,
        ) {
            1nat
        } else {
            0nat
        },
        ..reading
    }
}

/// After the end of a cell, or why the cell is refused.
pub open spec fn with_cell_end(reading: SheetReading, asked: Asked) -> Result<SheetReading, Failure> {
    match reading.cell {
        None => Ok(reading),
        Some(cell) => {
            let closed = SheetReading { cell: None, ..reading };
            match cell_text(cell, asked.shared) {
                Err(error) => Err(error),
                Ok(Some(text)) => Ok(with_text(closed, cell.column, text, asked)),
                Ok(None) => if cell.has_formula && !stored_empty(cell) {
                    Ok(
                        with_text(
                            SheetReading { uncached: reading.uncached + 1, ..closed },
                            cell.column,
                            uncached_text(),
                            asked,
                        ),
                    )
                } else {
                    Ok(SheetReading { last_column: Some(cell.column), ..closed })
                },
            }
        },
    }
}

/// After the end of a row.
pub open spec fn with_row_end(reading: SheetReading, asked: Asked) -> SheetReading {
    let kept = reading.current_row matches Some(index) && in_window(asked.window, index as nat)
        && reading.row_cells.len() > 0;
    SheetReading {
        row_cells: Seq::empty(),
        cell: None,
        last_column: None,
        rows: if kept {
            reading.rows.push(reading.row_cells)
        } else {
            reading.rows
        },
        row_numbers: if kept {
            reading.row_numbers.push(row_of(reading))
        } else {
            reading.row_numbers
        },
        ..reading
    }
}

/// After a change to the cell that is being read, where there is one.
pub open spec fn with_open_cell(reading: SheetReading, change: spec_fn(Cell) -> Cell) -> SheetReading {
    SheetReading {
        cell: match reading.cell {
            Some(cell) => Some(change(cell)),
            None => None,
        },
        ..reading
    }
}

/// After a start tag, or why it is refused.
pub open spec fn sheet_start(reading: SheetReading, tag: Seq<char>) -> Result<SheetReading, Failure> {
    let name = element_name(tag);
    if name == "row"@ {
        with_row(reading, tag)
    } else if name == "c"@ {
        with_cell(reading, tag)
    } else if name == "v"@ {
        Ok(with_open_cell(reading, |cell: Cell| Cell { in_value: true, ..cell }))
    } else if name == "f"@ {
        Ok(with_open_cell(reading, |cell: Cell| Cell { has_formula: true, ..cell }))
    } else if name == "is"@ {
        Ok(with_open_cell(reading, |cell: Cell| Cell { in_inline: true, ..cell }))
    } else if name == "t"@ {
        Ok(
            with_open_cell(
                reading,
                |cell: Cell| Cell { in_text: cell.in_text || cell.in_inline, ..cell },
            ),
        )
    } else {
        Ok(reading)
    }
}

/// After an empty-element tag, or why it is refused.
pub open spec fn sheet_empty(reading: SheetReading, tag: Seq<char>, asked: Asked) -> Result<
    SheetReading,
    Failure,
> {
    let name = element_name(tag);
    if name == "row"@ {
        with_row(reading, tag)
    } else if name == "c"@ {
        match with_cell(reading, tag) {
            Err(error) => Err(error),
            Ok(opened) => with_cell_end(opened, asked),
        }
    } else if name == "f"@ {
        Ok(with_open_cell(reading, |cell: Cell| Cell { has_formula: true, ..cell }))
    } else {
        Ok(reading)
    }
}

/// After an end tag, or why it is refused.
pub open spec fn sheet_end(reading: SheetReading, name: Seq<char>, asked: Asked) -> Result<
    SheetReading,
    Failure,
> {
    if name == "v"@ {
        Ok(with_open_cell(reading, |cell: Cell| Cell { in_value: false, ..cell }))
    } else if name == "is"@ {
        Ok(with_open_cell(reading, |cell: Cell| Cell { in_inline: false, ..cell }))
    } else if name == "t"@ {
        Ok(with_open_cell(reading, |cell: Cell| Cell { in_text: false, ..cell }))
    } else if name == "c"@ {
        with_cell_end(reading, asked)
    } else if name == "row"@ {
        Ok(with_row_end(reading, asked))
    } else {
        Ok(reading)
    }
}

/// After character data, or why it is refused.
pub open spec fn sheet_text(reading: SheetReading, raw: Seq<char>, format: Seq<char>) -> Result<
    SheetReading,
    Failure,
> {
    match reading.cell {
        Some(cell) => if cell.in_value || cell.in_text {
            match xml_text(raw, format) {
                Err(error) => Err(error),
                Ok(text) => Ok(
                    SheetReading {
                        cell: Some(
                            Cell {
                                value: if cell.in_value {
                                    cell.value + text
                                } else {
                                    cell.value
                                },
                                inline_text: if cell.in_text {
                                    cell.inline_text + text
                                } else {
                                    cell.inline_text
                                },
                                ..cell
                            },
                        ),
                        ..reading
                    },
                ),
            }
        } else {
            Ok(reading)
        },
        None => Ok(reading),
    }
}

/// After one event that is not the last, or why it is refused.
pub open spec fn sheet_step(reading: SheetReading, token: Token, asked: Asked, format: Seq<char>) -> Result<
    SheetReading,
    Failure,
> {
    match token {
        Token::Start(tag) => sheet_start(reading, tag),
        Token::Empty(tag) => sheet_empty(reading, tag, asked),
        Token::End(name) => sheet_end(reading, local_name(name), asked),
        Token::Text(raw) => sheet_text(reading, raw, format),
        Token::Failed(reason) => Err(
            failure(
                ErrorKind::ImportFile,
                "无法解析 "@ + format + " 工作表 XML："@ + reason,
            ),
        ),
        _ => Ok(reading),
    }
}

/// The reading after the events from `at` on, or why they are refused.
pub open spec fn sheet_from(
    list: Seq<Token>,
    at: int,
    reading: SheetReading,
    asked: Asked,
    format: Seq<char>,
) -> Result<SheetReading, Failure>
    decreases list.len() - at,
{
    if at < 0 || at >= list.len() || list[at] is Eof {
        Ok(reading)
    } else {
        match sheet_step(reading, list[at], asked, format) {
            Err(error) => Err(error),
            Ok(next) => sheet_from(list, at + 1, next, asked, format),
        }
    }
}

/// What was read of a worksheet.
#[derive(Debug)]
pub struct SheetParse {
    /// The rows that were asked for.
    pub rows: Vec<Vec<String>>,
    /// Their indexes; rows without cells are missing.
    pub row_numbers: Vec<usize>,
    /// One above the largest index of a row.
    pub row_count: usize,
    /// One above the largest index of a column.
    pub column_count: usize,
    pub uncached_formulas: usize,
    pub truncated_cells: usize,
}

/// [`SheetParse`] by characters.
#[verifier::ext_equal]
pub struct Sheet {
    pub rows: Seq<Seq<Seq<char>>>,
    pub row_numbers: Seq<usize>,
    pub row_count: usize,
    pub column_count: usize,
    pub uncached: nat,
    pub truncated: nat,
}

impl View for SheetParse {
    type V = Sheet;

    open spec fn view(&self) -> Sheet {
        Sheet {
            rows: row_views(self.rows@),
            row_numbers: self.row_numbers@,
            row_count: self.row_count,
            column_count: self.column_count,
            uncached: self.uncached_formulas as nat,
            truncated: self.truncated_cells as nat,
        }
    }
}

/// The worksheet that was read.
pub open spec fn sheet_of(reading: SheetReading) -> Sheet {
    Sheet {
        rows: reading.rows,
        row_numbers: reading.row_numbers,
        row_count: after(reading.max_row),
        column_count: after(reading.max_column),
        uncached: reading.uncached,
        truncated: reading.truncated,
    }
}

/// The worksheet that the events hold, or why they are refused.
pub open spec fn sheet_in(list: Seq<Token>, asked: Asked, format: Seq<char>) -> Result<Sheet, Failure> {
    match sheet_from(list, 0, unread_sheet(), asked, format) {
        Err(error) => Err(error),
        Ok(reading) => Ok(sheet_of(reading)),
    }
}

/// Takes in a worksheet event by event.
struct SheetParser<'a> {
    shared: &'a SharedStrings,
    window: Window,
    columns: usize,
    current_row: Option<usize>,
    last_column: Option<usize>,
    row_cells: Vec<String>,
    cell: Option<OpenCell>,
    max_row_index: Option<usize>,
    max_column_index: Option<usize>,
    rows: Vec<Vec<String>>,
    row_numbers: Vec<usize>,
    uncached_formulas: usize,
    truncated_cells: usize,
}

/// A cell that is being read, by its view.
spec fn cell_view(cell: Option<OpenCell>) -> Option<Cell> {
    match cell {
        Some(cell) => Some(cell@),
        None => None,
    }
}

impl<'a> SheetParser<'a> {
    /// How far the reading is.
    spec fn reading(self) -> SheetReading {
        SheetReading {
            current_row: self.current_row,
            last_column: self.last_column,
            row_cells: views(self.row_cells@),
            cell: cell_view(self.cell),
            max_row: self.max_row_index,
            max_column: self.max_column_index,
            rows: row_views(self.rows@),
            row_numbers: self.row_numbers@,
            uncached: self.uncached_formulas as nat,
            truncated: self.truncated_cells as nat,
        }
    }

    /// What is asked of the worksheet.
    spec fn asked(self) -> Asked {
        Asked { shared: shared_view(*self.shared), window: self.window, columns: self.columns }
    }

    /// Whether the row with this index is asked for.
    fn in_window(&self, row_index: usize) -> (found: bool)
        ensures
            found == in_window(self.window, row_index as nat),
    {
        self.window.all || (row_index >= self.window.start && row_index - self.window.start
            < self.window.rows)
    }

    /// Takes in the start of a row.
    fn start_row(&mut self, tag: &str) -> (result: LibraryResult<()>)
        ensures
            final(self).asked() == old(self).asked(),
            (match result {
                Ok(()) => Ok(final(self).reading()),
                Err(error) => Err(error@),
            }) == with_row(old(self).reading(), tag@),
    {
        let pairs = match read_attributes(tag, "XLSX worksheet row") {
            Err(error) => {
                return Err(error);
            },
            Ok(pairs) => pairs,
        };
        let index: usize = match get_value(pairs.as_slice(), "r") {
            None => index_after(self.current_row),
            Some(value) => match parse_row_number(value.as_str()) {
                Err(error) => {
                    return Err(error);
                },
                Ok(Some(index)) => index,
                Ok(None) => index_after(self.current_row),
            },
        };
        self.current_row = Some(index);
        self.last_column = None;
        self.row_cells = Vec::new();
        assert(views(self.row_cells@) =~= Seq::empty());
        Ok(())
    }

    /// Takes in the start of a cell.
    fn start_cell(&mut self, tag: &str) -> (result: LibraryResult<()>)
        ensures
            final(self).asked() == old(self).asked(),
            (match result {
                Ok(()) => Ok(final(self).reading()),
                Err(error) => Err(error@),
            }) == with_cell(old(self).reading(), tag@),
            result is Ok ==> final(self).reading().uncached == old(self).reading().uncached
                && final(self).reading().truncated == old(self).reading().truncated,
    {
        let pairs = match read_attributes(tag, "XLSX worksheet cell") {
            Err(error) => {
                return Err(error);
            },
            Ok(pairs) => pairs,
        };
        let column: usize = match get_value(pairs.as_slice(), "r") {
            None => index_after(self.last_column),
            Some(value) => match cell_reference_column(value.as_str()) {
                Err(error) => {
                    return Err(error);
                },
                Ok(Some(index)) => index,
                Ok(None) => index_after(self.last_column),
            },
        };
        let value = String::new();
        let inline_text = String::new();
        assert(value@ =~= Seq::empty());
        assert(inline_text@ =~= Seq::empty());
        self.cell = Some(
            OpenCell {
                column,
                kind: CellKind::from_attribute(get_value(pairs.as_slice(), "t")),
                has_formula: false,
                value,
                inline_text,
                in_value: false,
                in_inline: false,
                in_text: false,
            },
        );
        Ok(())
    }

    /// Fills the row up to the column, within the columns that are asked for.
    fn pad_row(&mut self, column: usize)
        ensures
            final(self).asked() == old(self).asked(),
            final(self).reading() == (SheetReading {
                row_cells: padded(
                    old(self).reading().row_cells,
                    column as nat,
                    old(self).columns as nat,
                ),
                ..old(self).reading()
            }),
    {
        let ghost all = padded(views(self.row_cells@), column as nat, self.columns as nat);
        while self.row_cells.len() < column && self.row_cells.len() < self.columns
            invariant
                self.asked() == old(self).asked(),
                self.columns == old(self).columns,
                self.reading() == (SheetReading {
                    row_cells: views(self.row_cells@),
                    ..old(self).reading()
                }),
                all == padded(views(self.row_cells@), column as nat, self.columns as nat),
                all == padded(
                    old(self).reading().row_cells,
                    column as nat,
                    old(self).columns as nat,
                ),
            decreases column - self.row_cells@.len(),
        {
            let ghost before = views(self.row_cells@);
            assert(before.len() == self.row_cells@.len());
            let empty = String::new();
            assert(empty@ =~= Seq::empty());
            self.row_cells.push(empty);
            assert(views(self.row_cells@) =~= before.push(Seq::empty()));
        }
        assert(views(self.row_cells@).len() == self.row_cells@.len());
    }

    /// Takes in a cell with this text.
    fn add_text(&mut self, column: usize, text: String)
        requires
            old(self).truncated_cells < usize::MAX,
        ensures
            final(self).asked() == old(self).asked(),
            final(self).reading() == with_text(
                old(self).reading(),
                column,
                text@,
                old(self).asked(),
            ),
    {
        let row: usize = match self.current_row {
            Some(index) => index,
            None => 0,
        };
        self.last_column = Some(column);
        self.max_row_index = Some(larger_of(self.max_row_index, row));
        self.max_column_index = Some(larger_of(self.max_column_index, column));
        assert(views(self.row_cells@).len() == self.row_cells@.len());
        if self.in_window(row) && self.columns > 0 && self.row_cells.len() < self.columns {
            self.pad_row(column);
            if column < self.columns {
                let ghost before = views(self.row_cells@);
                let all = chars(text.as_str());
                if all.len() > MAX_TABLE_CELL_CHARS {
                    self.truncated_cells = self.truncated_cells + 1;
                    let cut = text_between(all.as_slice(), 0, MAX_TABLE_CELL_CHARS);
                    assert(cut@ =~= kept_cell(text@));
                    self.row_cells.push(cut);
                    assert(views(self.row_cells@) =~= before.push(kept_cell(text@)));
                } else {
                    let ghost kept = text@;
                    self.row_cells.push(text);
                    assert(views(self.row_cells@) =~= before.push(kept_cell(kept)));
                }
            }
        }
    }

    /// Takes in the end of a cell.
    fn finish_cell(&mut self) -> (result: LibraryResult<()>)
        requires
            old(self).truncated_cells < usize::MAX,
            old(self).uncached_formulas < usize::MAX,
        ensures
            final(self).asked() == old(self).asked(),
            (match result {
                Ok(()) => Ok(final(self).reading()),
                Err(error) => Err(error@),
            }) == with_cell_end(old(self).reading(), old(self).asked()),
    {
        let mut taken: Option<OpenCell> = None;
        std::mem::swap(&mut taken, &mut self.cell);
        let cell = match taken {
            None => {
                return Ok(());
            },
            Some(cell) => cell,
        };
        let text = match read_cell_text(&cell, self.shared) {
            Err(error) => {
                return Err(error);
            },
            Ok(text) => text,
        };
        match text {
            Some(text) => {
                self.add_text(cell.column, text);
            },
            None => {
                let stored = match cell.kind {
                    CellKind::SharedString => {
                        chars(trimmed(cell.value.as_str()).as_str()).len() > 0
                    },
                    CellKind::InlineString => true,
                    _ => false,
                };
                if cell.has_formula && !stored {
                    self.uncached_formulas = self.uncached_formulas + 1;
                    self.add_text(cell.column, "未缓存".to_owned());
                } else {
                    self.last_column = Some(cell.column);
                }
            },
        }
        Ok(())
    }

    /// Takes in the end of a row.
    fn finish_row(&mut self)
        ensures
            final(self).asked() == old(self).asked(),
            final(self).reading() == with_row_end(old(self).reading(), old(self).asked()),
    {
        let mut cells: Vec<String> = Vec::new();
        std::mem::swap(&mut cells, &mut self.row_cells);
        assert(views(self.row_cells@) =~= Seq::empty());
        assert(views(cells@).len() == cells@.len());
        if let Some(index) = self.current_row {
            if self.in_window(index) && cells.len() > 0 {
                let ghost before = row_views(self.rows@);
                let ghost added = views(cells@);
                self.row_numbers.push(index);
                self.rows.push(cells);
                assert(row_views(self.rows@) =~= before.push(added));
            }
        }
        self.cell = None;
        self.last_column = None;
    }

    /// Takes in a start tag.
    fn start(&mut self, tag: &str) -> (result: LibraryResult<()>)
        ensures
            final(self).asked() == old(self).asked(),
            (match result {
                Ok(()) => Ok(final(self).reading()),
                Err(error) => Err(error@),
            }) == sheet_start(old(self).reading(), tag@),
    {
        let name = local_tag_name(tag);
        if same(name.as_str(), "row") {
            return self.start_row(tag);
        }
        if same(name.as_str(), "c") {
            return self.start_cell(tag);
        }
        let mut taken: Option<OpenCell> = None;
        std::mem::swap(&mut taken, &mut self.cell);
        if let Some(cell) = taken {
            let mut cell = cell;
            if same(name.as_str(), "v") {
                cell.in_value = true;
            } else if same(name.as_str(), "f") {
                cell.has_formula = true;
            } else if same(name.as_str(), "is") {
                cell.in_inline = true;
            } else if same(name.as_str(), "t") {
                if cell.in_inline {
                    cell.in_text = true;
                }
            }
            self.cell = Some(cell);
        }
        Ok(())
    }

    /// Takes in an empty-element tag.
    fn empty(&mut self, tag: &str) -> (result: LibraryResult<()>)
        requires
            old(self).truncated_cells < usize::MAX,
            old(self).uncached_formulas < usize::MAX,
        ensures
            final(self).asked() == old(self).asked(),
            (match result {
                Ok(()) => Ok(final(self).reading()),
                Err(error) => Err(error@),
            }) == sheet_empty(old(self).reading(), tag@, old(self).asked()),
    {
        let name = local_tag_name(tag);
        if same(name.as_str(), "row") {
            return self.start_row(tag);
        }
        if same(name.as_str(), "c") {
            if let Err(error) = self.start_cell(tag) {
                return Err(error);
            }
            return self.finish_cell();
        }
        if same(name.as_str(), "f") {
            let mut taken: Option<OpenCell> = None;
            std::mem::swap(&mut taken, &mut self.cell);
            if let Some(cell) = taken {
                let mut cell = cell;
                cell.has_formula = true;
                self.cell = Some(cell);
            }
        }
        Ok(())
    }

    /// Takes in an end tag.
    fn end(&mut self, tag: &str) -> (result: LibraryResult<()>)
        requires
            old(self).truncated_cells < usize::MAX,
            old(self).uncached_formulas < usize::MAX,
        ensures
            final(self).asked() == old(self).asked(),
            (match result {
                Ok(()) => Ok(final(self).reading()),
                Err(error) => Err(error@),
            }) == sheet_end(old(self).reading(), local_name(tag@), old(self).asked()),
    {
        let name = without_prefix(tag);
        if same(name.as_str(), "v") || same(name.as_str(), "is") || same(name.as_str(), "t") {
            let mut taken: Option<OpenCell> = None;
            std::mem::swap(&mut taken, &mut self.cell);
            if let Some(cell) = taken {
                let mut cell = cell;
                if same(name.as_str(), "v") {
                    cell.in_value = false;
                } else if same(name.as_str(), "is") {
                    cell.in_inline = false;
                } else {
                    cell.in_text = false;
                }
                self.cell = Some(cell);
            }
            return Ok(());
        }
        if same(name.as_str(), "c") {
            return self.finish_cell();
        }
        if same(name.as_str(), "row") {
            self.finish_row();
        }
        Ok(())
    }

    /// Takes in character data.
    fn text(&mut self, raw: &str, format: &str) -> (result: LibraryResult<()>)
        ensures
            final(self).asked() == old(self).asked(),
            (match result {
                Ok(()) => Ok(final(self).reading()),
                Err(error) => Err(error@),
            }) == sheet_text(old(self).reading(), raw@, format@),
    {
        let mut taken: Option<OpenCell> = None;
        std::mem::swap(&mut taken, &mut self.cell);
        if let Some(cell) = taken {
            let mut cell = cell;
            if cell.in_value || cell.in_text {
                match decode_xml_text(raw, format) {
                    Err(error) => {
                        return Err(error);
                    },
                    Ok(decoded) => {
                        if cell.in_value {
                            cell.value.append(decoded.as_str());
                        }
                        if cell.in_text {
                            cell.inline_text.append(decoded.as_str());
                        }
                    },
                }
            }
            self.cell = Some(cell);
        }
        Ok(())
    }

    /// What was read.
    fn finish(self) -> (parsed: SheetParse)
        ensures
            parsed@ == sheet_of(self.reading()),
    {
        SheetParse {
            rows: self.rows,
            row_numbers: self.row_numbers,
            row_count: index_after(self.max_row_index),
            column_count: index_after(self.max_column_index),
            uncached_formulas: self.uncached_formulas,
            truncated_cells: self.truncated_cells,
        }
    }
}

/// What an event can add to the counts.
proof fn lemma_counts_grow_by_one(
    reading: SheetReading,
    token: Token,
    asked: Asked,
    format: Seq<char>,
)
    ensures
        sheet_step(reading, token, asked, format) matches Ok(next) ==> next.uncached
            <= reading.uncached + 1 && next.truncated <= reading.truncated + 1,
{
}

/// The rows that are asked for, by index and number.
pub open spec fn window_at(start: usize, rows: usize) -> Window {
    Window { all: false, start, rows }
}

/// The worksheet that the events hold: the rows and columns that are asked for, and the extent of
/// the whole.
pub fn sheet_of_events(
    events: &[XmlEvent],
    shared: &SharedStrings,
    window: (usize, usize),
    columns: usize,
    format: &str,
) -> (result: LibraryResult<SheetParse>)
    ensures
        outcome(result) == sheet_in(
            tokens(events@),
            Asked { shared: shared_view(*shared), window: window_at(window.0, window.1), columns },
            format@,
        ),
{
    let ghost list = tokens(events@);
    let ghost asked = Asked {
        shared: shared_view(*shared),
        window: window_at(window.0, window.1),
        columns,
    };
    let mut parser = SheetParser {
        shared,
        window: Window { all: false, start: window.0, rows: window.1 },
        columns,
        current_row: None,
        last_column: None,
        row_cells: Vec::new(),
        cell: None,
        max_row_index: None,
        max_column_index: None,
        rows: Vec::new(),
        row_numbers: Vec::new(),
        uncached_formulas: 0,
        truncated_cells: 0,
    };
    assert(views(parser.row_cells@) =~= Seq::empty());
    assert(row_views(parser.rows@) =~= Seq::empty());
    assert(parser.reading() =~= unread_sheet());
    let size: usize = events.len();
    let mut i: usize = 0;
    while i < size
        invariant
            i <= size,
            size == events@.len(),
            list == tokens(events@),
            parser.asked() == asked,
            parser.uncached_formulas <= i,
            parser.truncated_cells <= i,
            sheet_from(list, i as int, parser.reading(), asked, format@) == sheet_from(
                list,
                0,
                unread_sheet(),
                asked,
                format@,
            ),
            asked == (Asked {
                shared: shared_view(*shared),
                window: window_at(window.0, window.1),
                columns,
            }),
        decreases size - i,
    {
        assert(list[i as int] == events@[i as int]@);
        proof {
            lemma_counts_grow_by_one(parser.reading(), list[i as int], asked, format@);
        }
        let step = match &events[i] {
            XmlEvent::Start(tag) => parser.start(tag.as_str()),
            XmlEvent::Empty(tag) => parser.empty(tag.as_str()),
            XmlEvent::End(name) => parser.end(name.as_str()),
            XmlEvent::Text(raw) => parser.text(raw.as_str(), format),
            XmlEvent::Eof => {
                return Ok(parser.finish());
            },
            XmlEvent::Failed(reason) => {
                let mut detail = "无法解析 ".to_owned();
                detail.append(format);
                detail.append(" 工作表 XML：");
                detail.append(reason.as_str());
                return Err(LibraryError::ImportFile(detail));
            },
            _ => Ok(()),
        };
        if let Err(error) = step {
            return Err(error);
        }
        i = i + 1;
    }
    Ok(parser.finish())
}

/// The worksheet that an XML text holds.
pub fn parse_sheet_xml(
    xml: &[u8],
    shared: &SharedStrings,
    window: (usize, usize),
    columns: usize,
    format: &str,
) -> (result: LibraryResult<SheetParse>)
    ensures
        outcome(result) == sheet_in(
            xml_tokens(xml@, false),
            Asked { shared: shared_view(*shared), window: window_at(window.0, window.1), columns },
            format@,
        ),
{
    sheet_of_events(read_events(xml, false).as_slice(), shared, window, columns, format)
}

// ---- Laws ----

/// The rows that were kept are among those asked for, none is wider than asked for, and no cell is
/// longer than the limit; so is the row that is being read.
pub open spec fn within(reading: SheetReading, asked: Asked) -> bool {
    &&& reading.rows.len() == reading.row_numbers.len()
    &&& bounded_row(reading.row_cells, asked.columns)
    &&& forall|i: int|
        0 <= i < reading.rows.len() ==> bounded_row(#[trigger] reading.rows[i], asked.columns)
    &&& forall|i: int|
        0 <= i < reading.row_numbers.len() ==> in_window(
            asked.window,
            (#[trigger] reading.row_numbers[i]) as nat,
        )
}

/// A row of at most `columns` cells, none longer than the limit.
pub open spec fn bounded_row(cells: Seq<Seq<char>>, columns: usize) -> bool {
    &&& cells.len() <= columns
    &&& forall|i: int| 0 <= i < cells.len() ==> (#[trigger] cells[i]).len() <= MAX_TABLE_CELL_CHARS
}

proof fn lemma_padding_is_bounded(cells: Seq<Seq<char>>, width: nat, limit: nat, columns: usize)
    requires
        bounded_row(cells, columns),
        cells.len() < columns,
        limit == columns,
    ensures
        bounded_row(padded(cells, width, limit), columns),
        width < columns ==> padded(cells, width, limit).len() < columns,
    decreases width - cells.len(),
{
    if cells.len() < width && cells.len() < limit {
        let more = cells.push(Seq::empty());
        assert(bounded_row(more, columns));
        if more.len() < columns {
            lemma_padding_is_bounded(more, width, limit, columns);
        }
    }
}

proof fn lemma_value_is_bounded(
    cells: Seq<Seq<char>>,
    column: usize,
    value: Seq<char>,
    columns: usize,
)
    requires
        bounded_row(cells, columns),
    ensures
        bounded_row(with_value(cells, column, value, columns), columns),
{
    if columns > 0 && cells.len() < columns {
        lemma_padding_is_bounded(cells, column as nat, columns as nat, columns);
    }
}

proof fn lemma_cell_end_stays_within(reading: SheetReading, asked: Asked)
    requires
        within(reading, asked),
    ensures
        with_cell_end(reading, asked) matches Ok(next) ==> within(next, asked),
{
    if let Some(cell) = reading.cell {
        lemma_value_is_bounded(reading.row_cells, cell.column, uncached_text(), asked.columns);
        if let Ok(Some(text)) = cell_text(cell, asked.shared) {
            lemma_value_is_bounded(reading.row_cells, cell.column, text, asked.columns);
        }
    }
}

proof fn lemma_step_stays_within(
    reading: SheetReading,
    token: Token,
    asked: Asked,
    format: Seq<char>,
)
    requires
        within(reading, asked),
    ensures
        sheet_step(reading, token, asked, format) matches Ok(next) ==> within(next, asked),
{
    lemma_cell_end_stays_within(reading, asked);
    if let Token::Empty(tag) = token {
        if let Ok(opened) = with_cell(reading, tag) {
            lemma_cell_end_stays_within(opened, asked);
        }
    }
}

proof fn lemma_reading_stays_within(
    list: Seq<Token>,
    at: int,
    reading: SheetReading,
    asked: Asked,
    format: Seq<char>,
)
    requires
        within(reading, asked),
    ensures
        sheet_from(list, at, reading, asked, format) matches Ok(next) ==> within(next, asked),
    decreases list.len() - at,
{
    if 0 <= at < list.len() && !(list[at] is Eof) {
        lemma_step_stays_within(reading, list[at], asked, format);
        if let Ok(next) = sheet_step(reading, list[at], asked, format) {
            lemma_reading_stays_within(list, at + 1, next, asked, format);
        }
    }
}

/// Of a worksheet, only rows that were asked for are kept, each with its index, none wider than asked
/// for and no cell longer than the limit.
pub proof fn kept_sheets_are_bounded(list: Seq<Token>, asked: Asked, format: Seq<char>)
    ensures
        sheet_in(list, asked, format) matches Ok(sheet) ==> {
            &&& sheet.rows.len() == sheet.row_numbers.len()
            &&& forall|i: int|
                0 <= i < sheet.rows.len() ==> bounded_row(#[trigger] sheet.rows[i], asked.columns)
            &&& forall|i: int|
                0 <= i < sheet.row_numbers.len() ==> in_window(
                    asked.window,
                    (#[trigger] sheet.row_numbers[i]) as nat,
                )
        },
{
    lemma_reading_stays_within(list, 0, unread_sheet(), asked, format);
}

/// The number of a column by its letters, which count from one in each place, as digits of base 26.
pub open spec fn letters_value(letters: Seq<char>) -> nat
    decreases letters.len(),
{
    if letters.len() == 0 {
        0
    } else {
        let last = letters.last();
        letters_value(letters.drop_last()) * 26 + if 'a' <= last <= 'z' {
            (last as int - 'a' as int + 1) as nat
        } else {
            (last as int - 'A' as int + 1) as nat
        }
    }
}

proof fn lemma_fewer_letters_are_smaller(letters: Seq<char>, count: int)
    requires
        0 <= count <= letters.len(),
    ensures
        letters_value(letters.take(count)) <= letters_value(letters),
    decreases letters.len() - count,
{
    if count < letters.len() {
        lemma_fewer_letters_are_smaller(letters, count + 1);
        assert(letters.take(count + 1).drop_last() =~= letters.take(count));
    } else {
        assert(letters.take(count) =~= letters);
    }
}

proof fn lemma_column_number(letters: Seq<char>, rest: Seq<char>, at: int)
    requires
        0 <= at <= letters.len(),
        forall|i: int| 0 <= i < letters.len() ==> is_letter(#[trigger] letters[i]),
        rest.len() > 0 ==> !is_letter(rest[0]),
        letters_value(letters) <= usize::MAX,
    ensures
        column_number(letters + rest, at, letters_value(letters.take(at))) == Some(
            letters_value(letters),
        ),
    decreases letters.len() - at,
{
    let text = letters + rest;
    if at < letters.len() {
        assert(text[at] == letters[at]);
        assert(letters.take(at + 1).drop_last() =~= letters.take(at));
        assert(letters.take(at + 1).last() == letters[at]);
        lemma_fewer_letters_are_smaller(letters, at + 1);
        lemma_column_number(letters, rest, at + 1);
    } else {
        assert(letters.take(at) =~= letters);
        if rest.len() > 0 {
            assert(text[at] == rest[0]);
        }
    }
}

/// A cell reference names the column of its leading letters: A to Z are the first 26, AA is the one
/// behind Z, and so on, in either case; what follows the letters does not count.
pub proof fn references_name_columns(letters: Seq<char>, rest: Seq<char>)
    requires
        letters.len() > 0,
        forall|i: int|
            0 <= i < letters.len() ==> ('a' <= #[trigger] letters[i] <= 'z') || ('A' <= letters[i] <= 'Z'),
        rest.len() > 0 ==> !(('a' <= rest[0] <= 'z') || ('A' <= rest[0] <= 'Z')),
        trim(letters + rest) == letters + rest,
        letters_value(letters) <= usize::MAX,
    ensures
        reference_column(letters + rest) == Ok::<_, Failure>(
            Some((letters_value(letters) - 1) as usize),
        ),
        letters_value(letters) > 0,
{
    assert forall|i: int| 0 <= i < letters.len() implies is_letter(#[trigger] letters[i]) by {}
    assert(letters.take(0) =~= Seq::empty());
    lemma_column_number(letters, rest, 0);
    assert((letters + rest)[0] == letters[0]);
    assert(is_letter(letters[letters.len() - 1]));
}

proof fn lemma_digits_of_decimal(n: nat)
    ensures
        digits_value(decimal(n)) == n,
    decreases n,
{
    decimals_are_digits(n);
    if n >= 10 {
        lemma_digits_of_decimal(n / 10);
        assert(digits_value(decimal(n)) == (n / 10) * 10 + n % 10);
    } else {
        assert(decimal(n).drop_last() =~= Seq::empty());
        assert(digits_value(decimal(n).drop_last()) == 0);
        assert(digits_value(decimal(n)) == n);
    }
}

/// A number in decimal notation is read as that number, with a plus sign before it or not.
pub proof fn decimals_are_read_back(n: nat)
    requires
        n <= usize::MAX,
    ensures
        parsed_number(decimal(n)) == Some(n),
        parsed_number(seq!['+'] + decimal(n)) == Some(n),
{
    decimals_are_digits(n);
    lemma_digits_of_decimal(n);
    let digits = decimal(n);
    assert(digits[0] != '+');
    assert((seq!['+'] + digits).skip(1) =~= digits);
    assert forall|i: int| 0 <= i < digits.len() implies is_digit(#[trigger] digits[i]) by {}
}

/// A text with anything but digits behind a plus sign or none is no number.
pub proof fn only_digits_are_numbers(text: Seq<char>, at: int)
    requires
        0 < at < text.len() || (at == 0 && text.len() > 0 && text[0] != '+'),
        !('0' <= text[at] <= '9'),
    ensures
        parsed_number(text) is None,
{
    let digits = without_plus(text);
    if text[0] == '+' {
        assert(digits[at - 1] == text[at]);
        assert(!is_digit(digits[at - 1]));
    } else {
        assert(!is_digit(digits[at]));
    }
}

/// Rows are numbered from one and indexed from zero.
pub proof fn rows_are_numbered_from_one(index: usize)
    requires
        index < usize::MAX,
    ensures
        row_index(decimal((index + 1) as nat)) == Ok::<_, Failure>(Some(index)),
{
    let n = (index + 1) as nat;
    decimals_are_read_back(n);
    decimals_are_digits(n);
    let digits = decimal(n);
    assert(!white(digits[0]));
    assert('0' <= digits[digits.len() - 1] <= '9');
    assert(!white(digits.last()));
    assert(trim(digits) == digits);
}

} // verus!
