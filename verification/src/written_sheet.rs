//! What a worksheet shows of the cells that are written in it.

use vstd::prelude::*;
use crate::csv::{in_window, kept_cell};
use crate::limits::MAX_TABLE_CELL_CHARS;
use crate::spreadsheet::xml_text;
use crate::text::trim;
use crate::worksheet::{
    after, cell_text, padded, parsed_number, reference_column, row_index, sheet_from, sheet_in,
    sheet_step, stored_empty, unread_sheet, with_cell, with_cell_end, with_row, with_row_end,
    with_text, with_value, Asked, Cell, CellKind, Sheet, SheetReading,
};
use crate::xml::{element_name, element_pairs, local_name, value_of, Token};

verus! {

// ---- Worksheets as they are written ----

/// Character data between a start tag and an end tag.
#[verifier::ext_equal]
pub struct WrittenText {
    pub open: Seq<char>,
    pub raw: Seq<Seq<char>>,
    pub close: Seq<char>,
}

/// A part of a cell.
#[verifier::ext_equal]
pub enum CellPart {
    /// A formula.
    Formula(WrittenText),
    /// A formula that is written elsewhere.
    SharedFormula(Seq<char>),
    /// A stored value.
    Value(WrittenText),
    /// A text of the cell itself.
    Inline(Seq<char>, WrittenText, Seq<char>),
    /// Something that says nothing of the cell.
    Aside(Token),
}

/// A cell: its start tag, its parts and the name in its end tag; its column, and the text that it
/// shows, if any, which may stand for a formula without a stored value.
#[verifier::ext_equal]
pub struct WrittenCell {
    pub open: Seq<char>,
    pub parts: Seq<CellPart>,
    pub close: Seq<char>,
    pub column: usize,
    pub text: Option<Seq<char>>,
    pub uncached: bool,
}

/// A row: what stands before it, its start tag, its cells and the name in its end tag; its index.
#[verifier::ext_equal]
pub struct WrittenRow {
    pub lead: Seq<Token>,
    pub open: Seq<char>,
    pub cells: Seq<WrittenCell>,
    pub close: Seq<char>,
    pub index: usize,
}

/// Character data piece by piece.
pub open spec fn text_tokens(raw: Seq<Seq<char>>) -> Seq<Token> {
    Seq::new(raw.len(), |i: int| Token::Text(raw[i]))
}

/// The events of character data between two tags.
pub open spec fn tagged_tokens(text: WrittenText) -> Seq<Token> {
    seq![Token::Start(text.open)] + (text_tokens(text.raw) + seq![Token::End(text.close)])
}

/// The events of a part of a cell.
pub open spec fn part_tokens(part: CellPart) -> Seq<Token> {
    match part {
        CellPart::Formula(text) => tagged_tokens(text),
        CellPart::SharedFormula(tag) => seq![Token::Empty(tag)],
        CellPart::Value(text) => tagged_tokens(text),
        CellPart::Inline(open, text, close) => seq![Token::Start(open)] + (tagged_tokens(text)
            + seq![Token::End(close)]),
        CellPart::Aside(token) => seq![token],
    }
}

/// The events of the parts of a cell.
pub open spec fn parts_tokens(parts: Seq<CellPart>) -> Seq<Token>
    decreases parts.len(),
{
    if parts.len() == 0 {
        Seq::empty()
    } else {
        part_tokens(parts[0]) + parts_tokens(parts.skip(1))
    }
}

/// The events of a cell.
pub open spec fn cell_tokens(cell: WrittenCell) -> Seq<Token> {
    seq![Token::Start(cell.open)] + (parts_tokens(cell.parts) + seq![Token::End(cell.close)])
}

/// The events of cells.
pub open spec fn cells_tokens(cells: Seq<WrittenCell>) -> Seq<Token>
    decreases cells.len(),
{
    if cells.len() == 0 {
        Seq::empty()
    } else {
        cell_tokens(cells[0]) + cells_tokens(cells.skip(1))
    }
}

/// The events of a row.
pub open spec fn row_tokens(row: WrittenRow) -> Seq<Token> {
    row.lead + (seq![Token::Start(row.open)] + (cells_tokens(row.cells) + seq![Token::End(row.close)]))
}

/// The events of rows.
pub open spec fn rows_tokens(rows: Seq<WrittenRow>) -> Seq<Token>
    decreases rows.len(),
{
    if rows.len() == 0 {
        Seq::empty()
    } else {
        row_tokens(rows[0]) + rows_tokens(rows.skip(1))
    }
}

// ---- What is written ----

/// The name of an element that says something of a row or a cell.
pub open spec fn telling(name: Seq<char>) -> bool {
    name == "row"@ || name == "c"@ || name == "v"@ || name == "f"@ || name == "is"@ || name == "t"@
}

/// An event that says nothing of rows and cells where no value is being read.
pub open spec fn is_aside(token: Token) -> bool {
    match token {
        Token::Start(tag) => !telling(element_name(tag)),
        Token::Empty(tag) => !telling(element_name(tag)),
        Token::End(name) => !telling(local_name(name)),
        Token::Eof => false,
        Token::Failed(_) => false,
        _ => true,
    }
}

/// Events that say nothing of rows and cells where no value is being read.
pub open spec fn are_asides(list: Seq<Token>) -> bool {
    forall|i: int| 0 <= i < list.len() ==> is_aside(#[trigger] list[i])
}

/// The text that character data stands for.
pub open spec fn decoded(raw: Seq<Seq<char>>, format: Seq<char>) -> Seq<char>
    decreases raw.len(),
{
    if raw.len() == 0 {
        Seq::empty()
    } else {
        xml_text(raw[0], format)->Ok_0 + decoded(raw.skip(1), format)
    }
}

/// Character data stands for a text.
pub open spec fn decodes(raw: Seq<Seq<char>>, format: Seq<char>) -> bool {
    forall|i: int| 0 <= i < raw.len() ==> xml_text(#[trigger] raw[i], format) is Ok
}

/// The tags have this name.
pub open spec fn named(text: WrittenText, name: Seq<char>) -> bool {
    element_name(text.open) == name && local_name(text.close) == name
}

/// A part of a cell is written as such a part is.
pub open spec fn part_written(part: CellPart, format: Seq<char>) -> bool {
    match part {
        CellPart::Formula(text) => named(text, "f"@),
        CellPart::SharedFormula(tag) => element_name(tag) == "f"@,
        CellPart::Value(text) => named(text, "v"@) && decodes(text.raw, format),
        CellPart::Inline(open, text, close) => element_name(open) == "is"@ && local_name(close)
            == "is"@ && named(text, "t"@) && decodes(text.raw, format),
        CellPart::Aside(token) => is_aside(token),
    }
}

/// The parts of a cell are written as such parts are.
pub open spec fn parts_written(parts: Seq<CellPart>, format: Seq<char>) -> bool {
    forall|i: int| 0 <= i < parts.len() ==> part_written(#[trigger] parts[i], format)
}

/// What the parts of a cell store as its value.
pub open spec fn stored_value(parts: Seq<CellPart>, format: Seq<char>) -> Seq<char>
    decreases parts.len(),
{
    if parts.len() == 0 {
        Seq::empty()
    } else {
        (match parts[0] {
            CellPart::Value(text) => decoded(text.raw, format),
            _ => Seq::empty(),
        }) + stored_value(parts.skip(1), format)
    }
}

/// What the parts of a cell hold as its own text.
pub open spec fn own_text(parts: Seq<CellPart>, format: Seq<char>) -> Seq<char>
    decreases parts.len(),
{
    if parts.len() == 0 {
        Seq::empty()
    } else {
        (match parts[0] {
            CellPart::Inline(_, text, _) => decoded(text.raw, format),
            _ => Seq::empty(),
        }) + own_text(parts.skip(1), format)
    }
}

/// One of the parts of a cell is a formula.
pub open spec fn has_formula(parts: Seq<CellPart>) -> bool {
    exists|i: int|
        0 <= i < parts.len() && ((#[trigger] parts[i]) is Formula || parts[i] is SharedFormula)
}

/// The attributes of a cell.
pub open spec fn cell_pairs(cell: WrittenCell) -> Seq<(Seq<char>, Seq<char>)> {
    element_pairs(cell.open, "XLSX worksheet cell"@)->Ok_0
}

/// The type that a cell names; empty where it names none.
pub open spec fn named_type(cell: WrittenCell) -> Seq<char> {
    match value_of(cell_pairs(cell), "t"@) {
        Some(value) => trim(value),
        None => Seq::empty(),
    }
}

/// The cell is neither a shared string, nor a text of its own, nor a truth value, nor an error: it is
/// a number or the text of a formula.
pub open spec fn is_plain(cell: WrittenCell) -> bool {
    let name = named_type(cell);
    name != "s"@ && name != "inlineStr"@ && name != "b"@ && name != "e"@
}

/// The cell shows this text: a number or the text of a formula as it is stored, be there a formula
/// or not; a shared string by its index; TRUE and FALSE for truth values; an error by its name; a text
/// of its own as it is.
pub open spec fn shows(cell: WrittenCell, shared: Option<Seq<Seq<char>>>, format: Seq<char>, text: Seq<char>)
    -> bool {
    let name = named_type(cell);
    let stored = stored_value(cell.parts, format);
    &&& text.len() > 0
    &&& is_plain(cell) ==> text == stored
    &&& name == "s"@ ==> (shared matches Some(strings) && parsed_number(trim(stored)) matches Some(index)
        && index < strings.len() && text == strings[index as int])
    &&& name == "inlineStr"@ ==> text == own_text(cell.parts, format)
    &&& name == "b"@ ==> ((trim(stored) == "1"@ && text == "TRUE"@) || (trim(stored) == "0"@ && text
        == "FALSE"@) || (trim(stored) != "1"@ && trim(stored) != "0"@ && text == trim(stored)))
    &&& name == "e"@ ==> text == trim(stored)
}

/// The cell stores no value.
pub open spec fn stores_nothing(cell: WrittenCell, format: Seq<char>) -> bool {
    if is_plain(cell) {
        stored_value(cell.parts, format).len() == 0
    } else {
        named_type(cell) != "inlineStr"@ && trim(stored_value(cell.parts, format)).len() == 0
    }
}

/// The cell holds an empty text of its own or an empty shared string.
pub open spec fn holds_empty_text(
    cell: WrittenCell,
    shared: Option<Seq<Seq<char>>>,
    format: Seq<char>,
) -> bool {
    ||| named_type(cell) == "inlineStr"@ && own_text(cell.parts, format).len() == 0
    ||| named_type(cell) == "s"@ && (shared matches Some(strings) && parsed_number(
        trim(stored_value(cell.parts, format)),
    ) matches Some(index) && index < strings.len() && strings[index as int].len() == 0)
}

/// The number behind the last one that was used, or the first.
pub open spec fn behind(last: Option<usize>) -> int {
    match last {
        Some(index) => index + 1,
        None => 0,
    }
}

/// A cell is written as a cell is; `last` is the column of the cell before it in its row. Its column
/// is the one that it names, else the next. Only a formula without a stored value is shown as not
/// stored.
pub open spec fn cell_written(
    cell: WrittenCell,
    last: Option<usize>,
    shared: Option<Seq<Seq<char>>>,
    format: Seq<char>,
) -> bool {
    &&& element_name(cell.open) == "c"@
    &&& local_name(cell.close) == "c"@
    &&& element_pairs(cell.open, "XLSX worksheet cell"@) is Ok
    &&& parts_written(cell.parts, format)
    &&& cell.column < usize::MAX
    &&& behind(last) <= cell.column
    &&& match value_of(cell_pairs(cell), "r"@) {
        None => cell.column == behind(last),
        Some(reference) => reference_column(reference) == Ok::<_, crate::error::Failure>(
            Some(cell.column),
        ),
    }
    &&& match cell.text {
        Some(text) => if cell.uncached {
            has_formula(cell.parts) && stores_nothing(cell, format) && text == "未缓存"@
        } else {
            shows(cell, shared, format, text)
        },
        None => !cell.uncached && ((stores_nothing(cell, format) && !has_formula(cell.parts))
            || holds_empty_text(cell, shared, format)),
    }
}

/// Cells are written as the cells of a row are, behind one in the column `last`.
pub open spec fn cells_written(
    cells: Seq<WrittenCell>,
    last: Option<usize>,
    shared: Option<Seq<Seq<char>>>,
    format: Seq<char>,
) -> bool
    decreases cells.len(),
{
    cells.len() > 0 ==> cell_written(cells[0], last, shared, format) && cells_written(
        cells.skip(1),
        Some(cells[0].column),
        shared,
        format,
    )
}

/// A row is written as a row is; `last` is the index of the row before it. Its index is the one that
/// it names, else the next.
pub open spec fn row_written(
    row: WrittenRow,
    last: Option<usize>,
    shared: Option<Seq<Seq<char>>>,
    format: Seq<char>,
) -> bool {
    &&& are_asides(row.lead)
    &&& element_name(row.open) == "row"@
    &&& local_name(row.close) == "row"@
    &&& row.index < usize::MAX
    &&& element_pairs(row.open, "XLSX worksheet row"@) matches Ok(pairs) && match value_of(
        pairs,
        "r"@,
    ) {
        None => row.index == behind(last),
        Some(number) => row_index(number) == Ok::<_, crate::error::Failure>(Some(row.index)),
    }
    &&& cells_written(row.cells, None, shared, format)
}

/// Rows are written as rows are, behind one with the index `last`.
pub open spec fn rows_written(
    rows: Seq<WrittenRow>,
    last: Option<usize>,
    shared: Option<Seq<Seq<char>>>,
    format: Seq<char>,
) -> bool
    decreases rows.len(),
{
    rows.len() > 0 ==> row_written(rows[0], last, shared, format) && rows_written(
        rows.skip(1),
        Some(rows[0].index),
        shared,
        format,
    )
}

// ---- What is shown ----

/// A text as a table shows it: no longer than the limit.
pub open spec fn cut(text: Seq<char>) -> Seq<char> {
    text.take(
        if text.len() < MAX_TABLE_CELL_CHARS {
            text.len() as int
        } else {
            MAX_TABLE_CELL_CHARS as int
        },
    )
}

/// The text in one column of a row; empty where no cell shows one.
pub open spec fn text_in(cells: Seq<WrittenCell>, column: int) -> Seq<char>
    decreases cells.len(),
{
    if cells.len() == 0 {
        Seq::empty()
    } else if cells[0].column == column && cells[0].text is Some {
        cut(cells[0].text->Some_0)
    } else {
        text_in(cells.skip(1), column)
    }
}

/// One above the last column of a row that shows something.
pub open spec fn width(cells: Seq<WrittenCell>) -> nat
    decreases cells.len(),
{
    if cells.len() == 0 {
        0
    } else {
        let rest = width(cells.skip(1));
        if cells[0].text is Some && rest < cells[0].column + 1 {
            cells[0].column as nat + 1
        } else {
            rest
        }
    }
}

/// How many cells of a row are formulas without a stored value.
pub open spec fn uncached_in(cells: Seq<WrittenCell>) -> nat
    decreases cells.len(),
{
    if cells.len() == 0 {
        0
    } else {
        uncached_in(cells.skip(1)) + if cells[0].uncached {
            1nat
        } else {
            0nat
        }
    }
}

/// How many of the first `columns` cells of a row lose characters.
pub open spec fn cut_in(cells: Seq<WrittenCell>, columns: usize) -> nat
    decreases cells.len(),
{
    if cells.len() == 0 {
        0
    } else {
        cut_in(cells.skip(1), columns) + if cells[0].column < columns && (cells[0].text matches Some(
            text,
        ) && text.len() > MAX_TABLE_CELL_CHARS) {
            1nat
        } else {
            0nat
        }
    }
}

/// A row as it is shown, no wider than `columns`.
pub open spec fn row_shown(cells: Seq<WrittenCell>, columns: usize) -> Seq<Seq<char>> {
    Seq::new(
        if width(cells) < columns {
            width(cells)
        } else {
            columns as nat
        },
        |column: int| text_in(cells, column),
    )
}

/// The row is shown: it is among those asked for and shows something.
pub open spec fn is_shown(row: WrittenRow, asked: Asked) -> bool {
    in_window(asked.window, row.index as nat) && row_shown(row.cells, asked.columns).len() > 0
}

/// The rows that are shown.
pub open spec fn rows_shown(rows: Seq<WrittenRow>, asked: Asked) -> Seq<WrittenRow>
    decreases rows.len(),
{
    if rows.len() == 0 {
        Seq::empty()
    } else if is_shown(rows[0], asked) {
        seq![rows[0]] + rows_shown(rows.skip(1), asked)
    } else {
        rows_shown(rows.skip(1), asked)
    }
}

/// One above the largest index of a row that shows something.
pub open spec fn height(rows: Seq<WrittenRow>) -> nat
    decreases rows.len(),
{
    if rows.len() == 0 {
        0
    } else {
        let rest = height(rows.skip(1));
        if width(rows[0].cells) > 0 && rest < rows[0].index + 1 {
            rows[0].index as nat + 1
        } else {
            rest
        }
    }
}

/// The width of the widest row.
pub open spec fn extent(rows: Seq<WrittenRow>) -> nat
    decreases rows.len(),
{
    if rows.len() == 0 {
        0
    } else {
        let rest = extent(rows.skip(1));
        if rest < width(rows[0].cells) {
            width(rows[0].cells)
        } else {
            rest
        }
    }
}

/// How many cells are formulas without a stored value.
pub open spec fn uncached_count(rows: Seq<WrittenRow>) -> nat
    decreases rows.len(),
{
    if rows.len() == 0 {
        0
    } else {
        uncached_in(rows[0].cells) + uncached_count(rows.skip(1))
    }
}

/// How many cells that are asked for lose characters.
pub open spec fn cut_count(rows: Seq<WrittenRow>, asked: Asked) -> nat
    decreases rows.len(),
{
    if rows.len() == 0 {
        0
    } else {
        cut_count(rows.skip(1), asked) + if in_window(asked.window, rows[0].index as nat) {
            cut_in(rows[0].cells, asked.columns)
        } else {
            0
        }
    }
}

// ---- Reading what is written ----

proof fn lemma_read_the_rest(
    list: Seq<Token>,
    at: int,
    from: int,
    reading: SheetReading,
    asked: Asked,
    format: Seq<char>,
)
    requires
        0 <= at <= list.len(),
        0 <= from,
    ensures
        sheet_from(list, at + from, reading, asked, format) == sheet_from(
            list.skip(at),
            from,
            reading,
            asked,
            format,
        ),
    decreases list.len() - at - from,
{
    if at + from < list.len() {
        assert(list.skip(at)[from] == list[at + from]);
        if let Ok(next) = sheet_step(reading, list[at + from], asked, format) {
            lemma_read_the_rest(list, at, from + 1, next, asked, format);
        }
    }
}

/// One event that is taken in.
proof fn lemma_read_one(
    token: Token,
    rest: Seq<Token>,
    reading: SheetReading,
    next: SheetReading,
    asked: Asked,
    format: Seq<char>,
)
    requires
        !(token is Eof),
        sheet_step(reading, token, asked, format) == Ok::<_, crate::error::Failure>(next),
    ensures
        sheet_from(seq![token] + rest, 0, reading, asked, format) == sheet_from(
            rest,
            0,
            next,
            asked,
            format,
        ),
{
    let list = seq![token] + rest;
    assert(list[0] == token);
    lemma_read_the_rest(list, 1, 0, next, asked, format);
    assert(list.skip(1) =~= rest);
}

proof fn lemma_names()
    ensures
        "row"@ != "c"@,
        "row"@ != "v"@,
        "row"@ != "f"@,
        "row"@ != "is"@,
        "row"@ != "t"@,
        "c"@ != "v"@,
        "c"@ != "f"@,
        "c"@ != "is"@,
        "c"@ != "t"@,
        "v"@ != "f"@,
        "v"@ != "is"@,
        "v"@ != "t"@,
        "f"@ != "is"@,
        "f"@ != "t"@,
        "is"@ != "t"@,
{
    reveal_strlit("row");
    reveal_strlit("c");
    reveal_strlit("v");
    reveal_strlit("f");
    reveal_strlit("is");
    reveal_strlit("t");
    assert("row"@.len() == 3 && "is"@.len() == 2);
    assert("c"@[0] == 'c' && "v"@[0] == 'v' && "f"@[0] == 'f' && "t"@[0] == 't');
}

/// No value is being read.
spec fn between_values(reading: SheetReading) -> bool {
    reading.cell matches Some(cell) ==> !cell.in_value && !cell.in_inline && !cell.in_text
}

proof fn lemma_read_asides(
    list: Seq<Token>,
    rest: Seq<Token>,
    reading: SheetReading,
    asked: Asked,
    format: Seq<char>,
)
    requires
        are_asides(list),
        between_values(reading),
    ensures
        sheet_from(list + rest, 0, reading, asked, format) == sheet_from(
            rest,
            0,
            reading,
            asked,
            format,
        ),
    decreases list.len(),
{
    if list.len() == 0 {
        assert(list + rest =~= rest);
    } else {
        assert(is_aside(list[0]));
        assert(are_asides(list.skip(1))) by {
            assert forall|i: int| 0 <= i < list.skip(1).len() implies is_aside(
                #[trigger] list.skip(1)[i],
            ) by {
                assert(list.skip(1)[i] == list[i + 1]);
            }
        }
        assert(list + rest =~= seq![list[0]] + (list.skip(1) + rest));
        assert(sheet_step(reading, list[0], asked, format) == Ok::<_, crate::error::Failure>(reading));
        lemma_read_one(list[0], list.skip(1) + rest, reading, reading, asked, format);
        lemma_read_asides(list.skip(1), rest, reading, asked, format);
    }
}

/// The reading with another cell open.
spec fn with_open(reading: SheetReading, cell: Cell) -> SheetReading {
    SheetReading { cell: Some(cell), ..reading }
}

proof fn lemma_read_texts(
    raw: Seq<Seq<char>>,
    rest: Seq<Token>,
    reading: SheetReading,
    cell: Cell,
    asked: Asked,
    format: Seq<char>,
)
    requires
        reading.cell == Some(cell),
        cell.in_value || cell.in_text ==> decodes(raw, format),
    ensures
        sheet_from(text_tokens(raw) + rest, 0, reading, asked, format) == sheet_from(
            rest,
            0,
            with_open(
                reading,
                Cell {
                    value: if cell.in_value {
                        cell.value + decoded(raw, format)
                    } else {
                        cell.value
                    },
                    inline_text: if cell.in_text {
                        cell.inline_text + decoded(raw, format)
                    } else {
                        cell.inline_text
                    },
                    ..cell
                },
            ),
            asked,
            format,
        ),
    decreases raw.len(),
{
    let list = text_tokens(raw);
    if raw.len() == 0 {
        assert(list + rest =~= rest);
        assert(cell.value + decoded(raw, format) =~= cell.value);
        assert(cell.inline_text + decoded(raw, format) =~= cell.inline_text);
    } else {
        let shorter = raw.skip(1);
        let piece = xml_text(raw[0], format)->Ok_0;
        let next_cell = Cell {
            value: if cell.in_value {
                cell.value + piece
            } else {
                cell.value
            },
            inline_text: if cell.in_text {
                cell.inline_text + piece
            } else {
                cell.inline_text
            },
            ..cell
        };
        let next = with_open(reading, next_cell);
        if cell.in_value || cell.in_text {
            assert(xml_text(raw[0], format) is Ok);
            assert(decodes(shorter, format)) by {
                assert forall|i: int| 0 <= i < shorter.len() implies xml_text(
                    #[trigger] shorter[i],
                    format,
                ) is Ok by {
                    assert(shorter[i] == raw[i + 1]);
                }
            }
        }
        assert(list + rest =~= seq![Token::Text(raw[0])] + (text_tokens(shorter) + rest));
        assert(sheet_step(reading, Token::Text(raw[0]), asked, format) == Ok::<
            _,
            crate::error::Failure,
        >(next));
        lemma_read_one(
            Token::Text(raw[0]),
            text_tokens(shorter) + rest,
            reading,
            next,
            asked,
            format,
        );
        lemma_read_texts(shorter, rest, next, next_cell, asked, format);
        assert(cell.value + piece + decoded(shorter, format) =~= cell.value + decoded(raw, format));
        assert(cell.inline_text + piece + decoded(shorter, format) =~= cell.inline_text + decoded(
            raw,
            format,
        ));
    }
}

/// Character data between two tags, with the cell as it is behind the first tag and behind the data.
proof fn lemma_read_tagged(
    text: WrittenText,
    rest: Seq<Token>,
    reading: SheetReading,
    opened: Cell,
    closed: Cell,
    asked: Asked,
    format: Seq<char>,
)
    requires
        opened.in_value || opened.in_text ==> decodes(text.raw, format),
        sheet_step(reading, Token::Start(text.open), asked, format) == Ok::<_, crate::error::Failure>(
            with_open(reading, opened),
        ),
        ({
            let filled = Cell {
                value: if opened.in_value {
                    opened.value + decoded(text.raw, format)
                } else {
                    opened.value
                },
                inline_text: if opened.in_text {
                    opened.inline_text + decoded(text.raw, format)
                } else {
                    opened.inline_text
                },
                ..opened
            };
            sheet_step(with_open(reading, filled), Token::End(text.close), asked, format) == Ok::<
                _,
                crate::error::Failure,
            >(with_open(reading, closed))
        }),
    ensures
        sheet_from(tagged_tokens(text) + rest, 0, reading, asked, format) == sheet_from(
            rest,
            0,
            with_open(reading, closed),
            asked,
            format,
        ),
{
    let filled = Cell {
        value: if opened.in_value {
            opened.value + decoded(text.raw, format)
        } else {
            opened.value
        },
        inline_text: if opened.in_text {
            opened.inline_text + decoded(text.raw, format)
        } else {
            opened.inline_text
        },
        ..opened
    };
    let behind_data = seq![Token::End(text.close)] + rest;
    let behind_open = text_tokens(text.raw) + behind_data;
    assert(tagged_tokens(text) + rest =~= seq![Token::Start(text.open)] + behind_open);
    lemma_read_one(
        Token::Start(text.open),
        behind_open,
        reading,
        with_open(reading, opened),
        asked,
        format,
    );
    lemma_read_texts(text.raw, behind_data, with_open(reading, opened), opened, asked, format);
    lemma_read_one(
        Token::End(text.close),
        rest,
        with_open(reading, filled),
        with_open(reading, closed),
        asked,
        format,
    );
}

/// The cell after one of its parts.
spec fn with_part(cell: Cell, part: CellPart, format: Seq<char>) -> Cell {
    match part {
        CellPart::Formula(_) => Cell { has_formula: true, ..cell },
        CellPart::SharedFormula(_) => Cell { has_formula: true, ..cell },
        CellPart::Value(text) => Cell { value: cell.value + decoded(text.raw, format), ..cell },
        CellPart::Inline(_, text, _) => Cell {
            inline_text: cell.inline_text + decoded(text.raw, format),
            ..cell
        },
        CellPart::Aside(_) => cell,
    }
}

proof fn lemma_read_part(
    part: CellPart,
    rest: Seq<Token>,
    reading: SheetReading,
    cell: Cell,
    asked: Asked,
    format: Seq<char>,
)
    requires
        part_written(part, format),
        reading.cell == Some(cell),
        between_values(reading),
    ensures
        sheet_from(part_tokens(part) + rest, 0, reading, asked, format) == sheet_from(
            rest,
            0,
            with_open(reading, with_part(cell, part, format)),
            asked,
            format,
        ),
{
    lemma_names();
    let read = with_part(cell, part, format);
    match part {
        CellPart::Formula(text) => {
            lemma_read_tagged(text, rest, reading, read, read, asked, format);
        },
        CellPart::SharedFormula(tag) => {
            lemma_read_one(
                Token::Empty(tag),
                rest,
                reading,
                with_open(reading, read),
                asked,
                format,
            );
        },
        CellPart::Value(text) => {
            let opened = Cell { in_value: true, ..cell };
            lemma_read_tagged(text, rest, reading, opened, read, asked, format);
        },
        CellPart::Inline(open, text, close) => {
            let around = Cell { in_inline: true, ..cell };
            let opened = Cell { in_text: true, ..around };
            let filled = Cell { in_inline: true, ..read };
            let behind_text = seq![Token::End(close)] + rest;
            let behind_open = tagged_tokens(text) + behind_text;
            assert(part_tokens(part) + rest =~= seq![Token::Start(open)] + behind_open);
            lemma_read_one(
                Token::Start(open),
                behind_open,
                reading,
                with_open(reading, around),
                asked,
                format,
            );
            lemma_read_tagged(
                text,
                behind_text,
                with_open(reading, around),
                opened,
                filled,
                asked,
                format,
            );
            assert(with_open(with_open(reading, around), filled) == with_open(reading, filled));
            lemma_read_one(
                Token::End(close),
                rest,
                with_open(reading, filled),
                with_open(reading, read),
                asked,
                format,
            );
        },
        CellPart::Aside(token) => {
            lemma_read_asides(seq![token], rest, reading, asked, format);
            assert(with_open(reading, read) == reading);
        },
    }
}

/// The cell after its parts.
spec fn with_parts(cell: Cell, parts: Seq<CellPart>, format: Seq<char>) -> Cell {
    Cell {
        has_formula: cell.has_formula || has_formula(parts),
        value: cell.value + stored_value(parts, format),
        inline_text: cell.inline_text + own_text(parts, format),
        ..cell
    }
}

proof fn lemma_read_parts(
    parts: Seq<CellPart>,
    rest: Seq<Token>,
    reading: SheetReading,
    cell: Cell,
    asked: Asked,
    format: Seq<char>,
)
    requires
        parts_written(parts, format),
        reading.cell == Some(cell),
        between_values(reading),
    ensures
        sheet_from(parts_tokens(parts) + rest, 0, reading, asked, format) == sheet_from(
            rest,
            0,
            with_open(reading, with_parts(cell, parts, format)),
            asked,
            format,
        ),
    decreases parts.len(),
{
    if parts.len() == 0 {
        assert(parts_tokens(parts) + rest =~= rest);
        assert(with_parts(cell, parts, format) =~= cell);
        assert(with_open(reading, cell) == reading);
    } else {
        let others = parts.skip(1);
        let next_cell = with_part(cell, parts[0], format);
        let next = with_open(reading, next_cell);
        assert(part_written(parts[0], format));
        assert(parts_written(others, format)) by {
            assert forall|i: int| 0 <= i < others.len() implies part_written(
                #[trigger] others[i],
                format,
            ) by {
                assert(others[i] == parts[i + 1]);
            }
        }
        assert(parts_tokens(parts) + rest =~= part_tokens(parts[0]) + (parts_tokens(others) + rest));
        lemma_read_part(parts[0], parts_tokens(others) + rest, reading, cell, asked, format);
        lemma_read_parts(others, rest, next, next_cell, asked, format);
        assert(has_formula(parts) == (parts[0] is Formula || parts[0] is SharedFormula || has_formula(
            others,
        ))) by {
            if has_formula(others) {
                let k = choose|k: int|
                    0 <= k < others.len() && ((#[trigger] others[k]) is Formula
                        || others[k] is SharedFormula);
                assert(parts[k + 1] == others[k]);
            }
            if has_formula(parts) {
                let k = choose|k: int|
                    0 <= k < parts.len() && ((#[trigger] parts[k]) is Formula
                        || parts[k] is SharedFormula);
                if k > 0 {
                    assert(others[k - 1] == parts[k]);
                }
            }
        }
        assert(with_parts(next_cell, others, format) =~= with_parts(cell, parts, format));
        assert(with_open(next, with_parts(cell, parts, format)) == with_open(
            reading,
            with_parts(cell, parts, format),
        ));
    }
}

/// The reading after a cell of the row that is being read.
spec fn with_written_cell(reading: SheetReading, cell: WrittenCell, asked: Asked) -> SheetReading {
    let counted = SheetReading {
        uncached: reading.uncached + if cell.uncached {
            1nat
        } else {
            0nat
        },
        cell: None,
        ..reading
    };
    match cell.text {
        Some(text) => with_text(counted, cell.column, text, asked),
        None => SheetReading { last_column: Some(cell.column), ..counted },
    }
}

proof fn lemma_kinds()
    ensures
        "s"@ != "inlineStr"@,
        "s"@ != "b"@,
        "s"@ != "e"@,
        "inlineStr"@ != "b"@,
        "inlineStr"@ != "e"@,
        "b"@ != "e"@,
        "s"@.len() > 0,
        "b"@.len() > 0,
        "e"@.len() > 0,
        "inlineStr"@.len() > 0,
        "str"@ != "s"@,
        "str"@ != "inlineStr"@,
        "str"@ != "b"@,
        "str"@ != "e"@,
        "1"@.len() == 1,
        "0"@.len() == 1,
        "1"@ != "0"@,
        "TRUE"@.len() > 0,
        "FALSE"@.len() > 0,
{
    reveal_strlit("s");
    reveal_strlit("inlineStr");
    reveal_strlit("b");
    reveal_strlit("e");
    reveal_strlit("str");
    reveal_strlit("1");
    reveal_strlit("0");
    reveal_strlit("TRUE");
    reveal_strlit("FALSE");
    assert("s"@[0] == 's' && "b"@[0] == 'b' && "e"@[0] == 'e' && "1"@[0] == '1' && "0"@[0] == '0');
    assert("inlineStr"@.len() == 9 && "str"@.len() == 3);
}

proof fn lemma_cell_closes(
    cell: WrittenCell,
    last: Option<usize>,
    read: Cell,
    reading: SheetReading,
    asked: Asked,
    format: Seq<char>,
)
    requires
        cell_written(cell, last, asked.shared, format),
        reading.cell == Some(read),
        read.column == cell.column,
        read.kind == crate::worksheet::kind_of(value_of(cell_pairs(cell), "t"@)),
        read.has_formula == has_formula(cell.parts),
        read.value == stored_value(cell.parts, format),
        read.inline_text == own_text(cell.parts, format),
    ensures
        with_cell_end(reading, asked) == Ok::<_, crate::error::Failure>(
            with_written_cell(reading, cell, asked),
        ),
{
    lemma_kinds();
    let name = named_type(cell);
    assert(read.kind == if name == "s"@ {
        CellKind::SharedString
    } else if name == "inlineStr"@ {
        CellKind::InlineString
    } else if name == "b"@ {
        CellKind::Boolean
    } else if name == "e"@ {
        CellKind::Error
    } else if name == "str"@ {
        CellKind::Text
    } else {
        CellKind::Number
    }) by {
        reveal_strlit("str");
        assert("str"@.len() == 3);
    }
    lemma_trim_of_nothing(read.value);
    lemma_digits_are_there(trim(read.value));
    match cell.text {
        Some(text) => {
            if cell.uncached {
                assert(cell_text(read, asked.shared) == Ok::<_, crate::error::Failure>(None::<Seq<char>>));
                assert(!stored_empty(read));
            } else {
                assert(cell_text(read, asked.shared) == Ok::<_, crate::error::Failure>(Some(text)));
            }
        },
        None => {
            assert(cell_text(read, asked.shared) == Ok::<_, crate::error::Failure>(None::<Seq<char>>));
            assert(!(read.has_formula && !stored_empty(read)));
        },
    }
}

proof fn lemma_trim_of_nothing(text: Seq<char>)
    ensures
        text.len() == 0 ==> trim(text).len() == 0,
{
}

proof fn lemma_digits_are_there(text: Seq<char>)
    ensures
        parsed_number(text) is Some ==> text.len() > 0,
{
}

proof fn lemma_read_cell(
    cell: WrittenCell,
    rest: Seq<Token>,
    reading: SheetReading,
    asked: Asked,
    format: Seq<char>,
)
    requires
        cell_written(cell, reading.last_column, asked.shared, format),
        reading.cell is None,
    ensures
        sheet_from(cell_tokens(cell) + rest, 0, reading, asked, format) == sheet_from(
            rest,
            0,
            with_written_cell(reading, cell, asked),
            asked,
            format,
        ),
{
    lemma_names();
    let fresh = Cell {
        column: cell.column,
        kind: crate::worksheet::kind_of(value_of(cell_pairs(cell), "t"@)),
        has_formula: false,
        value: Seq::empty(),
        inline_text: Seq::empty(),
        in_value: false,
        in_inline: false,
        in_text: false,
    };
    let read = with_parts(fresh, cell.parts, format);
    let behind_parts = seq![Token::End(cell.close)] + rest;
    let behind_open = parts_tokens(cell.parts) + behind_parts;
    assert(cell_tokens(cell) + rest =~= seq![Token::Start(cell.open)] + behind_open);
    assert(after(reading.last_column) == behind(reading.last_column) || behind(reading.last_column)
        > cell.column);
    assert(with_cell(reading, cell.open) == Ok::<_, crate::error::Failure>(with_open(reading, fresh)));
    lemma_read_one(
        Token::Start(cell.open),
        behind_open,
        reading,
        with_open(reading, fresh),
        asked,
        format,
    );
    lemma_read_parts(cell.parts, behind_parts, with_open(reading, fresh), fresh, asked, format);
    assert(with_open(with_open(reading, fresh), read) == with_open(reading, read));
    assert(read.value =~= stored_value(cell.parts, format));
    assert(read.inline_text =~= own_text(cell.parts, format));
    lemma_cell_closes(cell, reading.last_column, read, with_open(reading, read), asked, format);
    assert(with_written_cell(with_open(reading, read), cell, asked) == with_written_cell(
        reading,
        cell,
        asked,
    ));
    lemma_read_one(
        Token::End(cell.close),
        rest,
        with_open(reading, read),
        with_written_cell(reading, cell, asked),
        asked,
        format,
    );
}

/// The cells of a row after more of them.
spec fn laid_on(base: Seq<Seq<char>>, cells: Seq<WrittenCell>, columns: usize) -> Seq<Seq<char>> {
    let wide = row_shown(cells, columns).len();
    Seq::new(
        if wide < base.len() {
            base.len()
        } else {
            wide
        },
        |column: int|
            if column < base.len() {
                base[column]
            } else {
                text_in(cells, column)
            },
    )
}

/// One above a largest index.
spec fn reach(max: Option<usize>) -> int {
    match max {
        Some(index) => index + 1,
        None => 0,
    }
}

/// The largest index after others of which the largest is below `top`.
spec fn raised(max: Option<usize>, top: nat) -> Option<usize> {
    if top <= reach(max) {
        max
    } else {
        Some((top - 1) as usize)
    }
}

proof fn lemma_padding(cells: Seq<Seq<char>>, wide: nat, limit: nat)
    ensures
        ({
            let more = padded(cells, wide, limit);
            let least = if wide < limit {
                wide
            } else {
                limit
            };
            &&& more.len() == if cells.len() < least {
                least
            } else {
                cells.len()
            }
            &&& forall|i: int|
                0 <= i < more.len() ==> (#[trigger] more[i]) == if i < cells.len() {
                    cells[i]
                } else {
                    Seq::empty()
                }
        }),
    decreases wide - cells.len(),
{
    if cells.len() < wide && cells.len() < limit {
        lemma_padding(cells.push(Seq::empty()), wide, limit);
    }
}

/// Cells behind a column show nothing up to it.
proof fn lemma_cells_stand_behind(
    cells: Seq<WrittenCell>,
    last: Option<usize>,
    shared: Option<Seq<Seq<char>>>,
    format: Seq<char>,
)
    requires
        cells_written(cells, last, shared, format),
    ensures
        forall|column: int| column < behind(last) ==> (#[trigger] text_in(cells, column)).len() == 0,
        width(cells) == 0 || width(cells) > behind(last),
        width(cells) <= usize::MAX,
        forall|column: int| column >= width(cells) ==> (#[trigger] text_in(cells, column)).len() == 0,
    decreases cells.len(),
{
    if cells.len() > 0 {
        let others = cells.skip(1);
        lemma_cells_stand_behind(others, Some(cells[0].column), shared, format);
        assert forall|column: int| column < behind(last) implies (#[trigger] text_in(
            cells,
            column,
        )).len() == 0 by {
            assert(text_in(others, column).len() == 0);
        }
        assert forall|column: int| column >= width(cells) implies (#[trigger] text_in(
            cells,
            column,
        )).len() == 0 by {
            assert(text_in(others, column).len() == 0);
        }
    }
}

/// The reading after cells of the row that is being read.
spec fn with_written_cells(reading: SheetReading, cells: Seq<WrittenCell>, asked: Asked) -> SheetReading {
    let inside = in_window(asked.window, crate::worksheet::row_of(reading) as nat);
    SheetReading {
        last_column: if cells.len() == 0 {
            reading.last_column
        } else {
            Some(cells.last().column)
        },
        row_cells: if inside {
            laid_on(reading.row_cells, cells, asked.columns)
        } else {
            reading.row_cells
        },
        max_row: raised(
            reading.max_row,
            if width(cells) == 0 {
                0
            } else {
                crate::worksheet::row_of(reading) as nat + 1
            },
        ),
        max_column: raised(reading.max_column, width(cells)),
        uncached: reading.uncached + uncached_in(cells),
        truncated: reading.truncated + if inside {
            cut_in(cells, asked.columns)
        } else {
            0
        },
        ..reading
    }
}

proof fn lemma_cut_is_kept(text: Seq<char>)
    ensures
        kept_cell(text) == cut(text),
{
    if text.len() <= MAX_TABLE_CELL_CHARS {
        assert(text.take(text.len() as int) =~= text);
    }
}

/// One cell laid behind others.
proof fn lemma_lay_one(
    base: Seq<Seq<char>>,
    cells: Seq<WrittenCell>,
    last: Option<usize>,
    shared: Option<Seq<Seq<char>>>,
    columns: usize,
    format: Seq<char>,
)
    requires
        cells.len() > 0,
        cells_written(cells, last, shared, format),
        base.len() <= columns,
        base.len() <= behind(last),
    ensures
        ({
            let next = match cells[0].text {
                Some(text) => with_value(base, cells[0].column, text, columns),
                None => base,
            };
            &&& next.len() <= columns
            &&& next.len() <= cells[0].column + 1
            &&& laid_on(next, cells.skip(1), columns) == laid_on(base, cells, columns)
        }),
{
    let others = cells.skip(1);
    let first = cells[0];
    lemma_cells_stand_behind(others, Some(first.column), shared, format);
    if let Some(text) = first.text {
        lemma_padding(base, first.column as nat, columns as nat);
        lemma_cut_is_kept(text);
        let next = with_value(base, first.column, text, columns);
        let left = laid_on(next, others, columns);
        let right = laid_on(base, cells, columns);
        assert(left.len() == right.len());
        assert forall|i: int| 0 <= i < left.len() implies left[i] == right[i] by {
            if i >= base.len() && i < next.len() && i < first.column {
                assert(text_in(others, i).len() == 0);
                assert(next[i] =~= text_in(cells, i));
            }
        }
        assert(left =~= right);
    } else {
        assert(laid_on(base, others, columns) =~= laid_on(base, cells, columns));
    }
}

proof fn lemma_read_cells(
    cells: Seq<WrittenCell>,
    rest: Seq<Token>,
    reading: SheetReading,
    asked: Asked,
    format: Seq<char>,
)
    requires
        cells_written(cells, reading.last_column, asked.shared, format),
        reading.cell is None,
        reading.row_cells.len() <= asked.columns,
        reading.row_cells.len() <= behind(reading.last_column),
    ensures
        sheet_from(cells_tokens(cells) + rest, 0, reading, asked, format) == sheet_from(
            rest,
            0,
            with_written_cells(reading, cells, asked),
            asked,
            format,
        ),
    decreases cells.len(),
{
    if cells.len() == 0 {
        assert(cells_tokens(cells) + rest =~= rest);
        assert(laid_on(reading.row_cells, cells, asked.columns) =~= reading.row_cells);
        assert(with_written_cells(reading, cells, asked) =~= reading);
    } else {
        let others = cells.skip(1);
        let first = cells[0];
        let next = with_written_cell(reading, first, asked);
        let inside = in_window(asked.window, crate::worksheet::row_of(reading) as nat);
        assert(cells_tokens(cells) + rest =~= cell_tokens(first) + (cells_tokens(others) + rest));
        lemma_read_cell(first, cells_tokens(others) + rest, reading, asked, format);
        lemma_lay_one(
            reading.row_cells,
            cells,
            reading.last_column,
            asked.shared,
            asked.columns,
            format,
        );
        lemma_read_cells(others, rest, next, asked, format);
        lemma_cells_stand_behind(others, Some(first.column), asked.shared, format);
        let left = with_written_cells(next, others, asked);
        let right = with_written_cells(reading, cells, asked);
        assert(left.last_column == right.last_column);
        assert(left.row_cells == right.row_cells);
        assert(left.max_row == right.max_row);
        assert(left.max_column == right.max_column);
        assert(left.uncached == right.uncached);
        assert(left.truncated == right.truncated);
        assert(left =~= right);
    }
}

/// The reading after rows.
spec fn with_written_rows(reading: SheetReading, rows: Seq<WrittenRow>, asked: Asked) -> SheetReading {
    let shown = rows_shown(rows, asked);
    SheetReading {
        current_row: if rows.len() == 0 {
            reading.current_row
        } else {
            Some(rows.last().index)
        },
        max_row: raised(reading.max_row, height(rows)),
        max_column: raised(reading.max_column, extent(rows)),
        rows: reading.rows + Seq::new(
            shown.len(),
            |i: int| row_shown(shown[i].cells, asked.columns),
        ),
        row_numbers: reading.row_numbers + Seq::new(shown.len(), |i: int| shown[i].index),
        uncached: reading.uncached + uncached_count(rows),
        truncated: reading.truncated + cut_count(rows, asked),
        ..reading
    }
}

/// No row is being read.
spec fn between_rows(reading: SheetReading) -> bool {
    reading.cell is None && reading.last_column is None && reading.row_cells == Seq::<
        Seq<char>,
    >::empty()
}

proof fn lemma_read_row(
    row: WrittenRow,
    rest: Seq<Token>,
    reading: SheetReading,
    asked: Asked,
    format: Seq<char>,
)
    requires
        row_written(row, reading.current_row, asked.shared, format),
        between_rows(reading),
    ensures
        sheet_from(row_tokens(row) + rest, 0, reading, asked, format) == sheet_from(
            rest,
            0,
            with_written_rows(reading, seq![row], asked),
            asked,
            format,
        ),
{
    lemma_names();
    let opened = SheetReading { current_row: Some(row.index), ..reading };
    let filled = with_written_cells(opened, row.cells, asked);
    let closed = with_row_end(filled, asked);
    let behind_cells = seq![Token::End(row.close)] + rest;
    let behind_open = cells_tokens(row.cells) + behind_cells;
    let behind_lead = seq![Token::Start(row.open)] + behind_open;
    assert(row_tokens(row) + rest =~= row.lead + behind_lead);
    lemma_read_asides(row.lead, behind_lead, reading, asked, format);
    assert(with_row(reading, row.open) == Ok::<_, crate::error::Failure>(opened));
    lemma_read_one(Token::Start(row.open), behind_open, reading, opened, asked, format);
    lemma_read_cells(row.cells, behind_cells, opened, asked, format);
    lemma_read_one(Token::End(row.close), rest, filled, closed, asked, format);
    lemma_cells_stand_behind(row.cells, None, asked.shared, format);
    let rows = seq![row];
    assert(rows.skip(1) =~= Seq::empty());
    reveal_with_fuel(rows_shown, 2);
    reveal_with_fuel(height, 2);
    reveal_with_fuel(extent, 2);
    reveal_with_fuel(uncached_count, 2);
    reveal_with_fuel(cut_count, 2);
    assert(laid_on(Seq::empty(), row.cells, asked.columns) =~= row_shown(row.cells, asked.columns));
    assert(closed =~= with_written_rows(reading, rows, asked));
}

proof fn lemma_read_rows(
    rows: Seq<WrittenRow>,
    rest: Seq<Token>,
    reading: SheetReading,
    asked: Asked,
    format: Seq<char>,
)
    requires
        rows_written(rows, reading.current_row, asked.shared, format),
        between_rows(reading),
    ensures
        sheet_from(rows_tokens(rows) + rest, 0, reading, asked, format) == sheet_from(
            rest,
            0,
            with_written_rows(reading, rows, asked),
            asked,
            format,
        ),
        height(rows) <= usize::MAX,
        extent(rows) <= usize::MAX,
    decreases rows.len(),
{
    if rows.len() == 0 {
        assert(rows_tokens(rows) + rest =~= rest);
        assert(with_written_rows(reading, rows, asked) =~= reading);
    } else {
        let others = rows.skip(1);
        let first = rows[0];
        let next = with_written_rows(reading, seq![first], asked);
        assert(rows_tokens(rows) + rest =~= row_tokens(first) + (rows_tokens(others) + rest));
        lemma_read_row(first, rows_tokens(others) + rest, reading, asked, format);
        lemma_read_rows(others, rest, next, asked, format);
        lemma_cells_stand_behind(first.cells, None, asked.shared, format);
        lemma_rows_follow(reading, rows, asked);
    }
}

proof fn lemma_rows_follow(reading: SheetReading, rows: Seq<WrittenRow>, asked: Asked)
    requires
        rows.len() > 0,
        width(rows[0].cells) <= usize::MAX,
        height(rows.skip(1)) <= usize::MAX,
        extent(rows.skip(1)) <= usize::MAX,
    ensures
        with_written_rows(with_written_rows(reading, seq![rows[0]], asked), rows.skip(1), asked)
            == with_written_rows(reading, rows, asked),
{
    let first = rows[0];
    let others = rows.skip(1);
    let single = seq![first];
    let next = with_written_rows(reading, single, asked);
    let left = with_written_rows(next, others, asked);
    let right = with_written_rows(reading, rows, asked);
    assert(single.skip(1) =~= Seq::empty());
    assert(height(single.skip(1)) == 0 && extent(single.skip(1)) == 0);
    assert(uncached_count(single.skip(1)) == 0 && cut_count(single.skip(1), asked) == 0);
    assert(rows_shown(single.skip(1), asked) =~= Seq::empty());
    assert(rows_shown(rows, asked) =~= rows_shown(single, asked) + rows_shown(others, asked));
    assert(left.rows =~= right.rows);
    assert(left.row_numbers =~= right.row_numbers);
    assert(left.max_row == right.max_row);
    assert(left.max_column == right.max_column);
    assert(left.uncached == right.uncached);
    assert(left.truncated == right.truncated);
    assert(left =~= right);
}

// ---- Laws ----

/// A worksheet shows each row that was asked for and has something to show, with its index; a row
/// shows in each column the text of the cell there: a stored value as it is stored, whether it comes
/// from a formula or not, cut to the limit. Cells in between are empty. The extent is that of all
/// rows, and as not stored count exactly the formulas without a stored value.
pub proof fn worksheets_show_what_is_written(
    rows: Seq<WrittenRow>,
    tail: Seq<Token>,
    asked: Asked,
    format: Seq<char>,
)
    requires
        rows_written(rows, None, asked.shared, format),
        are_asides(tail),
    ensures
        ({
            let shown = rows_shown(rows, asked);
            sheet_in(rows_tokens(rows) + (tail + seq![Token::Eof]), asked, format) == Ok::<
                _,
                crate::error::Failure,
            >(
                Sheet {
                    rows: Seq::new(
                        shown.len(),
                        |i: int| row_shown(shown[i].cells, asked.columns),
                    ),
                    row_numbers: Seq::new(shown.len(), |i: int| shown[i].index),
                    row_count: height(rows) as usize,
                    column_count: extent(rows) as usize,
                    uncached: uncached_count(rows),
                    truncated: cut_count(rows, asked),
                },
            )
        }),
        height(rows) <= usize::MAX,
        extent(rows) <= usize::MAX,
{
    let start = unread_sheet();
    let rest = tail + seq![Token::Eof];
    let read = with_written_rows(start, rows, asked);
    let shown = rows_shown(rows, asked);
    assert(start.row_cells =~= Seq::empty());
    lemma_read_rows(rows, rest, start, asked, format);
    lemma_read_asides(tail, seq![Token::Eof], read, asked, format);
    assert(sheet_from(seq![Token::Eof], 0, read, asked, format) == Ok::<_, crate::error::Failure>(read));
    assert(read.rows =~= Seq::new(shown.len(), |i: int| row_shown(shown[i].cells, asked.columns)));
    assert(read.row_numbers =~= Seq::new(shown.len(), |i: int| shown[i].index));
    assert(after(read.max_row) == height(rows) as usize);
    assert(after(read.max_column) == extent(rows) as usize);
}

/// The text of a cell stands in its column of the row.
pub proof fn cells_stand_in_their_columns(
    cells: Seq<WrittenCell>,
    last: Option<usize>,
    shared: Option<Seq<Seq<char>>>,
    columns: usize,
    format: Seq<char>,
    at: int,
)
    requires
        cells_written(cells, last, shared, format),
        0 <= at < cells.len(),
        cells[at].text is Some,
        cells[at].column < columns,
    ensures
        cells[at].column < row_shown(cells, columns).len(),
        row_shown(cells, columns)[cells[at].column as int] == cut(cells[at].text->Some_0),
        is_plain(cells[at]) && stored_value(cells[at].parts, format).len() > 0 ==> row_shown(
            cells,
            columns,
        )[cells[at].column as int] == cut(stored_value(cells[at].parts, format)),
    decreases cells.len(),
{
    let others = cells.skip(1);
    if at > 0 {
        assert(others[at - 1] == cells[at]);
        cells_stand_in_their_columns(others, Some(cells[0].column), shared, columns, format, at - 1);
        lemma_cells_stand_behind(others, Some(cells[0].column), shared, format);
        lemma_later_cells_lie_behind(others, Some(cells[0].column), shared, format, at - 1);
    }
}

proof fn lemma_later_cells_lie_behind(
    cells: Seq<WrittenCell>,
    last: Option<usize>,
    shared: Option<Seq<Seq<char>>>,
    format: Seq<char>,
    at: int,
)
    requires
        cells_written(cells, last, shared, format),
        0 <= at < cells.len(),
    ensures
        behind(last) <= cells[at].column,
    decreases cells.len(),
{
    if at > 0 {
        assert(cells.skip(1)[at - 1] == cells[at]);
        lemma_later_cells_lie_behind(cells.skip(1), Some(cells[0].column), shared, format, at - 1);
    }
}

/// A worksheet whose events break off is refused.
pub proof fn broken_worksheets_are_refused(list: Seq<Token>, at: int, asked: Asked, format: Seq<char>)
    requires
        0 <= at < list.len(),
        list[at] is Failed,
        forall|i: int| 0 <= i < at ==> !((#[trigger] list[i]) is Eof),
    ensures
        sheet_in(list, asked, format) is Err,
{
    lemma_broken_list(list, 0, at, unread_sheet(), asked, format);
}

proof fn lemma_broken_list(
    list: Seq<Token>,
    from: int,
    at: int,
    reading: SheetReading,
    asked: Asked,
    format: Seq<char>,
)
    requires
        0 <= from <= at < list.len(),
        list[at] is Failed,
        forall|i: int| from <= i < at ==> !((#[trigger] list[i]) is Eof),
    ensures
        sheet_from(list, from, reading, asked, format) is Err,
    decreases at - from,
{
    if from < at {
        if let Ok(next) = sheet_step(reading, list[from], asked, format) {
            lemma_broken_list(list, from + 1, at, next, asked, format);
        }
    }
}

} // verus!
