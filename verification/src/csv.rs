//! Tables in CSV text: every record is counted, only those asked for are kept.

use vstd::prelude::*;
use crate::bytes::bytes_at;
use crate::error::{failure, ErrorKind, Failure, LibraryError, LibraryResult};
use crate::limits::MAX_TABLE_CELL_CHARS;
use crate::text::{
    chars, decimal, from_utf8, join, occurs_at, push_decimal, text_between, valid_length, views,
};

verus! {

// ---- Decoding ----

/// The bytes open with a mark.
pub open spec fn opens_with(bytes: Seq<u8>, mark: Seq<u8>) -> bool {
    occurs_at(bytes, mark, 0)
}

/// The mark of UTF-8.
pub open spec fn utf8_mark() -> Seq<u8> {
    seq![0xefu8, 0xbb, 0xbf]
}

/// The text of a CSV file and whether a mark of UTF-8 was dropped, or why the file is refused.
pub open spec fn csv_text(bytes: Seq<u8>) -> Result<(Seq<char>, bool), Failure> {
    let marked = opens_with(bytes, utf8_mark());
    let contents = if marked {
        bytes.skip(3)
    } else {
        bytes
    };
    if opens_with(bytes, seq![0xffu8, 0xfe]) || opens_with(bytes, seq![0xfeu8, 0xff]) {
        Err(
            failure(
                ErrorKind::ImportFile,
                "CSV 使用 UTF-16 编码，当前只支持 UTF-8；请先转换为 UTF-8。"@,
            ),
        )
    } else if opens_with(bytes, crate::archive::local_mark()) {
        Err(
            failure(
                ErrorKind::ImportFile,
                "文件是压缩包（可能是 Office 文档），不是 CSV 文本。"@,
            ),
        )
    } else if contents.contains(0u8) {
        Err(
            failure(
                ErrorKind::ImportFile,
                "CSV 包含二进制内容（NUL 字节），不是有效的文本表格。"@,
            ),
        )
    } else if !vstd::utf8::valid_utf8(contents) {
        Err(
            failure(
                ErrorKind::ImportFile,
                "CSV 解码失败：第 "@ + decimal(valid_length(contents) as nat)
                    + " 字节起不是有效的 UTF-8（可能是 GBK/ANSI 编码），请先转换为 UTF-8。"@,
            ),
        )
    } else {
        Ok((vstd::utf8::decode_utf8(contents), marked))
    }
}

/// Whether the bytes hold a zero.
fn has_zero(bytes: &[u8]) -> (found: bool)
    ensures
        found == bytes@.contains(0u8),
{
    let mut i: usize = 0;
    while i < bytes.len()
        invariant
            i <= bytes@.len(),
            forall|j: int| 0 <= j < i ==> bytes@[j] != 0,
        decreases bytes@.len() - i,
    {
        if bytes[i] == 0 {
            return true;
        }
        i = i + 1;
    }
    false
}

/// The text of a CSV file and whether a mark of UTF-8 was dropped, or why the file is refused.
/// Only UTF-8 is taken: nothing is ever guessed.
pub fn decode_csv_text(bytes: &[u8]) -> (result: LibraryResult<(String, bool)>)
    ensures
        (match result {
            Ok((text, marked)) => Ok((text@, marked)),
            Err(error) => Err(error@),
        }) == csv_text(bytes@),
{
    let little: [u8; 2] = [0xff, 0xfe];
    let big: [u8; 2] = [0xfe, 0xff];
    let mark: [u8; 3] = [0xef, 0xbb, 0xbf];
    assert(little@ =~= seq![0xffu8, 0xfe]);
    assert(big@ =~= seq![0xfeu8, 0xff]);
    assert(mark@ =~= utf8_mark());
    if bytes_at(bytes, vstd::array::array_as_slice(&little), 0) || bytes_at(
        bytes,
        vstd::array::array_as_slice(&big),
        0,
    ) {
        return Err(
            LibraryError::ImportFile(
                "CSV 使用 UTF-16 编码，当前只支持 UTF-8；请先转换为 UTF-8。".to_owned(),
            ),
        );
    }
    if crate::archive::has_local_mark(bytes) {
        return Err(
            LibraryError::ImportFile(
                "文件是压缩包（可能是 Office 文档），不是 CSV 文本。".to_owned(),
            ),
        );
    }
    let marked = bytes_at(bytes, vstd::array::array_as_slice(&mark), 0);
    let start: usize = if marked {
        3
    } else {
        0
    };
    let size: usize = bytes.len();
    let contents = vstd::slice::slice_subrange(bytes, start, size);
    assert(contents@ =~= (if marked {
        bytes@.skip(3)
    } else {
        bytes@
    }));
    if has_zero(contents) {
        return Err(
            LibraryError::ImportFile(
                "CSV 包含二进制内容（NUL 字节），不是有效的文本表格。".to_owned(),
            ),
        );
    }
    match from_utf8(contents) {
        Ok(text) => Ok((text, marked)),
        Err(at) => {
            let mut detail = "CSV 解码失败：第 ".to_owned();
            push_decimal(&mut detail, at as u64);
            detail.append(" 字节起不是有效的 UTF-8（可能是 GBK/ANSI 编码），请先转换为 UTF-8。");
            Err(LibraryError::ImportFile(detail))
        },
    }
}

// ---- Records ----

/// How far the reading of a CSV text is: the records that are complete, the fields of the record
/// that is not, the field that is not.
#[verifier::ext_equal]
pub struct Reading {
    pub done: Seq<Seq<Seq<char>>>,
    pub fields: Seq<Seq<char>>,
    pub field: Seq<char>,
    /// The field holds something, if only a quotation mark.
    pub started: bool,
    /// The record holds something, if only a comma.
    pub content: bool,
    /// A quotation mark is open.
    pub quoted: bool,
}

/// Nothing was read yet.
pub open spec fn unread() -> Reading {
    Reading {
        done: Seq::empty(),
        fields: Seq::empty(),
        field: Seq::empty(),
        started: false,
        content: false,
        quoted: false,
    }
}

/// After a character of the field.
pub open spec fn with_char(reading: Reading, c: char) -> Reading {
    Reading { field: reading.field.push(c), started: true, content: true, ..reading }
}

/// After an opening quotation mark.
pub open spec fn with_open_quote(reading: Reading) -> Reading {
    Reading { quoted: true, content: true, started: true, ..reading }
}

/// After a closing quotation mark.
pub open spec fn with_closed_quote(reading: Reading) -> Reading {
    Reading { quoted: false, ..reading }
}

/// After the end of the field.
pub open spec fn with_field_end(reading: Reading) -> Reading {
    Reading {
        fields: reading.fields.push(reading.field),
        field: Seq::empty(),
        started: false,
        content: true,
        ..reading
    }
}

/// At the start of a record.
pub open spec fn with_new_record(done: Seq<Seq<Seq<char>>>) -> Reading {
    Reading { done, ..unread() }
}

/// After the end of the record. A line without anything is no record.
pub open spec fn with_record_end(reading: Reading) -> Reading {
    if !reading.content && !reading.quoted && reading.fields.len() == 0 {
        with_new_record(reading.done)
    } else {
        with_new_record(reading.done.push(with_field_end(reading).fields))
    }
}

/// Reads the text from `at` on. A line end is LF, CR or CRLF; inside quotation marks it belongs to
/// the field, as LF, and a doubled quotation mark stands for one.
pub open spec fn read_from(text: Seq<char>, at: int, reading: Reading) -> Reading
    decreases text.len() - at,
{
    if at < 0 || at >= text.len() {
        reading
    } else {
        let c = text[at];
        let behind = if at + 1 < text.len() {
            Some(text[at + 1])
        } else {
            None
        };
        let line_end = if behind == Some('\n') && at + 2 <= text.len() {
            at + 2
        } else {
            at + 1
        };
        if reading.quoted {
            if c == '"' {
                if behind == Some('"') && at + 2 <= text.len() {
                    read_from(text, at + 2, with_char(reading, '"'))
                } else {
                    read_from(text, at + 1, with_closed_quote(reading))
                }
            } else if c == '\r' {
                read_from(text, line_end, with_char(reading, '\n'))
            } else {
                read_from(text, at + 1, with_char(reading, c))
            }
        } else if c == '"' && !reading.started {
            read_from(text, at + 1, with_open_quote(reading))
        } else if c == ',' {
            read_from(text, at + 1, with_field_end(reading))
        } else if c == '\r' {
            read_from(text, line_end, with_record_end(reading))
        } else if c == '\n' {
            read_from(text, at + 1, with_record_end(reading))
        } else {
            read_from(text, at + 1, with_char(reading, c))
        }
    }
}

/// The records of a CSV text. The last one needs no line end.
pub open spec fn records(text: Seq<char>) -> Seq<Seq<Seq<char>>> {
    let end = read_from(text, 0, unread());
    if end.content {
        with_record_end(end).done
    } else {
        end.done
    }
}

// ---- What is kept ----

/// Which records are kept: all, or `rows` of them from `start` on.
#[derive(Debug, Clone, Copy, PartialEq, Eq, Structural)]
pub struct Window {
    pub all: bool,
    pub start: usize,
    pub rows: usize,
}

/// The record with this number is kept.
pub open spec fn in_window(window: Window, index: nat) -> bool {
    window.all || (index >= window.start && index - window.start < window.rows)
}

/// A cell as it is kept: its first characters.
pub open spec fn kept_cell(cell: Seq<char>) -> Seq<char> {
    if cell.len() > MAX_TABLE_CELL_CHARS {
        cell.take(MAX_TABLE_CELL_CHARS as int)
    } else {
        cell
    }
}

/// The fields that are kept of a record: the first `limit`.
pub open spec fn kept_fields(fields: Seq<Seq<char>>, limit: usize) -> Seq<Seq<char>>
    decreases fields.len(),
{
    if fields.len() == 0 {
        Seq::empty()
    } else if fields.len() <= limit {
        kept_fields(fields.drop_last(), limit).push(kept_cell(fields.last()))
    } else {
        kept_fields(fields.drop_last(), limit)
    }
}

/// How many of the kept fields of a record lose characters.
pub open spec fn cut_fields(fields: Seq<Seq<char>>, limit: usize) -> nat
    decreases fields.len(),
{
    if fields.len() == 0 {
        0
    } else {
        cut_fields(fields.drop_last(), limit) + if fields.len() <= limit && fields.last().len()
            > MAX_TABLE_CELL_CHARS {
            1nat
        } else {
            0nat
        }
    }
}

/// The records that are kept.
pub open spec fn kept_rows(done: Seq<Seq<Seq<char>>>, window: Window, limit: usize) -> Seq<
    Seq<Seq<char>>,
>
    decreases done.len(),
{
    if done.len() == 0 {
        Seq::empty()
    } else {
        let before = kept_rows(done.drop_last(), window, limit);
        if in_window(window, (done.len() - 1) as nat) && kept_fields(done.last(), limit).len() > 0 {
            before.push(kept_fields(done.last(), limit))
        } else {
            before
        }
    }
}

/// The numbers of the records that are kept.
pub open spec fn kept_numbers(done: Seq<Seq<Seq<char>>>, window: Window, limit: usize) -> Seq<usize>
    decreases done.len(),
{
    if done.len() == 0 {
        Seq::empty()
    } else {
        let before = kept_numbers(done.drop_last(), window, limit);
        if in_window(window, (done.len() - 1) as nat) && kept_fields(done.last(), limit).len() > 0 {
            before.push((done.len() - 1) as usize)
        } else {
            before
        }
    }
}

/// How many cells of the kept records lose characters.
pub open spec fn cut_cells(done: Seq<Seq<Seq<char>>>, window: Window, limit: usize) -> nat
    decreases done.len(),
{
    if done.len() == 0 {
        0
    } else {
        cut_cells(done.drop_last(), window, limit) + if in_window(
            window,
            (done.len() - 1) as nat,
        ) {
            cut_fields(done.last(), limit)
        } else {
            0nat
        }
    }
}

/// The largest number of fields of a record.
pub open spec fn widest(done: Seq<Seq<Seq<char>>>) -> nat
    decreases done.len(),
{
    if done.len() == 0 {
        0
    } else {
        larger(widest(done.drop_last()), done.last().len())
    }
}

/// The larger of two numbers.
pub open spec fn larger(a: nat, b: nat) -> nat {
    if a >= b {
        a
    } else {
        b
    }
}

/// The rows of a table by characters.
pub open spec fn row_views(rows: Seq<Vec<String>>) -> Seq<Seq<Seq<char>>> {
    rows.map_values(|row: Vec<String>| views(row@))
}

// ---- Reading ----

/// What was read of a CSV text.
#[derive(Debug)]
pub struct CsvParseOutcome {
    /// The records that were asked for.
    pub rows: Vec<Vec<String>>,
    /// Their numbers.
    pub row_numbers: Vec<usize>,
    pub total_rows: usize,
    pub max_columns: usize,
    pub truncated_cells: usize,
}

/// Takes in a CSV text character by character. Of records that are not asked for, no text is kept.
struct CsvBuilder {
    rows: Vec<Vec<String>>,
    row_numbers: Vec<usize>,
    total_rows: usize,
    max_columns: usize,
    truncated_cells: usize,
    row: Vec<String>,
    field: String,
    field_started: bool,
    fields_in_row: usize,
    row_has_content: bool,
    in_quotes: bool,
    window: Window,
    column_limit: usize,
}

impl CsvBuilder {
    /// The builder has taken in what the reading holds.
    spec fn follows(self, reading: Reading) -> bool {
        let storing = in_window(self.window, reading.done.len());
        &&& self.total_rows == reading.done.len()
        &&& self.fields_in_row == reading.fields.len()
        &&& self.field_started == reading.started
        &&& self.row_has_content == reading.content
        &&& self.in_quotes == reading.quoted
        &&& self.max_columns == larger(widest(reading.done), reading.fields.len())
        &&& row_views(self.rows@) == kept_rows(reading.done, self.window, self.column_limit)
        &&& self.row_numbers@ == kept_numbers(reading.done, self.window, self.column_limit)
        &&& self.truncated_cells == cut_cells(reading.done, self.window, self.column_limit) + if storing {
            cut_fields(reading.fields, self.column_limit)
        } else {
            0
        }
        &&& views(self.row@) == if storing {
            kept_fields(reading.fields, self.column_limit)
        } else {
            Seq::empty()
        }
        &&& self.field@ == if storing {
            reading.field
        } else {
            Seq::empty()
        }
    }

    /// Which records the builder keeps.
    spec fn kept_window(self) -> Window {
        self.window
    }

    /// How many fields of a record the builder keeps.
    spec fn kept_columns(self) -> usize {
        self.column_limit
    }

    /// A builder that has taken in nothing; without a window it keeps every record.
    fn new(window: Option<(usize, usize)>, column_limit: usize) -> (builder: Self)
        ensures
            builder.follows(unread()),
            builder.kept_window() == window_of(window),
            builder.kept_columns() == column_limit,
    {
        let window = match window {
            Some((start, rows)) => Window { all: false, start, rows },
            None => Window { all: true, start: 0, rows: usize::MAX },
        };
        let builder = CsvBuilder {
            rows: Vec::new(),
            row_numbers: Vec::new(),
            total_rows: 0,
            max_columns: 0,
            truncated_cells: 0,
            row: Vec::new(),
            field: String::new(),
            field_started: false,
            fields_in_row: 0,
            row_has_content: false,
            in_quotes: false,
            window,
            column_limit,
        };
        assert(row_views(builder.rows@) =~= Seq::empty());
        assert(views(builder.row@) =~= Seq::empty());
        builder
    }

    /// Whether a quotation mark is open.
    fn in_quotes(&self, Ghost(reading): Ghost<Reading>) -> (found: bool)
        requires
            self.follows(reading),
        ensures
            found == reading.quoted,
    {
        self.in_quotes
    }

    /// Whether the field holds nothing.
    fn field_is_empty(&self, Ghost(reading): Ghost<Reading>) -> (found: bool)
        requires
            self.follows(reading),
        ensures
            found == !reading.started,
    {
        !self.field_started
    }

    /// Whether the record holds something.
    fn has_content(&self, Ghost(reading): Ghost<Reading>) -> (found: bool)
        requires
            self.follows(reading),
        ensures
            found == reading.content,
    {
        self.row_has_content
    }

    /// Whether the record is kept.
    fn storing(&self) -> (found: bool)
        ensures
            found == in_window(self.window, self.total_rows as nat),
    {
        self.window.all || (self.total_rows >= self.window.start && self.total_rows
            - self.window.start < self.window.rows)
    }

    /// Takes in an opening quotation mark.
    fn open_quotes(&mut self, Ghost(reading): Ghost<Reading>)
        requires
            old(self).follows(reading),
        ensures
            final(self).follows(with_open_quote(reading)),
            final(self).kept_window() == old(self).kept_window(),
            final(self).kept_columns() == old(self).kept_columns(),
    {
        self.in_quotes = true;
        self.row_has_content = true;
        self.field_started = true;
    }

    /// Takes in a closing quotation mark.
    fn close_quotes(&mut self, Ghost(reading): Ghost<Reading>)
        requires
            old(self).follows(reading),
        ensures
            final(self).follows(with_closed_quote(reading)),
            final(self).kept_window() == old(self).kept_window(),
            final(self).kept_columns() == old(self).kept_columns(),
    {
        self.in_quotes = false;
    }

    /// Takes in a character of the field.
    fn push_character(&mut self, c: char, Ghost(reading): Ghost<Reading>)
        requires
            old(self).follows(reading),
        ensures
            final(self).follows(with_char(reading, c)),
            final(self).kept_window() == old(self).kept_window(),
            final(self).kept_columns() == old(self).kept_columns(),
    {
        self.row_has_content = true;
        self.field_started = true;
        if self.storing() {
            self.field.push(c);
        }
    }

    /// Takes in the end of the field.
    fn end_field(&mut self, Ghost(reading): Ghost<Reading>)
        requires
            old(self).follows(reading),
            reading.fields.len() < usize::MAX,
            cut_cells(reading.done, old(self).kept_window(), old(self).kept_columns())
                + reading.fields.len() < usize::MAX,
        ensures
            final(self).follows(with_field_end(reading)),
            final(self).kept_window() == old(self).kept_window(),
            final(self).kept_columns() == old(self).kept_columns(),
    {
        let ghost next = with_field_end(reading);
        proof {
            assert(next.fields.drop_last() =~= reading.fields);
            lemma_cut_fields_bound(reading.fields, self.column_limit);
            lemma_kept_fields_length(reading.fields, self.column_limit);
        }
        self.row_has_content = true;
        self.fields_in_row = self.fields_in_row + 1;
        if self.fields_in_row > self.max_columns {
            self.max_columns = self.fields_in_row;
        }
        let mut value = String::new();
        std::mem::swap(&mut value, &mut self.field);
        if self.storing() && self.row.len() < self.column_limit {
            let ghost before = views(self.row@);
            let all = chars(value.as_str());
            if all.len() > MAX_TABLE_CELL_CHARS {
                self.truncated_cells = self.truncated_cells + 1;
                let cut = text_between(all.as_slice(), 0, MAX_TABLE_CELL_CHARS);
                assert(cut@ =~= kept_cell(reading.field));
                self.row.push(cut);
            } else {
                self.row.push(value);
            }
            assert(views(self.row@) =~= before.push(kept_cell(reading.field)));
        }
        self.field_started = false;
    }

    /// Takes in the end of the record.
    fn end_row(&mut self, Ghost(reading): Ghost<Reading>)
        requires
            old(self).follows(reading),
            reading.fields.len() < usize::MAX,
            reading.done.len() < usize::MAX,
            cut_cells(reading.done, old(self).kept_window(), old(self).kept_columns())
                + reading.fields.len() < usize::MAX,
        ensures
            final(self).follows(with_record_end(reading)),
            final(self).kept_window() == old(self).kept_window(),
            final(self).kept_columns() == old(self).kept_columns(),
    {
        if !self.row_has_content && !self.in_quotes && self.fields_in_row == 0 {
            self.reset_row();
            assert(views(self.row@) =~= Seq::empty());
            assert(self.field@ =~= Seq::empty());
            return;
        }
        let ghost fields = with_field_end(reading).fields;
        let ghost done = reading.done.push(fields);
        self.end_field(Ghost(reading));
        let stored = self.storing();
        let index: usize = self.total_rows;
        self.total_rows = index + 1;
        proof {
            assert(done.drop_last() =~= reading.done);
        }
        let mut row: Vec<String> = Vec::new();
        std::mem::swap(&mut row, &mut self.row);
        if stored && row.len() > 0 {
            let ghost before = row_views(self.rows@);
            let ghost added = views(row@);
            self.row_numbers.push(index);
            self.rows.push(row);
            assert(row_views(self.rows@) =~= before.push(added));
        }
        self.reset_row();
        assert(views(self.row@) =~= Seq::empty());
        assert(self.field@ =~= Seq::empty());
        assert(row_views(self.rows@) == kept_rows(done, self.window, self.column_limit));
    }

    /// Starts a record.
    fn reset_row(&mut self)
        ensures
            final(self).row@.len() == 0,
            final(self).field@.len() == 0,
            !final(self).field_started,
            final(self).fields_in_row == 0,
            !final(self).row_has_content,
            !final(self).in_quotes,
            final(self).rows == old(self).rows,
            final(self).row_numbers == old(self).row_numbers,
            final(self).total_rows == old(self).total_rows,
            final(self).max_columns == old(self).max_columns,
            final(self).truncated_cells == old(self).truncated_cells,
            final(self).window == old(self).window,
            final(self).column_limit == old(self).column_limit,
    {
        self.row = Vec::new();
        self.field = String::new();
        self.field_started = false;
        self.fields_in_row = 0;
        self.row_has_content = false;
        self.in_quotes = false;
    }

    /// What was read.
    fn finish(self, Ghost(reading): Ghost<Reading>) -> (parsed: CsvParseOutcome)
        requires
            self.follows(reading),
            reading.fields.len() == 0,
        ensures
            parsed_as(parsed, reading.done, self.kept_window(), self.kept_columns()),
    {
        CsvParseOutcome {
            rows: self.rows,
            row_numbers: self.row_numbers,
            total_rows: self.total_rows,
            max_columns: self.max_columns,
            truncated_cells: self.truncated_cells,
        }
    }
}

/// The records that are kept for a request.
pub open spec fn window_of(window: Option<(usize, usize)>) -> Window {
    match window {
        Some((start, rows)) => Window { all: false, start, rows },
        None => Window { all: true, start: 0, rows: usize::MAX },
    }
}

/// The outcome holds what is kept of these records.
pub open spec fn parsed_as(
    parsed: CsvParseOutcome,
    done: Seq<Seq<Seq<char>>>,
    window: Window,
    limit: usize,
) -> bool {
    &&& row_views(parsed.rows@) == kept_rows(done, window, limit)
    &&& parsed.row_numbers@ == kept_numbers(done, window, limit)
    &&& parsed.total_rows == done.len()
    &&& parsed.max_columns == widest(done)
    &&& parsed.truncated_cells == cut_cells(done, window, limit)
}

proof fn lemma_cut_fields_bound(fields: Seq<Seq<char>>, limit: usize)
    ensures
        cut_fields(fields, limit) <= fields.len(),
    decreases fields.len(),
{
    if fields.len() > 0 {
        lemma_cut_fields_bound(fields.drop_last(), limit);
    }
}

proof fn lemma_kept_fields_length(fields: Seq<Seq<char>>, limit: usize)
    ensures
        kept_fields(fields, limit).len() == (if fields.len() <= limit {
            fields.len()
        } else {
            limit as nat
        }),
    decreases fields.len(),
{
    if fields.len() > 0 {
        lemma_kept_fields_length(fields.drop_last(), limit);
    }
}

/// The number of fields in complete records.
spec fn field_count(done: Seq<Seq<Seq<char>>>) -> nat
    decreases done.len(),
{
    if done.len() == 0 {
        0
    } else {
        field_count(done.drop_last()) + done.last().len()
    }
}

proof fn lemma_cut_cells_bound(done: Seq<Seq<Seq<char>>>, window: Window, limit: usize)
    ensures
        cut_cells(done, window, limit) <= field_count(done),
    decreases done.len(),
{
    if done.len() > 0 {
        lemma_cut_cells_bound(done.drop_last(), window, limit);
        lemma_cut_fields_bound(done.last(), limit);
    }
}

/// Every field and record so far took a character to end it.
spec fn counted(reading: Reading, at: int) -> bool {
    &&& field_count(reading.done) + reading.fields.len() <= at
    &&& reading.done.len() <= field_count(reading.done)
}

proof fn lemma_field_end_counts(reading: Reading, at: int)
    requires
        counted(reading, at),
    ensures
        counted(with_field_end(reading), at + 1),
{
}

proof fn lemma_record_end_counts(reading: Reading, at: int)
    requires
        counted(reading, at),
    ensures
        counted(with_record_end(reading), at + 1),
{
    let fields = with_field_end(reading).fields;
    let done = reading.done.push(fields);
    assert(done.drop_last() =~= reading.done);
    assert(field_count(done) == field_count(reading.done) + fields.len());
}

/// Reads a CSV text. All records are counted; those in the window are kept, with their first
/// `column_limit` fields.
pub fn parse_csv_rows(text: &str, window: Option<(usize, usize)>, column_limit: usize) -> (parsed:
    CsvParseOutcome)
    requires
        text@.len() < usize::MAX,
    ensures
        parsed_as(parsed, records(text@), window_of(window), column_limit),
{
    let all = chars(text);
    let size: usize = all.len();
    let mut builder = CsvBuilder::new(window, column_limit);
    let ghost mut reading = unread();
    let mut i: usize = 0;
    while i < size
        invariant
            size == all@.len(),
            size < usize::MAX,
            all@ == text@,
            i <= size,
            builder.follows(reading),
            builder.kept_window() == window_of(window),
            builder.kept_columns() == column_limit,
            counted(reading, i as int),
            read_from(text@, i as int, reading) == read_from(text@, 0, unread()),
        decreases size - i,
    {
        let c = all[i];
        let before_line_feed = i + 1 < size && all[i + 1] == '\n';
        proof {
            lemma_cut_cells_bound(reading.done, window_of(window), column_limit);
        }
        if builder.in_quotes(Ghost(reading)) {
            if c == '"' {
                if i + 1 < size && all[i + 1] == '"' {
                    builder.push_character('"', Ghost(reading));
                    proof {
                        reading = with_char(reading, '"');
                    }
                    i = i + 2;
                } else {
                    builder.close_quotes(Ghost(reading));
                    proof {
                        reading = with_closed_quote(reading);
                    }
                    i = i + 1;
                }
            } else if c == '\r' {
                builder.push_character('\n', Ghost(reading));
                proof {
                    reading = with_char(reading, '\n');
                }
                i = if before_line_feed {
                    i + 2
                } else {
                    i + 1
                };
            } else {
                builder.push_character(c, Ghost(reading));
                proof {
                    reading = with_char(reading, c);
                }
                i = i + 1;
            }
        } else if c == '"' && builder.field_is_empty(Ghost(reading)) {
            builder.open_quotes(Ghost(reading));
            proof {
                reading = with_open_quote(reading);
            }
            i = i + 1;
        } else if c == ',' {
            builder.end_field(Ghost(reading));
            proof {
                lemma_field_end_counts(reading, i as int);
                reading = with_field_end(reading);
            }
            i = i + 1;
        } else if c == '\r' || c == '\n' {
            builder.end_row(Ghost(reading));
            proof {
                lemma_record_end_counts(reading, i as int);
                reading = with_record_end(reading);
            }
            i = if c == '\r' && before_line_feed {
                i + 2
            } else {
                i + 1
            };
        } else {
            builder.push_character(c, Ghost(reading));
            proof {
                reading = with_char(reading, c);
            }
            i = i + 1;
        }
    }
    proof {
        lemma_cut_cells_bound(reading.done, window_of(window), column_limit);
    }
    if builder.has_content(Ghost(reading)) {
        builder.end_row(Ghost(reading));
        proof {
            reading = with_record_end(reading);
        }
    } else {
        proof {
            lemma_no_content_no_fields(text@, 0, unread());
        }
    }
    builder.finish(Ghost(reading))
}

/// A record that holds nothing has no fields.
proof fn lemma_no_content_no_fields(text: Seq<char>, at: int, reading: Reading)
    requires
        !reading.content ==> reading.fields.len() == 0,
    ensures
        !read_from(text, at, reading).content ==> read_from(text, at, reading).fields.len() == 0,
    decreases text.len() - at,
{
    if 0 <= at < text.len() {
        let c = text[at];
        let behind = if at + 1 < text.len() {
            Some(text[at + 1])
        } else {
            None
        };
        let line_end = if behind == Some('\n') && at + 2 <= text.len() {
            at + 2
        } else {
            at + 1
        };
        if reading.quoted {
            if c == '"' {
                if behind == Some('"') {
                    lemma_no_content_no_fields(text, at + 2, with_char(reading, '"'));
                } else {
                    lemma_no_content_no_fields(text, at + 1, with_closed_quote(reading));
                }
            } else if c == '\r' {
                lemma_no_content_no_fields(text, line_end, with_char(reading, '\n'));
            } else {
                lemma_no_content_no_fields(text, at + 1, with_char(reading, c));
            }
        } else if c == '"' && !reading.started {
            lemma_no_content_no_fields(text, at + 1, with_open_quote(reading));
        } else if c == ',' {
            lemma_no_content_no_fields(text, at + 1, with_field_end(reading));
        } else if c == '\r' {
            lemma_no_content_no_fields(text, line_end, with_record_end(reading));
        } else if c == '\n' {
            lemma_no_content_no_fields(text, at + 1, with_record_end(reading));
        } else {
            lemma_no_content_no_fields(text, at + 1, with_char(reading, c));
        }
    }
}

/// What is lost of a table: that cells were cut.
pub fn csv_degradations(parsed: &CsvParseOutcome) -> (notes: Vec<String>)
    ensures
        views(notes@) == (if parsed.truncated_cells == 0 {
            Seq::empty()
        } else {
            seq![cut_note()]
        }),
{
    let mut notes: Vec<String> = Vec::new();
    if parsed.truncated_cells > 0 {
        notes.push(cut_cells_note());
    }
    assert(views(notes@) =~= (if parsed.truncated_cells == 0 {
        Seq::empty()
    } else {
        seq![cut_note()]
    }));
    notes
}

/// The note that cells were cut.
pub open spec fn cut_note() -> Seq<char> {
    "部分单元格文本超过 "@ + decimal(MAX_TABLE_CELL_CHARS as nat) + " 字符已截断。"@
}

/// The note that cells were cut.
pub fn cut_cells_note() -> (note: String)
    ensures
        note@ == cut_note(),
{
    let mut note = "部分单元格文本超过 ".to_owned();
    push_decimal(&mut note, MAX_TABLE_CELL_CHARS as u64);
    note.append(" 字符已截断。");
    note
}

// ---- Laws ----

/// Of a table, at most as many rows are kept as were asked for, each with at most the columns asked
/// for and cells within their limit; every kept row bears its number and none is kept twice.
pub proof fn kept_rows_are_bounded(done: Seq<Seq<Seq<char>>>, window: Window, limit: usize)
    requires
        done.len() <= usize::MAX,
    ensures
        kept_rows(done, window, limit).len() == kept_numbers(done, window, limit).len(),
        forall|i: int|
            0 <= i < kept_rows(done, window, limit).len() ==> (#[trigger] kept_rows(
                done,
                window,
                limit,
            )[i]).len() <= limit,
        forall|i: int|
            0 <= i < kept_numbers(done, window, limit).len() ==> in_window(
                window,
                (#[trigger] kept_numbers(done, window, limit)[i]) as nat,
            ) && kept_numbers(done, window, limit)[i] < done.len(),
        forall|i: int, j: int|
            0 <= i < j < kept_numbers(done, window, limit).len() ==> kept_numbers(
                done,
                window,
                limit,
            )[i] < kept_numbers(done, window, limit)[j],
        !window.all ==> kept_rows(done, window, limit).len() <= window.rows,
    decreases done.len(),
{
    if done.len() > 0 {
        let shorter = done.drop_last();
        kept_rows_are_bounded(shorter, window, limit);
        lemma_kept_fields_length(done.last(), limit);
        let before = kept_numbers(shorter, window, limit);
        let after = kept_numbers(done, window, limit);
        let rows_before = kept_rows(shorter, window, limit);
        let rows_after = kept_rows(done, window, limit);
        assert forall|i: int| 0 <= i < rows_after.len() implies (#[trigger] rows_after[i]).len()
            <= limit by {
            if i < rows_before.len() {
                assert(rows_after[i] == rows_before[i]);
            }
        }
        assert forall|i: int| 0 <= i < after.len() implies in_window(
            window,
            (#[trigger] after[i]) as nat,
        ) && after[i] < done.len() by {
            if i < before.len() {
                assert(after[i] == before[i]);
            }
        }
        if !window.all {
            lemma_increasing_numbers_fit(after, window);
        }
    }
}

proof fn lemma_increasing_numbers_fit(numbers: Seq<usize>, window: Window)
    requires
        !window.all,
        forall|i: int|
            0 <= i < numbers.len() ==> in_window(window, (#[trigger] numbers[i]) as nat),
        forall|i: int, j: int| 0 <= i < j < numbers.len() ==> numbers[i] < numbers[j],
    ensures
        numbers.len() <= window.rows,
        numbers.len() > 0 ==> numbers.last() >= window.start + numbers.len() - 1,
    decreases numbers.len(),
{
    if numbers.len() > 0 {
        let shorter = numbers.drop_last();
        assert forall|i: int| 0 <= i < shorter.len() implies in_window(
            window,
            (#[trigger] shorter[i]) as nat,
        ) by {
            assert(in_window(window, numbers[i] as nat));
        }
        lemma_increasing_numbers_fit(shorter, window);
        assert(in_window(window, numbers[numbers.len() - 1] as nat));
        if shorter.len() > 0 {
            assert(numbers[numbers.len() - 2] < numbers[numbers.len() - 1]);
        }
    }
}

/// A window selects rows of a text and changes nothing else: the rows are those that the whole text
/// has from the first to the last that is asked for, and the counts are those of the whole text.
pub proof fn windows_select_rows(
    text: Seq<char>,
    start: usize,
    rows: usize,
    limit: usize,
    whole: CsvParseOutcome,
    part: CsvParseOutcome,
)
    requires
        limit >= 1,
        parsed_as(whole, records(text), window_of(None), limit),
        parsed_as(part, records(text), window_of(Some((start, rows))), limit),
    ensures
        ({
            let first = smaller(start as int, whole.total_rows as int);
            let end = smaller(start + rows, whole.total_rows as int);
            &&& row_views(part.rows@) == row_views(whole.rows@).subrange(first, end)
            &&& part.row_numbers@ == Seq::new(
                (end - first) as nat,
                |i: int| (first + i) as usize,
            )
        }),
        part.total_rows == whole.total_rows,
        whole.total_rows == whole.rows@.len(),
        part.max_columns == whole.max_columns,
{
    let done = records(text);
    lemma_records_hold_fields(text);
    lemma_window_selects(done, start, rows, limit);
    assert(row_views(whole.rows@).len() == whole.rows@.len());
}

/// The smaller of two numbers.
pub open spec fn smaller(a: int, b: int) -> int {
    if a <= b {
        a
    } else {
        b
    }
}

/// Every record has a field.
spec fn all_hold_fields(done: Seq<Seq<Seq<char>>>) -> bool {
    forall|i: int| 0 <= i < done.len() ==> (#[trigger] done[i]).len() > 0
}

proof fn lemma_records_hold_fields(text: Seq<char>)
    ensures
        all_hold_fields(records(text)),
{
    lemma_reading_holds_fields(text, 0, unread());
}

proof fn lemma_reading_holds_fields(text: Seq<char>, at: int, reading: Reading)
    requires
        all_hold_fields(reading.done),
    ensures
        all_hold_fields(read_from(text, at, reading).done),
    decreases text.len() - at,
{
    if 0 <= at < text.len() {
        let c = text[at];
        let behind = if at + 1 < text.len() {
            Some(text[at + 1])
        } else {
            None
        };
        let line_end = if behind == Some('\n') && at + 2 <= text.len() {
            at + 2
        } else {
            at + 1
        };
        if reading.quoted {
            if c == '"' {
                if behind == Some('"') {
                    lemma_reading_holds_fields(text, at + 2, with_char(reading, '"'));
                } else {
                    lemma_reading_holds_fields(text, at + 1, with_closed_quote(reading));
                }
            } else if c == '\r' {
                lemma_reading_holds_fields(text, line_end, with_char(reading, '\n'));
            } else {
                lemma_reading_holds_fields(text, at + 1, with_char(reading, c));
            }
        } else if c == '"' && !reading.started {
            lemma_reading_holds_fields(text, at + 1, with_open_quote(reading));
        } else if c == ',' {
            lemma_reading_holds_fields(text, at + 1, with_field_end(reading));
        } else if c == '\r' {
            lemma_reading_holds_fields(text, line_end, with_record_end(reading));
        } else if c == '\n' {
            lemma_reading_holds_fields(text, at + 1, with_record_end(reading));
        } else {
            lemma_reading_holds_fields(text, at + 1, with_char(reading, c));
        }
    }
}

proof fn lemma_window_selects(done: Seq<Seq<Seq<char>>>, start: usize, rows: usize, limit: usize)
    requires
        limit >= 1,
        all_hold_fields(done),
    ensures
        ({
            let whole = kept_rows(done, window_of(None), limit);
            let first = smaller(start as int, done.len() as int);
            let end = smaller(start + rows, done.len() as int);
            &&& whole.len() == done.len()
            &&& kept_rows(done, window_of(Some((start, rows))), limit) == whole.subrange(first, end)
            &&& kept_numbers(done, window_of(Some((start, rows))), limit) == Seq::new(
                (end - first) as nat,
                |i: int| (first + i) as usize,
            )
        }),
    decreases done.len(),
{
    let part = window_of(Some((start, rows)));
    let whole = kept_rows(done, window_of(None), limit);
    let first = smaller(start as int, done.len() as int);
    let end = smaller(start + rows, done.len() as int);
    if done.len() == 0 {
        assert(kept_rows(done, part, limit) =~= whole.subrange(first, end));
        assert(kept_numbers(done, part, limit) =~= Seq::new(
            (end - first) as nat,
            |i: int| (first + i) as usize,
        ));
    } else {
        let shorter = done.drop_last();
        assert(all_hold_fields(shorter)) by {
            assert forall|i: int| 0 <= i < shorter.len() implies (#[trigger] shorter[i]).len() > 0 by {
                assert(done[i].len() > 0);
            }
        }
        lemma_window_selects(shorter, start, rows, limit);
        assert(done[done.len() - 1].len() > 0);
        lemma_kept_fields_length(done.last(), limit);
        assert(kept_rows(done, part, limit) =~= whole.subrange(first, end));
        assert(kept_numbers(done, part, limit) =~= Seq::new(
            (end - first) as nat,
            |i: int| (first + i) as usize,
        ));
    }
}

/// A field as it is written: between quotation marks or bare.
#[verifier::ext_equal]
pub struct WrittenField {
    pub text: Seq<char>,
    pub quoted: bool,
}

/// A line as it is written: its fields, none for a blank line, and what ends it.
#[verifier::ext_equal]
pub struct WrittenLine {
    pub fields: Seq<WrittenField>,
    pub end: Seq<char>,
}

/// The text with each quotation mark twice.
pub open spec fn marks_doubled(text: Seq<char>) -> Seq<char>
    decreases text.len(),
{
    if text.len() == 0 {
        Seq::empty()
    } else if text[0] == '"' {
        seq!['"', '"'] + marks_doubled(text.skip(1))
    } else {
        seq![text[0]] + marks_doubled(text.skip(1))
    }
}

/// The text with every line end as LF.
pub open spec fn line_ends_unified(text: Seq<char>) -> Seq<char>
    decreases text.len(),
{
    if text.len() == 0 {
        Seq::empty()
    } else if text[0] == '\r' && text.len() > 1 && text[1] == '\n' {
        seq!['\n'] + line_ends_unified(text.skip(2))
    } else if text[0] == '\r' {
        seq!['\n'] + line_ends_unified(text.skip(1))
    } else {
        seq![text[0]] + line_ends_unified(text.skip(1))
    }
}

/// The characters of a field in a CSV text.
pub open spec fn field_characters(field: WrittenField) -> Seq<char> {
    if field.quoted {
        seq!['"'] + (marks_doubled(field.text) + (seq!['"']))
    } else {
        field.text
    }
}

/// The characters of fields in a CSV text, with commas between them.
pub open spec fn fields_characters(fields: Seq<WrittenField>) -> Seq<char>
    decreases fields.len(),
{
    if fields.len() == 0 {
        Seq::empty()
    } else if fields.len() == 1 {
        field_characters(fields[0])
    } else {
        field_characters(fields[0]) + (seq![','] + fields_characters(fields.skip(1)))
    }
}

/// The characters of lines in a CSV text.
pub open spec fn lines_characters(lines: Seq<WrittenLine>) -> Seq<char>
    decreases lines.len(),
{
    if lines.len() == 0 {
        Seq::empty()
    } else {
        fields_characters(lines[0].fields) + (lines[0].end + lines_characters(lines.skip(1)))
    }
}

/// What a field holds.
pub open spec fn field_value(field: WrittenField) -> Seq<char> {
    if field.quoted {
        line_ends_unified(field.text)
    } else {
        field.text
    }
}

/// What the fields hold.
pub open spec fn field_values(fields: Seq<WrittenField>) -> Seq<Seq<char>> {
    Seq::new(fields.len(), |i: int| field_value(fields[i]))
}

/// What the lines hold that are not blank.
pub open spec fn line_values(lines: Seq<WrittenLine>) -> Seq<Seq<Seq<char>>>
    decreases lines.len(),
{
    if lines.len() == 0 {
        Seq::empty()
    } else if lines[0].fields.len() == 0 {
        line_values(lines.skip(1))
    } else {
        seq![field_values(lines[0].fields)] + line_values(lines.skip(1))
    }
}

/// A bare field holds no comma and no line end and does not open with a quotation mark.
pub open spec fn well_written_field(field: WrittenField) -> bool {
    !field.quoted ==> {
        &&& field.text.len() > 0 ==> field.text[0] != '"'
        &&& forall|i: int|
            0 <= i < field.text.len() ==> (#[trigger] field.text[i]) != ',' && field.text[i] != '\r'
                && field.text[i] != '\n'
    }
}

/// A line that holds a single field shows it.
pub open spec fn well_written_line(line: WrittenLine) -> bool {
    &&& forall|i: int| 0 <= i < line.fields.len() ==> well_written_field(#[trigger] line.fields[i])
    &&& line.fields.len() == 1 ==> line.fields[0].quoted || line.fields[0].text.len() > 0
}

/// Every line ends with LF, CR or CRLF, the last one perhaps with nothing. A blank line that ends with
/// LF does not follow a line that ends with CR: together these are one line end.
pub open spec fn well_written(lines: Seq<WrittenLine>) -> bool {
    &&& forall|i: int| 0 <= i < lines.len() ==> well_written_line(#[trigger] lines[i])
    &&& forall|i: int|
        0 <= i < lines.len() ==> ((#[trigger] lines[i]).end == seq!['\n'] || lines[i].end == seq!['\r']
            || lines[i].end == seq!['\r', '\n'] || (i == lines.len() - 1 && lines[i].end.len() == 0))
    &&& forall|i: int, j: int|
        0 <= i < lines.len() && j == i + 1 && j < lines.len() && (#[trigger] lines[i]).end == seq!['\r']
            && (#[trigger] lines[j]).fields.len() == 0 ==> lines[j].end != seq!['\n']
}

proof fn lemma_read_the_rest(text: Seq<char>, at: int, from: int, reading: Reading)
    requires
        0 <= at <= text.len(),
        0 <= from,
    ensures
        read_from(text, at + from, reading) == read_from(text.skip(at), from, reading),
    decreases text.len() - at - from,
{
    let rest = text.skip(at);
    if at + from < text.len() {
        assert(rest[from] == text[at + from]);
        if at + from + 1 < text.len() {
            assert(rest[from + 1] == text[at + from + 1]);
        }
        let c = text[at + from];
        let behind = if at + from + 1 < text.len() {
            Some(text[at + from + 1])
        } else {
            None
        };
        let step: int = if reading.quoted && c == '"' && behind == Some('"') || c == '\r' && behind == Some(
            '\n',
        ) {
            2
        } else {
            1
        };
        let behind_it = if reading.quoted {
            if c == '"' {
                if behind == Some('"') {
                    with_char(reading, '"')
                } else {
                    with_closed_quote(reading)
                }
            } else if c == '\r' {
                with_char(reading, '\n')
            } else {
                with_char(reading, c)
            }
        } else if c == '"' && !reading.started {
            with_open_quote(reading)
        } else if c == ',' {
            with_field_end(reading)
        } else if c == '\r' || c == '\n' {
            with_record_end(reading)
        } else {
            with_char(reading, c)
        };
        lemma_read_the_rest(text, at, from + step, behind_it);
    }
}

/// A bare field adds its characters.
proof fn lemma_read_bare(field: Seq<char>, rest: Seq<char>, reading: Reading)
    requires
        !reading.quoted,
        field.len() > 0 ==> reading.started || field[0] != '"',
        forall|i: int|
            0 <= i < field.len() ==> (#[trigger] field[i]) != ',' && field[i] != '\r' && field[i] != '\n',
    ensures
        read_from(field + rest, 0, reading) == read_from(
            rest,
            0,
            if field.len() == 0 {
                reading
            } else {
                Reading { field: reading.field + field, started: true, content: true, ..reading }
            },
        ),
    decreases field.len(),
{
    let text = field + rest;
    if field.len() == 0 {
        assert(text =~= rest);
    } else {
        let next = with_char(reading, field[0]);
        let shorter = field.skip(1);
        lemma_read_the_rest(text, 1, 0, next);
        assert(text.skip(1) =~= shorter + rest);
        assert forall|i: int| 0 <= i < shorter.len() implies (#[trigger] shorter[i]) != ',' && shorter[i]
            != '\r' && shorter[i] != '\n' by {
            assert(shorter[i] == field[i + 1]);
        }
        lemma_read_bare(shorter, rest, next);
        assert(next.field + shorter =~= reading.field + field);
        if shorter.len() == 0 {
            assert(next.field =~= reading.field + field);
        }
    }
}

/// What stands between quotation marks is read up to the closing one.
proof fn lemma_read_quoted(inside: Seq<char>, rest: Seq<char>, reading: Reading)
    requires
        reading.quoted,
        reading.started,
        reading.content,
        rest.len() == 0 || rest[0] != '"',
    ensures
        read_from(marks_doubled(inside) + (seq!['"'] + rest), 0, reading) == read_from(
            rest,
            0,
            Reading { field: reading.field + line_ends_unified(inside), quoted: false, ..reading },
        ),
    decreases inside.len(),
{
    let text = marks_doubled(inside) + (seq!['"'] + rest);
    let last = Reading { field: reading.field + line_ends_unified(inside), quoted: false, ..reading };
    if inside.len() == 0 {
        assert(text =~= seq!['"'] + rest);
        lemma_read_the_rest(text, 1, 0, with_closed_quote(reading));
        assert(text.skip(1) =~= rest);
        assert(reading.field + line_ends_unified(inside) =~= reading.field);
    } else {
        let c = inside[0];
        let crlf = c == '\r' && inside.len() > 1 && inside[1] == '\n';
        let taken: int = if crlf {
            2
        } else {
            1
        };
        let steps: int = if crlf || c == '"' {
            2
        } else {
            1
        };
        let behind = inside.skip(taken);
        let next = with_char(
            reading,
            if c == '\r' {
                '\n'
            } else {
                c
            },
        );
        assert(text[0] == c);
        if crlf {
            assert(inside.skip(1)[0] == '\n');
            assert(inside.skip(1).skip(1) =~= inside.skip(2));
            reveal_with_fuel(marks_doubled, 3);
            assert(text[1] == '\n');
        } else if c == '\r' {
            reveal_with_fuel(marks_doubled, 2);
            if inside.len() > 1 {
                assert(inside.skip(1)[0] == inside[1]);
                assert(text[1] == inside[1]);
            } else {
                assert(text[1] == '"');
            }
        } else if c == '"' {
            assert(text[1] == '"');
        }
        assert(text.skip(steps) =~= marks_doubled(behind) + (seq!['"'] + rest));
        assert(read_from(text, 0, reading) == read_from(text, steps, next));
        lemma_read_the_rest(text, steps, 0, next);
        lemma_read_quoted(behind, rest, next);
        assert(next.field + line_ends_unified(behind) =~= reading.field + line_ends_unified(inside));
    }
}

/// The text goes on with the end of a field, or it ends.
spec fn field_ends(rest: Seq<char>) -> bool {
    rest.len() == 0 || rest[0] == ',' || rest[0] == '\r' || rest[0] == '\n'
}

/// The reading after a field.
spec fn with_written_field(reading: Reading, field: WrittenField) -> Reading {
    let shown = field.quoted || field.text.len() > 0;
    Reading { field: field_value(field), started: shown, content: reading.content || shown, ..reading }
}

proof fn lemma_read_field(field: WrittenField, rest: Seq<char>, reading: Reading)
    requires
        well_written_field(field),
        field_ends(rest),
        !reading.quoted,
        !reading.started,
        reading.field.len() == 0,
    ensures
        read_from(field_characters(field) + rest, 0, reading) == read_from(
            rest,
            0,
            with_written_field(reading, field),
        ),
{
    let text = field_characters(field) + rest;
    if field.quoted {
        let next = with_open_quote(reading);
        assert(text[0] == '"');
        lemma_read_the_rest(text, 1, 0, next);
        assert(text.skip(1) =~= marks_doubled(field.text) + (seq!['"'] + rest));
        lemma_read_quoted(field.text, rest, next);
        assert(next.field + line_ends_unified(field.text) =~= field_value(field));
    } else {
        lemma_read_bare(field.text, rest, reading);
        assert(reading.field + field.text =~= field.text);
        assert(reading.field =~= Seq::empty());
        if field.text.len() == 0 {
            assert(reading.field =~= field_value(field));
        }
    }
}

/// The reading after the fields of a record.
spec fn with_written_fields(reading: Reading, fields: Seq<WrittenField>) -> Reading {
    let last = fields.last();
    let shown = last.quoted || last.text.len() > 0;
    Reading {
        fields: reading.fields + field_values(fields.drop_last()),
        field: field_value(last),
        started: shown,
        content: reading.content || shown || fields.len() > 1,
        ..reading
    }
}

proof fn lemma_read_fields(fields: Seq<WrittenField>, rest: Seq<char>, reading: Reading)
    requires
        fields.len() > 0,
        forall|i: int| 0 <= i < fields.len() ==> well_written_field(#[trigger] fields[i]),
        rest.len() == 0 || rest[0] == '\r' || rest[0] == '\n',
        !reading.quoted,
        !reading.started,
        reading.field.len() == 0,
    ensures
        read_from(fields_characters(fields) + rest, 0, reading) == read_from(
            rest,
            0,
            with_written_fields(reading, fields),
        ),
    decreases fields.len(),
{
    let text = fields_characters(fields) + rest;
    let first = fields[0];
    assert(well_written_field(first));
    if fields.len() == 1 {
        lemma_read_field(first, rest, reading);
        assert(reading.fields + field_values(fields.drop_last()) =~= reading.fields);
    } else {
        let others = fields.skip(1);
        let behind = seq![','] + (fields_characters(others) + rest);
        assert(text =~= field_characters(first) + behind);
        lemma_read_field(first, behind, reading);
        let after_first = with_written_field(reading, first);
        let next = with_field_end(after_first);
        assert(behind[0] == ',');
        lemma_read_the_rest(behind, 1, 0, next);
        assert(behind.skip(1) =~= fields_characters(others) + rest);
        assert forall|i: int| 0 <= i < others.len() implies well_written_field(#[trigger] others[i]) by {
            assert(others[i] == fields[i + 1]);
        }
        lemma_read_fields(others, rest, next);
        assert(others.last() == fields.last());
        assert(next.fields + field_values(others.drop_last()) =~= reading.fields + field_values(
            fields.drop_last(),
        ));
        assert(with_written_fields(next, others) =~= with_written_fields(reading, fields));
    }
}

/// Fields that are shown open with no LF.
proof fn lemma_fields_open_a_line(fields: Seq<WrittenField>)
    requires
        fields.len() > 0,
        well_written_field(fields[0]),
        fields.len() == 1 ==> fields[0].quoted || fields[0].text.len() > 0,
    ensures
        fields_characters(fields).len() > 0,
        fields_characters(fields)[0] != '\n',
{
    let first = fields[0];
    if first.quoted {
        assert(field_characters(first)[0] == '"');
    } else if first.text.len() > 0 {
        assert(first.text[0] != '\n');
    }
}

/// The records when the text ends here.
spec fn records_at_end(reading: Reading) -> Seq<Seq<Seq<char>>> {
    if reading.content {
        with_record_end(reading).done
    } else {
        reading.done
    }
}

proof fn lemma_read_lines(lines: Seq<WrittenLine>, done: Seq<Seq<Seq<char>>>)
    requires
        well_written(lines),
    ensures
        records_at_end(read_from(lines_characters(lines), 0, with_new_record(done))) == done
            + line_values(lines),
    decreases lines.len(),
{
    let start = with_new_record(done);
    let text = lines_characters(lines);
    if lines.len() == 0 {
        assert(done + line_values(lines) =~= done);
    } else {
        let line = lines[0];
        let others = lines.skip(1);
        let others_text = lines_characters(others);
        let rest = line.end + others_text;
        assert(well_written_line(line));
        assert(well_written(others)) by {
            assert forall|i: int| 0 <= i < others.len() implies well_written_line(#[trigger] others[i]) by {
                assert(others[i] == lines[i + 1]);
            }
            assert forall|i: int| 0 <= i < others.len() implies ((#[trigger] others[i]).end == seq!['\n']
                || others[i].end == seq!['\r'] || others[i].end == seq!['\r', '\n'] || (i == others.len()
                - 1 && others[i].end.len() == 0)) by {
                assert(others[i] == lines[i + 1]);
            }
            assert forall|i: int, j: int|
                0 <= i < others.len() && j == i + 1 && j < others.len() && (#[trigger] others[i]).end
                    == seq!['\r'] && (#[trigger] others[j]).fields.len() == 0 implies others[j].end
                != seq!['\n'] by {
                assert(others[i] == lines[i + 1]);
                assert(others[j] == lines[j + 1]);
            }
        }
        let read = if line.fields.len() == 0 {
            start
        } else {
            with_written_fields(start, line.fields)
        };
        if line.fields.len() == 0 {
            assert(text =~= rest);
        } else {
            if line.end.len() > 0 {
                assert(rest[0] == line.end[0]);
            } else {
                assert(others.len() == 0);
                assert(rest =~= Seq::empty());
            }
            lemma_read_fields(line.fields, rest, start);
            assert(start.fields + field_values(line.fields.drop_last()) =~= field_values(
                line.fields.drop_last(),
            ));
            assert(with_field_end(read).fields =~= field_values(line.fields));
            assert(read.content);
        }
        assert(read_from(text, 0, start) == read_from(rest, 0, read));
        let so_far = if line.fields.len() == 0 {
            done
        } else {
            done.push(field_values(line.fields))
        };
        assert(with_record_end(read) == with_new_record(so_far));
        assert(so_far + line_values(others) =~= done + line_values(lines));
        if line.end.len() == 0 {
            assert(others.len() == 0);
            assert(rest =~= Seq::empty());
            assert(so_far + line_values(others) =~= so_far);
        } else {
            let steps: int = line.end.len() as int;
            assert(rest[0] == line.end[0]);
            if line.end == seq!['\r'] && others.len() > 0 {
                let second = others[0];
                assert(second == lines[1]);
                assert(lines[0].end == seq!['\r']);
                assert(well_written_line(second));
                if second.fields.len() > 0 {
                    assert(well_written_field(second.fields[0]));
                    lemma_fields_open_a_line(second.fields);
                    assert(others_text[0] == fields_characters(second.fields)[0]);
                } else {
                    assert(others_text =~= second.end + lines_characters(others.skip(1)));
                    if second.end.len() > 0 {
                        assert(others_text[0] == second.end[0]);
                        assert(second.end[0] == '\r');
                    } else {
                        assert(others.skip(1).len() == 0);
                    }
                }
                assert(others_text.len() > 0 ==> others_text[0] != '\n');
                if others_text.len() > 0 {
                    assert(rest[1] == others_text[0]);
                }
            }
            if line.end == seq!['\r', '\n'] {
                assert(rest[1] == '\n');
            }
            assert(read_from(rest, 0, read) == read_from(rest, steps, with_new_record(so_far)));
            lemma_read_the_rest(rest, steps, 0, with_new_record(so_far));
            assert(rest.skip(steps) =~= others_text);
            lemma_read_lines(others, so_far);
        }
    }
}

/// Whatever fields are written, quoted or bare and empty ones among them, joined by commas and with
/// a line end for each record, are read back as they are; blank lines are no records, and the last
/// line end may be missing. A line end inside quotation marks is read as LF.
pub proof fn written_records_read_back(lines: Seq<WrittenLine>)
    requires
        well_written(lines),
    ensures
        records(lines_characters(lines)) == line_values(lines),
{
    lemma_read_lines(lines, Seq::empty());
    assert(with_new_record(Seq::empty()) == unread());
    assert(Seq::<Seq<Seq<char>>>::empty() + line_values(lines) =~= line_values(lines));
}

/// A field without CR is read back unchanged.
pub proof fn fields_without_returns_keep_every_character(field: WrittenField)
    requires
        !field.text.contains('\r'),
    ensures
        field_value(field) == field.text,
    decreases field.text.len(),
{
    let text = field.text;
    if text.len() > 0 {
        let rest = text.skip(1);
        assert(text[0] != '\r');
        assert forall|i: int| 0 <= i < rest.len() implies (#[trigger] rest[i]) != '\r' by {
            assert(rest[i] == text[i + 1]);
        }
        fields_without_returns_keep_every_character(WrittenField { text: rest, ..field });
        assert(seq![text[0]] + rest =~= text);
        assert(field_value(field) =~= text);
    }
}

proof fn lemma_plain_line_is_joined(text: Seq<char>, reading: Reading)
    requires
        forall|i: int|
            0 <= i < text.len() ==> (#[trigger] text[i]) != '"' && text[i] != '\r' && text[i] != '\n',
        !reading.quoted,
    ensures
        ({
            let end = read_from(text, 0, reading);
            &&& !end.quoted
            &&& end.done == reading.done
            &&& end.content == (reading.content || text.len() > 0)
            &&& join(end.fields.push(end.field), seq![',']) == join(
                reading.fields.push(reading.field),
                seq![','],
            ) + text
            &&& forall|i: int|
                0 <= i < end.fields.push(end.field).len() && i >= reading.fields.len() + 1
                    ==> !(#[trigger] end.fields.push(end.field)[i]).contains(',')
            &&& end.fields.len() >= reading.fields.len()
            &&& end.fields.take(reading.fields.len() as int) == reading.fields
            &&& !reading.field.contains(',') ==> !end.fields.push(
                end.field,
            )[reading.fields.len() as int].contains(',')
        }),
    decreases text.len(),
{
    let end = read_from(text, 0, reading);
    let before_it = reading.fields.push(reading.field);
    if text.len() > 0 {
        let c = text[0];
        let next = if c == ',' {
            with_field_end(reading)
        } else {
            with_char(reading, c)
        };
        let rest = text.skip(1);
        assert forall|i: int| 0 <= i < rest.len() implies (#[trigger] rest[i]) != '"' && rest[i] != '\r'
            && rest[i] != '\n' by {
            assert(rest[i] == text[i + 1]);
        }
        assert(read_from(text, 0, reading) == read_from(text, 1, next));
        lemma_read_the_rest(text, 1, 0, next);
        lemma_plain_line_is_joined(rest, next);
        let behind_it = next.fields.push(next.field);
        let comma = seq![','];
        assert(before_it.drop_last() =~= reading.fields);
        assert(behind_it.drop_last() =~= next.fields);
        if c == ',' {
            assert(behind_it.last() =~= Seq::empty());
            assert(join(behind_it, comma) =~= join(before_it, comma) + comma);
            assert(join(behind_it, comma) + rest =~= join(before_it, comma) + text);
            let whole = end.fields.push(end.field);
            assert(end.fields.take(reading.fields.len() as int) =~= end.fields.take(
                next.fields.len() as int,
            ).take(reading.fields.len() as int));
            assert(next.fields.take(reading.fields.len() as int) =~= reading.fields);
            assert(end.fields[reading.fields.len() as int] == end.fields.take(
                next.fields.len() as int,
            )[reading.fields.len() as int]);
            assert(!next.field.contains(','));
            assert forall|i: int| 0 <= i < whole.len() && i >= reading.fields.len() + 1 implies !(
            #[trigger] whole[i]).contains(',') by {
                if i == next.fields.len() {
                } else {
                    assert(i >= next.fields.len() + 1);
                }
            }
        } else {
            assert(join(behind_it, comma) =~= join(before_it, comma) + seq![c]);
            assert(join(behind_it, comma) + rest =~= join(before_it, comma) + text);
            if !reading.field.contains(',') {
                assert forall|i: int| 0 <= i < next.field.len() implies (#[trigger] next.field[i]) != ',' by {
                    if i < reading.field.len() {
                        assert(next.field[i] == reading.field[i]);
                    }
                }
            }
        }
    } else {
        assert(join(before_it, seq![',']) + text =~= join(before_it, seq![',']));
        assert(end.fields.take(reading.fields.len() as int) =~= reading.fields);
    }
}

/// A line without quotation marks is one record: its fields hold no comma, and with commas between
/// them they are the line again.
pub proof fn plain_lines_are_split_at_commas(line: Seq<char>)
    requires
        line.len() > 0,
        forall|i: int|
            0 <= i < line.len() ==> (#[trigger] line[i]) != '"' && line[i] != '\r' && line[i] != '\n',
    ensures
        records(line).len() == 1,
        join(records(line)[0], seq![',']) == line,
        forall|i: int| 0 <= i < records(line)[0].len() ==> !(#[trigger] records(line)[0][i]).contains(','),
{
    lemma_plain_line_is_joined(line, unread());
    let end = read_from(line, 0, unread());
    let fields = end.fields.push(end.field);
    assert(records(line) =~= seq![fields]);
    assert(unread().fields.push(unread().field).len() == 1);
    assert(join(unread().fields.push(unread().field), seq![',']) =~= Seq::empty());
    assert(Seq::empty() + line =~= line);
    assert forall|i: int| 0 <= i < fields.len() implies !(#[trigger] fields[i]).contains(',') by {
        if i == 0 {
            assert(unread().fields.len() == 0);
        }
    }
}

/// Every record has a field.
pub proof fn every_record_has_a_field(text: Seq<char>)
    ensures
        forall|i: int| 0 <= i < records(text).len() ==> (#[trigger] records(text)[i]).len() > 0,
{
    lemma_records_hold_fields(text);
}

/// The bytes begin with these.
pub open spec fn begins(bytes: Seq<u8>, start: Seq<u8>) -> bool {
    bytes.len() >= start.len() && forall|i: int| 0 <= i < start.len() ==> bytes[i] == #[trigger] start[i]
}

proof fn lemma_begins_is_opening(bytes: Seq<u8>, start: Seq<u8>)
    ensures
        begins(bytes, start) == opens_with(bytes, start),
{
    if bytes.len() >= start.len() {
        let first = bytes.subrange(0, start.len() as int);
        if opens_with(bytes, start) {
            assert forall|i: int| 0 <= i < start.len() implies bytes[i] == #[trigger] start[i] by {
                assert(first[i] == bytes[i]);
            }
        }
        if begins(bytes, start) {
            assert(first =~= start);
        }
    }
}

/// A file of UTF-8 is read as the text that it encodes, with a mark of UTF-8 before it or not, unless
/// it holds a zero or is an archive.
pub proof fn encoded_texts_are_read_back(text: Seq<char>)
    requires
        !vstd::utf8::encode_utf8(text).contains(0u8),
        !begins(vstd::utf8::encode_utf8(text), seq![0xefu8, 0xbb, 0xbf]),
        !begins(vstd::utf8::encode_utf8(text), seq![0xffu8, 0xfe]),
        !begins(vstd::utf8::encode_utf8(text), seq![0xfeu8, 0xff]),
        !begins(vstd::utf8::encode_utf8(text), seq![0x50u8, 0x4b, 0x03, 0x04]),
    ensures
        csv_text(vstd::utf8::encode_utf8(text)) == Ok::<_, Failure>((text, false)),
        csv_text(seq![0xefu8, 0xbb, 0xbf] + vstd::utf8::encode_utf8(text)) == Ok::<_, Failure>(
            (text, true),
        ),
{
    let bytes = vstd::utf8::encode_utf8(text);
    let marked = seq![0xefu8, 0xbb, 0xbf] + bytes;
    vstd::utf8::encode_utf8_valid_utf8(text);
    vstd::utf8::encode_utf8_decode_utf8(text);
    assert(crate::archive::local_mark() =~= seq![0x50u8, 0x4b, 0x03, 0x04]);
    lemma_begins_is_opening(bytes, seq![0xefu8, 0xbb, 0xbf]);
    lemma_begins_is_opening(bytes, seq![0xffu8, 0xfe]);
    lemma_begins_is_opening(bytes, seq![0xfeu8, 0xff]);
    lemma_begins_is_opening(bytes, seq![0x50u8, 0x4b, 0x03, 0x04]);
    lemma_begins_is_opening(marked, seq![0xefu8, 0xbb, 0xbf]);
    lemma_begins_is_opening(marked, seq![0xffu8, 0xfe]);
    lemma_begins_is_opening(marked, seq![0xfeu8, 0xff]);
    lemma_begins_is_opening(marked, seq![0x50u8, 0x4b, 0x03, 0x04]);
    assert(marked[0] == 0xef && marked[1] == 0xbb && marked[2] == 0xbf);
    assert(seq![0xffu8, 0xfe][0] == 0xff && seq![0xfeu8, 0xff][0] == 0xfe);
    assert(seq![0x50u8, 0x4b, 0x03, 0x04][0] == 0x50);
    assert(begins(marked, seq![0xefu8, 0xbb, 0xbf]));
    assert(marked.skip(3) =~= bytes);
}

/// Nothing is guessed of a file that is not UTF-8: one with a zero, in UTF-16, with bytes that are no
/// UTF-8, or that is an archive, is refused.
pub proof fn other_encodings_are_refused(bytes: Seq<u8>)
    requires
        begins(bytes, seq![0xffu8, 0xfe]) || begins(bytes, seq![0xfeu8, 0xff]) || begins(
            bytes,
            seq![0x50u8, 0x4b, 0x03, 0x04],
        ) || bytes.contains(0u8) || (!begins(bytes, seq![0xefu8, 0xbb, 0xbf])
            && !vstd::utf8::valid_utf8(bytes)),
    ensures
        csv_text(bytes) is Err,
{
    assert(crate::archive::local_mark() =~= seq![0x50u8, 0x4b, 0x03, 0x04]);
    lemma_begins_is_opening(bytes, seq![0xefu8, 0xbb, 0xbf]);
    lemma_begins_is_opening(bytes, seq![0xffu8, 0xfe]);
    lemma_begins_is_opening(bytes, seq![0xfeu8, 0xff]);
    lemma_begins_is_opening(bytes, seq![0x50u8, 0x4b, 0x03, 0x04]);
    if bytes.contains(0u8) && opens_with(bytes, utf8_mark()) {
        let at = choose|at: int| 0 <= at < bytes.len() && bytes[at] == 0;
        assert(seq![0xefu8, 0xbb, 0xbf][0] == 0xef && seq![0xefu8, 0xbb, 0xbf][1] == 0xbb && seq![
            0xefu8,
            0xbb,
            0xbf,
        ][2] == 0xbf);
        assert(bytes[0] == 0xef && bytes[1] == 0xbb && bytes[2] == 0xbf);
        assert(bytes.skip(3)[at - 3] == 0);
    }
}

} // verus!
