//! What the text of a document or a slide is, by the markup that is written in it.

use vstd::prelude::*;
use crate::error::Failure;
use crate::extraction::{
    docx_text, ends_trimmed, flow_from, flow_step, flow_text, kept_lines, named_entry, no_flow,
    normalized, part_texts_from, powerpoint_flow, presentation_text, FlowReading, PartTexts, TextFlow,
};
use crate::limits::{limits_for, INDEX_ARCHIVE_EXPANDED_BYTES};
use crate::slides::pptx_graph;
use crate::text::{index_from, join, lines, lines_from, trim, trim_end, white, without_return};
use crate::xml::{element_name, local_name, xml_tokens, Token};

verus! {

// ---- Texts as they are written ----

/// A part of a line.
#[verifier::ext_equal]
pub enum LinePart {
    /// Character data in an element for text: its start tag, the data, the name in its end tag.
    Run(Seq<char>, Seq<Token>, Seq<char>),
    /// An element for a tab.
    Tab(Token),
    /// Something that adds nothing to the text.
    Aside(Token),
}

/// What ends a line.
#[verifier::ext_equal]
pub enum LineClose {
    /// The end of a paragraph, by the name in its end tag.
    Paragraph(Seq<char>),
    /// An element for a line end.
    Break(Token),
    /// A value of a chart: its start tag, the data, the name in its end tag.
    Value(Seq<char>, Seq<Token>, Seq<char>),
}

/// A line.
#[verifier::ext_equal]
pub struct Line {
    pub parts: Seq<LinePart>,
    pub close: LineClose,
}

/// The events of a part of a line.
pub open spec fn part_tokens(part: LinePart) -> Seq<Token> {
    match part {
        LinePart::Run(open, data, close) => seq![Token::Start(open)] + (data + seq![
            Token::End(close),
        ]),
        LinePart::Tab(token) => seq![token],
        LinePart::Aside(token) => seq![token],
    }
}

/// The events of the parts of a line.
pub open spec fn parts_tokens(parts: Seq<LinePart>) -> Seq<Token>
    decreases parts.len(),
{
    if parts.len() == 0 {
        Seq::empty()
    } else {
        part_tokens(parts[0]) + parts_tokens(parts.skip(1))
    }
}

/// The events that end a line.
pub open spec fn close_tokens(close: LineClose) -> Seq<Token> {
    match close {
        LineClose::Paragraph(name) => seq![Token::End(name)],
        LineClose::Break(token) => seq![token],
        LineClose::Value(open, data, name) => seq![Token::Start(open)] + (data + seq![
            Token::End(name),
        ]),
    }
}

/// The events of lines.
pub open spec fn lines_tokens(list: Seq<Line>) -> Seq<Token>
    decreases list.len(),
{
    if list.len() == 0 {
        Seq::empty()
    } else {
        parts_tokens(list[0].parts) + (close_tokens(list[0].close) + lines_tokens(list.skip(1)))
    }
}

/// The name in a start tag or an empty-element tag.
pub open spec fn tag_of(token: Token) -> Option<Seq<char>> {
    match token {
        Token::Start(tag) => Some(element_name(tag)),
        Token::Empty(tag) => Some(element_name(tag)),
        _ => None,
    }
}

/// The element stands for a line end.
pub open spec fn breaks_lines(name: Seq<char>, flow: TextFlow) -> bool {
    name == "br"@ || (name == "cr"@ && flow == TextFlow::Word)
}

/// An event that adds nothing where no text is being read.
pub open spec fn is_aside(token: Token, flow: TextFlow) -> bool {
    match token {
        Token::Start(tag) => {
            let name = element_name(tag);
            name != "t"@ && name != "tab"@ && !breaks_lines(name, flow) && !(name == "v"@ && flow
                == TextFlow::Chart)
        },
        Token::Empty(tag) => element_name(tag) != "tab"@ && !breaks_lines(element_name(tag), flow),
        Token::End(name) => local_name(name) != "t"@ && local_name(name) != "p"@ && !(local_name(name)
            == "v"@ && flow == TextFlow::Chart),
        Token::Eof => false,
        Token::Failed(_) => false,
        _ => true,
    }
}

/// Character data.
pub open spec fn is_data(list: Seq<Token>) -> bool {
    forall|i: int| 0 <= i < list.len() ==> (#[trigger] list[i]) is Text || list[i] is CData
}

/// The text of character data.
pub open spec fn data_text(list: Seq<Token>) -> Seq<char>
    decreases list.len(),
{
    if list.len() == 0 {
        Seq::empty()
    } else {
        (match list[0] {
            Token::Text(text) => text,
            Token::CData(text) => text,
            _ => Seq::empty(),
        }) + data_text(list.skip(1))
    }
}

/// A part of a line is written as such a part is.
pub open spec fn part_written(part: LinePart, flow: TextFlow) -> bool {
    match part {
        LinePart::Run(open, data, close) => element_name(open) == "t"@ && is_data(data) && local_name(
            close,
        ) == "t"@,
        LinePart::Tab(token) => tag_of(token) == Some("tab"@),
        LinePart::Aside(token) => is_aside(token, flow),
    }
}

/// The parts of a line are written as such parts are.
pub open spec fn parts_written(parts: Seq<LinePart>, flow: TextFlow) -> bool {
    forall|i: int| 0 <= i < parts.len() ==> part_written(#[trigger] parts[i], flow)
}

/// The end of a line is written as such an end is: the end of a paragraph in every kind of text, a
/// line end, a value in a chart.
pub open spec fn close_written(close: LineClose, flow: TextFlow) -> bool {
    match close {
        LineClose::Paragraph(name) => local_name(name) == "p"@,
        LineClose::Break(token) => tag_of(token) matches Some(name) && breaks_lines(name, flow),
        LineClose::Value(open, data, name) => flow == TextFlow::Chart && element_name(open) == "v"@
            && is_data(data) && local_name(name) == "v"@,
    }
}

/// The text of the parts of a line.
pub open spec fn parts_text(parts: Seq<LinePart>) -> Seq<char>
    decreases parts.len(),
{
    if parts.len() == 0 {
        Seq::empty()
    } else {
        (match parts[0] {
            LinePart::Run(_, data, _) => data_text(data),
            LinePart::Tab(_) => seq!['\t'],
            LinePart::Aside(_) => Seq::empty(),
        }) + parts_text(parts.skip(1))
    }
}

/// The text of a line.
pub open spec fn line_text(line: Line) -> Seq<char> {
    parts_text(line.parts) + match line.close {
        LineClose::Value(_, data, _) => data_text(data),
        _ => Seq::empty(),
    }
}

/// A line is written as a line is, and no line end stands in its data.
pub open spec fn line_written(line: Line, flow: TextFlow) -> bool {
    parts_written(line.parts, flow) && close_written(line.close, flow) && !line_text(line).contains(
        '\n',
    )
}

/// Lines are written as lines are.
pub open spec fn lines_written(list: Seq<Line>, flow: TextFlow) -> bool {
    forall|i: int| 0 <= i < list.len() ==> line_written(#[trigger] list[i], flow)
}

/// The texts of the lines. The end of a paragraph without text adds no line to those before.
pub open spec fn line_texts(list: Seq<Line>, first: bool) -> Seq<Seq<char>>
    decreases list.len(),
{
    if list.len() == 0 {
        Seq::empty()
    } else if !first && line_text(list[0]).len() == 0 && !(list[0].close is Break) {
        line_texts(list.skip(1), false)
    } else {
        seq![line_text(list[0])] + line_texts(list.skip(1), false)
    }
}

// ---- Reading what is written ----

proof fn lemma_names()
    ensures
        "t"@ != "tab"@,
        "t"@ != "br"@,
        "t"@ != "cr"@,
        "t"@ != "v"@,
        "t"@ != "p"@,
        "tab"@ != "br"@,
        "tab"@ != "cr"@,
        "tab"@ != "v"@,
        "br"@ != "cr"@,
        "br"@ != "v"@,
        "cr"@ != "v"@,
        "p"@ != "v"@,
{
    reveal_strlit("t");
    reveal_strlit("tab");
    reveal_strlit("br");
    reveal_strlit("cr");
    reveal_strlit("v");
    reveal_strlit("p");
    assert("tab"@.len() == 3 && "br"@.len() == 2 && "cr"@.len() == 2);
    assert("t"@[0] == 't' && "v"@[0] == 'v' && "p"@[0] == 'p' && "br"@[0] == 'b' && "cr"@[0] == 'c');
}

proof fn lemma_read_the_rest(
    list: Seq<Token>,
    at: int,
    from: int,
    reading: FlowReading,
    flow: TextFlow,
)
    requires
        0 <= at <= list.len(),
        0 <= from,
    ensures
        flow_from(list, at + from, reading, flow) == flow_from(list.skip(at), from, reading, flow),
    decreases list.len() - at - from,
{
    if at + from < list.len() {
        assert(list.skip(at)[from] == list[at + from]);
        lemma_read_the_rest(list, at, from + 1, flow_step(reading, list[at + from], flow), flow);
    }
}

proof fn lemma_read_one(token: Token, rest: Seq<Token>, reading: FlowReading, flow: TextFlow)
    requires
        !(token is Eof),
        !(token is Failed),
    ensures
        flow_from(seq![token] + rest, 0, reading, flow) == flow_from(
            rest,
            0,
            flow_step(reading, token, flow),
            flow,
        ),
{
    let list = seq![token] + rest;
    assert(list[0] == token);
    lemma_read_the_rest(list, 1, 0, flow_step(reading, token, flow), flow);
    assert(list.skip(1) =~= rest);
}

proof fn lemma_read_data(data: Seq<Token>, rest: Seq<Token>, reading: FlowReading, flow: TextFlow)
    requires
        is_data(data),
        reading.in_text || reading.in_value,
    ensures
        flow_from(data + rest, 0, reading, flow) == flow_from(
            rest,
            0,
            FlowReading { text: reading.text + data_text(data), ..reading },
            flow,
        ),
    decreases data.len(),
{
    if data.len() == 0 {
        assert(data + rest =~= rest);
        assert(reading.text + data_text(data) =~= reading.text);
    } else {
        let others = data.skip(1);
        assert(data[0] is Text || data[0] is CData);
        assert(is_data(others)) by {
            assert forall|i: int| 0 <= i < others.len() implies (#[trigger] others[i]) is Text
                || others[i] is CData by {
                assert(others[i] == data[i + 1]);
            }
        }
        let next = flow_step(reading, data[0], flow);
        assert(data + rest =~= seq![data[0]] + (others + rest));
        lemma_read_one(data[0], others + rest, reading, flow);
        lemma_read_data(others, rest, next, flow);
        assert(next.text + data_text(others) =~= reading.text + data_text(data));
    }
}

/// No text is being read.
spec fn outside(text: Seq<char>) -> FlowReading {
    FlowReading { text, in_text: false, in_value: false }
}

proof fn lemma_read_parts(parts: Seq<LinePart>, rest: Seq<Token>, text: Seq<char>, flow: TextFlow)
    requires
        parts_written(parts, flow),
    ensures
        flow_from(parts_tokens(parts) + rest, 0, outside(text), flow) == flow_from(
            rest,
            0,
            outside(text + parts_text(parts)),
            flow,
        ),
    decreases parts.len(),
{
    if parts.len() == 0 {
        assert(parts_tokens(parts) + rest =~= rest);
        assert(text + parts_text(parts) =~= text);
    } else {
        lemma_names();
        let others = parts.skip(1);
        let behind = parts_tokens(others) + rest;
        assert(part_written(parts[0], flow));
        assert(parts_written(others, flow)) by {
            assert forall|i: int| 0 <= i < others.len() implies part_written(#[trigger] others[i], flow) by {
                assert(others[i] == parts[i + 1]);
            }
        }
        match parts[0] {
            LinePart::Run(open, data, close) => {
                let inside = FlowReading { in_text: true, ..outside(text) };
                let filled = FlowReading { text: text + data_text(data), ..inside };
                let behind_data = seq![Token::End(close)] + behind;
                assert(parts_tokens(parts) + rest =~= seq![Token::Start(open)] + (data + behind_data));
                lemma_read_one(Token::Start(open), data + behind_data, outside(text), flow);
                lemma_read_data(data, behind_data, inside, flow);
                lemma_read_one(Token::End(close), behind, filled, flow);
                lemma_read_parts(others, rest, text + data_text(data), flow);
                assert(text + data_text(data) + parts_text(others) =~= text + parts_text(parts));
            },
            LinePart::Tab(token) => {
                assert(parts_tokens(parts) + rest =~= seq![token] + behind);
                lemma_read_one(token, behind, outside(text), flow);
                lemma_read_parts(others, rest, text + seq!['\t'], flow);
                assert(text + seq!['\t'] + parts_text(others) =~= text + parts_text(parts));
            },
            LinePart::Aside(token) => {
                assert(parts_tokens(parts) + rest =~= seq![token] + behind);
                lemma_read_one(token, behind, outside(text), flow);
                assert(text + Seq::empty() =~= text);
                assert(flow_step(outside(text), token, flow) == outside(text));
                lemma_read_parts(others, rest, text, flow);
                assert(text + parts_text(others) =~= text + parts_text(parts));
            },
        }
    }
}

/// The text after a line.
spec fn with_line(text: Seq<char>, line: Line) -> Seq<char> {
    if text.len() > 0 && line_text(line).len() == 0 && !(line.close is Break) {
        text
    } else {
        (text + line_text(line)).push('\n')
    }
}

proof fn lemma_read_close(line: Line, behind: Seq<Token>, text: Seq<char>, flow: TextFlow)
    requires
        line_written(line, flow),
        text.len() > 0 ==> text.last() == '\n',
    ensures
        flow_from(
            close_tokens(line.close) + behind,
            0,
            outside(text + parts_text(line.parts)),
            flow,
        ) == flow_from(behind, 0, outside(with_line(text, line)), flow),
{
    lemma_names();
    let filled = text + parts_text(line.parts);
    let whole = text + line_text(line);
    if line_text(line).len() > 0 {
        assert(whole.last() == line_text(line).last());
        assert(line_text(line)[line_text(line).len() - 1] != '\n');
    } else {
        assert(whole =~= text);
    }
    match line.close {
        LineClose::Paragraph(name) => {
            assert(whole =~= filled);
            lemma_read_one(Token::End(name), behind, outside(filled), flow);
        },
        LineClose::Break(token) => {
            assert(whole =~= filled);
            assert(filled + seq!['\n'] =~= whole.push('\n'));
            lemma_read_one(token, behind, outside(filled), flow);
        },
        LineClose::Value(open, data, name) => {
            let inside = FlowReading { in_value: true, ..outside(filled) };
            let read = FlowReading { text: filled + data_text(data), ..inside };
            let behind_data = seq![Token::End(name)] + behind;
            assert(whole =~= filled + data_text(data));
            assert(close_tokens(line.close) + behind =~= seq![Token::Start(open)] + (data
                + behind_data));
            lemma_read_one(Token::Start(open), data + behind_data, outside(filled), flow);
            lemma_read_data(data, behind_data, inside, flow);
            lemma_read_one(Token::End(name), behind, read, flow);
        },
    }
}

proof fn lemma_read_lines(list: Seq<Line>, rest: Seq<Token>, text: Seq<char>, flow: TextFlow)
    requires
        lines_written(list, flow),
        text.len() > 0 ==> text.last() == '\n',
    ensures
        flow_from(lines_tokens(list) + rest, 0, outside(text), flow) == flow_from(
            rest,
            0,
            outside(text + with_line_ends(line_texts(list, text.len() == 0))),
            flow,
        ),
    decreases list.len(),
{
    let texts = line_texts(list, text.len() == 0);
    if list.len() == 0 {
        assert(lines_tokens(list) + rest =~= rest);
        assert(text + with_line_ends(texts) =~= text);
    } else {
        let line = list[0];
        let others = list.skip(1);
        let behind = lines_tokens(others) + rest;
        let behind_parts = close_tokens(line.close) + behind;
        assert(line_written(line, flow));
        assert(lines_written(others, flow)) by {
            assert forall|i: int| 0 <= i < others.len() implies line_written(#[trigger] others[i], flow) by {
                assert(others[i] == list[i + 1]);
            }
        }
        assert(lines_tokens(list) + rest =~= parts_tokens(line.parts) + behind_parts);
        lemma_read_parts(line.parts, behind_parts, text, flow);
        lemma_read_close(line, behind, text, flow);
        let skipped = text.len() > 0 && line_text(line).len() == 0 && !(line.close is Break);
        let next = with_line(text, line);
        lemma_read_lines(others, rest, next, flow);
        let later = line_texts(others, false);
        if skipped {
            assert(texts == later);
        } else {
            assert(texts.skip(1) =~= later);
            assert(next + with_line_ends(later) =~= text + with_line_ends(texts));
        }
    }
}

proof fn lemma_line_texts_hold_no_line_end(list: Seq<Line>, first: bool, flow: TextFlow)
    requires
        lines_written(list, flow),
    ensures
        forall|i: int|
            0 <= i < line_texts(list, first).len() ==> !(#[trigger] line_texts(list, first)[i]).contains('\n'),
    decreases list.len(),
{
    if list.len() > 0 {
        let others = list.skip(1);
        assert(line_written(list[0], flow));
        assert(lines_written(others, flow)) by {
            assert forall|i: int| 0 <= i < others.len() implies line_written(#[trigger] others[i], flow) by {
                assert(others[i] == list[i + 1]);
            }
        }
        lemma_line_texts_hold_no_line_end(others, false, flow);
        let texts = line_texts(list, first);
        let later = line_texts(others, false);
        assert forall|i: int| 0 <= i < texts.len() implies !(#[trigger] texts[i]).contains('\n') by {
            if texts != later && i > 0 {
                assert(texts[i] == later[i - 1]);
            }
        }
    }
}

// ---- Lines of a text ----

proof fn lemma_index_in_the_rest(text: Seq<char>, c: char, at: int, from: int)
    requires
        0 <= at <= text.len(),
        0 <= from,
    ensures
        index_from(text, c, at + from) == match index_from(text.skip(at), c, from) {
            Some(index) => Some(at + index),
            None => None,
        },
    decreases text.len() - at - from,
{
    if at + from < text.len() {
        assert(text.skip(at)[from] == text[at + from]);
        lemma_index_in_the_rest(text, c, at, from + 1);
    }
}

proof fn lemma_index_is_inside(text: Seq<char>, c: char, from: int)
    requires
        0 <= from,
    ensures
        index_from(text, c, from) matches Some(at) ==> from <= at < text.len(),
    decreases text.len() - from,
{
    if from < text.len() && text[from] != c {
        lemma_index_is_inside(text, c, from + 1);
    }
}

proof fn lemma_lines_of_the_rest(text: Seq<char>, at: int, from: int)
    requires
        0 <= at <= text.len(),
        0 <= from,
    ensures
        lines_from(text, at + from) == lines_from(text.skip(at), from),
    decreases text.len() - at - from,
{
    let rest = text.skip(at);
    if at + from < text.len() {
        lemma_index_in_the_rest(text, '\n', at, from);
        lemma_index_is_inside(rest, '\n', from);
        if let Some(index) = index_from(rest, '\n', from) {
            lemma_lines_of_the_rest(text, at, index + 1);
            assert(text.subrange(at + from, at + index) =~= rest.subrange(from, index));
        } else {
            assert(text.skip(at + from) =~= rest.skip(from));
        }
    }
}

proof fn lemma_first_index(text: Seq<char>, c: char, from: int, at: int)
    requires
        0 <= from <= at < text.len(),
        text[at] == c,
        forall|i: int| from <= i < at ==> text[i] != c,
    ensures
        index_from(text, c, from) == Some(at),
    decreases at - from,
{
    if from < at {
        lemma_first_index(text, c, from + 1, at);
    }
}

proof fn lemma_first_line(first: Seq<char>, rest: Seq<char>)
    requires
        !first.contains('\n'),
    ensures
        lines(first + (seq!['\n'] + rest)) == seq![without_return(first)] + lines(rest),
{
    let text = first + (seq!['\n'] + rest);
    assert forall|i: int| 0 <= i < first.len() implies text[i] != '\n' by {
        assert(text[i] == first[i]);
    }
    lemma_first_index(text, '\n', 0, first.len() as int);
    assert(text.subrange(0, first.len() as int) =~= first);
    lemma_lines_of_the_rest(text, first.len() as int + 1, 0);
    assert(text.skip(first.len() as int + 1) =~= rest);
}

/// The texts without the white space at their ends.
pub open spec fn each_end_trimmed(texts: Seq<Seq<char>>) -> Seq<Seq<char>> {
    Seq::new(texts.len(), |i: int| trim_end(texts[i]))
}

proof fn lemma_lines_come_apart(texts: Seq<Seq<char>>)
    requires
        forall|i: int| 0 <= i < texts.len() ==> !(#[trigger] texts[i]).contains('\n'),
    ensures
        ends_trimmed(lines(with_line_ends(texts))) == each_end_trimmed(texts),
    decreases texts.len(),
{
    if texts.len() == 0 {
        assert(ends_trimmed(lines(with_line_ends(texts))) =~= each_end_trimmed(texts));
    } else {
        let others = texts.skip(1);
        assert forall|i: int| 0 <= i < others.len() implies !(#[trigger] others[i]).contains('\n') by {
            assert(others[i] == texts[i + 1]);
        }
        lemma_lines_come_apart(others);
        lemma_first_line(texts[0], with_line_ends(others));
        let apart = lines(with_line_ends(texts));
        let later = lines(with_line_ends(others));
        assert(apart =~= seq![without_return(texts[0])] + later);
        assert(trim_end(without_return(texts[0])) == trim_end(texts[0]));
        assert(ends_trimmed(apart) =~= seq![trim_end(texts[0])] + ends_trimmed(later));
        assert(each_end_trimmed(texts) =~= seq![trim_end(texts[0])] + each_end_trimmed(others));
    }
}

// ---- Laws ----

/// The text of a document, a slide or a chart is its lines, one below the other, without the white
/// space at their ends and round the whole: in all of them the end of a paragraph ends a line, and so
/// does an element for a line end; an element for a tab is a tab; only data in an element for text
/// counts, and in a chart that of a value, which is a line of its own.
pub proof fn texts_are_their_lines(list: Seq<Line>, tail: Seq<LinePart>, flow: TextFlow)
    requires
        lines_written(list, flow),
        parts_written(tail, flow),
        parts_text(tail).len() == 0,
    ensures
        flow_text(lines_tokens(list) + (parts_tokens(tail) + seq![Token::Eof]), flow) == Ok::<
            _,
            Failure,
        >(trim(join(each_end_trimmed(line_texts(list, true)), seq!['\n']))),
{
    let rest = parts_tokens(tail) + seq![Token::Eof];
    let texts = line_texts(list, true);
    let raw = with_line_ends(texts);
    let empty = Seq::<char>::empty();
    assert(no_flow() == outside(empty));
    lemma_read_lines(list, rest, empty, flow);
    assert(empty + raw =~= raw);
    lemma_read_parts(tail, seq![Token::Eof], raw, flow);
    assert(raw + parts_text(tail) =~= raw);
    assert(flow_from(seq![Token::Eof], 0, outside(raw), flow) == Ok::<_, Failure>(raw));
    lemma_line_texts_hold_no_line_end(list, true, flow);
    lemma_lines_come_apart(texts);
    reveal_strlit("\n");
    assert("\n"@ =~= seq!['\n']);
}

/// Paragraphs of text that neither begin nor end with white space are read as they are, in their
/// order, with a line end between each two, be it in a document, on a slide or in a chart.
pub proof fn paragraphs_are_separate_lines(list: Seq<Line>, tail: Seq<LinePart>, flow: TextFlow)
    requires
        lines_written(list, flow),
        parts_written(tail, flow),
        parts_text(tail).len() == 0,
        forall|i: int|
            0 <= i < list.len() ==> line_text(#[trigger] list[i]).len() > 0 && !white(line_text(list[i])[0])
                && !white(line_text(list[i]).last()),
    ensures
        flow_text(lines_tokens(list) + (parts_tokens(tail) + seq![Token::Eof]), flow) == Ok::<
            _,
            Failure,
        >(join(Seq::new(list.len(), |i: int| line_text(list[i])), seq!['\n'])),
{
    let texts = Seq::new(list.len(), |i: int| line_text(list[i]));
    texts_are_their_lines(list, tail, flow);
    lemma_full_lines(list, true);
    assert forall|i: int| 0 <= i < texts.len() implies trim_end(#[trigger] texts[i]) == texts[i] by {
        assert(texts[i] == line_text(list[i]));
    }
    assert(each_end_trimmed(texts) =~= texts);
    let whole = join(texts, seq!['\n']);
    if list.len() > 0 {
        assert(texts[0] == line_text(list[0]));
        assert(texts[texts.len() - 1] == line_text(list[list.len() - 1]));
        lemma_join_edges(texts, seq!['\n']);
        assert(trim(whole) == whole);
    } else {
        assert(trim(whole) =~= whole);
    }
}

proof fn lemma_full_lines(list: Seq<Line>, first: bool)
    requires
        forall|i: int| 0 <= i < list.len() ==> line_text(#[trigger] list[i]).len() > 0,
    ensures
        line_texts(list, first) == Seq::new(list.len(), |i: int| line_text(list[i])),
    decreases list.len(),
{
    let texts = Seq::new(list.len(), |i: int| line_text(list[i]));
    if list.len() > 0 {
        let others = list.skip(1);
        assert(line_text(list[0]).len() > 0);
        assert forall|i: int| 0 <= i < others.len() implies line_text(#[trigger] others[i]).len() > 0 by {
            assert(others[i] == list[i + 1]);
        }
        lemma_full_lines(others, false);
        assert(line_texts(list, first) =~= texts);
    } else {
        assert(line_texts(list, first) =~= texts);
    }
}

proof fn lemma_join_edges(texts: Seq<Seq<char>>, separator: Seq<char>)
    requires
        texts.len() > 0,
        texts[0].len() > 0,
        texts.last().len() > 0,
    ensures
        join(texts, separator).len() > 0,
        join(texts, separator)[0] == texts[0][0],
        join(texts, separator).last() == texts.last().last(),
    decreases texts.len(),
{
    if texts.len() > 1 {
        let whole = join(texts, separator);
        lemma_join_opens(texts.drop_last(), separator);
        assert(texts.drop_last()[0] == texts[0]);
        assert(whole[0] == join(texts.drop_last(), separator)[0]);
    }
}

proof fn lemma_join_opens(texts: Seq<Seq<char>>, separator: Seq<char>)
    requires
        texts.len() > 0,
        texts[0].len() > 0,
    ensures
        join(texts, separator).len() > 0,
        join(texts, separator)[0] == texts[0][0],
    decreases texts.len(),
{
    if texts.len() > 1 {
        lemma_join_opens(texts.drop_last(), separator);
        assert(texts.drop_last()[0] == texts[0]);
    }
}

/// Markup whose events break off is refused.
pub proof fn broken_markup_is_refused(list: Seq<Token>, at: int, flow: TextFlow)
    requires
        0 <= at < list.len(),
        list[at] is Failed,
        forall|i: int| 0 <= i < at ==> !((#[trigger] list[i]) is Eof),
    ensures
        flow_text(list, flow) is Err,
{
    lemma_broken_list(list, 0, at, no_flow(), flow);
}

proof fn lemma_broken_list(list: Seq<Token>, from: int, at: int, reading: FlowReading, flow: TextFlow)
    requires
        0 <= from <= at < list.len(),
        list[at] is Failed,
        forall|i: int| from <= i < at ==> !((#[trigger] list[i]) is Eof),
    ensures
        flow_from(list, from, reading, flow) is Err,
    decreases at - from,
{
    if from < at && !(list[from] is Failed) {
        lemma_broken_list(list, from + 1, at, flow_step(reading, list[from], flow), flow);
    }
}

/// Texts, each with a line end.
pub open spec fn with_line_ends(texts: Seq<Seq<char>>) -> Seq<char>
    decreases texts.len(),
{
    if texts.len() == 0 {
        Seq::empty()
    } else {
        texts[0] + (seq!['\n'] + with_line_ends(texts.skip(1)))
    }
}

proof fn lemma_first_line_apart(first: Seq<char>, rest: Seq<char>)
    requires
        !first.contains('\n'),
        first.len() > 0 ==> first.last() != '\r',
    ensures
        lines(first + (seq!['\n'] + rest)) == seq![first] + lines(rest),
        lines(first + (seq!['\r', '\n'] + rest)) == seq![first] + lines(rest),
{
    lemma_first_line(first, rest);
    let returned = first.push('\r');
    assert(!returned.contains('\n')) by {
        assert forall|i: int| 0 <= i < returned.len() implies returned[i] != '\n' by {
            if i < first.len() {
                assert(returned[i] == first[i]);
            }
        }
    }
    lemma_first_line(returned, rest);
    assert(first + (seq!['\r', '\n'] + rest) =~= returned + (seq!['\n'] + rest));
    assert(returned.drop_last() =~= first);
}

/// A text is taken apart into its lines: what stands before its first line end, LF or CRLF, is the
/// first of them, and those of the rest follow. A text without a line end is one line, and an empty
/// text has none.
pub proof fn texts_come_apart_into_lines(first: Seq<char>, rest: Seq<char>)
    requires
        !first.contains('\n'),
        first.len() > 0 ==> first.last() != '\r',
    ensures
        lines(first + (seq!['\n'] + rest)) == seq![first] + lines(rest),
        lines(first + (seq!['\r', '\n'] + rest)) == seq![first] + lines(rest),
        lines(first) == if first.len() == 0 {
            Seq::empty()
        } else {
            seq![first]
        },
{
    lemma_first_line_apart(first, rest);
    if first.len() > 0 {
        lemma_no_index(first, '\n', 0);
        assert(first.skip(0) =~= first);
    }
}

proof fn lemma_no_index(text: Seq<char>, c: char, from: int)
    requires
        0 <= from,
        !text.contains(c),
    ensures
        index_from(text, c, from) is None,
    decreases text.len() - from,
{
    if from < text.len() {
        assert(text[from] != c);
        lemma_no_index(text, c, from + 1);
    }
}

/// The lines that are not blank, without white space round them.
pub open spec fn telling_lines(texts: Seq<Seq<char>>) -> Seq<Seq<char>>
    decreases texts.len(),
{
    if texts.len() == 0 {
        Seq::empty()
    } else {
        (if trim(texts[0]).len() > 0 {
            seq![trim(texts[0])]
        } else {
            Seq::empty()
        }) + telling_lines(texts.skip(1))
    }
}

proof fn lemma_kept_lines_from_the_front(list: Seq<Seq<char>>)
    requires
        list.len() > 0,
    ensures
        kept_lines(list) == (if trim(list[0]).len() > 0 {
            seq![trim(list[0])]
        } else {
            Seq::empty()
        }) + kept_lines(list.skip(1)),
    decreases list.len(),
{
    let first = if trim(list[0]).len() > 0 {
        seq![trim(list[0])]
    } else {
        Seq::empty()
    };
    if list.len() == 1 {
        assert(list.drop_last() =~= Seq::empty());
        assert(list.skip(1) =~= Seq::empty());
        assert(kept_lines(list.drop_last()) =~= Seq::empty());
        assert(kept_lines(list) =~= first + kept_lines(list.skip(1)));
    } else {
        let shorter = list.drop_last();
        lemma_kept_lines_from_the_front(shorter);
        assert(shorter.skip(1) =~= list.skip(1).drop_last());
        assert(list.skip(1).last() == list.last());
        assert(kept_lines(list) =~= first + kept_lines(list.skip(1)));
    }
}

proof fn lemma_lines_are_told(texts: Seq<Seq<char>>)
    requires
        forall|i: int|
            0 <= i < texts.len() ==> !(#[trigger] texts[i]).contains('\n') && (texts[i].len() > 0
                ==> texts[i].last() != '\r'),
    ensures
        lines(with_line_ends(texts)) == texts,
        kept_lines(texts) == telling_lines(texts),
    decreases texts.len(),
{
    if texts.len() == 0 {
        assert(lines(with_line_ends(texts)) =~= texts);
        assert(kept_lines(texts) =~= telling_lines(texts));
    } else {
        let others = texts.skip(1);
        assert forall|i: int| 0 <= i < others.len() implies !(#[trigger] others[i]).contains('\n') && (
        others[i].len() > 0 ==> others[i].last() != '\r') by {
            assert(others[i] == texts[i + 1]);
        }
        assert(!texts[0].contains('\n'));
        lemma_lines_are_told(others);
        lemma_first_line_apart(texts[0], with_line_ends(others));
        assert(seq![texts[0]] + others =~= texts);
        lemma_kept_lines_from_the_front(texts);
    }
}

/// A text for the index keeps its lines in their order, without the blank ones and without white
/// space round the others.
pub proof fn index_texts_keep_telling_lines(texts: Seq<Seq<char>>)
    requires
        forall|i: int|
            0 <= i < texts.len() ==> !(#[trigger] texts[i]).contains('\n') && (texts[i].len() > 0
                ==> texts[i].last() != '\r'),
    ensures
        normalized(with_line_ends(texts)) == join(telling_lines(texts), seq!['\n']),
{
    lemma_lines_are_told(texts);
    reveal_strlit("\n");
    assert("\n"@ =~= seq!['\n']);
}

/// The contents of a part can be read: with what the account holds before it and behind it.
pub open spec fn part_says(
    archive: Seq<u8>,
    part: Seq<char>,
    flow: TextFlow,
    before: u64,
    behind: u64,
    text: Seq<char>,
) -> bool {
    let (contents, total) = named_entry(
        archive,
        part,
        "PPTX"@,
        limits_for(INDEX_ARCHIVE_EXPANDED_BYTES),
        before,
    );
    &&& contents is Ok
    &&& total == behind
    &&& flow_text(xml_tokens(contents->Ok_0, false), flow) == Ok::<_, Failure>(text)
    &&& trim(text).len() > 0
}

proof fn lemma_parts_say(
    archive: Seq<u8>,
    parts: Seq<Seq<char>>,
    at: int,
    chart_values: bool,
    texts: Seq<Seq<char>>,
    totals: Seq<u64>,
    so_far: PartTexts,
)
    requires
        0 <= at <= parts.len(),
        texts.len() == parts.len(),
        totals.len() == parts.len() + 1,
        so_far.spent == totals[at],
        forall|i: int|
            0 <= i < parts.len() ==> part_says(
                archive,
                #[trigger] parts[i],
                powerpoint_flow(chart_values),
                totals[i],
                totals[i + 1],
                texts[i],
            ),
    ensures
        part_texts_from(
            archive,
            parts,
            at,
            chart_values,
            so_far,
            limits_for(INDEX_ARCHIVE_EXPANDED_BYTES),
        ) == (PartTexts {
            texts: so_far.texts + texts.skip(at),
            features: so_far.features,
            spent: totals[parts.len() as int],
        }),
    decreases parts.len() - at,
{
    if at < parts.len() {
        assert(part_says(
            archive,
            parts[at],
            powerpoint_flow(chart_values),
            totals[at],
            totals[at + 1],
            texts[at],
        ));
        let next = PartTexts {
            texts: so_far.texts.push(texts[at]),
            features: so_far.features,
            spent: totals[at + 1],
        };
        lemma_parts_say(archive, parts, at + 1, chart_values, texts, totals, next);
        assert(next.texts + texts.skip(at + 1) =~= so_far.texts + texts.skip(at));
    } else {
        assert(so_far.texts + texts.skip(at) =~= so_far.texts);
    }
}

/// The text of a presentation is that of its slides, in their order, and then that of the charts on
/// them; where every part can be read and says something, all of it counts and nothing is told to be
/// missing.
pub proof fn presentations_say_their_slides_and_charts(
    archive: Seq<u8>,
    slide_texts: Seq<Seq<char>>,
    chart_texts: Seq<Seq<char>>,
    slide_totals: Seq<u64>,
    chart_totals: Seq<u64>,
)
    requires
        pptx_graph(archive) is Ok,
        ({
            let graph = pptx_graph(archive)->Ok_0;
            &&& graph.slides.len() > 0
            &&& slide_texts.len() == graph.slides.len()
            &&& slide_totals.len() == graph.slides.len() + 1
            &&& chart_texts.len() == graph.charts.len()
            &&& chart_totals.len() == graph.charts.len() + 1
            &&& slide_totals[0] == 0
            &&& chart_totals[0] == slide_totals[graph.slides.len() as int]
            &&& forall|i: int|
                0 <= i < graph.slides.len() ==> part_says(
                    archive,
                    #[trigger] graph.slides[i],
                    TextFlow::Slide,
                    slide_totals[i],
                    slide_totals[i + 1],
                    slide_texts[i],
                )
            &&& forall|i: int|
                0 <= i < graph.charts.len() ==> part_says(
                    archive,
                    #[trigger] graph.charts[i],
                    TextFlow::Chart,
                    chart_totals[i],
                    chart_totals[i + 1],
                    chart_texts[i],
                )
        }),
        normalized(join(slide_texts + chart_texts, seq!['\n'])).len() > 0,
    ensures
        presentation_text(archive) == Ok::<_, Failure>(
            (
                normalized(join(slide_texts + chart_texts, seq!['\n'])),
                Seq::<Seq<char>>::empty(),
            ),
        ),
{
    let graph = pptx_graph(archive)->Ok_0;
    let none = PartTexts { texts: Seq::empty(), features: Seq::empty(), spent: 0 };
    lemma_parts_say(archive, graph.slides, 0, false, slide_texts, slide_totals, none);
    assert(none.texts + slide_texts.skip(0) =~= slide_texts);
    let slides = PartTexts {
        texts: slide_texts,
        features: Seq::empty(),
        spent: slide_totals[graph.slides.len() as int],
    };
    lemma_parts_say(archive, graph.charts, 0, true, chart_texts, chart_totals, slides);
    assert(slide_texts + chart_texts.skip(0) =~= slide_texts + chart_texts);
    reveal_strlit("\n");
    assert("\n"@ =~= seq!['\n']);
}

/// The text of a DOCX document is that of its main part; a document without text says so.
pub proof fn documents_say_their_main_part(archive: Seq<u8>, text: Seq<char>)
    requires
        ({
            let contents = named_entry(
                archive,
                "word/document.xml"@,
                "DOCX"@,
                limits_for(INDEX_ARCHIVE_EXPANDED_BYTES),
                0,
            ).0;
            contents is Ok && flow_text(xml_tokens(contents->Ok_0, false), TextFlow::Word) == Ok::<
                _,
                Failure,
            >(text)
        }),
    ensures
        trim(text).len() > 0 ==> docx_text(archive) == Ok::<_, Failure>(text),
        trim(text).len() == 0 ==> docx_text(archive) == Ok::<_, Failure>("文档中没有可提取的文本。"@),
{
}

} // verus!
