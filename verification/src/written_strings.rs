//! What a workbook holds by the markup that is written in it: its shared strings and its worksheets.

use vstd::prelude::*;
use crate::error::Failure;
use crate::spreadsheet::{
    no_strings, references_from, strings_end, strings_from, strings_start, xml_text, StringsReading,
};
use crate::text::{decimal, trim};
use crate::written_sheet::{decoded, decodes, named, tagged_tokens, text_tokens, WrittenText};
use crate::xml::{element_name, element_pairs, local_name, value_of, Token};

verus! {

// ---- Shared strings ----

/// A part of a shared string.
#[verifier::ext_equal]
pub enum StringPart {
    /// A text.
    Run(WrittenText),
    /// A reading aid, with a text of its own.
    Phonetic(Seq<char>, WrittenText, Seq<char>),
    /// Something that adds nothing to the text.
    Aside(Token),
}

/// A shared string: its start tag, its parts and the name in its end tag, or one empty-element tag.
#[verifier::ext_equal]
pub enum WrittenString {
    Parts(Seq<char>, Seq<StringPart>, Seq<char>),
    Nothing(Seq<char>),
}

/// An event that adds nothing where no text is being read.
pub open spec fn is_aside(token: Token) -> bool {
    match token {
        Token::Start(tag) => element_name(tag) != "si"@ && element_name(tag) != "rPh"@ && element_name(
            tag,
        ) != "t"@,
        Token::Empty(tag) => element_name(tag) != "si"@,
        Token::End(name) => local_name(name) != "si"@ && local_name(name) != "rPh"@ && local_name(name)
            != "t"@,
        Token::Eof => false,
        Token::Failed(_) => false,
        _ => true,
    }
}

/// The events of a part of a shared string.
pub open spec fn part_tokens(part: StringPart) -> Seq<Token> {
    match part {
        StringPart::Run(text) => tagged_tokens(text),
        StringPart::Phonetic(open, text, close) => seq![Token::Start(open)] + (tagged_tokens(text)
            + seq![Token::End(close)]),
        StringPart::Aside(token) => seq![token],
    }
}

/// The events of the parts of a shared string.
pub open spec fn parts_tokens(parts: Seq<StringPart>) -> Seq<Token>
    decreases parts.len(),
{
    if parts.len() == 0 {
        Seq::empty()
    } else {
        part_tokens(parts[0]) + parts_tokens(parts.skip(1))
    }
}

/// The events of shared strings.
pub open spec fn strings_tokens(strings: Seq<WrittenString>) -> Seq<Token>
    decreases strings.len(),
{
    if strings.len() == 0 {
        Seq::empty()
    } else {
        (match strings[0] {
            WrittenString::Parts(open, parts, close) => seq![Token::Start(open)] + (parts_tokens(parts)
                + seq![Token::End(close)]),
            WrittenString::Nothing(tag) => seq![Token::Empty(tag)],
        }) + strings_tokens(strings.skip(1))
    }
}

/// A part of a shared string is written as such a part is.
pub open spec fn part_written(part: StringPart, format: Seq<char>) -> bool {
    match part {
        StringPart::Run(text) => named(text, "t"@) && decodes(text.raw, format),
        StringPart::Phonetic(open, text, close) => element_name(open) == "rPh"@ && local_name(close)
            == "rPh"@ && named(text, "t"@),
        StringPart::Aside(token) => is_aside(token),
    }
}

/// A shared string is written as one is.
pub open spec fn string_written(string: WrittenString, format: Seq<char>) -> bool {
    match string {
        WrittenString::Parts(open, parts, close) => element_name(open) == "si"@ && local_name(close)
            == "si"@ && forall|i: int|
            0 <= i < parts.len() ==> part_written(#[trigger] parts[i], format),
        WrittenString::Nothing(tag) => element_name(tag) == "si"@,
    }
}

/// The text of the parts of a shared string: that of its runs; reading aids do not count.
pub open spec fn parts_text(parts: Seq<StringPart>, format: Seq<char>) -> Seq<char>
    decreases parts.len(),
{
    if parts.len() == 0 {
        Seq::empty()
    } else {
        (match parts[0] {
            StringPart::Run(text) => decoded(text.raw, format),
            _ => Seq::empty(),
        }) + parts_text(parts.skip(1), format)
    }
}

/// The text of a shared string.
pub open spec fn string_text(string: WrittenString, format: Seq<char>) -> Seq<char> {
    match string {
        WrittenString::Parts(_, parts, _) => parts_text(parts, format),
        WrittenString::Nothing(_) => Seq::empty(),
    }
}

proof fn lemma_names()
    ensures
        "si"@ != "rPh"@,
        "si"@ != "t"@,
        "rPh"@ != "t"@,
{
    reveal_strlit("si");
    reveal_strlit("rPh");
    reveal_strlit("t");
    assert("si"@.len() == 2 && "rPh"@.len() == 3 && "t"@.len() == 1);
}

/// The reading after one event that is neither the last nor refused.
spec fn after_event(reading: StringsReading, token: Token, format: Seq<char>) -> StringsReading {
    match token {
        Token::Start(tag) => strings_start(reading, element_name(tag)),
        Token::Empty(tag) => if element_name(tag) == "si"@ {
            StringsReading { done: reading.done.push(Seq::empty()), ..reading }
        } else {
            reading
        },
        Token::End(name) => strings_end(reading, local_name(name)),
        Token::Text(raw) => if reading.in_text {
            StringsReading {
                current: match reading.current {
                    Some(before) => Some(before + xml_text(raw, format)->Ok_0),
                    None => None,
                },
                ..reading
            }
        } else {
            reading
        },
        _ => reading,
    }
}

proof fn lemma_read_the_rest(
    list: Seq<Token>,
    at: int,
    from: int,
    reading: StringsReading,
    format: Seq<char>,
)
    requires
        0 <= at <= list.len(),
        0 <= from,
    ensures
        strings_from(list, at + from, reading, format) == strings_from(
            list.skip(at),
            from,
            reading,
            format,
        ),
    decreases list.len() - at - from,
{
    if at + from < list.len() {
        assert(list.skip(at)[from] == list[at + from]);
        lemma_read_the_rest(
            list,
            at,
            from + 1,
            after_event(reading, list[at + from], format),
            format,
        );
    }
}

proof fn lemma_read_one(token: Token, rest: Seq<Token>, reading: StringsReading, format: Seq<char>)
    requires
        !(token is Eof),
        !(token is Failed),
        token is Text && reading.in_text ==> xml_text(token->Text_0, format) is Ok,
    ensures
        strings_from(seq![token] + rest, 0, reading, format) == strings_from(
            rest,
            0,
            after_event(reading, token, format),
            format,
        ),
{
    let list = seq![token] + rest;
    assert(list[0] == token);
    lemma_read_the_rest(list, 1, 0, after_event(reading, token, format), format);
    assert(list.skip(1) =~= rest);
}

proof fn lemma_read_texts(
    raw: Seq<Seq<char>>,
    rest: Seq<Token>,
    reading: StringsReading,
    text: Seq<char>,
    format: Seq<char>,
)
    requires
        reading.current == Some(text),
        reading.in_text ==> decodes(raw, format),
    ensures
        strings_from(text_tokens(raw) + rest, 0, reading, format) == strings_from(
            rest,
            0,
            if reading.in_text {
                StringsReading { current: Some(text + decoded(raw, format)), ..reading }
            } else {
                reading
            },
            format,
        ),
    decreases raw.len(),
{
    let list = text_tokens(raw);
    if raw.len() == 0 {
        assert(list + rest =~= rest);
        assert(text + decoded(raw, format) =~= text);
    } else {
        let shorter = raw.skip(1);
        let token = Token::Text(raw[0]);
        let next = after_event(reading, token, format);
        if reading.in_text {
            assert(xml_text(raw[0], format) is Ok);
            assert(decodes(shorter, format)) by {
                assert forall|i: int| 0 <= i < shorter.len() implies xml_text(
                    #[trigger] shorter[i],
                    format,
                ) is Ok by {
                    assert(shorter[i] == raw[i + 1]);
                }
            }
        }
        assert(list + rest =~= seq![token] + (text_tokens(shorter) + rest));
        lemma_read_one(token, text_tokens(shorter) + rest, reading, format);
        lemma_read_texts(shorter, rest, next, next.current->Some_0, format);
        assert(text + xml_text(raw[0], format)->Ok_0 + decoded(shorter, format) =~= text + decoded(
            raw,
            format,
        ));
    }
}

/// A shared string is being read, but no text of it.
spec fn inside(done: Seq<Seq<char>>, text: Seq<char>) -> StringsReading {
    StringsReading { done, current: Some(text), in_text: false, in_phonetic: false }
}

proof fn lemma_read_tagged(
    text: WrittenText,
    rest: Seq<Token>,
    done: Seq<Seq<char>>,
    so_far: Seq<char>,
    phonetic: bool,
    format: Seq<char>,
)
    requires
        named(text, "t"@),
        !phonetic ==> decodes(text.raw, format),
    ensures
        ({
            let start = StringsReading { in_phonetic: phonetic, ..inside(done, so_far) };
            strings_from(tagged_tokens(text) + rest, 0, start, format) == strings_from(
                rest,
                0,
                if phonetic {
                    start
                } else {
                    inside(done, so_far + decoded(text.raw, format))
                },
                format,
            )
        }),
{
    lemma_names();
    let start = StringsReading { in_phonetic: phonetic, ..inside(done, so_far) };
    let opened = StringsReading { in_text: !phonetic, ..start };
    let filled = if phonetic {
        opened
    } else {
        StringsReading { current: Some(so_far + decoded(text.raw, format)), ..opened }
    };
    let behind_data = seq![Token::End(text.close)] + rest;
    let behind_open = text_tokens(text.raw) + behind_data;
    assert(tagged_tokens(text) + rest =~= seq![Token::Start(text.open)] + behind_open);
    lemma_read_one(Token::Start(text.open), behind_open, start, format);
    lemma_read_texts(text.raw, behind_data, opened, so_far, format);
    lemma_read_one(Token::End(text.close), rest, filled, format);
}

proof fn lemma_read_parts(
    parts: Seq<StringPart>,
    rest: Seq<Token>,
    done: Seq<Seq<char>>,
    so_far: Seq<char>,
    format: Seq<char>,
)
    requires
        forall|i: int| 0 <= i < parts.len() ==> part_written(#[trigger] parts[i], format),
    ensures
        strings_from(parts_tokens(parts) + rest, 0, inside(done, so_far), format) == strings_from(
            rest,
            0,
            inside(done, so_far + parts_text(parts, format)),
            format,
        ),
    decreases parts.len(),
{
    if parts.len() == 0 {
        assert(parts_tokens(parts) + rest =~= rest);
        assert(so_far + parts_text(parts, format) =~= so_far);
    } else {
        lemma_names();
        let others = parts.skip(1);
        let behind = parts_tokens(others) + rest;
        let reading = inside(done, so_far);
        assert(part_written(parts[0], format));
        assert forall|i: int| 0 <= i < others.len() implies part_written(#[trigger] others[i], format) by {
            assert(others[i] == parts[i + 1]);
        }
        match parts[0] {
            StringPart::Run(text) => {
                assert(parts_tokens(parts) + rest =~= tagged_tokens(text) + behind);
                lemma_read_tagged(text, behind, done, so_far, false, format);
                lemma_read_parts(others, rest, done, so_far + decoded(text.raw, format), format);
                assert(so_far + decoded(text.raw, format) + parts_text(others, format) =~= so_far
                    + parts_text(parts, format));
            },
            StringPart::Phonetic(open, text, close) => {
                let aided = StringsReading { in_phonetic: true, ..reading };
                let behind_text = seq![Token::End(close)] + behind;
                let behind_open = tagged_tokens(text) + behind_text;
                assert(parts_tokens(parts) + rest =~= seq![Token::Start(open)] + behind_open);
                lemma_read_one(Token::Start(open), behind_open, reading, format);
                lemma_read_tagged(text, behind_text, done, so_far, true, format);
                lemma_read_one(Token::End(close), behind, aided, format);
                lemma_read_parts(others, rest, done, so_far, format);
                assert(parts_text(parts, format) =~= parts_text(others, format));
            },
            StringPart::Aside(token) => {
                assert(parts_tokens(parts) + rest =~= seq![token] + behind);
                lemma_read_one(token, behind, reading, format);
                lemma_read_parts(others, rest, done, so_far, format);
                assert(parts_text(parts, format) =~= parts_text(others, format));
            },
        }
    }
}

/// No shared string is being read.
spec fn between(done: Seq<Seq<char>>) -> StringsReading {
    StringsReading { done, current: None, in_text: false, in_phonetic: false }
}

proof fn lemma_read_strings(
    strings: Seq<WrittenString>,
    rest: Seq<Token>,
    done: Seq<Seq<char>>,
    format: Seq<char>,
)
    requires
        forall|i: int| 0 <= i < strings.len() ==> string_written(#[trigger] strings[i], format),
    ensures
        strings_from(strings_tokens(strings) + rest, 0, between(done), format) == strings_from(
            rest,
            0,
            between(done + Seq::new(strings.len(), |i: int| string_text(strings[i], format))),
            format,
        ),
    decreases strings.len(),
{
    let texts = Seq::new(strings.len(), |i: int| string_text(strings[i], format));
    if strings.len() == 0 {
        assert(strings_tokens(strings) + rest =~= rest);
        assert(done + texts =~= done);
    } else {
        lemma_names();
        let others = strings.skip(1);
        let behind = strings_tokens(others) + rest;
        let first = string_text(strings[0], format);
        assert(string_written(strings[0], format));
        assert forall|i: int| 0 <= i < others.len() implies string_written(#[trigger] others[i], format) by {
            assert(others[i] == strings[i + 1]);
        }
        match strings[0] {
            WrittenString::Parts(open, parts, close) => {
                let behind_parts = seq![Token::End(close)] + behind;
                let behind_open = parts_tokens(parts) + behind_parts;
                let nothing = Seq::<char>::empty();
                assert(strings_tokens(strings) + rest =~= seq![Token::Start(open)] + behind_open);
                lemma_read_one(Token::Start(open), behind_open, between(done), format);
                assert(after_event(between(done), Token::Start(open), format) == inside(done, nothing));
                lemma_read_parts(parts, behind_parts, done, nothing, format);
                assert(nothing + parts_text(parts, format) =~= first);
                lemma_read_one(Token::End(close), behind, inside(done, first), format);
            },
            WrittenString::Nothing(tag) => {
                assert(strings_tokens(strings) + rest =~= seq![Token::Empty(tag)] + behind);
                lemma_read_one(Token::Empty(tag), behind, between(done), format);
            },
        }
        lemma_read_strings(others, rest, done.push(first), format);
        assert(done.push(first) + Seq::new(others.len(), |i: int| string_text(others[i], format))
            =~= done + texts);
    }
}

// ---- Worksheets of a workbook ----

/// An element that names a worksheet: what stands before it, its tag and whether it is empty; the name
/// and the id of the relationship.
#[verifier::ext_equal]
pub struct WrittenSheet {
    pub lead: Seq<Token>,
    pub tag: Seq<char>,
    pub empty: bool,
    pub name: Seq<char>,
    pub id: Seq<char>,
}

/// The events that name worksheets.
pub open spec fn sheets_tokens(sheets: Seq<WrittenSheet>) -> Seq<Token>
    decreases sheets.len(),
{
    if sheets.len() == 0 {
        Seq::empty()
    } else {
        sheets[0].lead + (seq![
            if sheets[0].empty {
                Token::Empty(sheets[0].tag)
            } else {
                Token::Start(sheets[0].tag)
            },
        ] + sheets_tokens(sheets.skip(1)))
    }
}

/// An event that names no worksheet.
pub open spec fn names_nothing(token: Token) -> bool {
    match token {
        Token::Start(tag) => element_name(tag) != "sheet"@,
        Token::Empty(tag) => element_name(tag) != "sheet"@,
        Token::Eof => false,
        Token::Failed(_) => false,
        _ => true,
    }
}

/// An element names a worksheet as such an element does, behind `count` others: one without a name is
/// called by its place.
pub open spec fn sheet_written(sheet: WrittenSheet, count: nat) -> bool {
    &&& forall|i: int| 0 <= i < sheet.lead.len() ==> names_nothing(#[trigger] sheet.lead[i])
    &&& element_name(sheet.tag) == "sheet"@
    &&& element_pairs(sheet.tag, "XLSX xl/workbook.xml"@) matches Ok(pairs) && {
        &&& match value_of(pairs, "name"@) {
            Some(name) if trim(name).len() > 0 => sheet.name == name,
            _ => sheet.name == "工作表 "@ + decimal(count + 1),
        }
        &&& match value_of(pairs, "r:id"@) {
            Some(id) => sheet.id == id,
            None => value_of(pairs, "id"@) == Some(sheet.id),
        }
    }
}

/// Elements name worksheets, behind `count` others.
pub open spec fn sheets_written(sheets: Seq<WrittenSheet>, count: nat) -> bool {
    forall|i: int| 0 <= i < sheets.len() ==> sheet_written(#[trigger] sheets[i], count + i as nat)
}

proof fn lemma_references_of_the_rest(
    list: Seq<Token>,
    at: int,
    from: int,
    found: Seq<(Seq<char>, Seq<char>)>,
)
    requires
        0 <= at <= list.len(),
        0 <= from,
    ensures
        references_from(list, at + from, found) == references_from(list.skip(at), from, found),
    decreases list.len() - at - from,
{
    if at + from < list.len() {
        let token = list[at + from];
        assert(list.skip(at)[from] == token);
        lemma_references_of_the_rest(list, at, from + 1, found);
        if token is Start || token is Empty {
            let tag = if token is Start {
                token->Start_0
            } else {
                token->Empty_0
            };
            if let Ok(reference) = crate::spreadsheet::sheet_reference(tag, found.len()) {
                lemma_references_of_the_rest(list, at, from + 1, found.push(reference));
            }
        }
    }
}

proof fn lemma_read_lead(lead: Seq<Token>, rest: Seq<Token>, found: Seq<(Seq<char>, Seq<char>)>)
    requires
        forall|i: int| 0 <= i < lead.len() ==> names_nothing(#[trigger] lead[i]),
    ensures
        references_from(lead + rest, 0, found) == references_from(rest, 0, found),
    decreases lead.len(),
{
    if lead.len() == 0 {
        assert(lead + rest =~= rest);
    } else {
        let others = lead.skip(1);
        let list = lead + rest;
        assert(names_nothing(lead[0]));
        assert(list[0] == lead[0]);
        assert forall|i: int| 0 <= i < others.len() implies names_nothing(#[trigger] others[i]) by {
            assert(others[i] == lead[i + 1]);
        }
        lemma_references_of_the_rest(list, 1, 0, found);
        assert(list.skip(1) =~= others + rest);
        lemma_read_lead(others, rest, found);
    }
}

proof fn lemma_read_sheets(
    sheets: Seq<WrittenSheet>,
    rest: Seq<Token>,
    found: Seq<(Seq<char>, Seq<char>)>,
)
    requires
        sheets_written(sheets, found.len()),
    ensures
        references_from(sheets_tokens(sheets) + rest, 0, found) == references_from(
            rest,
            0,
            found + Seq::new(sheets.len(), |i: int| (sheets[i].name, sheets[i].id)),
        ),
    decreases sheets.len(),
{
    let named_sheets = Seq::new(sheets.len(), |i: int| (sheets[i].name, sheets[i].id));
    if sheets.len() == 0 {
        assert(sheets_tokens(sheets) + rest =~= rest);
        assert(found + named_sheets =~= found);
    } else {
        let first = sheets[0];
        let others = sheets.skip(1);
        let behind = sheets_tokens(others) + rest;
        let token = if first.empty {
            Token::Empty(first.tag)
        } else {
            Token::Start(first.tag)
        };
        let list = seq![token] + behind;
        let next = found.push((first.name, first.id));
        assert(sheet_written(sheets[0], found.len() + 0int as nat));
        assert(sheets_tokens(sheets) + rest =~= first.lead + list);
        lemma_read_lead(first.lead, list, found);
        assert(list[0] == token);
        lemma_references_of_the_rest(list, 1, 0, next);
        assert(list.skip(1) =~= behind);
        assert(sheets_written(others, next.len())) by {
            assert forall|i: int| 0 <= i < others.len() implies sheet_written(
                #[trigger] others[i],
                next.len() + i as nat,
            ) by {
                assert(others[i] == sheets[i + 1]);
                assert(sheet_written(sheets[i + 1], found.len() + (i + 1) as nat));
            }
        }
        lemma_read_sheets(others, rest, next);
        assert(next + Seq::new(others.len(), |i: int| (others[i].name, others[i].id)) =~= found
            + named_sheets);
    }
}

// ---- Laws ----

/// The shared strings of a workbook are those that are written, in their order: each is the text of
/// its runs, one behind the other, without reading aids; one without text still takes its place.
pub proof fn shared_strings_are_read_as_written(
    strings: Seq<WrittenString>,
    lead: Seq<Token>,
    tail: Seq<Token>,
    format: Seq<char>,
)
    requires
        forall|i: int| 0 <= i < strings.len() ==> string_written(#[trigger] strings[i], format),
        forall|i: int| 0 <= i < lead.len() ==> is_aside(#[trigger] lead[i]),
        forall|i: int| 0 <= i < tail.len() ==> is_aside(#[trigger] tail[i]),
    ensures
        strings_from(
            lead + (strings_tokens(strings) + (tail + seq![Token::Eof])),
            0,
            no_strings(),
            format,
        ) == Ok::<_, Failure>(Seq::new(strings.len(), |i: int| string_text(strings[i], format))),
{
    let texts = Seq::new(strings.len(), |i: int| string_text(strings[i], format));
    let nothing = Seq::<Seq<char>>::empty();
    let rest = tail + seq![Token::Eof];
    assert(no_strings() == between(nothing));
    lemma_read_asides(lead, strings_tokens(strings) + rest, nothing, format);
    lemma_read_strings(strings, rest, nothing, format);
    assert(nothing + texts =~= texts);
    lemma_read_asides(tail, seq![Token::Eof], texts, format);
}

proof fn lemma_read_asides(
    list: Seq<Token>,
    rest: Seq<Token>,
    done: Seq<Seq<char>>,
    format: Seq<char>,
)
    requires
        forall|i: int| 0 <= i < list.len() ==> is_aside(#[trigger] list[i]),
    ensures
        strings_from(list + rest, 0, between(done), format) == strings_from(
            rest,
            0,
            between(done),
            format,
        ),
    decreases list.len(),
{
    if list.len() == 0 {
        assert(list + rest =~= rest);
    } else {
        let others = list.skip(1);
        assert(is_aside(list[0]));
        assert forall|i: int| 0 <= i < others.len() implies is_aside(#[trigger] others[i]) by {
            assert(others[i] == list[i + 1]);
        }
        assert(list + rest =~= seq![list[0]] + (others + rest));
        lemma_read_one(list[0], others + rest, between(done), format);
        lemma_read_asides(others, rest, done, format);
    }
}

/// A workbook names its worksheets in their order, each with the id of its relationship; one without
/// a name is called by its place.
pub proof fn worksheets_are_named_in_order(sheets: Seq<WrittenSheet>, tail: Seq<Token>)
    requires
        sheets_written(sheets, 0),
        forall|i: int| 0 <= i < tail.len() ==> names_nothing(#[trigger] tail[i]),
    ensures
        references_from(sheets_tokens(sheets) + (tail + seq![Token::Eof]), 0, Seq::empty()) == Ok::<
            _,
            Failure,
        >(Seq::new(sheets.len(), |i: int| (sheets[i].name, sheets[i].id))),
{
    let nothing = Seq::<(Seq<char>, Seq<char>)>::empty();
    let found = Seq::new(sheets.len(), |i: int| (sheets[i].name, sheets[i].id));
    lemma_read_sheets(sheets, tail + seq![Token::Eof], nothing);
    assert(nothing + found =~= found);
    lemma_read_lead(tail, seq![Token::Eof], found);
}

} // verus!
