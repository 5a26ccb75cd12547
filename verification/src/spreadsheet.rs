//! XLSX packages: what makes one, its worksheets and its shared strings.

use vstd::prelude::*;
use crate::bytes::bytes_at;
use crate::error::{failure, outcome, ErrorKind, Failure, LibraryError, LibraryResult};
use crate::limits::{ArchiveLimits, ExpansionBudget};
use crate::parts::{resolve_internal_target, resolved_target};
use crate::relations::{
    content_types_of, declared, link_of, links, no_types, read_link, types_from, Link, Relationship,
};
use crate::text::{
    ascii_lowercase, chars, decimal, ends_with, has_suffix, occurs_at, optional, push_decimal, same,
    to_ascii_lowercase, trim, trimmed, views,
};
use crate::workbook::{
    entry_named, has_entry_under, needed_part, optional_part, spent_outcome, workbook_entries, Meta,
    ZipDirectory,
};
use crate::xml::{
    element_name, element_pairs, get_value, local_name, local_tag_name, read_attributes,
    read_events, root_local_name, root_name, tokens, unescape, unescaped, value_of, without_prefix,
    xml_tokens, Token, XmlEvent,
};

verus! {

// ---- Text ----

/// Character data with its references replaced, or why they cannot be.
pub open spec fn xml_text(raw: Seq<char>, format: Seq<char>) -> Result<Seq<char>, Failure> {
    match unescaped(raw) {
        Ok(text) => Ok(text),
        Err(reason) => Err(
            failure(ErrorKind::ImportFile, "无法解析 "@ + format + " XML 文本："@ + reason),
        ),
    }
}

/// Character data with its references replaced, or why they cannot be.
pub fn decode_xml_text(raw: &str, format: &str) -> (result: LibraryResult<String>)
    ensures
        outcome(result) == xml_text(raw@, format@),
{
    match unescape(raw) {
        Ok(text) => Ok(text),
        Err(reason) => {
            let mut detail = "无法解析 ".to_owned();
            detail.append(format);
            detail.append(" XML 文本：");
            detail.append(reason.as_str());
            Err(LibraryError::ImportFile(detail))
        },
    }
}

// ---- Relationships ----

/// The relationships `found` and those that the events from `at` on declare. Elements that declare
/// none are passed over, and reading ends where the text is malformed.
pub open spec fn lenient_links(list: Seq<Token>, at: int, found: Seq<Link>) -> Seq<Link>
    decreases list.len() - at,
{
    if at < 0 || at >= list.len() {
        found
    } else {
        match list[at] {
            Token::Start(tag) | Token::Empty(tag) => if element_name(tag) != "Relationship"@ {
                lenient_links(list, at + 1, found)
            } else {
                match link_of(tag, "XLSX"@) {
                    Err(_) => lenient_links(list, at + 1, found),
                    Ok(link) => lenient_links(list, at + 1, found.push(link)),
                }
            },
            Token::Eof | Token::Failed(_) => found,
            _ => lenient_links(list, at + 1, found),
        }
    }
}

/// The relationships that the events declare.
pub fn relationships_in(events: &[XmlEvent]) -> (found: Vec<Relationship>)
    ensures
        links(found@) == lenient_links(tokens(events@), 0, Seq::empty()),
{
    let ghost list = tokens(events@);
    let mut found: Vec<Relationship> = Vec::new();
    assert(links(found@) =~= Seq::empty());
    let mut i: usize = 0;
    while i < events.len()
        invariant
            i <= events@.len(),
            list == tokens(events@),
            lenient_links(list, i as int, links(found@)) == lenient_links(list, 0, Seq::empty()),
        decreases events@.len() - i,
    {
        assert(list[i as int] == events@[i as int]@);
        let element: Option<&String> = match &events[i] {
            XmlEvent::Start(tag) => Some(tag),
            XmlEvent::Empty(tag) => Some(tag),
            XmlEvent::Eof => {
                return found;
            },
            XmlEvent::Failed(_) => {
                return found;
            },
            _ => None,
        };
        if let Some(tag) = element {
            if same(local_tag_name(tag.as_str()).as_str(), "Relationship") {
                if let Ok(relationship) = read_link(tag.as_str(), "XLSX") {
                    let ghost before = links(found@);
                    let ghost link = relationship@;
                    found.push(relationship);
                    assert(links(found@) =~= before.push(link));
                }
            }
        }
        i = i + 1;
    }
    found
}

/// The relationships that an XML text declares.
pub fn parse_relationships_list(xml: &[u8]) -> (found: Vec<Relationship>)
    ensures
        links(found@) == lenient_links(xml_tokens(xml@, true), 0, Seq::empty()),
{
    relationships_in(read_events(xml, true).as_slice())
}

/// The first relationship with this id.
pub open spec fn link_with_id(found: Seq<Link>, id: Seq<char>) -> Option<Link>
    decreases found.len(),
{
    if found.len() == 0 {
        None
    } else if found[0].id == id {
        Some(found[0])
    } else {
        link_with_id(found.skip(1), id)
    }
}

/// The first relationship with this id.
fn find_link<'a>(found: &'a [Relationship], id: &str) -> (link: Option<&'a Relationship>)
    ensures
        (match link {
            Some(relationship) => Some(relationship@),
            None => None,
        }) == link_with_id(links(found@), id@),
{
    let ghost all = links(found@);
    let mut i: usize = 0;
    assert(all.skip(0) =~= all);
    while i < found.len()
        invariant
            i <= found@.len(),
            all == links(found@),
            link_with_id(all.skip(i as int), id@) == link_with_id(all, id@),
        decreases found@.len() - i,
    {
        assert(all.skip(i as int)[0] == found@[i as int]@);
        assert(all.skip(i as int).skip(1) =~= all.skip(i + 1));
        if same(found[i].id.as_str(), id) {
            return Some(&found[i]);
        }
        i = i + 1;
    }
    None
}

/// Two relationships have the same id.
pub open spec fn repeats_id(found: Seq<Link>) -> bool {
    exists|i: int, j: int|
        0 <= i < j < found.len() && (#[trigger] found[i]).id == (#[trigger] found[j]).id
}

/// Whether two relationships have the same id.
fn has_repeated_id(found: &[Relationship]) -> (repeated: bool)
    ensures
        repeated == repeats_id(links(found@)),
{
    let ghost all = links(found@);
    let mut j: usize = 0;
    while j < found.len()
        invariant
            j <= found@.len(),
            all == links(found@),
            forall|a: int, b: int|
                0 <= a < b < j ==> (#[trigger] all[a]).id != (#[trigger] all[b]).id,
        decreases found@.len() - j,
    {
        let mut i: usize = 0;
        while i < j
            invariant
                i <= j < found@.len(),
                all == links(found@),
                forall|a: int| 0 <= a < i ==> (#[trigger] all[a]).id != all[j as int].id,
            decreases j - i,
        {
            assert(all[i as int] == found@[i as int]@);
            assert(all[j as int] == found@[j as int]@);
            if same(found[i].id.as_str(), found[j].id.as_str()) {
                return true;
            }
            i = i + 1;
        }
        j = j + 1;
    }
    false
}

/// The relationships of an XML text, or that two of them have the same id.
pub open spec fn distinct_links(xml: Seq<u8>, format: Seq<char>) -> Result<Seq<Link>, Failure> {
    let found = lenient_links(xml_tokens(xml, true), 0, Seq::empty());
    if repeats_id(found) {
        Err(failure(ErrorKind::ImportFile, format + " 结构无效：关系 Id 重复。"@))
    } else {
        Ok(found)
    }
}

/// The relationships of an XML text, or that two of them have the same id.
pub fn parse_relationships(xml: &[u8], format: &str) -> (result: LibraryResult<Vec<Relationship>>)
    ensures
        crate::relations::links_outcome(result) == distinct_links(xml@, format@),
{
    let found = parse_relationships_list(xml);
    if has_repeated_id(found.as_slice()) {
        let mut detail = format.to_owned();
        detail.append(" 结构无效：关系 Id 重复。");
        return Err(LibraryError::ImportFile(detail));
    }
    Ok(found)
}

// ---- References to worksheets ----

/// A worksheet as the workbook names it.
#[derive(Debug)]
pub struct SheetReference {
    pub name: String,
    pub relationship_id: String,
}

impl View for SheetReference {
    type V = (Seq<char>, Seq<char>);

    open spec fn view(&self) -> (Seq<char>, Seq<char>) {
        (self.name@, self.relationship_id@)
    }
}

/// The references by views.
pub open spec fn reference_views(references: Seq<SheetReference>) -> Seq<(Seq<char>, Seq<char>)> {
    references.map_values(|reference: SheetReference| reference@)
}

/// The worksheet that an element names when `count` stand before it, or why it names none.
pub open spec fn sheet_reference(tag: Seq<char>, count: nat) -> Result<
    (Seq<char>, Seq<char>),
    Failure,
> {
    match element_pairs(tag, "XLSX xl/workbook.xml"@) {
        Err(error) => Err(error),
        Ok(pairs) => {
            let name = match value_of(pairs, "name"@) {
                Some(name) => if trim(name).len() > 0 {
                    name
                } else {
                    "工作表 "@ + decimal(count + 1)
                },
                None => "工作表 "@ + decimal(count + 1),
            };
            match value_of(pairs, "r:id"@) {
                Some(id) => Ok((name, id)),
                None => match value_of(pairs, "id"@) {
                    Some(id) => Ok((name, id)),
                    None => Err(
                        failure(
                            ErrorKind::ImportFile,
                            "XLSX 结构无效：工作表「"@ + name + "」缺少 r:id。"@,
                        ),
                    ),
                },
            }
        },
    }
}

/// The worksheet that an element names when `count` stand before it, or why it names none.
fn read_sheet_reference(tag: &str, count: usize) -> (result: LibraryResult<SheetReference>)
    requires
        count < usize::MAX,
    ensures
        outcome(result) == sheet_reference(tag@, count as nat),
{
    let pairs = match read_attributes(tag, "XLSX xl/workbook.xml") {
        Err(error) => {
            return Err(error);
        },
        Ok(pairs) => pairs,
    };
    let mut name = "工作表 ".to_owned();
    push_decimal(&mut name, (count + 1) as u64);
    if let Some(given) = get_value(pairs.as_slice(), "name") {
        let shown = trimmed(given.as_str());
        if chars(shown.as_str()).len() > 0 {
            name = given.clone();
        }
    }
    if let Some(id) = get_value(pairs.as_slice(), "r:id") {
        return Ok(SheetReference { name, relationship_id: id.clone() });
    }
    if let Some(id) = get_value(pairs.as_slice(), "id") {
        return Ok(SheetReference { name, relationship_id: id.clone() });
    }
    let mut detail = "XLSX 结构无效：工作表「".to_owned();
    detail.append(name.as_str());
    detail.append("」缺少 r:id。");
    Err(LibraryError::ImportFile(detail))
}

/// The worksheets `found` and those that the events from `at` on name, or why one is refused.
pub open spec fn references_from(list: Seq<Token>, at: int, found: Seq<(Seq<char>, Seq<char>)>) -> Result<
    Seq<(Seq<char>, Seq<char>)>,
    Failure,
>
    decreases list.len() - at,
{
    if at < 0 || at >= list.len() {
        Ok(found)
    } else {
        match list[at] {
            Token::Start(tag) | Token::Empty(tag) => if element_name(tag) != "sheet"@ {
                references_from(list, at + 1, found)
            } else {
                match sheet_reference(tag, found.len()) {
                    Err(error) => Err(error),
                    Ok(reference) => references_from(list, at + 1, found.push(reference)),
                }
            },
            Token::Eof => Ok(found),
            Token::Failed(reason) => Err(
                failure(ErrorKind::ImportFile, "无法解析 XLSX 工作表清单："@ + reason),
            ),
            _ => references_from(list, at + 1, found),
        }
    }
}

/// The worksheets that the events of a workbook name, in order.
pub fn sheet_references_of(events: &[XmlEvent]) -> (result: LibraryResult<Vec<SheetReference>>)
    ensures
        (match result {
            Ok(references) => Ok(reference_views(references@)),
            Err(error) => Err(error@),
        }) == references_from(tokens(events@), 0, Seq::empty()),
{
    let ghost list = tokens(events@);
    let size: usize = events.len();
    let mut found: Vec<SheetReference> = Vec::new();
    assert(reference_views(found@) =~= Seq::empty());
    let mut i: usize = 0;
    while i < size
        invariant
            size == events@.len(),
            i <= size,
            found@.len() <= i,
            list == tokens(events@),
            references_from(list, i as int, reference_views(found@)) == references_from(
                list,
                0,
                Seq::empty(),
            ),
        decreases size - i,
    {
        assert(list[i as int] == events@[i as int]@);
        let element: Option<&String> = match &events[i] {
            XmlEvent::Start(tag) => Some(tag),
            XmlEvent::Empty(tag) => Some(tag),
            XmlEvent::Eof => {
                return Ok(found);
            },
            XmlEvent::Failed(reason) => {
                let mut detail = "无法解析 XLSX 工作表清单：".to_owned();
                detail.append(reason.as_str());
                return Err(LibraryError::ImportFile(detail));
            },
            _ => None,
        };
        if let Some(tag) = element {
            if same(local_tag_name(tag.as_str()).as_str(), "sheet") {
                match read_sheet_reference(tag.as_str(), found.len()) {
                    Err(error) => {
                        return Err(error);
                    },
                    Ok(reference) => {
                        let ghost before = reference_views(found@);
                        let ghost added = reference@;
                        found.push(reference);
                        assert(reference_views(found@) =~= before.push(added));
                    },
                }
            }
        }
        i = i + 1;
    }
    Ok(found)
}

/// The worksheets that a workbook names, in order.
pub fn workbook_sheet_references(xml: &[u8]) -> (result: LibraryResult<Vec<SheetReference>>)
    ensures
        (match result {
            Ok(references) => Ok(reference_views(references@)),
            Err(error) => Err(error@),
        }) == references_from(xml_tokens(xml@, true), 0, Seq::empty()),
{
    sheet_references_of(read_events(xml, true).as_slice())
}

// ---- Worksheets ----

/// A worksheet that can be read.
#[derive(Debug)]
pub struct WorkbookSheet {
    pub name: String,
    pub part: String,
}

impl View for WorkbookSheet {
    type V = (Seq<char>, Seq<char>);

    open spec fn view(&self) -> (Seq<char>, Seq<char>) {
        (self.name@, self.part@)
    }
}

/// The worksheets by views.
pub open spec fn sheet_views(sheets: Seq<WorkbookSheet>) -> Seq<(Seq<char>, Seq<char>)> {
    sheets.map_values(|sheet: WorkbookSheet| sheet@)
}

/// The part of the worksheet that a reference names; none for what holds no cells; or why it is
/// refused.
pub open spec fn sheet_part(reference: (Seq<char>, Seq<char>), found: Seq<Link>, entries: Seq<Meta>)
    -> Result<Option<Seq<char>>, Failure> {
    match link_with_id(found, reference.1) {
        None => Err(
            failure(
                ErrorKind::ImportFile,
                "XLSX 结构无效：工作表「"@ + reference.0 + "」引用了不存在的关系 "@ + reference.1
                    + "。"@,
            ),
        ),
        Some(link) => if link.external || !ends_with(
            ascii_lowercase(link.relationship_type),
            "/worksheet"@,
        ) {
            Ok(None)
        } else {
            match resolved_target("xl/workbook.xml"@, link.target, "XLSX"@, "XLSX"@) {
                Err(error) => Err(error),
                Ok(part) => if entry_named(entries, part) is None {
                    Err(
                        failure(
                            ErrorKind::ImportFile,
                            "XLSX 结构无效：工作表「"@ + reference.0 + "」的部件不存在："@ + part
                                + "。"@,
                        ),
                    )
                } else {
                    Ok(Some(part))
                },
            }
        },
    }
}

/// The part of the worksheet that a reference names; none for what holds no cells; or why it is
/// refused.
fn find_sheet_part(reference: &SheetReference, found: &[Relationship], directory: &ZipDirectory) -> (result:
    LibraryResult<Option<String>>)
    ensures
        (match result {
            Ok(part) => Ok(optional(part)),
            Err(error) => Err(error@),
        }) == sheet_part(reference@, links(found@), directory.metas()),
{
    let link = match find_link(found, reference.relationship_id.as_str()) {
        None => {
            let mut detail = "XLSX 结构无效：工作表「".to_owned();
            detail.append(reference.name.as_str());
            detail.append("」引用了不存在的关系 ");
            detail.append(reference.relationship_id.as_str());
            detail.append("。");
            return Err(LibraryError::ImportFile(detail));
        },
        Some(link) => link,
    };
    let lower = to_ascii_lowercase(link.relationship_type.as_str());
    if link.external || !has_suffix(chars(lower.as_str()).as_slice(), "/worksheet") {
        return Ok(None);
    }
    match resolve_internal_target("xl/workbook.xml", link.target.as_str(), "XLSX", "XLSX") {
        Err(error) => Err(error),
        Ok(part) => {
            if directory.find(part.as_str()).is_none() {
                let mut detail = "XLSX 结构无效：工作表「".to_owned();
                detail.append(reference.name.as_str());
                detail.append("」的部件不存在：");
                detail.append(part.as_str());
                detail.append("。");
                return Err(LibraryError::ImportFile(detail));
            }
            Ok(Some(part))
        },
    }
}

/// The worksheets `done` and those that the references from `at` on name, or why one is refused.
pub open spec fn sheets_from(
    references: Seq<(Seq<char>, Seq<char>)>,
    at: int,
    done: Seq<(Seq<char>, Seq<char>)>,
    found: Seq<Link>,
    entries: Seq<Meta>,
) -> Result<Seq<(Seq<char>, Seq<char>)>, Failure>
    decreases references.len() - at,
{
    if at < 0 || at >= references.len() {
        Ok(done)
    } else {
        match sheet_part(references[at], found, entries) {
            Err(error) => Err(error),
            Ok(None) => sheets_from(references, at + 1, done, found, entries),
            Ok(Some(part)) => sheets_from(
                references,
                at + 1,
                done.push((references[at].0, part)),
                found,
                entries,
            ),
        }
    }
}

/// The worksheets that the references name.
fn sheets_of(
    references: &[SheetReference],
    found: &[Relationship],
    directory: &ZipDirectory,
) -> (result: LibraryResult<Vec<WorkbookSheet>>)
    ensures
        (match result {
            Ok(sheets) => Ok(sheet_views(sheets@)),
            Err(error) => Err(error@),
        }) == sheets_from(
            reference_views(references@),
            0,
            Seq::empty(),
            links(found@),
            directory.metas(),
        ),
{
    let ghost list = reference_views(references@);
    let mut sheets: Vec<WorkbookSheet> = Vec::new();
    assert(sheet_views(sheets@) =~= Seq::empty());
    let mut i: usize = 0;
    while i < references.len()
        invariant
            i <= references@.len(),
            list == reference_views(references@),
            sheets_from(list, i as int, sheet_views(sheets@), links(found@), directory.metas())
                == sheets_from(list, 0, Seq::empty(), links(found@), directory.metas()),
        decreases references@.len() - i,
    {
        assert(list[i as int] == references@[i as int]@);
        match find_sheet_part(&references[i], found, directory) {
            Err(error) => {
                return Err(error);
            },
            Ok(None) => {},
            Ok(Some(part)) => {
                let ghost before = sheet_views(sheets@);
                let ghost added = (references@[i as int].name@, part@);
                sheets.push(WorkbookSheet { name: references[i].name.clone(), part });
                assert(sheet_views(sheets@) =~= before.push(added));
            },
        }
        i = i + 1;
    }
    Ok(sheets)
}

/// The worksheets of a package and what the account holds after reading them, or why not.
pub open spec fn package_sheets(
    archive: Seq<u8>,
    entries: Seq<Meta>,
    limits: ArchiveLimits,
    spent: u64,
) -> Result<(Seq<(Seq<char>, Seq<char>)>, u64), Failure> {
    match needed_part(archive, entries, "xl/workbook.xml"@, limits, spent, "XLSX"@) {
        Err(error) => Err(error),
        Ok((workbook, spent)) => match root_name(xml_tokens(workbook, true), "XLSX"@) {
            Err(error) => Err(error),
            Ok(root) => if root != "workbook"@ {
                Err(
                    failure(
                        ErrorKind::ImportFile,
                        "XLSX 结构无效：xl/workbook.xml 不是工作簿定义。"@,
                    ),
                )
            } else {
                match optional_part(
                    archive,
                    entries,
                    "xl/_rels/workbook.xml.rels"@,
                    limits,
                    spent,
                    "XLSX"@,
                ) {
                    Err(error) => Err(error),
                    Ok((None, _)) => Err(
                        failure(
                            ErrorKind::ImportFile,
                            "XLSX 结构无效：缺少 xl/_rels/workbook.xml.rels。"@,
                        ),
                    ),
                    Ok((Some(relationships), spent)) => match distinct_links(
                        relationships,
                        "XLSX"@,
                    ) {
                        Err(error) => Err(error),
                        Ok(found) => match references_from(
                            xml_tokens(workbook, true),
                            0,
                            Seq::empty(),
                        ) {
                            Err(error) => Err(error),
                            Ok(references) => match sheets_from(
                                references,
                                0,
                                Seq::empty(),
                                found,
                                entries,
                            ) {
                                Err(error) => Err(error),
                                Ok(sheets) => if sheets.len() == 0 {
                                    Err(
                                        failure(
                                            ErrorKind::ImportFile,
                                            "XLSX 结构无效：工作簿没有可读取的工作表。"@,
                                        ),
                                    )
                                } else {
                                    Ok((sheets, spent))
                                },
                            },
                        },
                    },
                }
            },
        },
    }
}

// ---- Shared strings ----

/// How far the reading of shared strings is: those that are complete, the one that is not, whether
/// its text is being read, and whether a reading aid is.
#[verifier::ext_equal]
pub struct StringsReading {
    pub done: Seq<Seq<char>>,
    pub current: Option<Seq<char>>,
    pub in_text: bool,
    pub in_phonetic: bool,
}

/// After a start tag.
pub open spec fn strings_start(reading: StringsReading, name: Seq<char>) -> StringsReading {
    if name == "si"@ {
        StringsReading { current: Some(Seq::empty()), ..reading }
    } else if name == "rPh"@ {
        StringsReading { in_phonetic: true, ..reading }
    } else if name == "t"@ && reading.current is Some && !reading.in_phonetic {
        StringsReading { in_text: true, ..reading }
    } else {
        reading
    }
}

/// After an end tag.
pub open spec fn strings_end(reading: StringsReading, name: Seq<char>) -> StringsReading {
    if name == "t"@ {
        StringsReading { in_text: false, ..reading }
    } else if name == "rPh"@ {
        StringsReading { in_phonetic: false, ..reading }
    } else if name == "si"@ {
        match reading.current {
            Some(text) => StringsReading { done: reading.done.push(text), current: None, ..reading },
            None => reading,
        }
    } else {
        reading
    }
}

/// The shared strings that the events from `at` on complete, or why they are refused.
pub open spec fn strings_from(
    list: Seq<Token>,
    at: int,
    reading: StringsReading,
    format: Seq<char>,
) -> Result<Seq<Seq<char>>, Failure>
    decreases list.len() - at,
{
    if at < 0 || at >= list.len() {
        Ok(reading.done)
    } else {
        match list[at] {
            Token::Start(tag) => strings_from(
                list,
                at + 1,
                strings_start(reading, element_name(tag)),
                format,
            ),
            Token::Empty(tag) => if element_name(tag) == "si"@ {
                strings_from(
                    list,
                    at + 1,
                    StringsReading { done: reading.done.push(Seq::empty()), ..reading },
                    format,
                )
            } else {
                strings_from(list, at + 1, reading, format)
            },
            Token::End(name) => strings_from(
                list,
                at + 1,
                strings_end(reading, local_name(name)),
                format,
            ),
            Token::Text(raw) => if reading.in_text {
                match xml_text(raw, format) {
                    Err(error) => Err(error),
                    Ok(text) => strings_from(
                        list,
                        at + 1,
                        StringsReading {
                            current: match reading.current {
                                Some(before) => Some(before + text),
                                None => None,
                            },
                            ..reading
                        },
                        format,
                    ),
                }
            } else {
                strings_from(list, at + 1, reading, format)
            },
            Token::Eof => Ok(reading.done),
            Token::Failed(reason) => Err(
                failure(
                    ErrorKind::ImportFile,
                    "无法解析 "@ + format + " sharedStrings.xml："@ + reason,
                ),
            ),
            _ => strings_from(list, at + 1, reading, format),
        }
    }
}

/// Nothing was read yet.
pub open spec fn no_strings() -> StringsReading {
    StringsReading { done: Seq::empty(), current: None, in_text: false, in_phonetic: false }
}

/// The shared strings that a result holds, or why it holds none, by views.
pub open spec fn strings_outcome(result: LibraryResult<Vec<String>>) -> Result<
    Seq<Seq<char>>,
    Failure,
> {
    match result {
        Ok(strings) => Ok(views(strings@)),
        Err(error) => Err(error@),
    }
}

/// The shared strings that the events hold. Reading aids are no part of a string.
pub fn shared_strings_of(events: &[XmlEvent], format: &str) -> (result: LibraryResult<Vec<String>>)
    ensures
        strings_outcome(result) == strings_from(tokens(events@), 0, no_strings(), format@),
{
    let ghost list = tokens(events@);
    let mut strings: Vec<String> = Vec::new();
    let mut current: Option<String> = None;
    let mut in_text = false;
    let mut in_phonetic = false;
    assert(views(strings@) =~= Seq::empty());
    let mut i: usize = 0;
    while i < events.len()
        invariant
            i <= events@.len(),
            list == tokens(events@),
            strings_from(
                list,
                i as int,
                StringsReading { done: views(strings@), current: optional(current), in_text, in_phonetic },
                format@,
            ) == strings_from(list, 0, no_strings(), format@),
        decreases events@.len() - i,
    {
        assert(list[i as int] == events@[i as int]@);
        match &events[i] {
            XmlEvent::Start(tag) => {
                let name = local_tag_name(tag.as_str());
                if same(name.as_str(), "si") {
                    let empty = String::new();
                    assert(empty@ =~= Seq::empty());
                    current = Some(empty);
                } else if same(name.as_str(), "rPh") {
                    in_phonetic = true;
                } else if same(name.as_str(), "t") && current.is_some() && !in_phonetic {
                    in_text = true;
                }
            },
            XmlEvent::Empty(tag) => {
                if same(local_tag_name(tag.as_str()).as_str(), "si") {
                    let ghost before = views(strings@);
                    let empty = String::new();
                    assert(empty@ =~= Seq::empty());
                    strings.push(empty);
                    assert(views(strings@) =~= before.push(Seq::empty()));
                }
            },
            XmlEvent::End(tag) => {
                let name = without_prefix(tag.as_str());
                if same(name.as_str(), "t") {
                    in_text = false;
                } else if same(name.as_str(), "rPh") {
                    in_phonetic = false;
                } else if same(name.as_str(), "si") {
                    if let Some(text) = current {
                        let ghost before = views(strings@);
                        let ghost added = text@;
                        strings.push(text);
                        assert(views(strings@) =~= before.push(added));
                    }
                    current = None;
                }
            },
            XmlEvent::Text(raw) => {
                if in_text {
                    match decode_xml_text(raw.as_str(), format) {
                        Err(error) => {
                            return Err(error);
                        },
                        Ok(decoded) => {
                            if let Some(before) = current {
                                let mut text = before;
                                text.append(decoded.as_str());
                                current = Some(text);
                            }
                        },
                    }
                }
            },
            XmlEvent::Eof => {
                return Ok(strings);
            },
            XmlEvent::Failed(reason) => {
                let mut detail = "无法解析 ".to_owned();
                detail.append(format);
                detail.append(" sharedStrings.xml：");
                detail.append(reason.as_str());
                return Err(LibraryError::ImportFile(detail));
            },
            _ => {},
        }
        i = i + 1;
    }
    Ok(strings)
}

/// The shared strings of an XML text.
pub fn parse_shared_strings(xml: &[u8], format: &str) -> (result: LibraryResult<Vec<String>>)
    ensures
        strings_outcome(result) == strings_from(xml_tokens(xml@, false), 0, no_strings(), format@),
{
    shared_strings_of(read_events(xml, false).as_slice(), format)
}

/// The shared strings of a workbook, and whether it has any.
#[derive(Debug)]
pub struct SharedStrings {
    pub values: Vec<String>,
    pub present: bool,
}

/// [`SharedStrings`] by characters: none where the workbook has no such part.
pub open spec fn shared_view(shared: SharedStrings) -> Option<Seq<Seq<char>>> {
    if shared.present {
        Some(views(shared.values@))
    } else {
        None
    }
}

/// The shared string with this index, or why there is none.
pub open spec fn shared_string(shared: Option<Seq<Seq<char>>>, index: nat) -> Result<
    Seq<char>,
    Failure,
> {
    match shared {
        None => Err(
            failure(
                ErrorKind::ImportFile,
                "XLSX 结构无效：单元格引用了共享字符串，但缺少 xl/sharedStrings.xml。"@,
            ),
        ),
        Some(values) => if index < values.len() {
            Ok(values[index as int])
        } else {
            Err(
                failure(
                    ErrorKind::ImportFile,
                    "XLSX 结构无效：共享字符串索引 "@ + decimal(index) + " 越界（共 "@ + decimal(
                        values.len(),
                    ) + " 项）。"@,
                ),
            )
        },
    }
}

impl SharedStrings {
    /// The shared string with this index, or why there is none.
    pub fn get(&self, index: usize) -> (result: LibraryResult<&str>)
        ensures
            (match result {
                Ok(text) => Ok(text@),
                Err(error) => Err(error@),
            }) == shared_string(shared_view(*self), index as nat),
    {
        if !self.present {
            return Err(
                LibraryError::ImportFile(
                    "XLSX 结构无效：单元格引用了共享字符串，但缺少 xl/sharedStrings.xml。".to_owned(),
                ),
            );
        }
        let count: usize = self.values.len();
        assert(views(self.values@).len() == count);
        if index < count {
            return Ok(self.values[index].as_str());
        }
        let mut detail = "XLSX 结构无效：共享字符串索引 ".to_owned();
        push_decimal(&mut detail, index as u64);
        detail.append(" 越界（共 ");
        push_decimal(&mut detail, count as u64);
        detail.append(" 项）。");
        Err(LibraryError::ImportFile(detail))
    }
}

/// The part that the first relationship from `at` on names as the shared strings, or why it names
/// none. The ending is compared with the type in lower case, letter for letter.
pub open spec fn strings_target(found: Seq<Link>, at: int) -> Result<Option<Seq<char>>, Failure>
    decreases found.len() - at,
{
    if at < 0 || at >= found.len() {
        Ok(None)
    } else if ends_with(ascii_lowercase(found[at].relationship_type), "/sharedStrings"@)
        && !found[at].external {
        match resolved_target("xl/workbook.xml"@, found[at].target, "XLSX"@, "XLSX"@) {
            Err(error) => Err(error),
            Ok(part) => Ok(Some(part)),
        }
    } else {
        strings_target(found, at + 1)
    }
}

/// The part that the first relationship names as the shared strings, or why it names none.
pub fn find_strings_target(found: &[Relationship]) -> (result: LibraryResult<Option<String>>)
    ensures
        (match result {
            Ok(part) => Ok(optional(part)),
            Err(error) => Err(error@),
        }) == strings_target(links(found@), 0),
{
    let ghost all = links(found@);
    let mut i: usize = 0;
    while i < found.len()
        invariant
            i <= found@.len(),
            all == links(found@),
            strings_target(all, i as int) == strings_target(all, 0),
        decreases found@.len() - i,
    {
        assert(all[i as int] == found@[i as int]@);
        let lower = to_ascii_lowercase(found[i].relationship_type.as_str());
        if has_suffix(chars(lower.as_str()).as_slice(), "/sharedStrings") && !found[i].external {
            return match resolve_internal_target(
                "xl/workbook.xml",
                found[i].target.as_str(),
                "XLSX",
                "XLSX",
            ) {
                Err(error) => Err(error),
                Ok(part) => Ok(Some(part)),
            };
        }
        i = i + 1;
    }
    Ok(None)
}

/// The part of the shared strings and what the account holds after reading the relationships.
pub open spec fn strings_part(
    archive: Seq<u8>,
    entries: Seq<Meta>,
    limits: ArchiveLimits,
    spent: u64,
) -> Result<(Seq<char>, u64), Failure> {
    match optional_part(archive, entries, "xl/_rels/workbook.xml.rels"@, limits, spent, "XLSX"@) {
        Err(error) => Err(error),
        Ok((None, spent)) => Ok(("xl/sharedStrings.xml"@, spent)),
        Ok((Some(xml), spent)) => match strings_target(
            lenient_links(xml_tokens(xml, true), 0, Seq::empty()),
            0,
        ) {
            Err(error) => Err(error),
            Ok(Some(part)) => Ok((part, spent)),
            Ok(None) => Ok(("xl/sharedStrings.xml"@, spent)),
        },
    }
}

/// The shared strings of a package and what the account holds after reading them, or why not.
pub open spec fn package_strings(
    archive: Seq<u8>,
    entries: Seq<Meta>,
    limits: ArchiveLimits,
    spent: u64,
) -> Result<(Option<Seq<Seq<char>>>, u64), Failure> {
    match strings_part(archive, entries, limits, spent) {
        Err(error) => Err(error),
        Ok((part, spent)) => match optional_part(archive, entries, part, limits, spent, "XLSX"@) {
            Err(error) => Err(error),
            Ok((None, spent)) => Ok((None, spent)),
            Ok((Some(xml), spent)) => match strings_from(
                xml_tokens(xml, false),
                0,
                no_strings(),
                "XLSX"@,
            ) {
                Err(error) => Err(error),
                Ok(strings) => Ok((Some(strings), spent)),
            },
        },
    }
}

// ---- Packages ----

/// The mark of a compound document, which older and encrypted workbooks are.
pub open spec fn compound_mark() -> Seq<u8> {
    seq![0xd0u8, 0xcf, 0x11, 0xe0, 0xa1, 0xb1, 0x1a, 0xe1]
}

/// Whether the content types declare a workbook, and what the account holds after reading them.
pub open spec fn workbook_declared(
    archive: Seq<u8>,
    entries: Seq<Meta>,
    limits: ArchiveLimits,
    spent: u64,
) -> Result<u64, Failure> {
    match needed_part(archive, entries, "[Content_Types].xml"@, limits, spent, "XLSX"@) {
        Err(error) => Err(error),
        Ok((xml, spent)) => {
            let list = xml_tokens(xml, true);
            match root_name(list, "XLSX"@) {
                Err(error) => Err(error),
                Ok(root) => if root != "Types"@ {
                    Err(
                        failure(
                            ErrorKind::ImportFile,
                            "XLSX 结构无效：[Content_Types].xml 根节点不是 Types。"@,
                        ),
                    )
                } else {
                    match types_from(list, 0, no_types(), "XLSX"@, "XLSX"@) {
                        Err(error) => Err(error),
                        Ok(types) => match declared(types, "xl/workbook.xml"@) {
                            Some(found) => if found
                                == "application/vnd.openxmlformats-officedocument.spreadsheetml.sheet.main+xml"@
                                || found
                                == "application/vnd.openxmlformats-officedocument.spreadsheetml.template.main+xml"@ {
                                Ok(spent)
                            } else {
                                Err(
                                    failure(
                                        ErrorKind::ImportFile,
                                        "XLSX 结构无效：xl/workbook.xml 的声明内容类型是 "@
                                            + found + "，不是电子表格工作簿。"@,
                                    ),
                                )
                            },
                            None => Err(
                                failure(
                                    ErrorKind::ImportFile,
                                    "XLSX 结构无效：[Content_Types].xml 未声明 xl/workbook.xml 的内容类型。"@,
                                ),
                            ),
                        },
                    }
                },
            }
        },
    }
}

/// The entries of a package and what the account holds after opening it, or why it is refused.
pub open spec fn opened_package(archive: Seq<u8>, limits: ArchiveLimits, spent: u64) -> Result<
    (Seq<Meta>, u64),
    Failure,
> {
    if occurs_at(archive, compound_mark(), 0) {
        Err(
            failure(
                ErrorKind::ImportFile,
                "文件是 OLE 复合文档（旧版 .xls 或加密工作簿），不是有效的 XLSX。"@,
            ),
        )
    } else {
        match workbook_entries(archive, "XLSX"@) {
            Err(error) => Err(error),
            Ok(entries) => match optional_part(
                archive,
                entries,
                "mimetype"@,
                limits,
                spent,
                "XLSX"@,
            ) {
                Err(error) => Err(error),
                Ok((mimetype, spent)) => if mimetype matches Some(kind) && occurs_at(
                    kind,
                    vstd::utf8::encode_utf8("application/vnd.oasis.opendocument"@),
                    0,
                ) {
                    Err(
                        failure(
                            ErrorKind::ImportFile,
                            "这是 OpenDocument 表格（ODS），暂不支持；请另存为 XLSX。"@,
                        ),
                    )
                } else if entry_named(entries, "xl/vbaProject.bin"@) is Some {
                    Err(
                        failure(
                            ErrorKind::ImportFile,
                            "这是启用宏的工作簿（XLSM），出于安全考虑已拒绝读取。"@,
                        ),
                    )
                } else if entry_named(entries, "xl/workbook.bin"@) is Some {
                    Err(
                        failure(
                            ErrorKind::ImportFile,
                            "这是二进制工作簿（XLSB），暂不支持；请另存为 XLSX。"@,
                        ),
                    )
                } else {
                    match workbook_declared(archive, entries, limits, spent) {
                        Err(error) => Err(error),
                        Ok(spent) => Ok((entries, spent)),
                    }
                },
            },
        }
    }
}

/// A package that was opened.
#[derive(Debug)]
pub struct XlsxPackage<'a> {
    pub bytes: &'a [u8],
    pub directory: ZipDirectory,
}

impl<'a> XlsxPackage<'a> {
    /// Opens a package. Older, encrypted, binary and macro-enabled workbooks are refused.
    pub fn open(bytes: &'a [u8], budget: &mut ExpansionBudget) -> (result: LibraryResult<
        XlsxPackage<'a>,
    >)
        ensures
            final(budget).allowed() == old(budget).allowed(),
            result matches Ok(package) ==> package.bytes == bytes,
            (match result {
                Ok(package) => Ok((package.directory.metas(), final(budget).spent())),
                Err(error) => Err(error@),
            }) == opened_package(bytes@, old(budget).allowed(), old(budget).spent()),
    {
        let mark: [u8; 8] = [0xd0, 0xcf, 0x11, 0xe0, 0xa1, 0xb1, 0x1a, 0xe1];
        assert(mark@ =~= compound_mark());
        if bytes_at(bytes, vstd::array::array_as_slice(&mark), 0) {
            return Err(
                LibraryError::ImportFile(
                    "文件是 OLE 复合文档（旧版 .xls 或加密工作簿），不是有效的 XLSX。".to_owned(),
                ),
            );
        }
        let directory = match ZipDirectory::parse(bytes, "XLSX") {
            Err(error) => {
                return Err(error);
            },
            Ok(directory) => directory,
        };
        match directory.read_optional(bytes, "mimetype", budget, "XLSX") {
            Err(error) => {
                return Err(error);
            },
            Ok(Some(mimetype)) => {
                if bytes_at(
                    mimetype.as_slice(),
                    "application/vnd.oasis.opendocument".as_bytes(),
                    0,
                ) {
                    return Err(
                        LibraryError::ImportFile(
                            "这是 OpenDocument 表格（ODS），暂不支持；请另存为 XLSX。".to_owned(),
                        ),
                    );
                }
            },
            Ok(None) => {},
        }
        if directory.find("xl/vbaProject.bin").is_some() {
            return Err(
                LibraryError::ImportFile(
                    "这是启用宏的工作簿（XLSM），出于安全考虑已拒绝读取。".to_owned(),
                ),
            );
        }
        if directory.find("xl/workbook.bin").is_some() {
            return Err(
                LibraryError::ImportFile(
                    "这是二进制工作簿（XLSB），暂不支持；请另存为 XLSX。".to_owned(),
                ),
            );
        }
        let package = XlsxPackage { bytes, directory };
        match package.require_spreadsheet_content_type(budget) {
            Err(error) => Err(error),
            Ok(()) => Ok(package),
        }
    }

    /// Checks that the content types declare a workbook.
    pub fn require_spreadsheet_content_type(&self, budget: &mut ExpansionBudget) -> (result:
        LibraryResult<()>)
        ensures
            final(budget).allowed() == old(budget).allowed(),
            (match result {
                Ok(()) => Ok(final(budget).spent()),
                Err(error) => Err(error@),
            }) == workbook_declared(
                self.bytes@,
                self.directory.metas(),
                old(budget).allowed(),
                old(budget).spent(),
            ),
    {
        let xml = match self.directory.read(self.bytes, "[Content_Types].xml", budget, "XLSX") {
            Err(error) => {
                return Err(error);
            },
            Ok(xml) => xml,
        };
        let events = read_events(xml.as_slice(), true);
        let root = match root_local_name(events.as_slice(), "XLSX") {
            Err(error) => {
                return Err(error);
            },
            Ok(root) => root,
        };
        if !same(root.as_str(), "Types") {
            return Err(
                LibraryError::ImportFile(
                    "XLSX 结构无效：[Content_Types].xml 根节点不是 Types。".to_owned(),
                ),
            );
        }
        let types = match content_types_of(events.as_slice(), "XLSX", "XLSX") {
            Err(error) => {
                return Err(error);
            },
            Ok(types) => types,
        };
        match types.declared_type("xl/workbook.xml") {
            Some(found) => {
                if same(
                    found.as_str(),
                    "application/vnd.openxmlformats-officedocument.spreadsheetml.sheet.main+xml",
                ) || same(
                    found.as_str(),
                    "application/vnd.openxmlformats-officedocument.spreadsheetml.template.main+xml",
                ) {
                    return Ok(());
                }
                let mut detail = "XLSX 结构无效：xl/workbook.xml 的声明内容类型是 ".to_owned();
                detail.append(found.as_str());
                detail.append("，不是电子表格工作簿。");
                Err(LibraryError::ImportFile(detail))
            },
            None => Err(
                LibraryError::ImportFile(
                    "XLSX 结构无效：[Content_Types].xml 未声明 xl/workbook.xml 的内容类型。".to_owned(),
                ),
            ),
        }
    }

    /// The worksheets, in the order of the workbook. What holds no cells is left out.
    pub fn sheets(&self, budget: &mut ExpansionBudget) -> (result: LibraryResult<Vec<WorkbookSheet>>)
        ensures
            final(budget).allowed() == old(budget).allowed(),
            (match result {
                Ok(sheets) => Ok((sheet_views(sheets@), final(budget).spent())),
                Err(error) => Err(error@),
            }) == package_sheets(
                self.bytes@,
                self.directory.metas(),
                old(budget).allowed(),
                old(budget).spent(),
            ),
    {
        let workbook = match self.directory.read(self.bytes, "xl/workbook.xml", budget, "XLSX") {
            Err(error) => {
                return Err(error);
            },
            Ok(workbook) => workbook,
        };
        let events = read_events(workbook.as_slice(), true);
        let root = match root_local_name(events.as_slice(), "XLSX") {
            Err(error) => {
                return Err(error);
            },
            Ok(root) => root,
        };
        if !same(root.as_str(), "workbook") {
            return Err(
                LibraryError::ImportFile("XLSX 结构无效：xl/workbook.xml 不是工作簿定义。".to_owned()),
            );
        }
        let relationships = match self.directory.read_optional(
            self.bytes,
            "xl/_rels/workbook.xml.rels",
            budget,
            "XLSX",
        ) {
            Err(error) => {
                return Err(error);
            },
            Ok(None) => {
                return Err(
                    LibraryError::ImportFile(
                        "XLSX 结构无效：缺少 xl/_rels/workbook.xml.rels。".to_owned(),
                    ),
                );
            },
            Ok(Some(relationships)) => relationships,
        };
        let found = match parse_relationships(relationships.as_slice(), "XLSX") {
            Err(error) => {
                return Err(error);
            },
            Ok(found) => found,
        };
        let references = match sheet_references_of(events.as_slice()) {
            Err(error) => {
                return Err(error);
            },
            Ok(references) => references,
        };
        let sheets = match sheets_of(references.as_slice(), found.as_slice(), &self.directory) {
            Err(error) => {
                return Err(error);
            },
            Ok(sheets) => sheets,
        };
        assert(sheet_views(sheets@).len() == sheets@.len());
        if sheets.len() == 0 {
            return Err(
                LibraryError::ImportFile("XLSX 结构无效：工作簿没有可读取的工作表。".to_owned()),
            );
        }
        Ok(sheets)
    }

    /// The part of the shared strings.
    pub fn shared_strings_part(&self, budget: &mut ExpansionBudget) -> (result: LibraryResult<String>)
        ensures
            final(budget).allowed() == old(budget).allowed(),
            spent_outcome(result, final(budget).spent()) == strings_part(
                self.bytes@,
                self.directory.metas(),
                old(budget).allowed(),
                old(budget).spent(),
            ),
    {
        match self.directory.read_optional(
            self.bytes,
            "xl/_rels/workbook.xml.rels",
            budget,
            "XLSX",
        ) {
            Err(error) => Err(error),
            Ok(None) => Ok("xl/sharedStrings.xml".to_owned()),
            Ok(Some(xml)) => {
                let found = parse_relationships_list(xml.as_slice());
                match find_strings_target(found.as_slice()) {
                    Err(error) => Err(error),
                    Ok(Some(part)) => Ok(part),
                    Ok(None) => Ok("xl/sharedStrings.xml".to_owned()),
                }
            },
        }
    }

    /// The shared strings.
    pub fn shared_strings(&self, budget: &mut ExpansionBudget) -> (result: LibraryResult<
        SharedStrings,
    >)
        ensures
            final(budget).allowed() == old(budget).allowed(),
            (match result {
                Ok(shared) => Ok((shared_view(shared), final(budget).spent())),
                Err(error) => Err(error@),
            }) == package_strings(
                self.bytes@,
                self.directory.metas(),
                old(budget).allowed(),
                old(budget).spent(),
            ),
    {
        let part = match self.shared_strings_part(budget) {
            Err(error) => {
                return Err(error);
            },
            Ok(part) => part,
        };
        match self.directory.read_optional(self.bytes, part.as_str(), budget, "XLSX") {
            Err(error) => Err(error),
            Ok(None) => Ok(SharedStrings { values: Vec::new(), present: false }),
            Ok(Some(xml)) => match parse_shared_strings(xml.as_slice(), "XLSX") {
                Err(error) => Err(error),
                Ok(values) => Ok(SharedStrings { values, present: true }),
            },
        }
    }

    /// Expands a part.
    pub fn read_part(&self, name: &str, budget: &mut ExpansionBudget) -> (result: LibraryResult<
        Vec<u8>,
    >)
        ensures
            final(budget).allowed() == old(budget).allowed(),
            spent_outcome(result, final(budget).spent()) == needed_part(
                self.bytes@,
                self.directory.metas(),
                name@,
                old(budget).allowed(),
                old(budget).spent(),
                "XLSX"@,
            ),
    {
        self.directory.read(self.bytes, name, budget, "XLSX")
    }

    /// Whether the name of a part starts with the prefix.
    pub fn has_part_prefix(&self, prefix: &str) -> (found: bool)
        ensures
            found == has_entry_under(self.directory.metas(), prefix@),
    {
        self.directory.has_prefix(prefix)
    }
}

// ---- Laws ----

/// Of several relationships with one id the first counts; there is none where the id does not occur.
pub proof fn first_relationships_count(found: Seq<Link>, id: Seq<char>)
    ensures
        link_with_id(found, id) is None <==> forall|i: int|
            0 <= i < found.len() ==> (#[trigger] found[i]).id != id,
        forall|at: int|
            0 <= at < found.len() && (#[trigger] found[at]).id == id && (forall|i: int|
                0 <= i < at ==> (#[trigger] found[i]).id != id) ==> link_with_id(found, id) == Some(
                found[at],
            ),
    decreases found.len(),
{
    if found.len() > 0 && found[0].id != id {
        let rest = found.skip(1);
        first_relationships_count(rest, id);
        assert forall|i: int| 0 <= i < rest.len() implies rest[i] == #[trigger] found[i + 1] by {}
        assert forall|at: int|
            0 <= at < found.len() && (#[trigger] found[at]).id == id && (forall|i: int|
                0 <= i < at ==> (#[trigger] found[i]).id != id) implies link_with_id(found, id)
            == Some(found[at]) by {
            assert(rest[at - 1] == found[at]);
            assert forall|i: int| 0 <= i < at - 1 implies (#[trigger] rest[i]).id != id by {
                assert(found[i + 1].id != id);
            }
        }
        if link_with_id(rest, id) is None {
            assert forall|i: int| 0 <= i < found.len() implies (#[trigger] found[i]).id != id by {
                if i > 0 {
                    assert(rest[i - 1].id != id);
                }
            }
        } else {
            let i = choose|i: int| 0 <= i < rest.len() && (#[trigger] rest[i]).id == id;
            assert(found[i + 1].id == id);
        }
    }
}

/// The relationship that an element declares, if it declares one that can be read.
pub open spec fn declares_link(tag: Seq<char>) -> bool {
    element_name(tag) == "Relationship"@ && link_of(tag, "XLSX"@) is Ok
}

/// The relationships of a workbook are those that its elements declare, in order; elements that declare
/// none are passed over.
pub proof fn declared_relationships_are_kept(tags: Seq<Seq<char>>)
    ensures
        lenient_links(
            tags.map_values(|tag: Seq<char>| Token::Empty(tag)) + seq![Token::Eof],
            0,
            Seq::empty(),
        ) == tags.filter(|tag: Seq<char>| declares_link(tag)).map_values(
            |tag: Seq<char>| link_of(tag, "XLSX"@)->Ok_0,
        ),
{
    assert(tags.take(0) =~= Seq::empty());
    reveal(Seq::filter);
    lemma_declared(tags, 0);
    assert(tags.take(0).filter(|tag: Seq<char>| declares_link(tag)).map_values(
        |tag: Seq<char>| link_of(tag, "XLSX"@)->Ok_0,
    ) =~= Seq::<Link>::empty());
}

proof fn lemma_declared(tags: Seq<Seq<char>>, at: int)
    requires
        0 <= at <= tags.len(),
    ensures
        lenient_links(
            tags.map_values(|tag: Seq<char>| Token::Empty(tag)) + seq![Token::Eof],
            at,
            tags.take(at).filter(|tag: Seq<char>| declares_link(tag)).map_values(
                |tag: Seq<char>| link_of(tag, "XLSX"@)->Ok_0,
            ),
        ) == tags.filter(|tag: Seq<char>| declares_link(tag)).map_values(
            |tag: Seq<char>| link_of(tag, "XLSX"@)->Ok_0,
        ),
    decreases tags.len() - at,
{
    let list = tags.map_values(|tag: Seq<char>| Token::Empty(tag)) + seq![Token::Eof];
    let keep = |tag: Seq<char>| declares_link(tag);
    let read = |tag: Seq<char>| link_of(tag, "XLSX"@)->Ok_0;
    if at == tags.len() {
        assert(tags.take(at) =~= tags);
        assert(list[at] == Token::Eof);
    } else {
        lemma_declared(tags, at + 1);
        assert(list[at] == Token::Empty(tags[at]));
        let longer = tags.take(at + 1);
        assert(longer.drop_last() =~= tags.take(at));
        assert(longer.last() == tags[at]);
        reveal(Seq::filter);
        if declares_link(tags[at]) {
            assert(longer.filter(keep) == tags.take(at).filter(keep).push(tags[at]));
            assert(longer.filter(keep).map_values(read) =~= tags.take(at).filter(keep).map_values(
                read,
            ).push(link_of(tags[at], "XLSX"@)->Ok_0));
        } else {
            assert(longer.filter(keep) == tags.take(at).filter(keep));
        }
    }
}

/// A worksheet stands in the part to which its relationship leads; a relationship to something else is
/// passed over, and one that leads nowhere is refused.
pub proof fn worksheets_stand_where_relationships_lead(
    reference: (Seq<char>, Seq<char>),
    found: Seq<Link>,
    entries: Seq<Meta>,
    at: int,
)
    requires
        0 <= at < found.len(),
        found[at].id == reference.1,
        forall|i: int| 0 <= i < at ==> (#[trigger] found[i]).id != reference.1,
    ensures
        ({
            let link = found[at];
            let part = sheet_part(reference, found, entries);
            let leads = resolved_target("xl/workbook.xml"@, link.target, "XLSX"@, "XLSX"@);
            let sheet = !link.external && ends_with(
                ascii_lowercase(link.relationship_type),
                "/worksheet"@,
            );
            &&& part == Ok::<Option<Seq<char>>, Failure>(None) <==> !sheet
            &&& sheet && leads is Ok && entry_named(entries, leads->Ok_0) is Some ==> part == Ok::<
                Option<Seq<char>>,
                Failure,
            >(Some(leads->Ok_0))
            &&& sheet && (leads is Err || entry_named(entries, leads->Ok_0) is None) ==> part is Err
        }),
{
    first_relationships_count(found, reference.1);
}

/// The worksheets of a workbook are those of its references that lead to one, under their names and in
/// their order.
pub proof fn worksheets_keep_the_order_of_references(
    references: Seq<(Seq<char>, Seq<char>)>,
    found: Seq<Link>,
    entries: Seq<Meta>,
)
    requires
        forall|i: int|
            0 <= i < references.len() ==> sheet_part(#[trigger] references[i], found, entries) is Ok,
    ensures
        sheets_from(references, 0, Seq::empty(), found, entries) == Ok::<
            Seq<(Seq<char>, Seq<char>)>,
            Failure,
        >(listed_sheets(references, found, entries)),
{
    assert(references.take(0) =~= Seq::empty());
    reveal(Seq::filter);
    assert(listed_sheets(references.take(0), found, entries) =~= Seq::empty());
    lemma_listed(references, 0, found, entries);
}

/// The references that lead to a worksheet, each with the part of it.
pub open spec fn listed_sheets(
    references: Seq<(Seq<char>, Seq<char>)>,
    found: Seq<Link>,
    entries: Seq<Meta>,
) -> Seq<(Seq<char>, Seq<char>)> {
    references.filter(
        |reference: (Seq<char>, Seq<char>)| sheet_part(reference, found, entries)->Ok_0 is Some,
    ).map_values(
        |reference: (Seq<char>, Seq<char>)|
            (reference.0, sheet_part(reference, found, entries)->Ok_0->0),
    )
}

proof fn lemma_listed(
    references: Seq<(Seq<char>, Seq<char>)>,
    at: int,
    found: Seq<Link>,
    entries: Seq<Meta>,
)
    requires
        0 <= at <= references.len(),
        forall|i: int|
            0 <= i < references.len() ==> sheet_part(#[trigger] references[i], found, entries) is Ok,
    ensures
        sheets_from(
            references,
            at,
            listed_sheets(references.take(at), found, entries),
            found,
            entries,
        ) == Ok::<Seq<(Seq<char>, Seq<char>)>, Failure>(listed_sheets(references, found, entries)),
    decreases references.len() - at,
{
    if at == references.len() {
        assert(references.take(at) =~= references);
    } else {
        lemma_listed(references, at + 1, found, entries);
        let keep = |reference: (Seq<char>, Seq<char>)|
            sheet_part(reference, found, entries)->Ok_0 is Some;
        let longer = references.take(at + 1);
        let one = references[at];
        assert(longer.drop_last() =~= references.take(at));
        assert(longer.last() == one);
        assert(sheet_part(one, found, entries) is Ok);
        reveal(Seq::filter);
        if sheet_part(one, found, entries)->Ok_0 is Some {
            assert(longer.filter(keep) == references.take(at).filter(keep).push(one));
            assert(listed_sheets(longer, found, entries) =~= listed_sheets(
                references.take(at),
                found,
                entries,
            ).push((one.0, sheet_part(one, found, entries)->Ok_0->0)));
        } else {
            assert(longer.filter(keep) == references.take(at).filter(keep));
        }
    }
}

/// A shared string is found under its index, from zero on, where the workbook has so many.
pub proof fn shared_strings_are_found_by_index(values: Seq<Seq<char>>, index: nat)
    ensures
        shared_string(Some(values), index) is Ok <==> index < values.len(),
        index < values.len() ==> shared_string(Some(values), index) == Ok::<Seq<char>, Failure>(
            values[index as int],
        ),
        shared_string(None, index) is Err,
{
}

/// A package that is opened is a workbook of the known kind: no older or encrypted one, and none with
/// macros or in binary form.
pub proof fn other_workbooks_are_refused(archive: Seq<u8>, limits: ArchiveLimits, spent: u64)
    ensures
        occurs_at(archive, compound_mark(), 0) ==> opened_package(archive, limits, spent) is Err,
        opened_package(archive, limits, spent) matches Ok((entries, after)) ==> workbook_entries(
            archive,
            "XLSX"@,
        ) == Ok::<Seq<Meta>, Failure>(entries) && entry_named(entries, "xl/vbaProject.bin"@) is None
            && entry_named(entries, "xl/workbook.bin"@) is None,
{
}

} // verus!
