//! The slides of a presentation: checking a PPTX package and finding its slides and charts.

use vstd::prelude::*;
use crate::error::{failure, outcome, ErrorKind, Failure, LibraryError, LibraryResult};
use crate::limits::{limits_for, ArchiveLimits, INDEX_ARCHIVE_EXPANDED_BYTES};
use crate::package::{entry_views, package_entries, read_package_entries, Entry, PackageEntry};
use crate::parts::{
    relationship_is_chart, relationship_is_slide, resolve_internal_target, resolved_target,
};
use crate::relations::{
    checked_references, declared, find_relationship, link_with_id, links, package_types,
    parse_content_types, part_contents, part_links, read_entry, read_entry_optional,
    read_relationships, relationships_are_found_by_id, require_unique_ids, required_part, texts_outcome, unique_ids,
    validate_relationship_references, ContentTypes, Link, Relationship, Types,
};
use crate::text::{
    ascii_lowercase, ends_with, list_contains, same, sort_texts, sorted, sorting_orders_and_keeps,
    strictly_ordered, trim, trimmed, views,
};
use crate::xml::{
    element_name, element_pairs, get_value, local_name, local_tag_name, read_attributes, read_events,
    root_name, tokens, value_of, without_prefix, xml_root_local_name, xml_tokens, Token, XmlEvent,
};

verus! {

/// The part that defines a presentation.
pub const PRESENTATION_PART: &'static str = "ppt/presentation.xml";

/// The content type of that part.
pub const PRESENTATION_CONTENT_TYPE: &'static str =
    "application/vnd.openxmlformats-officedocument.presentationml.presentation.main+xml";

/// The content type of a slide.
pub const SLIDE_CONTENT_TYPE: &'static str =
    "application/vnd.openxmlformats-officedocument.presentationml.slide+xml";

/// The slides of a presentation in their order, and the charts they show.
#[derive(Debug, Clone, PartialEq, Eq)]
pub struct PptxGraph {
    pub slide_parts: Vec<String>,
    pub chart_parts: Vec<String>,
}

/// [`PptxGraph`] by characters.
#[verifier::ext_equal]
pub struct Graph {
    pub slides: Seq<Seq<char>>,
    pub charts: Seq<Seq<char>>,
}

impl View for PptxGraph {
    type V = Graph;

    open spec fn view(&self) -> Graph {
        Graph { slides: views(self.slide_parts@), charts: views(self.chart_parts@) }
    }
}

/// An error in the structure of a presentation.
pub open spec fn bad_pptx(detail: Seq<char>) -> Failure {
    failure(ErrorKind::ImportFile, "PPTX 结构无效："@ + detail)
}

/// An error in the structure of a presentation.
fn bad_pptx_error(detail: &str) -> (error: LibraryError)
    ensures
        error@ == bad_pptx(detail@),
{
    let mut message = "PPTX 结构无效：".to_owned();
    message.append(detail);
    LibraryError::ImportFile(message)
}

/// An error in the structure of a presentation that names its subject.
fn bad_pptx_about(before: &str, subject: &str, after: &str) -> (error: LibraryError)
    ensures
        error@ == bad_pptx(before@ + subject@ + after@),
{
    let mut detail = before.to_owned();
    detail.append(subject);
    detail.append(after);
    bad_pptx_error(detail.as_str())
}

// ---- The list of slides ----

/// The relationship that an entry of the slide list names, or why it names none.
pub open spec fn slide_id_of(tag: Seq<char>) -> Result<Seq<char>, Failure> {
    match element_pairs(tag, "PPTX p:sldId"@) {
        Err(error) => Err(error),
        Ok(pairs) => {
            let found = match value_of(pairs, "r:id"@) {
                Some(id) => Some(id),
                None => value_of(pairs, "id"@),
            };
            match found {
                Some(id) if trim(id).len() > 0 => Ok(id),
                _ => Err(bad_pptx("p:sldId 缺少 r:id。"@)),
            }
        },
    }
}

/// The relationship that an entry of the slide list names, or why it names none.
fn read_slide_id(tag: &str) -> (result: LibraryResult<String>)
    ensures
        outcome(result) == slide_id_of(tag@),
{
    let pairs = match read_attributes(tag, "PPTX p:sldId") {
        Err(error) => {
            return Err(error);
        },
        Ok(pairs) => pairs,
    };
    let found = match get_value(pairs.as_slice(), "r:id") {
        Some(id) => Some(id),
        None => get_value(pairs.as_slice(), "id"),
    };
    match found {
        Some(id) => {
            if trimmed(id.as_str()).as_str().is_empty() {
                Err(bad_pptx_error("p:sldId 缺少 r:id。"))
            } else {
                Ok(id.clone())
            }
        },
        None => Err(bad_pptx_error("p:sldId 缺少 r:id。")),
    }
}

/// The ids `found` and those that the slide list names from `at` on, or why it is refused;
/// `inside` says whether the events stand in the list.
pub open spec fn slide_ids_from(
    list: Seq<Token>,
    at: int,
    inside: bool,
    found: Seq<Seq<char>>,
) -> Result<Seq<Seq<char>>, Failure>
    decreases list.len() - at,
{
    if at < 0 || at >= list.len() {
        Ok(found)
    } else {
        match list[at] {
            Token::Start(tag) | Token::Empty(tag) => {
                let name = element_name(tag);
                if name == "sldIdLst"@ {
                    slide_ids_from(list, at + 1, true, found)
                } else if name == "sldId"@ && inside {
                    match slide_id_of(tag) {
                        Err(error) => Err(error),
                        Ok(id) => slide_ids_from(list, at + 1, inside, found.push(id)),
                    }
                } else {
                    slide_ids_from(list, at + 1, inside, found)
                }
            },
            Token::End(name) => slide_ids_from(
                list,
                at + 1,
                inside && local_name(name) != "sldIdLst"@,
                found,
            ),
            Token::Eof => Ok(found),
            Token::Failed(reason) => Err(
                failure(
                    ErrorKind::ImportFile,
                    "无法解析 PPTX presentation 幻灯片列表："@ + reason,
                ),
            ),
            _ => slide_ids_from(list, at + 1, inside, found),
        }
    }
}

/// The ids that the slide list names, or why it is refused.
pub fn slide_ids_of(events: &[XmlEvent]) -> (result: LibraryResult<Vec<String>>)
    ensures
        texts_outcome(result) == slide_ids_from(tokens(events@), 0, false, Seq::empty()),
{
    let ghost list = tokens(events@);
    let mut found: Vec<String> = Vec::new();
    let mut inside = false;
    assert(views(found@) =~= Seq::empty());
    let mut i: usize = 0;
    while i < events.len()
        invariant
            i <= events@.len(),
            list == tokens(events@),
            slide_ids_from(list, i as int, inside, views(found@)) == slide_ids_from(
                list,
                0,
                false,
                Seq::empty(),
            ),
        decreases events@.len() - i,
    {
        assert(list[i as int] == events@[i as int]@);
        let element: Option<&String> = match &events[i] {
            XmlEvent::Start(tag) => Some(tag),
            XmlEvent::Empty(tag) => Some(tag),
            XmlEvent::End(name) => {
                if same(without_prefix(name.as_str()).as_str(), "sldIdLst") {
                    inside = false;
                }
                None
            },
            XmlEvent::Eof => {
                return Ok(found);
            },
            XmlEvent::Failed(reason) => {
                let mut message = "无法解析 PPTX presentation 幻灯片列表：".to_owned();
                message.append(reason.as_str());
                return Err(LibraryError::ImportFile(message));
            },
            _ => None,
        };
        if let Some(tag) = element {
            let name = local_tag_name(tag.as_str());
            if same(name.as_str(), "sldIdLst") {
                inside = true;
            } else if same(name.as_str(), "sldId") && inside {
                match read_slide_id(tag.as_str()) {
                    Err(error) => {
                        return Err(error);
                    },
                    Ok(id) => {
                        let ghost before = views(found@);
                        let ghost added = id@;
                        found.push(id);
                        assert(views(found@) =~= before.push(added));
                    },
                }
            }
        }
        i = i + 1;
    }
    Ok(found)
}

/// The ids that the slide list of a presentation names, or why it is refused.
pub fn presentation_slide_relationship_ids(xml: &[u8]) -> (result: LibraryResult<Vec<String>>)
    ensures
        texts_outcome(result) == slide_ids_from(xml_tokens(xml@, true), 0, false, Seq::empty()),
{
    let events = read_events(xml, true);
    slide_ids_of(events.as_slice())
}

// ---- One target ----

/// The part that a relationship leads to, with its content type declared, or why it is refused.
pub open spec fn checked_target(
    entries: Seq<Entry>,
    types: Types,
    source_part: Seq<char>,
    link: Link,
) -> Result<Seq<char>, Failure> {
    match resolved_target(source_part, link.target, "PPTX"@, "OOXML"@) {
        Err(error) => Err(error),
        Ok(target) => match required_part(entries, target, "PPTX"@) {
            Err(error) => Err(error),
            Ok(_) => if declared(types, target) is None {
                Err(bad_pptx("关系目标缺少内容类型声明："@ + target + "。"@))
            } else {
                Ok(target)
            },
        },
    }
}

/// The part that a relationship leads to, with its content type declared, or why it is refused.
fn check_target(
    entries: &[PackageEntry],
    types: &ContentTypes,
    source_part: &str,
    relationship: &Relationship,
) -> (result: LibraryResult<String>)
    ensures
        outcome(result) == checked_target(
            entry_views(entries@),
            types@,
            source_part@,
            relationship@,
        ),
{
    match resolve_internal_target(source_part, relationship.target.as_str(), "PPTX", "OOXML") {
        Err(error) => Err(error),
        Ok(target) => match read_entry(entries, target.as_str(), "PPTX") {
            Err(error) => Err(error),
            Ok(_) => {
                if types.declared_type(target.as_str()).is_none() {
                    Err(bad_pptx_about("关系目标缺少内容类型声明：", target.as_str(), "。"))
                } else {
                    Ok(target)
                }
            },
        },
    }
}

/// The charts `found` and those that the relationships from `at` on lead to, or why one is refused.
pub open spec fn charts_from(
    entries: Seq<Entry>,
    types: Types,
    slide_part: Seq<char>,
    slide_links: Seq<Link>,
    at: int,
    found: Seq<Seq<char>>,
) -> Result<Seq<Seq<char>>, Failure>
    decreases slide_links.len() - at,
{
    if at < 0 || at >= slide_links.len() {
        Ok(found)
    } else if slide_links[at].external {
        charts_from(entries, types, slide_part, slide_links, at + 1, found)
    } else {
        match checked_target(entries, types, slide_part, slide_links[at]) {
            Err(error) => Err(error),
            Ok(target) => charts_from(
                entries,
                types,
                slide_part,
                slide_links,
                at + 1,
                if ends_with(ascii_lowercase(slide_links[at].relationship_type), "/chart"@) {
                    found.push(target)
                } else {
                    found
                },
            ),
        }
    }
}

/// Appends the charts that the relationships of a slide lead to.
fn add_charts(
    entries: &[PackageEntry],
    types: &ContentTypes,
    slide_part: &str,
    relationships: &Vec<Relationship>,
    charts: &mut Vec<String>,
) -> (result: LibraryResult<()>)
    ensures
        (match result {
            Ok(()) => Ok(views(final(charts)@)),
            Err(error) => Err(error@),
        }) == charts_from(
            entry_views(entries@),
            types@,
            slide_part@,
            links(relationships@),
            0,
            views(old(charts)@),
        ),
{
    let ghost all = links(relationships@);
    let ghost start = views(charts@);
    let mut i: usize = 0;
    while i < relationships.len()
        invariant
            i <= relationships@.len(),
            all == links(relationships@),
            start == views(old(charts)@),
            charts_from(
                entry_views(entries@),
                types@,
                slide_part@,
                all,
                i as int,
                views(charts@),
            ) == charts_from(entry_views(entries@), types@, slide_part@, all, 0, start),
        decreases relationships@.len() - i,
    {
        assert(all[i as int] == relationships@[i as int]@);
        if !relationships[i].external {
            match check_target(entries, types, slide_part, &relationships[i]) {
                Err(error) => {
                    return Err(error);
                },
                Ok(target) => {
                    if relationship_is_chart(relationships[i].relationship_type.as_str()) {
                        let ghost before = views(charts@);
                        let ghost added = target@;
                        charts.push(target);
                        assert(views(charts@) =~= before.push(added));
                    }
                },
            }
        }
        i = i + 1;
    }
    Ok(())
}

// ---- One slide ----

/// The slide that an id of the slide list leads to, or why it is refused.
pub open spec fn slide_part_of(
    presentation_links: Seq<Link>,
    id: Seq<char>,
    slides: Seq<Seq<char>>,
) -> Result<Seq<char>, Failure> {
    match link_with_id(presentation_links, id) {
        None => Err(
            bad_pptx("p:sldId 引用了不存在的 presentation relationship "@ + id + "。"@),
        ),
        Some(link) => if link.external || !ends_with(
            ascii_lowercase(link.relationship_type),
            "/slide"@,
        ) {
            Err(bad_pptx("sldIdLst 只能引用包内 slide relationship。"@))
        } else {
            match resolved_target(PRESENTATION_PART@, link.target, "PPTX"@, "OOXML"@) {
                Err(error) => Err(error),
                Ok(part) => if slides.contains(part) {
                    Err(bad_pptx("幻灯片被重复引用："@ + part + "。"@))
                } else {
                    Ok(part)
                },
            }
        },
    }
}

/// The slide that an id of the slide list leads to, or why it is refused.
fn find_slide_part(
    presentation_links: &Vec<Relationship>,
    id: &str,
    slides: &Vec<String>,
) -> (result: LibraryResult<String>)
    ensures
        outcome(result) == slide_part_of(links(presentation_links@), id@, views(slides@)),
{
    match find_relationship(presentation_links.as_slice(), id) {
        None => Err(
            bad_pptx_about("p:sldId 引用了不存在的 presentation relationship ", id, "。"),
        ),
        Some(relationship) => {
            if relationship.external || !relationship_is_slide(
                relationship.relationship_type.as_str(),
            ) {
                return Err(bad_pptx_error("sldIdLst 只能引用包内 slide relationship。"));
            }
            match resolve_internal_target(
                PRESENTATION_PART,
                relationship.target.as_str(),
                "PPTX",
                "OOXML",
            ) {
                Err(error) => Err(error),
                Ok(part) => {
                    if list_contains(slides, part.as_str()) {
                        Err(bad_pptx_about("幻灯片被重复引用：", part.as_str(), "。"))
                    } else {
                        Ok(part)
                    }
                },
            }
        },
    }
}

/// The charts after one slide was checked, or why it is refused.
pub open spec fn charts_with_slide(
    entries: Seq<Entry>,
    types: Types,
    slide_part: Seq<char>,
    charts: Seq<Seq<char>>,
) -> Result<Seq<Seq<char>>, Failure> {
    match required_part(entries, slide_part, "PPTX"@) {
        Err(error) => Err(error),
        Ok(xml) => if declared(types, slide_part) != Some(SLIDE_CONTENT_TYPE@) {
            Err(bad_pptx("幻灯片部件缺少正确内容类型："@ + slide_part + "。"@))
        } else {
            match root_name(xml_tokens(xml, true), "PPTX"@) {
                Err(error) => Err(error),
                Ok(root) => if root != "sld"@ {
                    Err(bad_pptx("幻灯片部件根节点不是 sld："@ + slide_part + "。"@))
                } else {
                    match part_links(entries, slide_part, "PPTX"@) {
                        Err(error) => Err(error),
                        Ok(found) => {
                            let slide_links = match found {
                                Some(some) => some,
                                None => Seq::empty(),
                            };
                            match unique_ids(slide_links, "PPTX"@) {
                                Err(error) => Err(error),
                                Ok(()) => match checked_references(
                                    xml,
                                    slide_links,
                                    slide_part,
                                    "PPTX"@,
                                ) {
                                    Err(error) => Err(error),
                                    Ok(()) => charts_from(
                                        entries,
                                        types,
                                        slide_part,
                                        slide_links,
                                        0,
                                        charts,
                                    ),
                                },
                            }
                        },
                    }
                },
            }
        },
    }
}

/// Checks one slide and appends its charts.
fn add_slide(
    entries: &[PackageEntry],
    types: &ContentTypes,
    slide_part: &str,
    charts: &mut Vec<String>,
) -> (result: LibraryResult<()>)
    ensures
        (match result {
            Ok(()) => Ok(views(final(charts)@)),
            Err(error) => Err(error@),
        }) == charts_with_slide(entry_views(entries@), types@, slide_part@, views(old(charts)@)),
{
    let xml = match read_entry(entries, slide_part, "PPTX") {
        Err(error) => {
            return Err(error);
        },
        Ok(xml) => xml,
    };
    let typed = match types.declared_type(slide_part) {
        Some(content_type) => same(content_type.as_str(), SLIDE_CONTENT_TYPE),
        None => false,
    };
    if !typed {
        return Err(bad_pptx_about("幻灯片部件缺少正确内容类型：", slide_part, "。"));
    }
    match xml_root_local_name(xml, "PPTX") {
        Err(error) => {
            return Err(error);
        },
        Ok(root) => {
            if !same(root.as_str(), "sld") {
                return Err(bad_pptx_about("幻灯片部件根节点不是 sld：", slide_part, "。"));
            }
        },
    }
    let relationships: Vec<Relationship> = match read_relationships(entries, slide_part, "PPTX") {
        Err(error) => {
            return Err(error);
        },
        Ok(Some(found)) => found,
        Ok(None) => {
            let none: Vec<Relationship> = Vec::new();
            assert(links(none@) =~= Seq::empty());
            none
        },
    };
    if let Err(error) = require_unique_ids(relationships.as_slice(), "PPTX") {
        return Err(error);
    }
    if let Err(error) = validate_relationship_references(
        xml,
        relationships.as_slice(),
        slide_part,
        "PPTX",
    ) {
        return Err(error);
    }
    add_charts(entries, types, slide_part, &relationships, charts)
}

// ---- All slides ----

/// The slides and charts of the ids from `at` on, after those of `graph`, or why one is refused.
pub open spec fn slides_from(
    entries: Seq<Entry>,
    types: Types,
    presentation_links: Seq<Link>,
    ids: Seq<Seq<char>>,
    at: int,
    graph: Graph,
) -> Result<Graph, Failure>
    decreases ids.len() - at,
{
    if at < 0 || at >= ids.len() {
        Ok(graph)
    } else {
        match slide_part_of(presentation_links, ids[at], graph.slides) {
            Err(error) => Err(error),
            Ok(part) => match charts_with_slide(entries, types, part, graph.charts) {
                Err(error) => Err(error),
                Ok(charts) => slides_from(
                    entries,
                    types,
                    presentation_links,
                    ids,
                    at + 1,
                    Graph { slides: graph.slides.push(part), charts },
                ),
            },
        }
    }
}

/// The graph that a result holds, or why it holds none, by views.
pub open spec fn graph_outcome(result: LibraryResult<PptxGraph>) -> Result<Graph, Failure> {
    match result {
        Ok(graph) => Ok(graph@),
        Err(error) => Err(error@),
    }
}

/// No slides and no charts.
pub open spec fn no_graph() -> Graph {
    Graph { slides: Seq::empty(), charts: Seq::empty() }
}

/// The slides and charts that the ids of the slide list lead to, or why one is refused.
fn collect_slides(
    entries: &[PackageEntry],
    types: &ContentTypes,
    presentation_links: &Vec<Relationship>,
    ids: &Vec<String>,
) -> (result: LibraryResult<PptxGraph>)
    ensures
        graph_outcome(result) == slides_from(
            entry_views(entries@),
            types@,
            links(presentation_links@),
            views(ids@),
            0,
            no_graph(),
        ),
{
    let ghost all = views(ids@);
    let mut slides: Vec<String> = Vec::new();
    let mut charts: Vec<String> = Vec::new();
    assert(views(slides@) =~= Seq::empty());
    assert(views(charts@) =~= Seq::empty());
    let mut i: usize = 0;
    while i < ids.len()
        invariant
            i <= ids@.len(),
            all == views(ids@),
            slides_from(
                entry_views(entries@),
                types@,
                links(presentation_links@),
                all,
                i as int,
                (Graph { slides: views(slides@), charts: views(charts@) }),
            ) == slides_from(
                entry_views(entries@),
                types@,
                links(presentation_links@),
                all,
                0,
                no_graph(),
            ),
        decreases ids@.len() - i,
    {
        assert(all[i as int] == ids@[i as int]@);
        let part = match find_slide_part(presentation_links, ids[i].as_str(), &slides) {
            Err(error) => {
                return Err(error);
            },
            Ok(part) => part,
        };
        if let Err(error) = add_slide(entries, types, part.as_str(), &mut charts) {
            return Err(error);
        }
        let ghost before = views(slides@);
        let ghost added = part@;
        slides.push(part);
        assert(views(slides@) =~= before.push(added));
        i = i + 1;
    }
    Ok(PptxGraph { slide_parts: slides, chart_parts: charts })
}

// ---- All parts that can be reached ----

/// The relationships of a part that are still to be followed.
#[verifier::ext_equal]
pub struct Trail {
    pub part: Seq<char>,
    pub left: Seq<Link>,
}

/// The number of parts that were not visited.
pub open spec fn unvisited(entries: Seq<Entry>, visited: Seq<Seq<char>>) -> nat
    decreases entries.len(),
{
    if entries.len() == 0 {
        0
    } else {
        unvisited(entries.drop_last(), visited) + if visited.contains(entries.last().name) {
            0nat
        } else {
            1nat
        }
    }
}

/// The number of steps that the trails still hold.
pub open spec fn steps_left(trails: Seq<Trail>) -> nat
    decreases trails.len(),
{
    if trails.len() == 0 {
        0
    } else {
        steps_left(trails.drop_last()) + trails.last().left.len() + 1
    }
}

/// Visiting a part leaves fewer parts to visit, where the part is there and was not visited.
pub proof fn lemma_visiting_counts_down(entries: Seq<Entry>, visited: Seq<Seq<char>>, part: Seq<char>)
    ensures
        unvisited(entries, visited.push(part)) <= unvisited(entries, visited),
        part_contents(entries, part) is Some && !visited.contains(part) ==> unvisited(
            entries,
            visited.push(part),
        ) < unvisited(entries, visited),
    decreases entries.len(),
{
    if entries.len() > 0 {
        let last = entries.last();
        let shorter = entries.drop_last();
        lemma_visiting_counts_down(shorter, visited, part);
        let more = visited.push(part);
        if visited.contains(last.name) {
            let k = choose|k: int| 0 <= k < visited.len() && visited[k] == last.name;
            assert(more[k] == last.name);
        }
        if last.name == part {
            assert(more[visited.len() as int] == part);
        } else {
            if more.contains(last.name) {
                let k = choose|k: int| 0 <= k < more.len() && more[k] == last.name;
                assert(visited[k] == last.name);
            }
            lemma_part_is_earlier(entries, part);
        }
    }
}

proof fn lemma_part_is_earlier(entries: Seq<Entry>, part: Seq<char>)
    requires
        entries.len() > 0,
        entries.last().name != part,
    ensures
        part_contents(entries, part) is Some ==> part_contents(entries.drop_last(), part) is Some,
    decreases entries.len(),
{
    if entries[0].name != part && entries.len() > 1 {
        assert(entries.skip(1).last() == entries.last());
        lemma_part_is_earlier(entries.skip(1), part);
        assert(entries.skip(1).drop_last() =~= entries.drop_last().skip(1));
    }
    if entries.len() == 1 {
        assert(part_contents(entries.skip(1), part) is None);
    }
}

/// What visiting a part gives: the parts visited so far and the trail to follow, where there is
/// one, or why the part is refused. A part is visited once.
pub open spec fn visit(entries: Seq<Entry>, part: Seq<char>, visited: Seq<Seq<char>>) -> Result<
    (Seq<Seq<char>>, Option<Trail>),
    Failure,
> {
    if visited.contains(part) {
        Ok((visited, None))
    } else {
        match part_contents(entries, part) {
            None => Ok((visited.push(part), None)),
            Some(xml) => match part_links(entries, part, "PPTX"@) {
                Err(error) => Err(error),
                Ok(None) => Ok((visited.push(part), None)),
                Ok(Some(left)) => match unique_ids(left, "PPTX"@) {
                    Err(error) => Err(error),
                    Ok(()) => match checked_references(xml, left, part, "PPTX"@) {
                        Err(error) => Err(error),
                        Ok(()) => Ok((visited.push(part), Some(Trail { part, left }))),
                    },
                },
            },
        }
    }
}

/// Follows the trails, the last one first: every relationship inside the package leads to a part
/// that is there, has a content type and refers to its own relationships only.
pub open spec fn followed_trails(
    entries: Seq<Entry>,
    types: Types,
    trails: Seq<Trail>,
    visited: Seq<Seq<char>>,
) -> Result<(), Failure>
    decreases unvisited(entries, visited), steps_left(trails),
{
    if trails.len() == 0 {
        Ok(())
    } else {
        let top = trails.last();
        let below = trails.drop_last();
        if top.left.len() == 0 {
            followed_trails(entries, types, below, visited)
        } else {
            let link = top.left[0];
            let rest = below.push(Trail { part: top.part, left: top.left.skip(1) });
            proof {
                assert(rest.drop_last() =~= below);
                assert(steps_left(rest) < steps_left(trails));
            }
            if link.external {
                followed_trails(entries, types, rest, visited)
            } else {
                match checked_target(entries, types, top.part, link) {
                    Err(error) => Err(error),
                    Ok(target) => {
                        proof {
                            lemma_visiting_counts_down(entries, visited, target);
                        }
                        match visit(entries, target, visited) {
                            Err(error) => Err(error),
                            Ok((more, None)) => followed_trails(entries, types, rest, more),
                            Ok((more, Some(trail))) => followed_trails(
                                entries,
                                types,
                                rest.push(trail),
                                more,
                            ),
                        }
                    },
                }
            }
        }
    }
}

/// All parts that can be reached from the presentation are sound, or what is wrong first.
pub open spec fn reachable_parts(entries: Seq<Entry>, types: Types) -> Result<(), Failure> {
    match visit(entries, PRESENTATION_PART@, Seq::empty()) {
        Err(error) => Err(error),
        Ok((visited, None)) => Ok(()),
        Ok((visited, Some(trail))) => followed_trails(entries, types, seq![trail], visited),
    }
}

/// The relationships of a part, and how many of them were followed.
struct OpenTrail {
    part: String,
    relationships: Vec<Relationship>,
    next: usize,
}

impl OpenTrail {
    spec fn trail(self) -> Trail {
        Trail { part: self.part@, left: links(self.relationships@).skip(self.next as int) }
    }

    spec fn valid(self) -> bool {
        self.next <= self.relationships@.len()
    }
}

spec fn trails_of(trails: Seq<OpenTrail>) -> Seq<Trail> {
    trails.map_values(|trail: OpenTrail| trail.trail())
}

/// Visits a part.
fn visit_part(entries: &[PackageEntry], part: &str, visited: &mut Vec<String>) -> (result:
    LibraryResult<Option<OpenTrail>>)
    ensures
        (match result {
            Ok(Some(trail)) => Ok((views(final(visited)@), Some(trail.trail()))),
            Ok(None) => Ok((views(final(visited)@), None)),
            Err(error) => Err(error@),
        }) == visit(entry_views(entries@), part@, views(old(visited)@)),
        result matches Ok(Some(trail)) ==> trail.valid(),
{
    if list_contains(visited, part) {
        return Ok(None);
    }
    let ghost before = views(visited@);
    visited.push(part.to_owned());
    assert(views(visited@) =~= before.push(part@));
    let xml = match read_entry_optional(entries, part) {
        None => {
            return Ok(None);
        },
        Some(xml) => xml,
    };
    let relationships = match read_relationships(entries, part, "PPTX") {
        Err(error) => {
            return Err(error);
        },
        Ok(None) => {
            return Ok(None);
        },
        Ok(Some(relationships)) => relationships,
    };
    if let Err(error) = require_unique_ids(relationships.as_slice(), "PPTX") {
        return Err(error);
    }
    if let Err(error) = validate_relationship_references(
        xml,
        relationships.as_slice(),
        part,
        "PPTX",
    ) {
        return Err(error);
    }
    let trail = OpenTrail { part: part.to_owned(), relationships, next: 0 };
    assert(trail.trail() =~= (Trail { part: part@, left: links(trail.relationships@) }));
    Ok(Some(trail))
}

/// Checks all parts that can be reached from the presentation.
pub fn validate_reachable_relationships(entries: &[PackageEntry], types: &ContentTypes) -> (result:
    LibraryResult<()>)
    ensures
        outcome(result) == reachable_parts(entry_views(entries@), types@),
{
    let ghost parts = entry_views(entries@);
    let mut visited: Vec<String> = Vec::new();
    assert(views(visited@) =~= Seq::empty());
    let first = match visit_part(entries, PRESENTATION_PART, &mut visited) {
        Err(error) => {
            return Err(error);
        },
        Ok(None) => {
            return Ok(());
        },
        Ok(Some(trail)) => trail,
    };
    let mut trails: Vec<OpenTrail> = Vec::new();
    let ghost start = first.trail();
    trails.push(first);
    assert(trails_of(trails@) =~= seq![start]);
    while trails.len() > 0
        invariant
            parts == entry_views(entries@),
            forall|i: int| 0 <= i < trails@.len() ==> (#[trigger] trails@[i]).valid(),
            followed_trails(parts, types@, trails_of(trails@), views(visited@)) == reachable_parts(
                parts,
                types@,
            ),
        decreases unvisited(parts, views(visited@)), steps_left(trails_of(trails@)),
    {
        let ghost all = trails_of(trails@);
        let ghost seen = views(visited@);
        let last: usize = trails.len() - 1;
        assert(all.last() == trails@[last as int].trail());
        let mut top = trails.pop().unwrap();
        assert(trails_of(trails@) =~= all.drop_last());
        if top.next == top.relationships.len() {
            assert(top.trail().left.len() == 0);
            continue;
        }
        let at: usize = top.next;
        assert(top.trail().left[0] == top.relationships@[at as int]@);
        top.next = at + 1;
        assert(top.trail().left =~= all.last().left.skip(1));
        let ghost rest = all.drop_last().push(top.trail());
        assert(rest.drop_last() =~= all.drop_last());
        let next_trail: Option<OpenTrail> = if top.relationships[at].external {
            None
        } else {
            match check_target(entries, types, top.part.as_str(), &top.relationships[at]) {
                Err(error) => {
                    return Err(error);
                },
                Ok(target) => {
                    proof {
                        lemma_visiting_counts_down(parts, seen, target@);
                    }
                    match visit_part(entries, target.as_str(), &mut visited) {
                        Err(error) => {
                            return Err(error);
                        },
                        Ok(found) => found,
                    }
                },
            }
        };
        trails.push(top);
        assert(trails_of(trails@) =~= rest);
        if let Some(trail) = next_trail {
            let ghost added = trail.trail();
            trails.push(trail);
            assert(trails_of(trails@) =~= rest.push(added));
        }
    }
    Ok(())
}

// ---- The whole package ----

/// The slides and charts of a presentation, or why it is refused.
pub open spec fn presentation_graph(entries: Seq<Entry>) -> Result<Graph, Failure> {
    match package_types(entries) {
        Err(error) => Err(error),
        Ok(types) => if declared(types, PRESENTATION_PART@) != Some(PRESENTATION_CONTENT_TYPE@) {
            Err(bad_pptx("未声明 PowerPoint presentation 主内容类型。"@))
        } else {
            match required_part(entries, PRESENTATION_PART@, "PPTX"@) {
                Err(error) => Err(error),
                Ok(xml) => graph_of_presentation(entries, types, xml),
            }
        },
    }
}

/// The slides and charts of a presentation with this definition, or why it is refused.
pub open spec fn graph_of_presentation(entries: Seq<Entry>, types: Types, xml: Seq<u8>) -> Result<
    Graph,
    Failure,
> {
    match root_name(xml_tokens(xml, true), "PPTX"@) {
        Err(error) => Err(error),
        Ok(root) => if root != "presentation"@ {
            Err(bad_pptx("ppt/presentation.xml 不是演示文稿定义。"@))
        } else {
            match part_links(entries, PRESENTATION_PART@, "PPTX"@) {
                Err(error) => Err(error),
                Ok(None) => Err(
                    bad_pptx("缺少 ppt/_rels/presentation.xml.rels。"@),
                ),
                Ok(Some(found)) => match unique_ids(found, "PPTX"@) {
                    Err(error) => Err(error),
                    Ok(()) => match checked_references(
                        xml,
                        found,
                        PRESENTATION_PART@,
                        "PPTX"@,
                    ) {
                        Err(error) => Err(error),
                        Ok(()) => graph_of_slides(entries, types, xml, found),
                    },
                },
            }
        },
    }
}

/// The slides and charts that the slide list leads to, with all reachable parts sound.
pub open spec fn graph_of_slides(
    entries: Seq<Entry>,
    types: Types,
    xml: Seq<u8>,
    presentation_links: Seq<Link>,
) -> Result<Graph, Failure> {
    match slide_ids_from(xml_tokens(xml, true), 0, false, Seq::empty()) {
        Err(error) => Err(error),
        Ok(ids) => if ids.len() == 0 {
            Err(bad_pptx("p:sldIdLst 没有幻灯片引用。"@))
        } else {
            match slides_from(entries, types, presentation_links, ids, 0, no_graph()) {
                Err(error) => Err(error),
                Ok(graph) => match reachable_parts(entries, types) {
                    Err(error) => Err(error),
                    Ok(()) => Ok(Graph { slides: graph.slides, charts: sorted(graph.charts) }),
                },
            }
        },
    }
}

/// The slides and charts of a presentation, or why it is refused.
pub fn validate_pptx_entries(entries: &[PackageEntry]) -> (result: LibraryResult<PptxGraph>)
    ensures
        graph_outcome(result) == presentation_graph(entry_views(entries@)),
{
    let types = match parse_content_types(entries) {
        Err(error) => {
            return Err(error);
        },
        Ok(types) => types,
    };
    let typed = match types.declared_type(PRESENTATION_PART) {
        Some(content_type) => same(content_type.as_str(), PRESENTATION_CONTENT_TYPE),
        None => false,
    };
    if !typed {
        return Err(bad_pptx_error("未声明 PowerPoint presentation 主内容类型。"));
    }
    let xml = match read_entry(entries, PRESENTATION_PART, "PPTX") {
        Err(error) => {
            return Err(error);
        },
        Ok(xml) => xml,
    };
    match xml_root_local_name(xml, "PPTX") {
        Err(error) => {
            return Err(error);
        },
        Ok(root) => {
            if !same(root.as_str(), "presentation") {
                return Err(bad_pptx_error("ppt/presentation.xml 不是演示文稿定义。"));
            }
        },
    }
    let presentation_links = match read_relationships(entries, PRESENTATION_PART, "PPTX") {
        Err(error) => {
            return Err(error);
        },
        Ok(None) => {
            return Err(bad_pptx_error("缺少 ppt/_rels/presentation.xml.rels。"));
        },
        Ok(Some(found)) => found,
    };
    if let Err(error) = require_unique_ids(presentation_links.as_slice(), "PPTX") {
        return Err(error);
    }
    if let Err(error) = validate_relationship_references(
        xml,
        presentation_links.as_slice(),
        PRESENTATION_PART,
        "PPTX",
    ) {
        return Err(error);
    }
    let ids = match presentation_slide_relationship_ids(xml) {
        Err(error) => {
            return Err(error);
        },
        Ok(ids) => ids,
    };
    if ids.len() == 0 {
        return Err(bad_pptx_error("p:sldIdLst 没有幻灯片引用。"));
    }
    let graph = match collect_slides(entries, &types, &presentation_links, &ids) {
        Err(error) => {
            return Err(error);
        },
        Ok(graph) => graph,
    };
    if let Err(error) = validate_reachable_relationships(entries, &types) {
        return Err(error);
    }
    Ok(
        PptxGraph {
            slide_parts: graph.slide_parts,
            chart_parts: sort_texts(&graph.chart_parts),
        },
    )
}

/// The slides and charts of a PPTX file, or why it is refused.
pub open spec fn pptx_graph(archive: Seq<u8>) -> Result<Graph, Failure> {
    match package_entries(archive, "PPTX"@, limits_for(INDEX_ARCHIVE_EXPANDED_BYTES)) {
        Err(error) => Err(error),
        Ok(entries) => presentation_graph(entries),
    }
}

/// Checks a PPTX file and finds its slides and charts.
pub fn validate_pptx_package(archive: &[u8]) -> (result: LibraryResult<PptxGraph>)
    ensures
        graph_outcome(result) == pptx_graph(archive@),
{
    match read_package_entries(archive, "PPTX", ArchiveLimits::for_index()) {
        Err(error) => Err(error),
        Ok(entries) => validate_pptx_entries(entries.as_slice()),
    }
}

/// The slides and charts of a PPTX file.
pub fn pptx_presentation_graph(archive: &[u8]) -> (result: LibraryResult<PptxGraph>)
    ensures
        graph_outcome(result) == pptx_graph(archive@),
{
    validate_pptx_package(archive)
}

// ---- Laws ----

/// An entry of the slide list leads to this part: its relationship stays inside the package, is one of
/// a slide, and its target is the part.
pub open spec fn entry_leads_to(presentation_links: Seq<Link>, id: Seq<char>, part: Seq<char>) -> bool {
    exists|k: int|
        0 <= k < presentation_links.len() && (#[trigger] presentation_links[k]).id == id
            && !presentation_links[k].external && ends_with(
            ascii_lowercase(presentation_links[k].relationship_type),
            "/slide"@,
        ) && resolved_target(
            "ppt/presentation.xml"@,
            presentation_links[k].target,
            "PPTX"@,
            "OOXML"@,
        ) == Ok::<_, Failure>(part)
}

proof fn lemma_slides_follow_the_list(
    entries: Seq<Entry>,
    types: Types,
    presentation_links: Seq<Link>,
    ids: Seq<Seq<char>>,
    at: int,
    graph: Graph,
)
    requires
        0 <= at <= ids.len(),
        graph.slides.len() == at,
        graph.slides.no_duplicates(),
        forall|i: int|
            0 <= i < at ==> entry_leads_to(presentation_links, ids[i], #[trigger] graph.slides[i])
                && part_contents(entries, graph.slides[i]) is Some,
    ensures
        slides_from(entries, types, presentation_links, ids, at, graph) matches Ok(done) ==> {
            &&& done.slides.len() == ids.len()
            &&& done.slides.no_duplicates()
            &&& forall|i: int|
                0 <= i < ids.len() ==> entry_leads_to(
                    presentation_links,
                    ids[i],
                    #[trigger] done.slides[i],
                ) && part_contents(entries, done.slides[i]) is Some
        },
    decreases ids.len() - at,
{
    if at < ids.len() {
        if let Ok(part) = slide_part_of(presentation_links, ids[at], graph.slides) {
            if let Ok(charts) = charts_with_slide(entries, types, part, graph.charts) {
                let next = Graph { slides: graph.slides.push(part), charts };
                relationships_are_found_by_id(presentation_links, ids[at]);
                let link = link_with_id(presentation_links, ids[at])->Some_0;
                let k = choose|k: int|
                    0 <= k < presentation_links.len() && #[trigger] presentation_links[k] == link
                        && link.id == ids[at] && forall|j: int|
                        0 <= j < k ==> (#[trigger] presentation_links[j]).id != ids[at];
                assert(presentation_links[k].id == ids[at]);
                assert(entry_leads_to(presentation_links, ids[at], part));
                assert(next.slides.no_duplicates());
                assert forall|i: int| 0 <= i < at + 1 implies entry_leads_to(
                    presentation_links,
                    ids[i],
                    #[trigger] next.slides[i],
                ) && part_contents(entries, next.slides[i]) is Some by {
                    if i < at {
                        assert(next.slides[i] == graph.slides[i]);
                    }
                }
                lemma_slides_follow_the_list(entries, types, presentation_links, ids, at + 1, next);
            }
        }
    }
}

/// The slides of a presentation are those of its slide list, one for each entry and in that order;
/// each is a part of the package and none comes twice. The charts stand in order, each once.
pub proof fn slides_follow_the_list(
    entries: Seq<Entry>,
    types: Types,
    xml: Seq<u8>,
    presentation_links: Seq<Link>,
    ids: Seq<Seq<char>>,
)
    requires
        slide_ids_from(xml_tokens(xml, true), 0, false, Seq::empty()) == Ok::<_, Failure>(ids),
        graph_of_slides(entries, types, xml, presentation_links) is Ok,
    ensures
        ({
            let graph = graph_of_slides(entries, types, xml, presentation_links)->Ok_0;
            &&& ids.len() > 0
            &&& graph.slides.len() == ids.len()
            &&& graph.slides.no_duplicates()
            &&& forall|i: int|
                0 <= i < ids.len() ==> entry_leads_to(
                    presentation_links,
                    ids[i],
                    #[trigger] graph.slides[i],
                ) && part_contents(entries, graph.slides[i]) is Some
            &&& strictly_ordered(graph.charts)
        }),
{
    assert(PRESENTATION_PART@ == "ppt/presentation.xml"@);
    lemma_slides_follow_the_list(entries, types, presentation_links, ids, 0, no_graph());
    let found = slides_from(entries, types, presentation_links, ids, 0, no_graph())->Ok_0;
    sorting_orders_and_keeps(found.charts);
}

/// An entry of the slide list: what stands before it, its tag, whether it is empty, and the id of the
/// relationship that it names.
#[verifier::ext_equal]
pub struct ListedSlide {
    pub lead: Seq<Token>,
    pub tag: Seq<char>,
    pub empty: bool,
    pub id: Seq<char>,
}

/// The events of the entries of the slide list.
pub open spec fn listed_tokens(slides: Seq<ListedSlide>) -> Seq<Token>
    decreases slides.len(),
{
    if slides.len() == 0 {
        Seq::empty()
    } else {
        slides[0].lead + (seq![
            if slides[0].empty {
                Token::Empty(slides[0].tag)
            } else {
                Token::Start(slides[0].tag)
            },
        ] + listed_tokens(slides.skip(1)))
    }
}

/// An event that neither names a slide nor opens or closes the list.
pub open spec fn lists_nothing(token: Token) -> bool {
    match token {
        Token::Start(tag) => element_name(tag) != "sldId"@ && element_name(tag) != "sldIdLst"@,
        Token::Empty(tag) => element_name(tag) != "sldId"@ && element_name(tag) != "sldIdLst"@,
        Token::End(name) => local_name(name) != "sldIdLst"@,
        Token::Eof => false,
        Token::Failed(_) => false,
        _ => true,
    }
}

/// An entry names a relationship by its attribute `r:id`, or else `id`.
pub open spec fn slide_listed(slide: ListedSlide) -> bool {
    &&& forall|i: int| 0 <= i < slide.lead.len() ==> lists_nothing(#[trigger] slide.lead[i])
    &&& element_name(slide.tag) == "sldId"@
    &&& trim(slide.id).len() > 0
    &&& element_pairs(slide.tag, "PPTX p:sldId"@) matches Ok(pairs) && match value_of(pairs, "r:id"@) {
        Some(id) => id == slide.id,
        None => value_of(pairs, "id"@) == Some(slide.id),
    }
}

proof fn lemma_ids_of_the_rest(
    list: Seq<Token>,
    at: int,
    from: int,
    inside: bool,
    found: Seq<Seq<char>>,
)
    requires
        0 <= at <= list.len(),
        0 <= from,
    ensures
        slide_ids_from(list, at + from, inside, found) == slide_ids_from(
            list.skip(at),
            from,
            inside,
            found,
        ),
    decreases list.len() - at - from,
{
    if at + from < list.len() {
        let token = list[at + from];
        assert(list.skip(at)[from] == token);
        lemma_ids_of_the_rest(list, at, from + 1, inside, found);
        lemma_ids_of_the_rest(list, at, from + 1, true, found);
        if let Token::End(name) = token {
            lemma_ids_of_the_rest(
                list,
                at,
                from + 1,
                inside && local_name(name) != "sldIdLst"@,
                found,
            );
        }
        if token is Start || token is Empty {
            let tag = if token is Start {
                token->Start_0
            } else {
                token->Empty_0
            };
            if let Ok(id) = slide_id_of(tag) {
                lemma_ids_of_the_rest(list, at, from + 1, inside, found.push(id));
            }
        }
    }
}

proof fn lemma_pass_unlisted(lead: Seq<Token>, rest: Seq<Token>, inside: bool, found: Seq<Seq<char>>)
    requires
        forall|i: int| 0 <= i < lead.len() ==> lists_nothing(#[trigger] lead[i]),
    ensures
        slide_ids_from(lead + rest, 0, inside, found) == slide_ids_from(rest, 0, inside, found),
    decreases lead.len(),
{
    if lead.len() == 0 {
        assert(lead + rest =~= rest);
    } else {
        let others = lead.skip(1);
        let list = lead + rest;
        assert(lists_nothing(lead[0]));
        assert(list[0] == lead[0]);
        assert forall|i: int| 0 <= i < others.len() implies lists_nothing(#[trigger] others[i]) by {
            assert(others[i] == lead[i + 1]);
        }
        lemma_ids_of_the_rest(list, 1, 0, inside, found);
        assert(list.skip(1) =~= others + rest);
        lemma_pass_unlisted(others, rest, inside, found);
    }
}

proof fn lemma_read_listed(slides: Seq<ListedSlide>, rest: Seq<Token>, found: Seq<Seq<char>>)
    requires
        forall|i: int| 0 <= i < slides.len() ==> slide_listed(#[trigger] slides[i]),
    ensures
        slide_ids_from(listed_tokens(slides) + rest, 0, true, found) == slide_ids_from(
            rest,
            0,
            true,
            found + Seq::new(slides.len(), |i: int| slides[i].id),
        ),
    decreases slides.len(),
{
    let ids = Seq::new(slides.len(), |i: int| slides[i].id);
    if slides.len() == 0 {
        assert(listed_tokens(slides) + rest =~= rest);
        assert(found + ids =~= found);
    } else {
        let first = slides[0];
        let others = slides.skip(1);
        let behind = listed_tokens(others) + rest;
        let token = if first.empty {
            Token::Empty(first.tag)
        } else {
            Token::Start(first.tag)
        };
        let list = seq![token] + behind;
        let next = found.push(first.id);
        assert(slide_listed(slides[0]));
        reveal_strlit("sldId");
        reveal_strlit("sldIdLst");
        assert("sldId"@.len() == 5 && "sldIdLst"@.len() == 8);
        assert(listed_tokens(slides) + rest =~= first.lead + list);
        lemma_pass_unlisted(first.lead, list, true, found);
        assert(list[0] == token);
        lemma_ids_of_the_rest(list, 1, 0, true, next);
        assert(list.skip(1) =~= behind);
        assert forall|i: int| 0 <= i < others.len() implies slide_listed(#[trigger] others[i]) by {
            assert(others[i] == slides[i + 1]);
        }
        lemma_read_listed(others, rest, next);
        assert(next + Seq::new(others.len(), |i: int| others[i].id) =~= found + ids);
    }
}

/// The slide list of a presentation names its slides in their order; entries outside the list do not
/// count.
pub proof fn listed_slides_are_read_in_order(
    lead: Seq<Token>,
    open: Seq<char>,
    slides: Seq<ListedSlide>,
    close: Seq<char>,
    tail: Seq<Token>,
)
    requires
        forall|i: int|
            0 <= i < lead.len() ==> lists_nothing(#[trigger] lead[i]) || (lead[i] matches Token::Start(
                tag,
            ) && element_name(tag) == "sldId"@),
        element_name(open) == "sldIdLst"@,
        forall|i: int| 0 <= i < slides.len() ==> slide_listed(#[trigger] slides[i]),
        local_name(close) == "sldIdLst"@,
        forall|i: int| 0 <= i < tail.len() ==> lists_nothing(#[trigger] tail[i]),
    ensures
        slide_ids_from(
            lead + (seq![Token::Start(open)] + (listed_tokens(slides) + (seq![Token::End(close)] + (tail
                + seq![Token::Eof])))),
            0,
            false,
            Seq::empty(),
        ) == Ok::<_, Failure>(Seq::new(slides.len(), |i: int| slides[i].id)),
{
    let nothing = Seq::<Seq<char>>::empty();
    let ids = Seq::new(slides.len(), |i: int| slides[i].id);
    let last = tail + seq![Token::Eof];
    let from_close = seq![Token::End(close)] + last;
    let from_slides = listed_tokens(slides) + from_close;
    let from_open = seq![Token::Start(open)] + from_slides;
    lemma_pass_before_list(lead, from_open, nothing);
    assert(from_open[0] == Token::Start(open));
    lemma_ids_of_the_rest(from_open, 1, 0, true, nothing);
    assert(from_open.skip(1) =~= from_slides);
    lemma_read_listed(slides, from_close, nothing);
    assert(nothing + ids =~= ids);
    assert(from_close[0] == Token::End(close));
    lemma_ids_of_the_rest(from_close, 1, 0, false, ids);
    assert(from_close.skip(1) =~= last);
    lemma_pass_unlisted(tail, seq![Token::Eof], false, ids);
}

proof fn lemma_pass_before_list(lead: Seq<Token>, rest: Seq<Token>, found: Seq<Seq<char>>)
    requires
        forall|i: int|
            0 <= i < lead.len() ==> lists_nothing(#[trigger] lead[i]) || (lead[i] matches Token::Start(
                tag,
            ) && element_name(tag) == "sldId"@),
    ensures
        slide_ids_from(lead + rest, 0, false, found) == slide_ids_from(rest, 0, false, found),
    decreases lead.len(),
{
    if lead.len() == 0 {
        assert(lead + rest =~= rest);
    } else {
        let others = lead.skip(1);
        let list = lead + rest;
        reveal_strlit("sldId");
        reveal_strlit("sldIdLst");
        assert("sldId"@.len() == 5 && "sldIdLst"@.len() == 8);
        assert(lists_nothing(lead[0]) || (lead[0] matches Token::Start(tag) && element_name(tag)
            == "sldId"@));
        assert(list[0] == lead[0]);
        assert forall|i: int| 0 <= i < others.len() implies lists_nothing(#[trigger] others[i]) || (
        others[i] matches Token::Start(tag) && element_name(tag) == "sldId"@) by {
            assert(others[i] == lead[i + 1]);
        }
        lemma_ids_of_the_rest(list, 1, 0, false, found);
        assert(list.skip(1) =~= others + rest);
        lemma_pass_before_list(others, rest, found);
    }
}

} // verus!
