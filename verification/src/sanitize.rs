//! Packages for a preview: without macros, scripts, embedded objects, sound, film, fonts, and
//! without relationships that lead out of the package.

use vstd::prelude::*;
use crate::error::{outcome, Failure, LibraryResult};
use crate::limits::{limits_for, ArchiveLimits, PREVIEW_ARCHIVE_EXPANDED_BYTES};
use crate::markup::{
    links_markup, remove_content_type_overrides, strip_relationship_references, stripped_part,
    types_without, write_relationships,
};
use crate::package::{
    entries_outcome, entry_views, has_name, package_bytes, package_entries, read_package_entries,
    write_package_entries, Entry, PackageEntry,
};
use crate::parts::{
    blocked_type, is_removed_part, relationship_is_blocked, relationship_source_part,
    relationships_source, removed_part, resolve_internal_target, resolved_target,
    source_in_directory, source_part_for_relationships, OfficeFormat,
};
use crate::relations::{links, parse_relationships, parsed_links, Link, Relationship};
use crate::slides::{presentation_graph, validate_pptx_entries, Graph, PptxGraph};
use crate::text::{
    chars, contains, ends_with, has_prefix, has_suffix, has_text, list_contains, same, starts_with,
    views,
};

verus! {

// ---- One relationship ----

/// The part that a relationship leads to, where it leads to one inside the package.
pub open spec fn link_target(link: Link, source_part: Seq<char>, format: OfficeFormat) -> Option<
    Seq<char>,
> {
    if link.external {
        None
    } else {
        match resolved_target(source_part, link.target, format.name(), "OOXML"@) {
            Ok(target) => Some(target),
            Err(_) => None,
        }
    }
}

/// The relationship must not stay in a preview: it leads outside, has a blocked type, or leads to
/// a part that is missing or removed.
pub open spec fn dropped_link(
    link: Link,
    source_part: Seq<char>,
    names: Seq<Seq<char>>,
    format: OfficeFormat,
) -> bool {
    ||| link.external
    ||| blocked_type(link.relationship_type)
    ||| link_target(link, source_part, format) matches Some(target) && (!names.contains(target)
        || removed_part(target, format) || target == "docProps/thumbnail.jpeg"@)
}

/// What the relationships of a package lose: the ids and targets of those that are dropped.
#[verifier::ext_equal]
pub struct Losses {
    pub ids: Seq<Seq<char>>,
    pub parts: Seq<Seq<char>>,
}

/// The relationships that stay.
pub open spec fn kept_links(
    found: Seq<Link>,
    source_part: Seq<char>,
    names: Seq<Seq<char>>,
    format: OfficeFormat,
) -> Seq<Link>
    decreases found.len(),
{
    if found.len() == 0 {
        Seq::empty()
    } else {
        let kept = kept_links(found.drop_last(), source_part, names, format);
        if dropped_link(found.last(), source_part, names, format) {
            kept
        } else {
            kept.push(found.last())
        }
    }
}

/// `losses` with those of these relationships.
pub open spec fn losses_with(
    losses: Losses,
    found: Seq<Link>,
    source_part: Seq<char>,
    names: Seq<Seq<char>>,
    format: OfficeFormat,
) -> Losses
    decreases found.len(),
{
    if found.len() == 0 {
        losses
    } else {
        let before = losses_with(losses, found.drop_last(), source_part, names, format);
        let last = found.last();
        if dropped_link(last, source_part, names, format) {
            Losses {
                ids: before.ids.push(last.id),
                parts: match link_target(last, source_part, format) {
                    Some(target) => before.parts.push(target),
                    None => before.parts,
                },
            }
        } else {
            before
        }
    }
}

/// Sorts the relationships into those that stay and the losses.
fn sift_links(
    relationships: Vec<Relationship>,
    source_part: &str,
    names: &Vec<String>,
    format: OfficeFormat,
    ids: &mut Vec<String>,
    parts: &mut Vec<String>,
) -> (kept: Vec<Relationship>)
    ensures
        links(kept@) == kept_links(links(relationships@), source_part@, views(names@), format),
        (Losses { ids: views(final(ids)@), parts: views(final(parts)@) }) == losses_with(
            (Losses { ids: views(old(ids)@), parts: views(old(parts)@) }),
            links(relationships@),
            source_part@,
            views(names@),
            format,
        ),
{
    let ghost all = links(relationships@);
    let ghost start = (Losses { ids: views(ids@), parts: views(parts@) });
    let mut kept: Vec<Relationship> = Vec::new();
    assert(links(kept@) =~= Seq::empty());
    let mut i: usize = 0;
    while i < relationships.len()
        invariant
            i <= relationships@.len(),
            all == links(relationships@),
            start == (Losses { ids: views(old(ids)@), parts: views(old(parts)@) }),
            links(kept@) == kept_links(all.take(i as int), source_part@, views(names@), format),
            (Losses { ids: views(ids@), parts: views(parts@) }) == losses_with(
                start,
                all.take(i as int),
                source_part@,
                views(names@),
                format,
            ),
        decreases relationships@.len() - i,
    {
        assert(all.take(i + 1).drop_last() =~= all.take(i as int));
        let relationship = &relationships[i];
        assert(all.take(i + 1).last() == relationship@);
        let target: Option<String> = if relationship.external {
            None
        } else {
            match resolve_internal_target(
                source_part,
                relationship.target.as_str(),
                format.label(),
                "OOXML",
            ) {
                Ok(target) => Some(target),
                Err(_) => None,
            }
        };
        let unsafe_target = match &target {
            Some(target) => !list_contains(names, target.as_str()) || is_removed_part(
                target.as_str(),
                format,
            ) || same(target.as_str(), "docProps/thumbnail.jpeg"),
            None => false,
        };
        if relationship.external || relationship_is_blocked(
            relationship.relationship_type.as_str(),
        ) || unsafe_target {
            let ghost ids_before = views(ids@);
            ids.push(relationship.id.clone());
            assert(views(ids@) =~= ids_before.push(relationship@.id));
            if let Some(target) = target {
                let ghost parts_before = views(parts@);
                let ghost added = target@;
                parts.push(target);
                assert(views(parts@) =~= parts_before.push(added));
            }
        } else {
            let ghost before = links(kept@);
            kept.push(relationship.copy());
            assert(links(kept@) =~= before.push(relationship@));
        }
        i = i + 1;
    }
    assert(all.take(i as int) =~= all);
    kept
}

// ---- All relationships of a package ----

/// The parts of a package with their relationships rewritten, and what they lost.
#[verifier::ext_equal]
pub struct Rewritten {
    pub entries: Seq<Entry>,
    pub losses: Losses,
}

/// A package after one more part, or why that part is refused.
pub open spec fn rewritten_with(
    done: Rewritten,
    entry: Entry,
    names: Seq<Seq<char>>,
    format: OfficeFormat,
) -> Result<Rewritten, Failure> {
    if !ends_with(entry.name, ".rels"@) {
        Ok(Rewritten { entries: done.entries.push(entry), losses: done.losses })
    } else {
        match relationships_source(entry.name) {
            Err(error) => Err(error),
            Ok(source_part) => match parsed_links(entry.contents, format.name()) {
                Err(error) => Err(error),
                Ok(found) => Ok(
                    Rewritten {
                        entries: done.entries.push(
                            Entry {
                                name: entry.name,
                                contents: vstd::utf8::encode_utf8(
                                    links_markup(kept_links(found, source_part, names, format)),
                                ),
                            },
                        ),
                        losses: losses_with(done.losses, found, source_part, names, format),
                    },
                ),
            },
        }
    }
}

/// A package with the relationships of the parts from `at` on rewritten, or why one is refused.
pub open spec fn rewritten_from(
    entries: Seq<Entry>,
    at: int,
    done: Rewritten,
    names: Seq<Seq<char>>,
    format: OfficeFormat,
) -> Result<Rewritten, Failure>
    decreases entries.len() - at,
{
    if at < 0 || at >= entries.len() {
        Ok(done)
    } else {
        match rewritten_with(done, entries[at], names, format) {
            Err(error) => Err(error),
            Ok(more) => rewritten_from(entries, at + 1, more, names, format),
        }
    }
}

/// Nothing yet.
pub open spec fn nothing_rewritten() -> Rewritten {
    Rewritten {
        entries: Seq::empty(),
        losses: Losses { ids: Seq::empty(), parts: Seq::empty() },
    }
}

/// The names of the parts.
pub open spec fn names_of(entries: Seq<Entry>) -> Seq<Seq<char>> {
    entries.map_values(|entry: Entry| entry.name)
}

/// The names of the parts.
fn entry_names(entries: &Vec<PackageEntry>) -> (names: Vec<String>)
    ensures
        views(names@) == names_of(entry_views(entries@)),
{
    let mut names: Vec<String> = Vec::new();
    let mut i: usize = 0;
    while i < entries.len()
        invariant
            i <= entries@.len(),
            names@.len() == i,
            forall|j: int| 0 <= j < i ==> (#[trigger] names@[j])@ == entries@[j].name@,
        decreases entries@.len() - i,
    {
        names.push(entries[i].name.clone());
        i = i + 1;
    }
    assert(views(names@) =~= names_of(entry_views(entries@)));
    names
}

/// Rewrites the relationships of a package.
fn rewrite_relationships(
    entries: Vec<PackageEntry>,
    names: &Vec<String>,
    format: OfficeFormat,
    ids: &mut Vec<String>,
    parts: &mut Vec<String>,
) -> (result: LibraryResult<Vec<PackageEntry>>)
    requires
        old(ids)@.len() == 0,
        old(parts)@.len() == 0,
    ensures
        (match result {
            Ok(done) => Ok(
                (Rewritten {
                    entries: entry_views(done@),
                    losses: Losses { ids: views(final(ids)@), parts: views(final(parts)@) },
                }),
            ),
            Err(error) => Err(error@),
        }) == rewritten_from(
            entry_views(entries@),
            0,
            nothing_rewritten(),
            views(names@),
            format,
        ),
{
    let ghost all = entry_views(entries@);
    let mut done: Vec<PackageEntry> = Vec::new();
    assert(entry_views(done@) =~= Seq::empty());
    assert(views(ids@) =~= Seq::empty());
    assert(views(parts@) =~= Seq::empty());
    let mut i: usize = 0;
    while i < entries.len()
        invariant
            i <= entries@.len(),
            all == entry_views(entries@),
            rewritten_from(
                all,
                i as int,
                (Rewritten {
                    entries: entry_views(done@),
                    losses: Losses { ids: views(ids@), parts: views(parts@) },
                }),
                views(names@),
                format,
            ) == rewritten_from(all, 0, nothing_rewritten(), views(names@), format),
        decreases entries@.len() - i,
    {
        let entry = &entries[i];
        assert(all[i as int] == entry@);
        let ghost before = entry_views(done@);
        if has_suffix(chars(entry.name.as_str()).as_slice(), ".rels") {
            let source_part = match source_part_for_relationships(entry.name.as_str()) {
                Err(error) => {
                    return Err(error);
                },
                Ok(source_part) => source_part,
            };
            let relationships = match parse_relationships(
                entry.contents.as_slice(),
                format.label(),
            ) {
                Err(error) => {
                    return Err(error);
                },
                Ok(relationships) => relationships,
            };
            let kept = sift_links(relationships, source_part.as_str(), names, format, ids, parts);
            let contents = write_relationships(kept.as_slice());
            let rewritten = PackageEntry { name: entry.name.clone(), contents };
            let ghost added = rewritten@;
            done.push(rewritten);
            assert(entry_views(done@) =~= before.push(added));
        } else {
            let mut contents: Vec<u8> = Vec::new();
            crate::bytes::push_bytes(&mut contents, entry.contents.as_slice());
            assert(contents@ =~= entry.contents@);
            let kept = PackageEntry { name: entry.name.clone(), contents };
            let ghost added = kept@;
            done.push(kept);
            assert(entry_views(done@) =~= before.push(added));
        }
        i = i + 1;
    }
    Ok(done)
}

// ---- The parts that stay ----

/// The part stays in a preview.
pub open spec fn kept_part(name: Seq<char>, lost_parts: Seq<Seq<char>>, format: OfficeFormat) -> bool {
    &&& !lost_parts.contains(name)
    &&& !removed_part(name, format)
    &&& name != "docProps/thumbnail.jpeg"@
}

/// The parts that stay.
pub open spec fn kept_parts(
    entries: Seq<Entry>,
    lost_parts: Seq<Seq<char>>,
    format: OfficeFormat,
) -> Seq<Entry>
    decreases entries.len(),
{
    if entries.len() == 0 {
        Seq::empty()
    } else {
        let kept = kept_parts(entries.drop_last(), lost_parts, format);
        if kept_part(entries.last().name, lost_parts, format) {
            kept.push(entries.last())
        } else {
            kept
        }
    }
}

/// A copy of a part.
fn copy_entry(entry: &PackageEntry) -> (copy: PackageEntry)
    ensures
        copy@ == entry@,
{
    let mut contents: Vec<u8> = Vec::new();
    crate::bytes::push_bytes(&mut contents, entry.contents.as_slice());
    assert(contents@ =~= entry.contents@);
    PackageEntry { name: entry.name.clone(), contents }
}

/// The parts that stay.
fn retain_parts(entries: &Vec<PackageEntry>, lost_parts: &Vec<String>, format: OfficeFormat) -> (kept:
    Vec<PackageEntry>)
    ensures
        entry_views(kept@) == kept_parts(entry_views(entries@), views(lost_parts@), format),
{
    let ghost all = entry_views(entries@);
    let mut kept: Vec<PackageEntry> = Vec::new();
    assert(entry_views(kept@) =~= Seq::empty());
    let mut i: usize = 0;
    while i < entries.len()
        invariant
            i <= entries@.len(),
            all == entry_views(entries@),
            entry_views(kept@) == kept_parts(all.take(i as int), views(lost_parts@), format),
        decreases entries@.len() - i,
    {
        assert(all.take(i + 1).drop_last() =~= all.take(i as int));
        let entry = &entries[i];
        assert(all.take(i + 1).last() == entry@);
        if !list_contains(lost_parts, entry.name.as_str()) && !is_removed_part(
            entry.name.as_str(),
            format,
        ) && !same(entry.name.as_str(), "docProps/thumbnail.jpeg") {
            let ghost before = entry_views(kept@);
            kept.push(copy_entry(entry));
            assert(entry_views(kept@) =~= before.push(entry@));
        }
        i = i + 1;
    }
    assert(all.take(i as int) =~= all);
    kept
}

/// A part without references to lost relationships; only XML parts hold any, and the content types
/// hold none.
pub open spec fn without_references(entry: Entry, lost_ids: Seq<Seq<char>>) -> Entry {
    if ends_with(entry.name, ".xml"@) && entry.name != "[Content_Types].xml"@ {
        Entry { name: entry.name, contents: stripped_part(entry.contents, lost_ids) }
    } else {
        entry
    }
}

/// The parts without references to lost relationships; the first part that declares content types
/// loses those of parts that are gone.
pub open spec fn cleaned(
    entries: Seq<Entry>,
    lost_ids: Seq<Seq<char>>,
    names: Seq<Seq<char>>,
) -> Seq<Entry>
    decreases entries.len(),
{
    if entries.len() == 0 {
        Seq::empty()
    } else {
        let done = cleaned(entries.drop_last(), lost_ids, names);
        let last = entries.last();
        if last.name == "[Content_Types].xml"@ && !has_name(
            entries.drop_last(),
            "[Content_Types].xml"@,
        ) {
            done.push(Entry { name: last.name, contents: types_without(last.contents, 0, names) })
        } else {
            done.push(without_references(last, lost_ids))
        }
    }
}

/// Takes out references to lost relationships and content types of parts that are gone.
fn clean_parts(entries: &Vec<PackageEntry>, lost_ids: &Vec<String>, names: &Vec<String>) -> (done: Vec<
    PackageEntry,
>)
    ensures
        entry_views(done@) == cleaned(entry_views(entries@), views(lost_ids@), views(names@)),
{
    let ghost all = entry_views(entries@);
    let mut done: Vec<PackageEntry> = Vec::new();
    assert(entry_views(done@) =~= Seq::empty());
    let mut declared = false;
    let mut i: usize = 0;
    while i < entries.len()
        invariant
            i <= entries@.len(),
            all == entry_views(entries@),
            declared == has_name(all.take(i as int), "[Content_Types].xml"@),
            entry_views(done@) == cleaned(all.take(i as int), views(lost_ids@), views(names@)),
        decreases entries@.len() - i,
    {
        assert(all.take(i + 1).drop_last() =~= all.take(i as int));
        let entry = &entries[i];
        assert(all.take(i + 1).last() == entry@);
        let ghost before = entry_views(done@);
        let types_part = same(entry.name.as_str(), "[Content_Types].xml");
        let next = if types_part && !declared {
            PackageEntry {
                name: entry.name.clone(),
                contents: remove_content_type_overrides(entry.contents.as_slice(), names),
            }
        } else if !types_part && has_suffix(chars(entry.name.as_str()).as_slice(), ".xml") {
            PackageEntry {
                name: entry.name.clone(),
                contents: strip_relationship_references(entry.contents.as_slice(), lost_ids),
            }
        } else {
            copy_entry(entry)
        };
        let ghost added = next@;
        done.push(next);
        assert(entry_views(done@) =~= before.push(added));
        proof {
            let shorter = all.take(i as int);
            let longer = all.take(i + 1);
            if has_name(shorter, "[Content_Types].xml"@) {
                let k = choose|k: int|
                    0 <= k < shorter.len() && (#[trigger] shorter[k]).name
                        == "[Content_Types].xml"@;
                assert(longer[k].name == "[Content_Types].xml"@);
            }
            if types_part {
                assert(longer[i as int].name == "[Content_Types].xml"@);
            }
            if has_name(longer, "[Content_Types].xml"@) && !types_part {
                let k = choose|k: int|
                    0 <= k < longer.len() && (#[trigger] longer[k]).name == "[Content_Types].xml"@;
                assert(shorter[k].name == "[Content_Types].xml"@);
            }
        }
        declared = declared || types_part;
        i = i + 1;
    }
    assert(all.take(i as int) =~= all);
    done
}

// ---- A whole package ----

/// The package made safe, or why it is refused.
pub open spec fn sanitized(entries: Seq<Entry>, format: OfficeFormat) -> Result<Seq<Entry>, Failure> {
    match rewritten_from(entries, 0, nothing_rewritten(), names_of(entries), format) {
        Err(error) => Err(error),
        Ok(rewritten) => {
            let kept = kept_parts(rewritten.entries, rewritten.losses.parts, format);
            Ok(cleaned(kept, rewritten.losses.ids, names_of(kept)))
        },
    }
}

/// Makes a package safe.
pub fn sanitize_entries_in_place(entries: Vec<PackageEntry>, format: OfficeFormat) -> (result:
    LibraryResult<Vec<PackageEntry>>)
    ensures
        entries_outcome(result) == sanitized(entry_views(entries@), format),
{
    let names = entry_names(&entries);
    let mut lost_ids: Vec<String> = Vec::new();
    let mut lost_parts: Vec<String> = Vec::new();
    match rewrite_relationships(entries, &names, format, &mut lost_ids, &mut lost_parts) {
        Err(error) => Err(error),
        Ok(rewritten) => {
            let kept = retain_parts(&rewritten, &lost_parts, format);
            let kept_names = entry_names(&kept);
            Ok(clean_parts(&kept, &lost_ids, &kept_names))
        },
    }
}

/// The parts that a document keeps before its relationships are looked at.
pub open spec fn allowed_parts(entries: Seq<Entry>, format: OfficeFormat) -> Seq<Entry>
    decreases entries.len(),
{
    if entries.len() == 0 {
        Seq::empty()
    } else {
        let kept = allowed_parts(entries.drop_last(), format);
        if removed_part(entries.last().name, format) {
            kept
        } else {
            kept.push(entries.last())
        }
    }
}

/// Makes a document safe.
pub fn sanitize_entries(entries: Vec<PackageEntry>, format: OfficeFormat) -> (result: LibraryResult<
    Vec<PackageEntry>,
>)
    ensures
        entries_outcome(result) == sanitized(allowed_parts(entry_views(entries@), format), format),
{
    let ghost all = entry_views(entries@);
    let mut kept: Vec<PackageEntry> = Vec::new();
    assert(entry_views(kept@) =~= Seq::empty());
    let mut i: usize = 0;
    while i < entries.len()
        invariant
            i <= entries@.len(),
            all == entry_views(entries@),
            entry_views(kept@) == allowed_parts(all.take(i as int), format),
        decreases entries@.len() - i,
    {
        assert(all.take(i + 1).drop_last() =~= all.take(i as int));
        let entry = &entries[i];
        assert(all.take(i + 1).last() == entry@);
        if !is_removed_part(entry.name.as_str(), format) {
            let ghost before = entry_views(kept@);
            kept.push(copy_entry(entry));
            assert(entry_views(kept@) =~= before.push(entry@));
        }
        i = i + 1;
    }
    assert(all.take(i as int) =~= all);
    sanitize_entries_in_place(kept, format)
}

/// The name is that of an XML part of the directory, and not of its relationships.
pub open spec fn xml_part_in(name: Seq<char>, directory: Seq<char>) -> bool {
    starts_with(name, directory) && ends_with(name, ".xml"@) && !contains(name, "/_rels/"@)
}

/// The part of a presentation that is kept before its relationships are looked at: of slides and
/// charts only those that the slide list leads to.
pub open spec fn presented_part(name: Seq<char>, graph: Graph) -> bool {
    let shown = graph.slides + graph.charts;
    if xml_part_in(name, "ppt/slides/"@) {
        shown.contains(name)
    } else {
        match source_in_directory(name, "ppt/slides"@) {
            Some(slide_part) => shown.contains(slide_part),
            None => if xml_part_in(name, "ppt/charts/"@) {
                shown.contains(name)
            } else {
                match source_in_directory(name, "ppt/charts"@) {
                    Some(chart_part) => shown.contains(chart_part),
                    None => !removed_part(name, OfficeFormat::Pptx),
                }
            },
        }
    }
}

/// Whether the slide list leads to the part.
fn is_shown(graph: &PptxGraph, name: &str) -> (shown: bool)
    ensures
        shown == (graph@.slides + graph@.charts).contains(name@),
{
    let shown = list_contains(&graph.slide_parts, name) || list_contains(&graph.chart_parts, name);
    proof {
        let all = graph@.slides + graph@.charts;
        if graph@.slides.contains(name@) {
            let k = choose|k: int| 0 <= k < graph@.slides.len() && graph@.slides[k] == name@;
            assert(all[k] == name@);
        }
        if graph@.charts.contains(name@) {
            let k = choose|k: int| 0 <= k < graph@.charts.len() && graph@.charts[k] == name@;
            assert(all[graph@.slides.len() + k] == name@);
        }
        if all.contains(name@) {
            let k = choose|k: int| 0 <= k < all.len() && all[k] == name@;
            if k < graph@.slides.len() {
                assert(graph@.slides[k] == name@);
            } else {
                assert(graph@.charts[k - graph@.slides.len()] == name@);
            }
        }
    }
    shown
}

/// Whether the name is that of an XML part of the directory, and not of its relationships.
fn is_xml_part_in(name: &[char], directory: &str) -> (found: bool)
    ensures
        found == xml_part_in(name@, directory@),
{
    has_prefix(name, directory) && has_suffix(name, ".xml") && !has_text(name, "/_rels/")
}

/// Whether the part of a presentation is kept before its relationships are looked at.
pub fn is_presented_part(name: &str, graph: &PptxGraph) -> (kept: bool)
    ensures
        kept == presented_part(name@, graph@),
{
    let all = chars(name);
    if is_xml_part_in(all.as_slice(), "ppt/slides/") {
        return is_shown(graph, name);
    }
    if let Some(slide_part) = relationship_source_part(name, "ppt/slides") {
        return is_shown(graph, slide_part.as_str());
    }
    if is_xml_part_in(all.as_slice(), "ppt/charts/") {
        return is_shown(graph, name);
    }
    if let Some(chart_part) = relationship_source_part(name, "ppt/charts") {
        return is_shown(graph, chart_part.as_str());
    }
    !is_removed_part(name, OfficeFormat::Pptx)
}

/// The parts that a presentation keeps before its relationships are looked at.
pub open spec fn presented_parts(entries: Seq<Entry>, graph: Graph) -> Seq<Entry>
    decreases entries.len(),
{
    if entries.len() == 0 {
        Seq::empty()
    } else {
        let kept = presented_parts(entries.drop_last(), graph);
        if presented_part(entries.last().name, graph) {
            kept.push(entries.last())
        } else {
            kept
        }
    }
}

/// Makes a presentation safe.
pub fn sanitize_entries_with_pptx_graph(entries: Vec<PackageEntry>, graph: &PptxGraph) -> (result:
    LibraryResult<Vec<PackageEntry>>)
    ensures
        entries_outcome(result) == sanitized(
            presented_parts(entry_views(entries@), graph@),
            OfficeFormat::Pptx,
        ),
{
    let ghost all = entry_views(entries@);
    let mut kept: Vec<PackageEntry> = Vec::new();
    assert(entry_views(kept@) =~= Seq::empty());
    let mut i: usize = 0;
    while i < entries.len()
        invariant
            i <= entries@.len(),
            all == entry_views(entries@),
            entry_views(kept@) == presented_parts(all.take(i as int), graph@),
        decreases entries@.len() - i,
    {
        assert(all.take(i + 1).drop_last() =~= all.take(i as int));
        let entry = &entries[i];
        assert(all.take(i + 1).last() == entry@);
        if is_presented_part(entry.name.as_str(), graph) {
            let ghost before = entry_views(kept@);
            kept.push(copy_entry(entry));
            assert(entry_views(kept@) =~= before.push(entry@));
        }
        i = i + 1;
    }
    assert(all.take(i as int) =~= all);
    sanitize_entries_in_place(kept, OfficeFormat::Pptx)
}

// ---- Files ----

/// The bytes of a document made safe, or why it is refused.
pub open spec fn sanitized_docx(archive: Seq<u8>) -> Result<Seq<u8>, Failure> {
    match package_entries(archive, "DOCX"@, limits_for(PREVIEW_ARCHIVE_EXPANDED_BYTES)) {
        Err(error) => Err(error),
        Ok(entries) => match sanitized(
            allowed_parts(entries, OfficeFormat::Docx),
            OfficeFormat::Docx,
        ) {
            Err(error) => Err(error),
            Ok(safe) => Ok(package_bytes(safe)),
        },
    }
}

/// Makes a DOCX file safe for a preview.
pub fn sanitize_docx_package(archive: &[u8]) -> (result: LibraryResult<Vec<u8>>)
    ensures
        outcome(result) == sanitized_docx(archive@),
{
    match read_package_entries(archive, "DOCX", ArchiveLimits::for_preview()) {
        Err(error) => Err(error),
        Ok(entries) => match sanitize_entries(entries, OfficeFormat::Docx) {
            Err(error) => Err(error),
            Ok(safe) => Ok(write_package_entries(safe.as_slice())),
        },
    }
}

/// The bytes of a presentation made safe, or why it is refused.
pub open spec fn sanitized_pptx(archive: Seq<u8>) -> Result<Seq<u8>, Failure> {
    match package_entries(archive, "PPTX"@, limits_for(PREVIEW_ARCHIVE_EXPANDED_BYTES)) {
        Err(error) => Err(error),
        Ok(entries) => match presentation_graph(entries) {
            Err(error) => Err(error),
            Ok(graph) => match sanitized(presented_parts(entries, graph), OfficeFormat::Pptx) {
                Err(error) => Err(error),
                Ok(safe) => Ok(package_bytes(safe)),
            },
        },
    }
}

/// Makes a PPTX file safe for a preview.
pub fn sanitize_pptx_package(archive: &[u8]) -> (result: LibraryResult<Vec<u8>>)
    ensures
        outcome(result) == sanitized_pptx(archive@),
{
    let entries = match read_package_entries(archive, "PPTX", ArchiveLimits::for_preview()) {
        Err(error) => {
            return Err(error);
        },
        Ok(entries) => entries,
    };
    let graph = match validate_pptx_entries(entries.as_slice()) {
        Err(error) => {
            return Err(error);
        },
        Ok(graph) => graph,
    };
    match sanitize_entries_with_pptx_graph(entries, &graph) {
        Err(error) => Err(error),
        Ok(safe) => Ok(write_package_entries(safe.as_slice())),
    }
}

// ---- Laws ----

/// A part of a package that was made safe is none that a preview must not hold, and none that a
/// dropped relationship leads to.
pub proof fn safe_packages_hold_no_removed_part(entries: Seq<Entry>, format: OfficeFormat)
    ensures
        sanitized(entries, format) matches Ok(safe) ==> forall|i: int|
            0 <= i < safe.len() ==> !removed_part((#[trigger] safe[i]).name, format)
                && safe[i].name != "docProps/thumbnail.jpeg"@,
{
    if let Ok(rewritten) = rewritten_from(
        entries,
        0,
        nothing_rewritten(),
        names_of(entries),
        format,
    ) {
        let kept = kept_parts(rewritten.entries, rewritten.losses.parts, format);
        lemma_kept_parts_stay_safe(rewritten.entries, rewritten.losses.parts, format);
        lemma_cleaning_keeps_names(kept, rewritten.losses.ids, names_of(kept));
    }
}

proof fn lemma_kept_parts_stay_safe(
    entries: Seq<Entry>,
    lost_parts: Seq<Seq<char>>,
    format: OfficeFormat,
)
    ensures
        forall|i: int|
            0 <= i < kept_parts(entries, lost_parts, format).len() ==> kept_part(
                (#[trigger] kept_parts(entries, lost_parts, format)[i]).name,
                lost_parts,
                format,
            ),
    decreases entries.len(),
{
    if entries.len() > 0 {
        let before = kept_parts(entries.drop_last(), lost_parts, format);
        let kept = kept_parts(entries, lost_parts, format);
        lemma_kept_parts_stay_safe(entries.drop_last(), lost_parts, format);
        assert forall|i: int| 0 <= i < kept.len() implies kept_part(
            (#[trigger] kept[i]).name,
            lost_parts,
            format,
        ) by {
            if i < before.len() {
                assert(kept[i] == before[i]);
            }
        }
    }
}

proof fn lemma_cleaning_keeps_names(
    entries: Seq<Entry>,
    lost_ids: Seq<Seq<char>>,
    names: Seq<Seq<char>>,
)
    ensures
        cleaned(entries, lost_ids, names).len() == entries.len(),
        forall|i: int|
            0 <= i < entries.len() ==> (#[trigger] cleaned(entries, lost_ids, names)[i]).name
                == entries[i].name,
    decreases entries.len(),
{
    if entries.len() > 0 {
        lemma_cleaning_keeps_names(entries.drop_last(), lost_ids, names);
    }
}

/// A relationship that stays leads to no place outside the package, has no blocked type, and leads
/// to no part that is missing or removed.
pub proof fn kept_links_stay_inside(
    found: Seq<Link>,
    source_part: Seq<char>,
    names: Seq<Seq<char>>,
    format: OfficeFormat,
)
    ensures
        forall|i: int|
            0 <= i < kept_links(found, source_part, names, format).len() ==> {
                let link = #[trigger] kept_links(found, source_part, names, format)[i];
                &&& !link.external
                &&& !blocked_type(link.relationship_type)
                &&& link_target(link, source_part, format) matches Some(target) ==> names.contains(
                    target,
                ) && !removed_part(target, format)
            },
    decreases found.len(),
{
    if found.len() > 0 {
        kept_links_stay_inside(found.drop_last(), source_part, names, format);
    }
}

/// The relationships that stay are those that lead to a part of the package that stays and that no
/// rule blocks, in their order.
pub proof fn safe_relationships_stay(
    found: Seq<Link>,
    source_part: Seq<char>,
    names: Seq<Seq<char>>,
    format: OfficeFormat,
)
    ensures
        kept_links(found, source_part, names, format) == found.filter(
            |link: Link|
                !link.external && !blocked_type(link.relationship_type) && (match resolved_target(
                    source_part,
                    link.target,
                    format.name(),
                    "OOXML"@,
                ) {
                    Ok(target) => names.contains(target) && !removed_part(target, format) && target
                        != "docProps/thumbnail.jpeg"@,
                    Err(_) => true,
                }),
        ),
    decreases found.len(),
{
    reveal(Seq::filter);
    if found.len() > 0 {
        safe_relationships_stay(found.drop_last(), source_part, names, format);
    }
}

/// No relationship that is taken out leads to the part with this name.
pub open spec fn nothing_lost_leads_to(entries: Seq<Entry>, name: Seq<char>, format: OfficeFormat) -> bool {
    forall|k: int|
        0 <= k < entries.len() && ends_with((#[trigger] entries[k]).name, ".rels"@) ==> (
        relationships_source(entries[k].name) matches Ok(source_part) ==> (parsed_links(
            entries[k].contents,
            format.name(),
        ) matches Ok(found) ==> forall|i: int|
            0 <= i < found.len() && dropped_link(
                #[trigger] found[i],
                source_part,
                names_of(entries),
                format,
            ) ==> link_target(found[i], source_part, format) != Some(name)))
}

proof fn lemma_losses_spare(
    losses: Losses,
    found: Seq<Link>,
    source_part: Seq<char>,
    names: Seq<Seq<char>>,
    format: OfficeFormat,
    name: Seq<char>,
)
    requires
        !losses.parts.contains(name),
        forall|i: int|
            0 <= i < found.len() && dropped_link(#[trigger] found[i], source_part, names, format)
                ==> link_target(found[i], source_part, format) != Some(name),
    ensures
        !losses_with(losses, found, source_part, names, format).parts.contains(name),
    decreases found.len(),
{
    if found.len() > 0 {
        let shorter = found.drop_last();
        assert forall|i: int|
            0 <= i < shorter.len() && dropped_link(#[trigger] shorter[i], source_part, names, format) implies link_target(
            shorter[i],
            source_part,
            format,
        ) != Some(name) by {
            assert(shorter[i] == found[i]);
        }
        lemma_losses_spare(losses, shorter, source_part, names, format, name);
        assert(found[found.len() - 1] == found.last());
        let before = losses_with(losses, shorter, source_part, names, format);
        let after = losses_with(losses, found, source_part, names, format);
        if after.parts.contains(name) {
            let k = choose|k: int| 0 <= k < after.parts.len() && after.parts[k] == name;
            if k < before.parts.len() {
                assert(before.parts[k] == name);
            }
        }
    }
}

proof fn lemma_rewriting_keeps_names(
    entries: Seq<Entry>,
    at: int,
    done: Rewritten,
    names: Seq<Seq<char>>,
    format: OfficeFormat,
    name: Seq<char>,
)
    requires
        0 <= at <= entries.len(),
        names == names_of(entries),
        done.entries.len() == at,
        forall|i: int|
            0 <= i < at ==> (#[trigger] done.entries[i]).name == entries[i].name && (!ends_with(
                entries[i].name,
                ".rels"@,
            ) ==> done.entries[i] == entries[i]),
        nothing_lost_leads_to(entries, name, format),
        !done.losses.parts.contains(name),
    ensures
        rewritten_from(entries, at, done, names, format) matches Ok(all) ==> {
            &&& all.entries.len() == entries.len()
            &&& forall|i: int|
                0 <= i < entries.len() ==> (#[trigger] all.entries[i]).name == entries[i].name && (!ends_with(
                    entries[i].name,
                    ".rels"@,
                ) ==> all.entries[i] == entries[i])
            &&& !all.losses.parts.contains(name)
        },
    decreases entries.len() - at,
{
    if at < entries.len() {
        if let Ok(more) = rewritten_with(done, entries[at], names, format) {
            let entry = entries[at];
            if ends_with(entry.name, ".rels"@) {
                let source_part = relationships_source(entry.name)->Ok_0;
                let found = parsed_links(entry.contents, format.name())->Ok_0;
                assert(ends_with(entries[at].name, ".rels"@));
                lemma_losses_spare(done.losses, found, source_part, names, format, name);
            }
            assert forall|i: int| 0 <= i < at + 1 implies (#[trigger] more.entries[i]).name
                == entries[i].name && (!ends_with(entries[i].name, ".rels"@) ==> more.entries[i]
                == entries[i]) by {
                if i < at {
                    assert(more.entries[i] == done.entries[i]);
                }
            }
            lemma_rewriting_keeps_names(entries, at + 1, more, names, format, name);
        }
    }
}

proof fn lemma_kept_part_stays(
    entries: Seq<Entry>,
    lost_parts: Seq<Seq<char>>,
    format: OfficeFormat,
    at: int,
)
    requires
        0 <= at < entries.len(),
        kept_part(entries[at].name, lost_parts, format),
    ensures
        kept_parts(entries, lost_parts, format).contains(entries[at]),
    decreases entries.len(),
{
    let shorter = entries.drop_last();
    let all = kept_parts(entries, lost_parts, format);
    if at < shorter.len() {
        assert(shorter[at] == entries[at]);
        lemma_kept_part_stays(shorter, lost_parts, format, at);
        let before = kept_parts(shorter, lost_parts, format);
        let k = choose|k: int| 0 <= k < before.len() && before[k] == entries[at];
        assert(all[k] == entries[at]);
    } else {
        assert(all[all.len() - 1] == entries[at]);
    }
}

proof fn lemma_cleaning_keeps_parts(
    entries: Seq<Entry>,
    lost_ids: Seq<Seq<char>>,
    names: Seq<Seq<char>>,
)
    ensures
        cleaned(entries, lost_ids, names).len() == entries.len(),
        forall|i: int|
            0 <= i < entries.len() ==> (#[trigger] cleaned(entries, lost_ids, names)[i]).name
                == entries[i].name && (!ends_with(entries[i].name, ".xml"@) && entries[i].name
                != "[Content_Types].xml"@ ==> cleaned(entries, lost_ids, names)[i] == entries[i]),
    decreases entries.len(),
{
    if entries.len() > 0 {
        let shorter = entries.drop_last();
        lemma_cleaning_keeps_parts(shorter, lost_ids, names);
        let before = cleaned(shorter, lost_ids, names);
        let all = cleaned(entries, lost_ids, names);
        assert forall|i: int| 0 <= i < entries.len() implies (#[trigger] all[i]).name == entries[i].name
            && (!ends_with(entries[i].name, ".xml"@) && entries[i].name != "[Content_Types].xml"@
            ==> all[i] == entries[i]) by {
            if i < shorter.len() {
                assert(all[i] == before[i]);
                assert(shorter[i] == entries[i]);
            }
        }
    }
}

/// A part with this name is there; one that holds neither markup nor relationships has the same
/// contents.
pub open spec fn part_is_there(entries: Seq<Entry>, part: Entry) -> bool {
    exists|i: int|
        0 <= i < entries.len() && (#[trigger] entries[i]).name == part.name && (!ends_with(
            part.name,
            ".rels"@,
        ) && !ends_with(part.name, ".xml"@) && part.name != "[Content_Types].xml"@ ==> entries[i].contents
            == part.contents)
}

/// Making a package safe takes out no part but those that a preview must not hold and those that a
/// relationship leads to that was taken out; a part that holds neither markup nor relationships stays
/// byte for byte.
pub proof fn safe_parts_stay(entries: Seq<Entry>, format: OfficeFormat, at: int)
    requires
        0 <= at < entries.len(),
        !removed_part(entries[at].name, format),
        entries[at].name != "docProps/thumbnail.jpeg"@,
        nothing_lost_leads_to(entries, entries[at].name, format),
    ensures
        sanitized(entries, format) matches Ok(safe) ==> part_is_there(safe, entries[at]),
{
    if let Ok(rewritten) = rewritten_from(entries, 0, nothing_rewritten(), names_of(entries), format) {
        lemma_rewriting_keeps_names(
            entries,
            0,
            nothing_rewritten(),
            names_of(entries),
            format,
            entries[at].name,
        );
        let kept = kept_parts(rewritten.entries, rewritten.losses.parts, format);
        assert(rewritten.entries[at].name == entries[at].name);
        lemma_kept_part_stays(rewritten.entries, rewritten.losses.parts, format, at);
        lemma_cleaning_keeps_parts(kept, rewritten.losses.ids, names_of(kept));
        let k = choose|k: int| 0 <= k < kept.len() && kept[k] == rewritten.entries[at];
        let safe = cleaned(kept, rewritten.losses.ids, names_of(kept));
        assert(sanitized(entries, format) == Ok::<_, Failure>(safe));
        assert(safe[k].name == kept[k].name);
        if !ends_with(entries[at].name, ".rels"@) && !ends_with(entries[at].name, ".xml"@)
            && entries[at].name != "[Content_Types].xml"@ {
            assert(rewritten.entries[at] == entries[at]);
            assert(safe[k] == kept[k]);
            assert(safe[k] == entries[at]);
        }
        assert(0 <= k < safe.len() && safe[k].name == entries[at].name);
        assert(part_is_there(safe, entries[at]));
    }
}

} // verus!
