//! Content types, relationships and references to relationships in an Office package.

use vstd::prelude::*;
use crate::error::{failure, outcome, ErrorKind, Failure, LibraryError, LibraryResult};
use crate::package::{Entry, PackageEntry};
use crate::parts::{
    extension, extension_of, external_target, normalize_part_name, normalized_part_name,
    relationship_part_name, relationships_part, target_is_external,
};
use crate::text::{
    ascii_lowercase, chars, eq_ignore_ascii_case, has_prefix, last_index, rfind_char, same,
    skip_leading, starts_with, strip_leading, text_between, text_of, to_ascii_lowercase, trim,
    trimmed, views,
};
use crate::xml::{
    attribute_views, attributes_of, element_attributes, element_name, element_pairs, get_value,
    local_tag_name, pair_views, read_attributes, read_events, root_local_name, root_name, tokens,
    value_of, xml_tokens, Attribute, Token, XmlAttribute, XmlEvent, XmlPair,
};

verus! {

// ---- Parts by name ----

/// The contents of the first part with this name.
pub open spec fn part_contents(entries: Seq<Entry>, name: Seq<char>) -> Option<Seq<u8>>
    decreases entries.len(),
{
    if entries.len() == 0 {
        None
    } else if entries[0].name == name {
        Some(entries[0].contents)
    } else {
        part_contents(entries.skip(1), name)
    }
}

/// The contents of the first part with this name.
pub fn read_entry_optional<'a>(entries: &'a [PackageEntry], name: &str) -> (found: Option<&'a [u8]>)
    ensures
        (match found {
            Some(contents) => Some(contents@),
            None => None,
        }) == part_contents(crate::package::entry_views(entries@), name@),
{
    let ghost views = crate::package::entry_views(entries@);
    let mut i: usize = 0;
    assert(views.skip(0) =~= views);
    while i < entries.len()
        invariant
            i <= entries@.len(),
            views == crate::package::entry_views(entries@),
            part_contents(views.skip(i as int), name@) == part_contents(views, name@),
        decreases entries@.len() - i,
    {
        assert(views.skip(i as int)[0] == entries@[i as int]@);
        assert(views.skip(i as int).skip(1) =~= views.skip(i + 1));
        if same(entries[i].name.as_str(), name) {
            return Some(entries[i].contents.as_slice());
        }
        i = i + 1;
    }
    None
}

/// The contents of a part, or that it is missing.
pub open spec fn required_part(entries: Seq<Entry>, name: Seq<char>, format: Seq<char>) -> Result<
    Seq<u8>,
    Failure,
> {
    match part_contents(entries, name) {
        Some(contents) => Ok(contents),
        None => Err(failure(ErrorKind::ImportFile, format + " 文件缺少 "@ + name + "。"@)),
    }
}

/// The contents of a part, or that it is missing.
pub fn read_entry<'a>(entries: &'a [PackageEntry], name: &str, format: &str) -> (result: LibraryResult<
    &'a [u8],
>)
    ensures
        (match result {
            Ok(contents) => Ok(contents@),
            Err(error) => Err(error@),
        }) == required_part(crate::package::entry_views(entries@), name@, format@),
{
    match read_entry_optional(entries, name) {
        Some(contents) => Ok(contents),
        None => {
            let mut message = format.to_owned();
            message.append(" 文件缺少 ");
            message.append(name);
            message.append("。");
            Err(LibraryError::ImportFile(message))
        },
    }
}

// ---- Content types ----

/// The declared content types of a package: by extension, and by part.
#[derive(Debug)]
pub struct ContentTypes {
    pub defaults: Vec<XmlPair>,
    pub overrides: Vec<XmlPair>,
}

/// [`ContentTypes`] by characters; where a key is repeated, the last value counts.
#[verifier::ext_equal]
pub struct Types {
    pub defaults: Seq<(Seq<char>, Seq<char>)>,
    pub overrides: Seq<(Seq<char>, Seq<char>)>,
}

impl View for ContentTypes {
    type V = Types;

    open spec fn view(&self) -> Types {
        Types { defaults: pair_views(self.defaults@), overrides: pair_views(self.overrides@) }
    }
}

/// The content type of a part: the one declared for it, else the one for its extension.
pub open spec fn declared(types: Types, part_name: Seq<char>) -> Option<Seq<char>> {
    match value_of(types.overrides, part_name) {
        Some(content_type) => Some(content_type),
        None => match extension_of(part_name) {
            Some(extension) => value_of(types.defaults, ascii_lowercase(extension)),
            None => None,
        },
    }
}

impl ContentTypes {
    /// The content type of a part.
    pub fn declared_type(&self, part_name: &str) -> (found: Option<&String>)
        ensures
            (match found {
                Some(content_type) => Some(content_type@),
                None => None,
            }) == declared(self@, part_name@),
    {
        if let Some(content_type) = get_value(self.overrides.as_slice(), part_name) {
            return Some(content_type);
        }
        match extension(chars(part_name).as_slice()) {
            Some(extension) => get_value(
                self.defaults.as_slice(),
                to_ascii_lowercase(extension.as_str()).as_str(),
            ),
            None => None,
        }
    }
}

/// The content types after one more element, or why it is refused. The format and the label stand in
/// the errors.
pub open spec fn with_type_element(
    types: Types,
    tag: Seq<char>,
    format: Seq<char>,
    label: Seq<char>,
) -> Result<Types, Failure> {
    let name = element_name(tag);
    if name != "Default"@ && name != "Override"@ {
        Ok(types)
    } else {
        match element_pairs(tag, format + " [Content_Types].xml"@) {
            Err(error) => Err(error),
            Ok(pairs) => if name == "Default"@ {
                match (value_of(pairs, "Extension"@), value_of(pairs, "ContentType"@)) {
                    (Some(extension), Some(content_type)) => Ok(
                        Types {
                            defaults: types.defaults.push(
                                (ascii_lowercase(strip_leading(extension, '.')), content_type),
                            ),
                            overrides: types.overrides,
                        },
                    ),
                    _ => Ok(types),
                }
            } else {
                match (value_of(pairs, "PartName"@), value_of(pairs, "ContentType"@)) {
                    (Some(part_name), Some(content_type)) => match normalized_part_name(
                        part_name,
                        label,
                    ) {
                        Err(error) => Err(error),
                        Ok(normalized) => Ok(
                            Types {
                                defaults: types.defaults,
                                overrides: types.overrides.push((normalized, content_type)),
                            },
                        ),
                    },
                    _ => Ok(types),
                }
            },
        }
    }
}

/// The content types that the events from `at` on add to `types`, or why they are refused.
pub open spec fn types_from(
    list: Seq<Token>,
    at: int,
    types: Types,
    format: Seq<char>,
    label: Seq<char>,
) -> Result<Types, Failure>
    decreases list.len() - at,
{
    if at < 0 || at >= list.len() {
        Ok(types)
    } else {
        match list[at] {
            Token::Start(tag) | Token::Empty(tag) => match with_type_element(types, tag, format, label) {
                Err(error) => Err(error),
                Ok(more) => types_from(list, at + 1, more, format, label),
            },
            Token::Eof => Ok(types),
            Token::Failed(reason) => Err(
                failure(
                    ErrorKind::ImportFile,
                    "无法解析 "@ + format + " [Content_Types].xml："@ + reason,
                ),
            ),
            _ => types_from(list, at + 1, types, format, label),
        }
    }
}

/// No content types.
pub open spec fn no_types() -> Types {
    Types { defaults: Seq::empty(), overrides: Seq::empty() }
}

/// Adds what one more element declares.
fn add_type_element(types: &mut ContentTypes, tag: &str, format: &str, label: &str) -> (result:
    LibraryResult<()>)
    ensures
        (match result {
            Ok(()) => Ok(final(types)@),
            Err(error) => Err(error@),
        }) == with_type_element(old(types)@, tag@, format@, label@),
{
    let name = local_tag_name(tag);
    if !same(name.as_str(), "Default") && !same(name.as_str(), "Override") {
        return Ok(());
    }
    let mut context = format.to_owned();
    context.append(" [Content_Types].xml");
    let pairs = match read_attributes(tag, context.as_str()) {
        Err(error) => {
            return Err(error);
        },
        Ok(pairs) => pairs,
    };
    let ghost before = types@;
    if same(name.as_str(), "Default") {
        if let (Some(extension), Some(content_type)) = (
            get_value(pairs.as_slice(), "Extension"),
            get_value(pairs.as_slice(), "ContentType"),
        ) {
            let all = chars(extension.as_str());
            let size: usize = all.len();
            let start = skip_leading(all.as_slice(), '.', 0, size);
            assert(all@.subrange(0, size as int) =~= all@);
            let key = to_ascii_lowercase(text_between(all.as_slice(), start, size).as_str());
            types.defaults.push(XmlPair { key, value: content_type.clone() });
            assert(types@.defaults =~= before.defaults.push(
                (ascii_lowercase(strip_leading(extension@, '.')), content_type@),
            ));
        }
    } else if let (Some(part_name), Some(content_type)) = (
        get_value(pairs.as_slice(), "PartName"),
        get_value(pairs.as_slice(), "ContentType"),
    ) {
        match normalize_part_name(part_name.as_str(), label) {
            Err(error) => {
                return Err(error);
            },
            Ok(key) => {
                let ghost normalized = key@;
                types.overrides.push(XmlPair { key, value: content_type.clone() });
                assert(types@.overrides =~= before.overrides.push((normalized, content_type@)));
            },
        }
    }
    Ok(())
}

/// The content types that a result holds, or why it holds none, by views.
pub open spec fn types_outcome(result: LibraryResult<ContentTypes>) -> Result<Types, Failure> {
    match result {
        Ok(types) => Ok(types@),
        Err(error) => Err(error@),
    }
}

/// The content types that the events declare.
pub fn content_types_of(events: &[XmlEvent], format: &str, label: &str) -> (result: LibraryResult<
    ContentTypes,
>)
    ensures
        types_outcome(result) == types_from(tokens(events@), 0, no_types(), format@, label@),
{
    let ghost list = tokens(events@);
    let mut types = ContentTypes { defaults: Vec::new(), overrides: Vec::new() };
    assert(types@ =~= no_types());
    let mut i: usize = 0;
    while i < events.len()
        invariant
            i <= events@.len(),
            list == tokens(events@),
            types_from(list, i as int, types@, format@, label@) == types_from(
                list,
                0,
                no_types(),
                format@,
                label@,
            ),
        decreases events@.len() - i,
    {
        assert(list[i as int] == events@[i as int]@);
        match &events[i] {
            XmlEvent::Start(tag) => {
                if let Err(error) = add_type_element(&mut types, tag.as_str(), format, label) {
                    return Err(error);
                }
            },
            XmlEvent::Empty(tag) => {
                if let Err(error) = add_type_element(&mut types, tag.as_str(), format, label) {
                    return Err(error);
                }
            },
            XmlEvent::Eof => {
                return Ok(types);
            },
            XmlEvent::Failed(reason) => {
                let mut message = "无法解析 ".to_owned();
                message.append(format);
                message.append(" [Content_Types].xml：");
                message.append(reason.as_str());
                return Err(LibraryError::ImportFile(message));
            },
            _ => {},
        }
        i = i + 1;
    }
    Ok(types)
}

/// The content types of a package, or why they are refused.
pub open spec fn package_types(entries: Seq<Entry>) -> Result<Types, Failure> {
    match required_part(entries, "[Content_Types].xml"@, "PPTX"@) {
        Err(error) => Err(error),
        Ok(xml) => {
            let list = xml_tokens(xml, true);
            match root_name(list, "PPTX"@) {
                Err(error) => Err(error),
                Ok(root) => if root != "Types"@ {
                    Err(
                        failure(
                            ErrorKind::ImportFile,
                            "PPTX 结构无效：[Content_Types].xml 根节点不是 Types。"@,
                        ),
                    )
                } else {
                    types_from(list, 0, no_types(), "PPTX"@, "OOXML"@)
                },
            }
        },
    }
}

/// The content types of a package, or why they are refused.
pub fn parse_content_types(entries: &[PackageEntry]) -> (result: LibraryResult<ContentTypes>)
    ensures
        types_outcome(result) == package_types(crate::package::entry_views(entries@)),
{
    let xml = match read_entry(entries, "[Content_Types].xml", "PPTX") {
        Err(error) => {
            return Err(error);
        },
        Ok(xml) => xml,
    };
    let events = read_events(xml, true);
    match root_local_name(events.as_slice(), "PPTX") {
        Err(error) => Err(error),
        Ok(root) => {
            if !same(root.as_str(), "Types") {
                return Err(
                    LibraryError::ImportFile(
                        "PPTX 结构无效：[Content_Types].xml 根节点不是 Types。".to_owned(),
                    ),
                );
            }
            content_types_of(events.as_slice(), "PPTX", "OOXML")
        },
    }
}

// ---- Relationships ----

/// A relationship from one part to another, or to something outside the package.
#[derive(Debug)]
pub struct Relationship {
    pub id: String,
    pub relationship_type: String,
    pub target: String,
    pub external: bool,
}

/// [`Relationship`] by characters.
#[verifier::ext_equal]
pub struct Link {
    pub id: Seq<char>,
    pub relationship_type: Seq<char>,
    pub target: Seq<char>,
    pub external: bool,
}

impl View for Relationship {
    type V = Link;

    open spec fn view(&self) -> Link {
        Link {
            id: self.id@,
            relationship_type: self.relationship_type@,
            target: self.target@,
            external: self.external,
        }
    }
}

impl Relationship {
    /// A copy.
    pub fn copy(&self) -> (copy: Relationship)
        ensures
            copy@ == self@,
    {
        Relationship {
            id: self.id.clone(),
            relationship_type: self.relationship_type.clone(),
            target: self.target.clone(),
            external: self.external,
        }
    }
}

/// The relationships by views.
pub open spec fn links(relationships: Seq<Relationship>) -> Seq<Link> {
    relationships.map_values(|relationship: Relationship| relationship@)
}

/// The relationships that a result holds, or why it holds none, by views.
pub open spec fn links_outcome(result: LibraryResult<Vec<Relationship>>) -> Result<
    Seq<Link>,
    Failure,
> {
    match result {
        Ok(relationships) => Ok(links(relationships@)),
        Err(error) => Err(error@),
    }
}

/// The relationship that an element declares, or why it is refused.
pub open spec fn link_of(tag: Seq<char>, format: Seq<char>) -> Result<Link, Failure> {
    match element_pairs(tag, format + " relationship"@) {
        Err(error) => Err(error),
        Ok(pairs) => match value_of(pairs, "Id"@) {
            None => Err(failure(ErrorKind::ImportFile, format + " relationship 缺少 Id。"@)),
            Some(id) => match value_of(pairs, "Type"@) {
                None => Err(
                    failure(
                        ErrorKind::ImportFile,
                        format + " relationship "@ + id + " 缺少 Type。"@,
                    ),
                ),
                Some(relationship_type) => match value_of(pairs, "Target"@) {
                    None => Err(
                        failure(
                            ErrorKind::ImportFile,
                            format + " relationship "@ + id + " 缺少 Target。"@,
                        ),
                    ),
                    Some(target) => Ok(
                        Link {
                            id,
                            relationship_type,
                            target,
                            external: (value_of(pairs, "TargetMode"@) matches Some(mode)
                                && ascii_lowercase(mode) == ascii_lowercase("External"@))
                                || external_target(target),
                        },
                    ),
                },
            },
        },
    }
}

/// The relationship that an element declares, or why it is refused.
pub fn read_link(tag: &str, format: &str) -> (result: LibraryResult<Relationship>)
    ensures
        outcome(result) == link_of(tag@, format@),
{
    let mut context = format.to_owned();
    context.append(" relationship");
    let pairs = match read_attributes(tag, context.as_str()) {
        Err(error) => {
            return Err(error);
        },
        Ok(pairs) => pairs,
    };
    let id = match get_value(pairs.as_slice(), "Id") {
        None => {
            let mut message = format.to_owned();
            message.append(" relationship 缺少 Id。");
            return Err(LibraryError::ImportFile(message));
        },
        Some(id) => id.clone(),
    };
    let relationship_type = match get_value(pairs.as_slice(), "Type") {
        None => {
            let mut message = format.to_owned();
            message.append(" relationship ");
            message.append(id.as_str());
            message.append(" 缺少 Type。");
            return Err(LibraryError::ImportFile(message));
        },
        Some(relationship_type) => relationship_type.clone(),
    };
    let target = match get_value(pairs.as_slice(), "Target") {
        None => {
            let mut message = format.to_owned();
            message.append(" relationship ");
            message.append(id.as_str());
            message.append(" 缺少 Target。");
            return Err(LibraryError::ImportFile(message));
        },
        Some(target) => target.clone(),
    };
    let declared_external = match get_value(pairs.as_slice(), "TargetMode") {
        Some(mode) => eq_ignore_ascii_case(mode.as_str(), "External"),
        None => false,
    };
    let external = declared_external || target_is_external(target.as_str());
    Ok(Relationship { id, relationship_type, target, external })
}

/// The relationships `found` and those that the events from `at` on declare, or why one is refused.
pub open spec fn links_from(list: Seq<Token>, at: int, found: Seq<Link>, format: Seq<char>) -> Result<
    Seq<Link>,
    Failure,
>
    decreases list.len() - at,
{
    if at < 0 || at >= list.len() {
        Ok(found)
    } else {
        match list[at] {
            Token::Start(tag) | Token::Empty(tag) => if element_name(tag) != "Relationship"@ {
                links_from(list, at + 1, found, format)
            } else {
                match link_of(tag, format) {
                    Err(error) => Err(error),
                    Ok(link) => links_from(list, at + 1, found.push(link), format),
                }
            },
            Token::Eof => Ok(found),
            Token::Failed(reason) => Err(
                failure(
                    ErrorKind::ImportFile,
                    "无法解析 "@ + format + " relationships："@ + reason,
                ),
            ),
            _ => links_from(list, at + 1, found, format),
        }
    }
}

/// The relationships that the events declare, or why one is refused.
pub fn relationships_of(events: &[XmlEvent], format: &str) -> (result: LibraryResult<
    Vec<Relationship>,
>)
    ensures
        links_outcome(result) == links_from(tokens(events@), 0, Seq::empty(), format@),
{
    let ghost list = tokens(events@);
    let mut found: Vec<Relationship> = Vec::new();
    assert(links(found@) =~= Seq::empty());
    let mut i: usize = 0;
    while i < events.len()
        invariant
            i <= events@.len(),
            list == tokens(events@),
            links_from(list, i as int, links(found@), format@) == links_from(
                list,
                0,
                Seq::empty(),
                format@,
            ),
        decreases events@.len() - i,
    {
        assert(list[i as int] == events@[i as int]@);
        let element: Option<&String> = match &events[i] {
            XmlEvent::Start(tag) => Some(tag),
            XmlEvent::Empty(tag) => Some(tag),
            XmlEvent::Eof => {
                return Ok(found);
            },
            XmlEvent::Failed(reason) => {
                let mut message = "无法解析 ".to_owned();
                message.append(format);
                message.append(" relationships：");
                message.append(reason.as_str());
                return Err(LibraryError::ImportFile(message));
            },
            _ => None,
        };
        if let Some(tag) = element {
            if same(local_tag_name(tag.as_str()).as_str(), "Relationship") {
                match read_link(tag.as_str(), format) {
                    Err(error) => {
                        return Err(error);
                    },
                    Ok(relationship) => {
                        let ghost before = links(found@);
                        let ghost link = relationship@;
                        found.push(relationship);
                        assert(links(found@) =~= before.push(link));
                    },
                }
            }
        }
        i = i + 1;
    }
    Ok(found)
}

/// The relationships that an XML text declares, or why one is refused.
pub open spec fn parsed_links(xml: Seq<u8>, format: Seq<char>) -> Result<Seq<Link>, Failure> {
    links_from(xml_tokens(xml, true), 0, Seq::empty(), format)
}

/// The relationships that an XML text declares, or why one is refused.
pub fn parse_relationships(xml: &[u8], format: &str) -> (result: LibraryResult<Vec<Relationship>>)
    ensures
        links_outcome(result) == parsed_links(xml@, format@),
{
    let events = read_events(xml, true);
    relationships_of(events.as_slice(), format)
}

/// The relationships of a part, where it has any, or why one is refused.
pub open spec fn part_links(entries: Seq<Entry>, source_part: Seq<char>, format: Seq<char>) -> Result<
    Option<Seq<Link>>,
    Failure,
> {
    match part_contents(entries, relationships_part(source_part)) {
        None => Ok(None),
        Some(xml) => match parsed_links(xml, format) {
            Err(error) => Err(error),
            Ok(found) => Ok(Some(found)),
        },
    }
}

/// The relationships of a part, where it has any, or why one is refused.
pub fn read_relationships(entries: &[PackageEntry], source_part: &str, format: &str) -> (result:
    LibraryResult<Option<Vec<Relationship>>>)
    ensures
        (match result {
            Ok(Some(found)) => Ok(Some(links(found@))),
            Ok(None) => Ok(None),
            Err(error) => Err(error@),
        }) == part_links(crate::package::entry_views(entries@), source_part@, format@),
{
    let relationship_part = relationship_part_name(source_part);
    match read_entry_optional(entries, relationship_part.as_str()) {
        None => Ok(None),
        Some(xml) => match parse_relationships(xml, format) {
            Err(error) => Err(error),
            Ok(found) => Ok(Some(found)),
        },
    }
}

/// The first relationship with this id.
pub open spec fn link_with_id(found: Seq<Link>, id: Seq<char>) -> Option<Link>
    decreases found.len(),
{
    if found.len() == 0 {
        None
    } else if found[0].id == id {
        Some(found[0])
    } else {
        link_with_id(found.skip(1), id)
    }
}

/// The first relationship with this id.
pub fn find_relationship<'a>(relationships: &'a [Relationship], id: &str) -> (found: Option<
    &'a Relationship,
>)
    ensures
        (match found {
            Some(relationship) => Some(relationship@),
            None => None,
        }) == link_with_id(links(relationships@), id@),
{
    let ghost all = links(relationships@);
    let mut i: usize = 0;
    assert(all.skip(0) =~= all);
    while i < relationships.len()
        invariant
            i <= relationships@.len(),
            all == links(relationships@),
            link_with_id(all.skip(i as int), id@) == link_with_id(all, id@),
        decreases relationships@.len() - i,
    {
        assert(all.skip(i as int)[0] == relationships@[i as int]@);
        assert(all.skip(i as int).skip(1) =~= all.skip(i + 1));
        if same(relationships[i].id.as_str(), id) {
            return Some(&relationships[i]);
        }
        i = i + 1;
    }
    None
}

/// No id is given twice, or the first that is.
pub open spec fn unique_ids(found: Seq<Link>, format: Seq<char>) -> Result<(), Failure>
    decreases found.len(),
{
    if found.len() == 0 {
        Ok(())
    } else {
        match unique_ids(found.drop_last(), format) {
            Err(error) => Err(error),
            Ok(()) => if link_with_id(found.drop_last(), found.last().id) is Some {
                Err(
                    failure(
                        ErrorKind::ImportFile,
                        format + " 结构无效：关系 Id 重复："@ + found.last().id + "。"@,
                    ),
                )
            } else {
                Ok(())
            },
        }
    }
}

proof fn lemma_unique_ids_error_stays(found: Seq<Link>, format: Seq<char>, i: int)
    requires
        0 <= i <= found.len(),
        unique_ids(found.take(i), format) is Err,
    ensures
        unique_ids(found, format) == unique_ids(found.take(i), format),
    decreases found.len() - i,
{
    if i < found.len() {
        assert(found.take(i + 1).drop_last() =~= found.take(i));
        lemma_unique_ids_error_stays(found, format, i + 1);
    } else {
        assert(found.take(i) =~= found);
    }
}

/// Checks that no id is given twice.
pub fn require_unique_ids(relationships: &[Relationship], format: &str) -> (result: LibraryResult<()>)
    ensures
        outcome(result) == unique_ids(links(relationships@), format@),
{
    let ghost all = links(relationships@);
    let mut i: usize = 0;
    while i < relationships.len()
        invariant
            i <= relationships@.len(),
            all == links(relationships@),
            unique_ids(all.take(i as int), format@) == Ok::<(), Failure>(()),
        decreases relationships@.len() - i,
    {
        assert(all.take(i + 1).drop_last() =~= all.take(i as int));
        assert(all.take(i + 1).last() == relationships@[i as int]@);
        let earlier = vstd::slice::slice_subrange(relationships, 0, i);
        assert(links(earlier@) =~= all.take(i as int));
        if find_relationship(earlier, relationships[i].id.as_str()).is_some() {
            let mut message = format.to_owned();
            message.append(" 结构无效：关系 Id 重复：");
            message.append(relationships[i].id.as_str());
            message.append("。");
            proof {
                lemma_unique_ids_error_stays(all, format@, i + 1);
            }
            return Err(LibraryError::ImportFile(message));
        }
        i = i + 1;
    }
    assert(all.take(i as int) =~= all);
    Ok(())
}

// ---- References to relationships ----

/// What stands behind the last colon of a key.
pub open spec fn after_prefix(key: Seq<char>) -> Seq<char> {
    match last_index(key, ':') {
        Some(at) => key.skip(at + 1),
        None => key,
    }
}

/// The names under which an attribute refers to a relationship.
pub open spec fn reference_name(name: Seq<char>) -> bool {
    name == "id"@ || name == "embed"@ || name == "link"@ || name == "pict"@ || name == "dm"@ || name
        == "lo"@
}

/// Whether an attribute with this name refers to a relationship.
pub fn is_reference_name(key: &[char]) -> (found: bool)
    ensures
        found == reference_name(after_prefix(key@)),
{
    let name = match rfind_char(key, ':') {
        Some(at) => {
            let size: usize = key.len();
            let name = text_between(key, at + 1, size);
            assert(name@ =~= key@.skip(at + 1));
            name
        },
        None => text_of(key),
    };
    let name = name.as_str();
    same(name, "id") || same(name, "embed") || same(name, "link") || same(name, "pict") || same(
        name,
        "dm",
    ) || same(name, "lo")
}

/// The ids that the attributes refer to, or the first thing that is wrong with them.
pub open spec fn references_in(attributes: Seq<Attribute>, format: Seq<char>) -> Result<
    Seq<Seq<char>>,
    Failure,
>
    decreases attributes.len(),
{
    if attributes.len() == 0 {
        Ok(Seq::empty())
    } else {
        match references_in(attributes.drop_last(), format) {
            Err(error) => Err(error),
            Ok(found) => match attributes.last() {
                Attribute::Malformed(reason) => Err(
                    failure(ErrorKind::ImportFile, format + " XML 属性无效："@ + reason),
                ),
                Attribute::Named(key, value) => if !(starts_with(key, "r:"@) && reference_name(
                    after_prefix(key),
                )) {
                    Ok(found)
                } else {
                    match value {
                        Err(reason) => Err(
                            failure(ErrorKind::ImportFile, format + " 属性编码无效："@ + reason),
                        ),
                        Ok(id) => if trim(id).len() == 0 {
                            Ok(found)
                        } else {
                            Ok(found.push(id))
                        },
                    }
                },
            },
        }
    }
}

proof fn lemma_references_error_stays(attributes: Seq<Attribute>, format: Seq<char>, i: int)
    requires
        0 <= i <= attributes.len(),
        references_in(attributes.take(i), format) is Err,
    ensures
        references_in(attributes, format) == references_in(attributes.take(i), format),
    decreases attributes.len() - i,
{
    if i < attributes.len() {
        assert(attributes.take(i + 1).drop_last() =~= attributes.take(i));
        lemma_references_error_stays(attributes, format, i + 1);
    } else {
        assert(attributes.take(i) =~= attributes);
    }
}

/// The texts that a result holds, or why it holds none, by views.
pub open spec fn texts_outcome(result: LibraryResult<Vec<String>>) -> Result<
    Seq<Seq<char>>,
    Failure,
> {
    match result {
        Ok(texts) => Ok(views(texts@)),
        Err(error) => Err(error@),
    }
}

/// The ids that the attributes refer to, or the first thing that is wrong with them.
pub fn attribute_references(attributes: &[XmlAttribute], format: &str) -> (result: LibraryResult<
    Vec<String>,
>)
    ensures
        texts_outcome(result) == references_in(attribute_views(attributes@), format@),
{
    let ghost all = attribute_views(attributes@);
    let mut found: Vec<String> = Vec::new();
    assert(views(found@) =~= Seq::empty());
    let mut i: usize = 0;
    while i < attributes.len()
        invariant
            i <= attributes@.len(),
            all == attribute_views(attributes@),
            references_in(all.take(i as int), format@) == Ok::<_, Failure>(views(found@)),
        decreases attributes@.len() - i,
    {
        assert(all.take(i + 1).drop_last() =~= all.take(i as int));
        assert(all.take(i + 1).last() == attributes@[i as int]@);
        match &attributes[i] {
            XmlAttribute::Malformed(reason) => {
                let mut message = format.to_owned();
                message.append(" XML 属性无效：");
                message.append(reason.as_str());
                proof {
                    lemma_references_error_stays(all, format@, i + 1);
                }
                return Err(LibraryError::ImportFile(message));
            },
            XmlAttribute::Named(key, value) => {
                let key = chars(key.as_str());
                if has_prefix(key.as_slice(), "r:") && is_reference_name(key.as_slice()) {
                    match value {
                        Err(reason) => {
                            let mut message = format.to_owned();
                            message.append(" 属性编码无效：");
                            message.append(reason.as_str());
                            proof {
                                lemma_references_error_stays(all, format@, i + 1);
                            }
                            return Err(LibraryError::ImportFile(message));
                        },
                        Ok(id) => {
                            if !trimmed(id.as_str()).as_str().is_empty() {
                                let ghost before = views(found@);
                                found.push(id.clone());
                                assert(views(found@) =~= before.push(id@));
                            }
                        },
                    }
                }
            },
        }
        i = i + 1;
    }
    assert(all.take(i as int) =~= all);
    Ok(found)
}

/// The ids `found` and those that the events from `at` on refer to, or why they are refused.
pub open spec fn references_from(
    list: Seq<Token>,
    at: int,
    found: Seq<Seq<char>>,
    format: Seq<char>,
) -> Result<Seq<Seq<char>>, Failure>
    decreases list.len() - at,
{
    if at < 0 || at >= list.len() {
        Ok(found)
    } else {
        match list[at] {
            Token::Start(tag) | Token::Empty(tag) => match references_in(
                attributes_of(tag),
                format,
            ) {
                Err(error) => Err(error),
                Ok(more) => references_from(list, at + 1, found + more, format),
            },
            Token::Eof => Ok(found),
            Token::Failed(reason) => Err(
                failure(
                    ErrorKind::ImportFile,
                    "无法解析 "@ + format + " 关系引用："@ + reason,
                ),
            ),
            _ => references_from(list, at + 1, found, format),
        }
    }
}

/// The ids that the events refer to, or why they are refused.
pub fn references_of(events: &[XmlEvent], format: &str) -> (result: LibraryResult<Vec<String>>)
    ensures
        texts_outcome(result) == references_from(tokens(events@), 0, Seq::empty(), format@),
{
    let ghost list = tokens(events@);
    let mut found: Vec<String> = Vec::new();
    assert(views(found@) =~= Seq::empty());
    let mut i: usize = 0;
    while i < events.len()
        invariant
            i <= events@.len(),
            list == tokens(events@),
            references_from(list, i as int, views(found@), format@) == references_from(
                list,
                0,
                Seq::empty(),
                format@,
            ),
        decreases events@.len() - i,
    {
        assert(list[i as int] == events@[i as int]@);
        let element: Option<&String> = match &events[i] {
            XmlEvent::Start(tag) => Some(tag),
            XmlEvent::Empty(tag) => Some(tag),
            XmlEvent::Eof => {
                return Ok(found);
            },
            XmlEvent::Failed(reason) => {
                let mut message = "无法解析 ".to_owned();
                message.append(format);
                message.append(" 关系引用：");
                message.append(reason.as_str());
                return Err(LibraryError::ImportFile(message));
            },
            _ => None,
        };
        if let Some(tag) = element {
            let attributes = element_attributes(tag.as_str());
            match attribute_references(attributes.as_slice(), format) {
                Err(error) => {
                    return Err(error);
                },
                Ok(more) => {
                    let mut more = more;
                    let ghost before = views(found@);
                    let ghost added = views(more@);
                    found.append(&mut more);
                    assert(views(found@) =~= before + added);
                },
            }
        }
        i = i + 1;
    }
    Ok(found)
}

/// The ids that an XML text refers to, or why it is refused.
pub open spec fn parsed_references(xml: Seq<u8>, format: Seq<char>) -> Result<
    Seq<Seq<char>>,
    Failure,
> {
    references_from(xml_tokens(xml, true), 0, Seq::empty(), format)
}

/// The ids that an XML text refers to, or why it is refused.
pub fn relationship_references(xml: &[u8], format: &str) -> (result: LibraryResult<Vec<String>>)
    ensures
        texts_outcome(result) == parsed_references(xml@, format@),
{
    let events = read_events(xml, true);
    references_of(events.as_slice(), format)
}

/// Every id is that of a relationship, or the first that is not.
pub open spec fn known_references(
    ids: Seq<Seq<char>>,
    found: Seq<Link>,
    part_name: Seq<char>,
    format: Seq<char>,
) -> Result<(), Failure>
    decreases ids.len(),
{
    if ids.len() == 0 {
        Ok(())
    } else if link_with_id(found, ids[0]) is None {
        Err(
            failure(
                ErrorKind::ImportFile,
                format + " 结构无效："@ + part_name + " 引用了不存在的关系 "@ + ids[0] + "。"@,
            ),
        )
    } else {
        known_references(ids.skip(1), found, part_name, format)
    }
}

/// Checks that every id is that of a relationship.
pub fn require_known_references(
    ids: &Vec<String>,
    relationships: &[Relationship],
    part_name: &str,
    format: &str,
) -> (result: LibraryResult<()>)
    ensures
        outcome(result) == known_references(
            views(ids@),
            links(relationships@),
            part_name@,
            format@,
        ),
{
    let ghost all = views(ids@);
    let ghost found = links(relationships@);
    let mut i: usize = 0;
    assert(all.skip(0) =~= all);
    while i < ids.len()
        invariant
            i <= ids@.len(),
            all == views(ids@),
            found == links(relationships@),
            known_references(all.skip(i as int), found, part_name@, format@) == known_references(
                all,
                found,
                part_name@,
                format@,
            ),
        decreases ids@.len() - i,
    {
        assert(all.skip(i as int)[0] == ids@[i as int]@);
        assert(all.skip(i as int).skip(1) =~= all.skip(i + 1));
        if find_relationship(relationships, ids[i].as_str()).is_none() {
            let mut message = format.to_owned();
            message.append(" 结构无效：");
            message.append(part_name);
            message.append(" 引用了不存在的关系 ");
            message.append(ids[i].as_str());
            message.append("。");
            return Err(LibraryError::ImportFile(message));
        }
        i = i + 1;
    }
    Ok(())
}

/// Every reference in the XML text of a part is to one of its relationships, or why not.
pub open spec fn checked_references(
    xml: Seq<u8>,
    found: Seq<Link>,
    part_name: Seq<char>,
    format: Seq<char>,
) -> Result<(), Failure> {
    match parsed_references(xml, format) {
        Err(error) => Err(error),
        Ok(ids) => known_references(ids, found, part_name, format),
    }
}

/// Checks that every reference in the XML text of a part is to one of its relationships.
pub fn validate_relationship_references(
    xml: &[u8],
    relationships: &[Relationship],
    part_name: &str,
    format: &str,
) -> (result: LibraryResult<()>)
    ensures
        outcome(result) == checked_references(xml@, links(relationships@), part_name@, format@),
{
    match relationship_references(xml, format) {
        Err(error) => Err(error),
        Ok(ids) => require_known_references(&ids, relationships, part_name, format),
    }
}

// ---- Laws ----

/// A relationship is found by its id: the first that has it.
pub proof fn relationships_are_found_by_id(found: Seq<Link>, id: Seq<char>)
    ensures
        link_with_id(found, id) is Some <==> exists|i: int| 0 <= i < found.len() && (#[trigger] found[i]).id == id,
        link_with_id(found, id) matches Some(link) ==> exists|i: int|
            0 <= i < found.len() && #[trigger] found[i] == link && link.id == id && forall|j: int|
                0 <= j < i ==> (#[trigger] found[j]).id != id,
    decreases found.len(),
{
    if found.len() > 0 {
        let rest = found.skip(1);
        if found[0].id == id {
            assert(found[0].id == id);
        } else {
            relationships_are_found_by_id(rest, id);
            assert(forall|i: int| 0 <= i < rest.len() ==> rest[i] == found[i + 1]);
            if link_with_id(rest, id) is Some {
                let link = link_with_id(rest, id)->Some_0;
                let k = choose|k: int|
                    0 <= k < rest.len() && #[trigger] rest[k] == link && link.id == id && forall|j: int|
                        0 <= j < k ==> (#[trigger] rest[j]).id != id;
                assert(found[k + 1] == link);
                assert forall|j: int| 0 <= j < k + 1 implies (#[trigger] found[j]).id != id by {
                    if j > 0 {
                        assert(rest[j - 1].id != id);
                    }
                }
            } else {
                assert forall|i: int| 0 <= i < found.len() implies (#[trigger] found[i]).id != id by {
                    if i > 0 {
                        assert(rest[i - 1].id != id);
                    }
                }
            }
        }
    }
}

/// The relationships of a part are taken where each has an id of its own, and only there.
pub proof fn ids_are_given_once(found: Seq<Link>, format: Seq<char>)
    ensures
        unique_ids(found, format) is Ok <==> forall|i: int, j: int|
            0 <= i < j < found.len() ==> (#[trigger] found[i]).id != (#[trigger] found[j]).id,
    decreases found.len(),
{
    if found.len() > 0 {
        let shorter = found.drop_last();
        let last = found.last();
        ids_are_given_once(shorter, format);
        relationships_are_found_by_id(shorter, last.id);
        assert(forall|i: int| 0 <= i < shorter.len() ==> shorter[i] == found[i]);
        assert(found[found.len() - 1] == last);
        if unique_ids(shorter, format) is Ok {
            if link_with_id(shorter, last.id) is Some {
                let k = choose|k: int| 0 <= k < shorter.len() && (#[trigger] shorter[k]).id == last.id;
                assert(found[k].id == found[found.len() - 1].id);
            } else {
                assert forall|i: int, j: int| 0 <= i < j < found.len() implies (#[trigger] found[i]).id
                    != (#[trigger] found[j]).id by {
                    if j < shorter.len() {
                        assert(shorter[i].id != shorter[j].id);
                    } else {
                        assert(shorter[i].id != last.id);
                    }
                }
            }
        } else {
            let (i, j) = choose|i: int, j: int|
                0 <= i < j < shorter.len() && (#[trigger] shorter[i]).id == (#[trigger] shorter[j]).id;
            assert(found[i].id == found[j].id);
        }
    }
}

/// A relationship says its id, its type and its target; it leads outside where it says so, in any
/// case of the letters, or where its target does. One without any of the three is refused.
pub proof fn relationships_say_where_they_lead(
    tag: Seq<char>,
    pairs: Seq<(Seq<char>, Seq<char>)>,
    format: Seq<char>,
)
    requires
        element_pairs(tag, format + " relationship"@) == Ok::<_, Failure>(pairs),
    ensures
        link_of(tag, format) is Ok <==> value_of(pairs, "Id"@) is Some && value_of(pairs, "Type"@) is Some
            && value_of(pairs, "Target"@) is Some,
        link_of(tag, format) matches Ok(link) ==> value_of(pairs, "Id"@) == Some(link.id) && value_of(
            pairs,
            "Type"@,
        ) == Some(link.relationship_type) && value_of(pairs, "Target"@) == Some(link.target) && (
        link.external <==> external_target(link.target) || (value_of(pairs, "TargetMode"@) is Some
            && ascii_lowercase(value_of(pairs, "TargetMode"@)->Some_0) == "external"@)),
{
    reveal_strlit("External");
    reveal_strlit("external");
    let lower = ascii_lowercase("External"@);
    assert forall|i: int| 0 <= i < 8 implies lower[i] == "external"@[i] by {
        assert(lower[i] == crate::text::ascii_lower("External"@[i]));
    }
    assert(lower =~= "external"@);
}

/// An element of a list: what stands before it, its tag, and whether it is empty.
#[verifier::ext_equal]
pub struct ListElement {
    pub lead: Seq<Token>,
    pub tag: Seq<char>,
    pub empty: bool,
}

/// The event of an element.
pub open spec fn element_token(element: ListElement) -> Token {
    if element.empty {
        Token::Empty(element.tag)
    } else {
        Token::Start(element.tag)
    }
}

/// The events of elements.
pub open spec fn elements_tokens(elements: Seq<ListElement>) -> Seq<Token>
    decreases elements.len(),
{
    if elements.len() == 0 {
        Seq::empty()
    } else {
        elements[0].lead + (seq![element_token(elements[0])] + elements_tokens(elements.skip(1)))
    }
}

/// An event that declares no relationship.
pub open spec fn declares_nothing(token: Token) -> bool {
    match token {
        Token::Start(tag) => element_name(tag) != "Relationship"@,
        Token::Empty(tag) => element_name(tag) != "Relationship"@,
        Token::Eof => false,
        Token::Failed(_) => false,
        _ => true,
    }
}

proof fn lemma_links_of_the_rest(
    list: Seq<Token>,
    at: int,
    from: int,
    found: Seq<Link>,
    format: Seq<char>,
)
    requires
        0 <= at <= list.len(),
        0 <= from,
    ensures
        links_from(list, at + from, found, format) == links_from(list.skip(at), from, found, format),
    decreases list.len() - at - from,
{
    if at + from < list.len() {
        let token = list[at + from];
        assert(list.skip(at)[from] == token);
        lemma_links_of_the_rest(list, at, from + 1, found, format);
        if token is Start || token is Empty {
            let tag = if token is Start {
                token->Start_0
            } else {
                token->Empty_0
            };
            if let Ok(link) = link_of(tag, format) {
                lemma_links_of_the_rest(list, at, from + 1, found.push(link), format);
            }
        }
    }
}

proof fn lemma_pass_lead(lead: Seq<Token>, rest: Seq<Token>, found: Seq<Link>, format: Seq<char>)
    requires
        forall|i: int| 0 <= i < lead.len() ==> declares_nothing(#[trigger] lead[i]),
    ensures
        links_from(lead + rest, 0, found, format) == links_from(rest, 0, found, format),
    decreases lead.len(),
{
    if lead.len() == 0 {
        assert(lead + rest =~= rest);
    } else {
        let others = lead.skip(1);
        let list = lead + rest;
        assert(declares_nothing(lead[0]));
        assert(list[0] == lead[0]);
        assert forall|i: int| 0 <= i < others.len() implies declares_nothing(#[trigger] others[i]) by {
            assert(others[i] == lead[i + 1]);
        }
        lemma_links_of_the_rest(list, 1, 0, found, format);
        assert(list.skip(1) =~= others + rest);
        lemma_pass_lead(others, rest, found, format);
    }
}

/// An element declares this relationship.
pub open spec fn declares(element: ListElement, link: Link, format: Seq<char>) -> bool {
    &&& forall|i: int| 0 <= i < element.lead.len() ==> declares_nothing(#[trigger] element.lead[i])
    &&& element_name(element.tag) == "Relationship"@
    &&& link_of(element.tag, format) == Ok::<_, Failure>(link)
}

proof fn lemma_read_elements(
    elements: Seq<ListElement>,
    declared_links: Seq<Link>,
    rest: Seq<Token>,
    found: Seq<Link>,
    format: Seq<char>,
)
    requires
        elements.len() == declared_links.len(),
        forall|i: int|
            0 <= i < elements.len() ==> declares(#[trigger] elements[i], declared_links[i], format),
    ensures
        links_from(elements_tokens(elements) + rest, 0, found, format) == links_from(
            rest,
            0,
            found + declared_links,
            format,
        ),
    decreases elements.len(),
{
    if elements.len() == 0 {
        assert(elements_tokens(elements) + rest =~= rest);
        assert(found + declared_links =~= found);
    } else {
        let first = elements[0];
        let others = elements.skip(1);
        let other_links = declared_links.skip(1);
        let behind = elements_tokens(others) + rest;
        let list = seq![element_token(first)] + behind;
        let next = found.push(declared_links[0]);
        assert(declares(elements[0], declared_links[0], format));
        assert(elements_tokens(elements) + rest =~= first.lead + list);
        lemma_pass_lead(first.lead, list, found, format);
        assert(list[0] == element_token(first));
        lemma_links_of_the_rest(list, 1, 0, next, format);
        assert(list.skip(1) =~= behind);
        assert forall|i: int| 0 <= i < others.len() implies declares(
            #[trigger] others[i],
            other_links[i],
            format,
        ) by {
            assert(declares(elements[i + 1], declared_links[i + 1], format));
        }
        lemma_read_elements(others, other_links, rest, next, format);
        assert(next + other_links =~= found + declared_links);
    }
}

/// The relationships that a part declares are read in their order, all of them; what stands between
/// them does not count.
pub proof fn relationships_are_read_in_order(
    elements: Seq<ListElement>,
    declared_links: Seq<Link>,
    tail: Seq<Token>,
    format: Seq<char>,
)
    requires
        elements.len() == declared_links.len(),
        forall|i: int|
            0 <= i < elements.len() ==> declares(#[trigger] elements[i], declared_links[i], format),
        forall|i: int| 0 <= i < tail.len() ==> declares_nothing(#[trigger] tail[i]),
    ensures
        links_from(
            elements_tokens(elements) + (tail + seq![Token::Eof]),
            0,
            Seq::empty(),
            format,
        ) == Ok::<_, Failure>(declared_links),
{
    let nothing = Seq::<Link>::empty();
    lemma_read_elements(elements, declared_links, tail + seq![Token::Eof], nothing, format);
    assert(nothing + declared_links =~= declared_links);
    lemma_pass_lead(tail, seq![Token::Eof], declared_links, format);
}

/// The content type of a part is the one declared for its name; one for its extension, in any case of
/// the letters, counts only where there is none.
pub proof fn parts_have_the_type_declared_for_them(types: Types, start: Seq<char>, extension: Seq<char>)
    requires
        !extension.contains('.'),
    ensures
        ({
            let name = start + seq!['.'] + extension;
            &&& value_of(types.overrides, name) is Some ==> declared(types, name) == value_of(
                types.overrides,
                name,
            )
            &&& value_of(types.overrides, name) is None ==> declared(types, name) == value_of(
                types.defaults,
                ascii_lowercase(extension),
            )
        }),
        value_of(types.overrides, extension) is None ==> declared(types, extension) is None,
{
    let name = start + seq!['.'] + extension;
    let at: int = start.len() as int;
    assert forall|i: int| at < i < name.len() implies (#[trigger] name[i]) != '.' by {
        assert(name[i] == extension[i - at - 1]);
    }
    crate::paths::lemma_last_index(name, '.', at);
    assert(name.skip(at + 1) =~= extension);
    crate::paths::lemma_no_last_index(extension, '.');
}

} // verus!
