//! XML as a list of events. The events come from `quick_xml`; what is made of them stands with the
//! readers of each format.

use vstd::prelude::*;
use quick_xml::events::{BytesStart, Event};
use quick_xml::{Reader, XmlVersion};
use crate::error::{failure, ErrorKind, Failure, LibraryError, LibraryResult};
use crate::text::{chars, find_char, index_from, same, text_between};

verus! {

/// One step of reading an XML text.
#[derive(Debug, Clone)]
pub enum XmlEvent {
    /// A start tag: all that stands between the angle brackets.
    Start(String),
    /// An empty-element tag: all that stands between the angle brackets, without the slash.
    Empty(String),
    /// An end tag, by its full name.
    End(String),
    /// Character data with its line ends normalized; references come as events of their own.
    Text(String),
    CData(String),
    /// A comment, a declaration, a processing instruction or a reference.
    Other,
    /// The end of the text.
    Eof,
    /// The text is malformed, with the reason.
    Failed(String),
}

/// One attribute of an element.
#[derive(Debug)]
pub enum XmlAttribute {
    /// The key, and the normalized value or why it has none.
    Named(String, Result<String, String>),
    /// The attribute is malformed, with the reason.
    Malformed(String),
}

/// [`XmlEvent`] by characters.
#[verifier::ext_equal]
pub enum Token {
    Start(Seq<char>),
    Empty(Seq<char>),
    End(Seq<char>),
    Text(Seq<char>),
    CData(Seq<char>),
    Other,
    Eof,
    Failed(Seq<char>),
}

/// [`XmlAttribute`] by characters.
#[verifier::ext_equal]
pub enum Attribute {
    Named(Seq<char>, Result<Seq<char>, Seq<char>>),
    Malformed(Seq<char>),
}

/// A text, or the reason why there is none, by characters.
pub open spec fn text_or_reason(value: Result<String, String>) -> Result<Seq<char>, Seq<char>> {
    match value {
        Ok(text) => Ok(text@),
        Err(reason) => Err(reason@),
    }
}

impl View for XmlEvent {
    type V = Token;

    open spec fn view(&self) -> Token {
        match *self {
            XmlEvent::Start(tag) => Token::Start(tag@),
            XmlEvent::Empty(tag) => Token::Empty(tag@),
            XmlEvent::End(name) => Token::End(name@),
            XmlEvent::Text(text) => Token::Text(text@),
            XmlEvent::CData(text) => Token::CData(text@),
            XmlEvent::Other => Token::Other,
            XmlEvent::Eof => Token::Eof,
            XmlEvent::Failed(reason) => Token::Failed(reason@),
        }
    }
}

impl View for XmlAttribute {
    type V = Attribute;

    open spec fn view(&self) -> Attribute {
        match *self {
            XmlAttribute::Named(key, value) => Attribute::Named(key@, text_or_reason(value)),
            XmlAttribute::Malformed(reason) => Attribute::Malformed(reason@),
        }
    }
}

/// The events of a list, by views.
pub open spec fn tokens(events: Seq<XmlEvent>) -> Seq<Token> {
    events.map_values(|event: XmlEvent| event@)
}

/// Reading ends with this event.
pub open spec fn is_last(token: Token) -> bool {
    token is Eof || token is Failed
}

/// The list ends with its first last event.
pub open spec fn well_ended(list: Seq<Token>) -> bool {
    &&& list.len() > 0
    &&& is_last(list.last())
    &&& forall|i: int| 0 <= i < list.len() - 1 ==> !is_last(list[i])
}

// ---- Trusted items ----

/// `quick_xml::Reader`: a reader over bytes in memory, opaque here but for what it still yields.
#[verifier::external_type_specification]
#[verifier::external_body]
#[verifier::reject_recursive_types(R)]
pub struct ExReader<R>(Reader<R>);

/// The events that a reader has still to yield, up to and with the end or the first failure.
pub uninterp spec fn pending(reader: Reader<&[u8]>) -> Seq<Token>;

/// The events of an XML text, up to and with the end or the first failure; `trim` says whether
/// white space around character data is dropped.
pub uninterp spec fn xml_tokens(xml: Seq<u8>, trim: bool) -> Seq<Token>;

/// `quick_xml::Reader::from_reader`, with `trim_text` set: a reader at the start of the text. What
/// it yields is a function of the bytes and the setting; the grammar is not stated.
#[verifier::external_body]
fn open_reader(xml: &[u8], trim: bool) -> (reader: Reader<&[u8]>)
    ensures
        pending(reader) == xml_tokens(xml@, trim),
        well_ended(pending(reader)),
{
    let mut reader = Reader::from_reader(xml);
    reader.config_mut().trim_text(trim);
    reader
}

/// `quick_xml::Reader::read_event_into`: yields the next event and moves on.
#[verifier::external_body]
fn next_event(reader: &mut Reader<&[u8]>) -> (event: XmlEvent)
    requires
        pending(*old(reader)).len() > 0,
    ensures
        event@ == pending(*old(reader))[0],
        pending(*final(reader)) == pending(*old(reader)).skip(1),
{
    let mut buffer = Vec::new();
    match reader.read_event_into(&mut buffer) {
        Ok(Event::Start(tag)) => XmlEvent::Start((*tag).to_owned()),
        Ok(Event::Empty(tag)) => XmlEvent::Empty((*tag).to_owned()),
        Ok(Event::End(tag)) => XmlEvent::End((*tag).to_owned()),
        Ok(Event::Text(text)) => XmlEvent::Text(text.xml10_content().into_owned()),
        Ok(Event::CData(text)) => XmlEvent::CData(text.into_inner().into_owned()),
        Ok(Event::Eof) => XmlEvent::Eof,
        Ok(_) => XmlEvent::Other,
        Err(error) => XmlEvent::Failed(error.to_string()),
    }
}

/// The attributes that `quick_xml` finds in a tag whose name ends at byte `name_end`.
pub uninterp spec fn xml_attributes(tag: Seq<char>, name_end: nat) -> Seq<Attribute>;

/// `quick_xml::events::BytesStart::attributes`, without the check for repeated keys, and
/// `Attribute::normalized_value` on each: a function of the tag and of where its name ends; the grammar
/// is not stated. The outside call looks for keys from `name_end` on and panics where that byte lies
/// inside a character, so `name_end` has to be the end of the name.
#[verifier::external_body]
fn split_attributes(tag: &str, name_end: usize) -> (attributes: Vec<XmlAttribute>)
    requires
        name_end == vstd::utf8::encode_utf8(full_name(tag@)).len(),
    ensures
        attribute_views(attributes@) == xml_attributes(tag@, name_end as nat),
{
    let start = BytesStart::from_content(tag, name_end);
    start.attributes().with_checks(false).map(|item| match item {
        Ok(found) => XmlAttribute::Named(
            found.key.as_ref().to_owned(),
            found.normalized_value(XmlVersion::Implicit1_0).map(|value| value.into_owned()).map_err(|error| error.to_string()),
        ),
        Err(error) => XmlAttribute::Malformed(error.to_string()),
    }).collect()
}

/// The text that `quick_xml` makes of character data by replacing its references, or why it cannot.
pub uninterp spec fn unescaped(raw: Seq<char>) -> Result<Seq<char>, Seq<char>>;

/// `quick_xml::escape::unescape`: a function of the text alone; the list of entities is not stated.
#[verifier::external_body]
pub(crate) fn unescape(raw: &str) -> (text: Result<String, String>)
    ensures
        text_or_reason(text) == unescaped(raw@),
{
    quick_xml::escape::unescape(raw).map(|text| text.into_owned()).map_err(|error| error.to_string())
}

// ---- Reading ----

/// The attributes by views.
pub open spec fn attribute_views(attributes: Seq<XmlAttribute>) -> Seq<Attribute> {
    attributes.map_values(|attribute: XmlAttribute| attribute@)
}

/// All events of an XML text.
pub fn read_events(xml: &[u8], trim: bool) -> (events: Vec<XmlEvent>)
    ensures
        tokens(events@) == xml_tokens(xml@, trim),
        well_ended(tokens(events@)),
{
    let mut reader = open_reader(xml, trim);
    let mut events: Vec<XmlEvent> = Vec::new();
    let ghost all = pending(reader);
    let mut done = false;
    while !done
        invariant
            well_ended(all),
            all == xml_tokens(xml@, trim),
            events@.len() <= all.len(),
            tokens(events@) == all.take(events@.len() as int),
            pending(reader) == all.skip(events@.len() as int),
            done <==> events@.len() == all.len(),
        decreases all.len() - events@.len(),
    {
        let event = next_event(&mut reader);
        let ghost at = events@.len() as int;
        let last = match &event {
            XmlEvent::Eof => true,
            XmlEvent::Failed(_) => true,
            _ => false,
        };
        assert(event@ == all[at]);
        assert(last == is_last(event@));
        assert(all.skip(at).skip(1) =~= all.skip(at + 1));
        events.push(event);
        assert(tokens(events@) =~= all.take(at + 1));
        done = last;
    }
    assert(all.take(all.len() as int) =~= all);
    events
}

// ---- Names ----

/// White space between the parts of a tag.
pub open spec fn tag_space(c: char) -> bool {
    c == ' ' || c == '\r' || c == '\n' || c == '\t'
}

/// The full name of an element: what stands before the first white space of its tag.
pub open spec fn full_name(tag: Seq<char>) -> Seq<char>
    decreases tag.len(),
{
    if tag.len() == 0 || tag_space(tag[0]) {
        Seq::empty()
    } else {
        seq![tag[0]] + full_name(tag.skip(1))
    }
}

/// A name without its prefix: what stands behind the first colon.
pub open spec fn local_name(name: Seq<char>) -> Seq<char> {
    match index_from(name, ':', 0) {
        Some(at) => name.skip(at + 1),
        None => name,
    }
}

/// The name of an element without its prefix.
pub open spec fn element_name(tag: Seq<char>) -> Seq<char> {
    local_name(full_name(tag))
}

proof fn lemma_full_name(tag: Seq<char>, n: int)
    requires
        0 <= n <= tag.len(),
        forall|i: int| 0 <= i < n ==> !tag_space(#[trigger] tag[i]),
        n < tag.len() ==> tag_space(tag[n]),
    ensures
        full_name(tag) == tag.take(n),
    decreases n,
{
    if n > 0 {
        assert forall|i: int| 0 <= i < n - 1 implies !tag_space(#[trigger] tag.skip(1)[i]) by {
            assert(!tag_space(tag[i + 1]));
        }
        assert(!tag_space(tag[0]));
        lemma_full_name(tag.skip(1), n - 1);
        assert(seq![tag[0]] + tag.skip(1).take(n - 1) =~= tag.take(n));
    } else {
        assert(tag.take(0) =~= Seq::empty());
    }
}

/// The full name of an element.
fn tag_name(tag: &str) -> (name: String)
    ensures
        name@ == full_name(tag@),
{
    let all = chars(tag);
    let mut i: usize = 0;
    while i < all.len() && all[i] != ' ' && all[i] != '\r' && all[i] != '\n' && all[i] != '\t'
        invariant
            i <= all@.len(),
            all@ == tag@,
            forall|j: int| 0 <= j < i ==> !tag_space(#[trigger] all@[j]),
        decreases all@.len() - i,
    {
        i = i + 1;
    }
    proof {
        lemma_full_name(tag@, i as int);
        assert(tag@.subrange(0, i as int) =~= tag@.take(i as int));
    }
    text_between(all.as_slice(), 0, i)
}

/// A name without its prefix.
pub fn without_prefix(name: &str) -> (local: String)
    ensures
        local@ == local_name(name@),
{
    let all = chars(name);
    match find_char(all.as_slice(), ':', 0) {
        Some(at) => {
            let size: usize = all.len();
            let local = text_between(all.as_slice(), at + 1, size);
            assert(local@ =~= name@.skip(at + 1));
            local
        },
        None => name.to_owned(),
    }
}

/// The name of an element without its prefix.
pub fn local_tag_name(tag: &str) -> (name: String)
    ensures
        name@ == element_name(tag@),
{
    without_prefix(tag_name(tag).as_str())
}

// ---- Attributes ----

/// The attributes of an element.
pub open spec fn attributes_of(tag: Seq<char>) -> Seq<Attribute> {
    xml_attributes(tag, vstd::utf8::encode_utf8(full_name(tag)).len())
}

/// The attributes of an element.
pub fn element_attributes(tag: &str) -> (attributes: Vec<XmlAttribute>)
    ensures
        attribute_views(attributes@) == attributes_of(tag@),
{
    let name_end: usize = tag_name(tag).as_str().as_bytes().len();
    split_attributes(tag, name_end)
}

// ---- Attributes by key ----

/// A key with its value.
#[derive(Debug, Clone)]
pub struct XmlPair {
    pub key: String,
    pub value: String,
}

impl View for XmlPair {
    type V = (Seq<char>, Seq<char>);

    open spec fn view(&self) -> (Seq<char>, Seq<char>) {
        (self.key@, self.value@)
    }
}

/// The pairs by views.
pub open spec fn pair_views(pairs: Seq<XmlPair>) -> Seq<(Seq<char>, Seq<char>)> {
    pairs.map_values(|pair: XmlPair| pair@)
}

/// The keys and values of attributes, in order, or the first thing that is wrong with them.
pub open spec fn pairs_of(attributes: Seq<Attribute>, context: Seq<char>) -> Result<
    Seq<(Seq<char>, Seq<char>)>,
    Failure,
>
    decreases attributes.len(),
{
    if attributes.len() == 0 {
        Ok(Seq::empty())
    } else {
        match pairs_of(attributes.drop_last(), context) {
            Err(error) => Err(error),
            Ok(pairs) => match attributes.last() {
                Attribute::Malformed(reason) => Err(
                    failure(ErrorKind::ImportFile, context + " 属性无效："@ + reason),
                ),
                Attribute::Named(_, Err(reason)) => Err(
                    failure(ErrorKind::ImportFile, context + " 属性编码无效："@ + reason),
                ),
                Attribute::Named(key, Ok(value)) => Ok(pairs.push((key, value))),
            },
        }
    }
}

/// The value of the last pair with this key.
pub open spec fn value_of(pairs: Seq<(Seq<char>, Seq<char>)>, key: Seq<char>) -> Option<Seq<char>>
    decreases pairs.len(),
{
    if pairs.len() == 0 {
        None
    } else if pairs.last().0 == key {
        Some(pairs.last().1)
    } else {
        value_of(pairs.drop_last(), key)
    }
}

/// The pairs that a result holds, or why it holds none, by views.
pub open spec fn pairs_outcome(result: LibraryResult<Vec<XmlPair>>) -> Result<
    Seq<(Seq<char>, Seq<char>)>,
    Failure,
> {
    match result {
        Ok(pairs) => Ok(pair_views(pairs@)),
        Err(error) => Err(error@),
    }
}

proof fn lemma_pairs_error_stays(attributes: Seq<Attribute>, context: Seq<char>, i: int)
    requires
        0 <= i <= attributes.len(),
        pairs_of(attributes.take(i), context) is Err,
    ensures
        pairs_of(attributes, context) == pairs_of(attributes.take(i), context),
    decreases attributes.len() - i,
{
    if i < attributes.len() {
        assert(attributes.take(i + 1).drop_last() =~= attributes.take(i));
        lemma_pairs_error_stays(attributes, context, i + 1);
    } else {
        assert(attributes.take(i) =~= attributes);
    }
}

/// The keys and values of the attributes; where a key is repeated, the last value counts.
pub fn read_pairs(attributes: &[XmlAttribute], context: &str) -> (result: LibraryResult<Vec<XmlPair>>)
    ensures
        pairs_outcome(result) == pairs_of(attribute_views(attributes@), context@),
{
    let mut pairs: Vec<XmlPair> = Vec::new();
    let ghost views = attribute_views(attributes@);
    assert(pair_views(pairs@) =~= Seq::empty());
    let mut i: usize = 0;
    while i < attributes.len()
        invariant
            i <= attributes@.len(),
            views == attribute_views(attributes@),
            pairs_of(views.take(i as int), context@) == Ok::<_, Failure>(pair_views(pairs@)),
        decreases attributes@.len() - i,
    {
        assert(views.take(i + 1).drop_last() =~= views.take(i as int));
        assert(views.take(i + 1).last() == attributes@[i as int]@);
        match &attributes[i] {
            XmlAttribute::Malformed(reason) => {
                let mut message = context.to_owned();
                message.append(" 属性无效：");
                message.append(reason.as_str());
                proof {
                    lemma_pairs_error_stays(views, context@, i + 1);
                }
                return Err(LibraryError::ImportFile(message));
            },
            XmlAttribute::Named(key, value) => match value {
                Err(reason) => {
                    let mut message = context.to_owned();
                    message.append(" 属性编码无效：");
                    message.append(reason.as_str());
                    proof {
                        lemma_pairs_error_stays(views, context@, i + 1);
                    }
                    return Err(LibraryError::ImportFile(message));
                },
                Ok(text) => {
                    let ghost before = pair_views(pairs@);
                    pairs.push(XmlPair { key: key.clone(), value: text.clone() });
                    assert(pair_views(pairs@) =~= before.push((key@, text@)));
                },
            },
        }
        i = i + 1;
    }
    assert(views.take(i as int) =~= views);
    Ok(pairs)
}

/// The value of the last pair with this key.
pub fn get_value<'a>(pairs: &'a [XmlPair], key: &str) -> (value: Option<&'a String>)
    ensures
        (match value {
            Some(text) => Some(text@),
            None => None,
        }) == value_of(pair_views(pairs@), key@),
{
    let ghost views = pair_views(pairs@);
    let mut i: usize = pairs.len();
    assert(views.take(i as int) =~= views);
    while i > 0
        invariant
            i <= pairs@.len(),
            views == pair_views(pairs@),
            value_of(views.take(i as int), key@) == value_of(views, key@),
        decreases i,
    {
        assert(views.take(i as int).drop_last() =~= views.take(i - 1));
        assert(views.take(i as int).last() == pairs@[i - 1]@);
        i = i - 1;
        if same(pairs[i].key.as_str(), key) {
            return Some(&pairs[i].value);
        }
    }
    None
}

/// The keys and values of the attributes of an element.
pub open spec fn element_pairs(tag: Seq<char>, context: Seq<char>) -> Result<
    Seq<(Seq<char>, Seq<char>)>,
    Failure,
> {
    pairs_of(attributes_of(tag), context)
}

/// The keys and values of the attributes of an element.
pub fn read_attributes(tag: &str, context: &str) -> (result: LibraryResult<Vec<XmlPair>>)
    ensures
        pairs_outcome(result) == element_pairs(tag@, context@),
{
    let attributes = element_attributes(tag);
    read_pairs(attributes.as_slice(), context)
}

// ---- The root element ----

/// The name of the first element, or why there is none.
pub open spec fn root_name(list: Seq<Token>, format: Seq<char>) -> Result<Seq<char>, Failure>
    decreases list.len(),
{
    if list.len() == 0 {
        Err(failure(ErrorKind::ImportFile, format + " XML 为空或缺少根节点。"@))
    } else {
        match list[0] {
            Token::Start(tag) => Ok(element_name(tag)),
            Token::Empty(tag) => Ok(element_name(tag)),
            Token::Eof => Err(failure(ErrorKind::ImportFile, format + " XML 为空或缺少根节点。"@)),
            Token::Failed(reason) => Err(
                failure(
                    ErrorKind::ImportFile,
                    "无法解析 "@ + format + " XML："@ + reason,
                ),
            ),
            _ => root_name(list.skip(1), format),
        }
    }
}

/// The name of the first element, or why there is none.
pub fn root_local_name(events: &[XmlEvent], format: &str) -> (result: LibraryResult<String>)
    ensures
        crate::error::outcome(result) == root_name(tokens(events@), format@),
{
    let ghost list = tokens(events@);
    let mut i: usize = 0;
    assert(list.skip(0) =~= list);
    while i < events.len()
        invariant
            i <= events@.len(),
            list == tokens(events@),
            root_name(list.skip(i as int), format@) == root_name(list, format@),
        decreases events@.len() - i,
    {
        assert(list.skip(i as int)[0] == events@[i as int]@);
        assert(list.skip(i as int).skip(1) =~= list.skip(i + 1));
        match &events[i] {
            XmlEvent::Start(tag) => {
                return Ok(local_tag_name(tag.as_str()));
            },
            XmlEvent::Empty(tag) => {
                return Ok(local_tag_name(tag.as_str()));
            },
            XmlEvent::Eof => {
                let mut message = format.to_owned();
                message.append(" XML 为空或缺少根节点。");
                return Err(LibraryError::ImportFile(message));
            },
            XmlEvent::Failed(reason) => {
                let mut message = "无法解析 ".to_owned();
                message.append(format);
                message.append(" XML：");
                message.append(reason.as_str());
                return Err(LibraryError::ImportFile(message));
            },
            _ => {},
        }
        i = i + 1;
    }
    let mut message = format.to_owned();
    message.append(" XML 为空或缺少根节点。");
    Err(LibraryError::ImportFile(message))
}

/// The name of the root element of an XML text, or why there is none.
pub fn xml_root_local_name(xml: &[u8], format: &str) -> (result: LibraryResult<String>)
    ensures
        crate::error::outcome(result) == root_name(xml_tokens(xml@, true), format@),
{
    let events = read_events(xml, true);
    root_local_name(events.as_slice(), format)
}

// ---- Laws ----

/// The name of an element ends at the first white space of its tag, or with the tag.
pub proof fn names_end_at_white_space(name: Seq<char>, rest: Seq<char>)
    requires
        forall|i: int| 0 <= i < name.len() ==> !tag_space(#[trigger] name[i]),
        rest.len() == 0 || tag_space(rest[0]),
    ensures
        full_name(name + rest) == name,
    decreases name.len(),
{
    if name.len() == 0 {
        assert(name + rest =~= rest);
        assert(full_name(rest) =~= name);
    } else {
        names_end_at_white_space(name.skip(1), rest);
        assert((name + rest).skip(1) =~= name.skip(1) + rest);
        assert(seq![name[0]] + name.skip(1) =~= name);
    }
}

/// A prefix is left out of a name, up to its first colon; a name without one is kept.
pub proof fn prefixes_are_left_out(prefix: Seq<char>, name: Seq<char>)
    requires
        forall|i: int| 0 <= i < prefix.len() ==> #[trigger] prefix[i] != ':',
    ensures
        local_name(prefix + seq![':'] + name) == name,
        local_name(prefix) == prefix,
{
    let whole = prefix + seq![':'] + name;
    lemma_first_colon(whole, prefix.len() as int, 0);
    assert(whole.skip(prefix.len() as int + 1) =~= name);
    lemma_no_colon(prefix, 0);
}

proof fn lemma_first_colon(text: Seq<char>, at: int, from: int)
    requires
        0 <= from <= at < text.len(),
        text[at] == ':',
        forall|i: int| 0 <= i < at ==> #[trigger] text[i] != ':',
    ensures
        index_from(text, ':', from) == Some(at),
    decreases at - from,
{
    if from < at {
        assert(text[from] != ':');
        lemma_first_colon(text, at, from + 1);
    }
}

proof fn lemma_no_colon(text: Seq<char>, from: int)
    requires
        0 <= from,
        forall|i: int| 0 <= i < text.len() ==> #[trigger] text[i] != ':',
    ensures
        index_from(text, ':', from) is None,
    decreases text.len() - from,
{
    if from < text.len() {
        lemma_no_colon(text, from + 1);
    }
}

/// The attributes of an element are read where each of them is well formed: every one, in order, with
/// its key and its value.
pub proof fn well_formed_attributes_are_read(attributes: Seq<Attribute>, context: Seq<char>)
    ensures
        pairs_of(attributes, context) is Ok <==> forall|i: int|
            0 <= i < attributes.len() ==> (#[trigger] attributes[i] matches Attribute::Named(
                key,
                value,
            ) && value is Ok),
        pairs_of(attributes, context) matches Ok(pairs) ==> pairs.len() == attributes.len() && forall|
            i: int,
        |
            0 <= i < pairs.len() ==> attributes[i] == Attribute::Named(
                (#[trigger] pairs[i]).0,
                Ok(pairs[i].1),
            ),
        pairs_of(attributes, context) matches Err(error) ==> error.kind == ErrorKind::ImportFile,
    decreases attributes.len(),
{
    if attributes.len() > 0 {
        let front = attributes.drop_last();
        well_formed_attributes_are_read(front, context);
        assert forall|i: int| 0 <= i < front.len() implies front[i] == #[trigger] attributes[i] by {}
        if pairs_of(front, context) is Err {
            let i = choose|i: int|
                0 <= i < front.len() && !(#[trigger] front[i] matches Attribute::Named(key, value)
                    && value is Ok);
            assert(attributes[i] == front[i]);
        } else {
            assert(attributes[attributes.len() - 1] == attributes.last());
        }
    }
}

/// Of several values under one key the last counts; there is none where the key does not occur.
pub proof fn last_values_count(pairs: Seq<(Seq<char>, Seq<char>)>, key: Seq<char>)
    ensures
        value_of(pairs, key) is None <==> forall|i: int|
            0 <= i < pairs.len() ==> (#[trigger] pairs[i]).0 != key,
        forall|at: int|
            0 <= at < pairs.len() && (#[trigger] pairs[at]).0 == key && (forall|i: int|
                at < i < pairs.len() ==> (#[trigger] pairs[i]).0 != key) ==> value_of(pairs, key)
                == Some(pairs[at].1),
    decreases pairs.len(),
{
    if pairs.len() > 0 {
        let front = pairs.drop_last();
        last_values_count(front, key);
        assert forall|i: int| 0 <= i < front.len() implies front[i] == #[trigger] pairs[i] by {}
        if pairs.last().0 == key {
            assert(pairs[pairs.len() - 1].0 == key);
        } else {
            assert forall|at: int|
                0 <= at < pairs.len() && (#[trigger] pairs[at]).0 == key && (forall|i: int|
                    at < i < pairs.len() ==> (#[trigger] pairs[i]).0 != key) implies value_of(
                pairs,
                key,
            ) == Some(pairs[at].1) by {
                assert(front[at] == pairs[at]);
            }
            if value_of(front, key) is None {
                assert forall|i: int| 0 <= i < pairs.len() implies (#[trigger] pairs[i]).0 != key by {
                    if i < front.len() {
                        assert(front[i].0 != key);
                    }
                }
            }
        }
    }
}

/// The root of a text is its first element, whatever else stands before that.
pub proof fn roots_are_first_elements(
    before: Seq<Token>,
    tag: Seq<char>,
    rest: Seq<Token>,
    format: Seq<char>,
)
    requires
        forall|i: int|
            0 <= i < before.len() ==> !is_last(#[trigger] before[i]) && !(before[i] is Start)
                && !(before[i] is Empty),
    ensures
        root_name(before + seq![Token::Start(tag)] + rest, format) == Ok::<Seq<char>, Failure>(
            element_name(tag),
        ),
        root_name(before + seq![Token::Empty(tag)] + rest, format) == Ok::<Seq<char>, Failure>(
            element_name(tag),
        ),
        root_name(before + seq![Token::Eof], format) is Err,
    decreases before.len(),
{
    let started = before + seq![Token::Start(tag)] + rest;
    let empty = before + seq![Token::Empty(tag)] + rest;
    let ended = before + seq![Token::Eof];
    if before.len() == 0 {
        assert(started[0] == Token::Start(tag));
        assert(empty[0] == Token::Empty(tag));
        assert(ended[0] == Token::Eof);
    } else {
        let later = before.skip(1);
        roots_are_first_elements(later, tag, rest, format);
        assert(started[0] == before[0] && empty[0] == before[0] && ended[0] == before[0]);
        assert(started.skip(1) =~= later + seq![Token::Start(tag)] + rest);
        assert(empty.skip(1) =~= later + seq![Token::Empty(tag)] + rest);
        assert(ended.skip(1) =~= later + seq![Token::Eof]);
    }
}

} // verus!
