//! Searching documents: what a search is narrowed to, and which documents it finds.

use vstd::prelude::*;
use crate::collections::{
    accept_document_date, collection_at, date_check, ensure_collection_exists, names_day,
    normalize_optional_text, text_given, validate_document_date,
};
use crate::data::{
    collection_views, document_views, search_hit_views, tag_views, Collection, Document, Filters,
    SearchHit, Tag,
};
use crate::error::{failure, outcome, ErrorKind, Failure, LibraryError, LibraryResult};
use crate::formats::{canonical_file_type, canonical_type};
use crate::models::{
    CollectionSummary, DocumentSearchFilters, DocumentSearchResult, DocumentSummary, SearchMatchKind,
    TagSummary,
};
use crate::text::{
    before, chars, contains, has_text, is_before, lemma_order_is_total, list_contains, lowercase,
    occurs_at, optional, same, to_lowercase, trim, trimmed, views,
};

verus! {

// ---- Narrowing ----

/// The upper-case form of an ASCII letter; every other character is kept.
pub open spec fn ascii_upper(c: char) -> char {
    if 'a' <= c <= 'z' {
        ((c as u32 - 32) as u8) as char
    } else {
        c
    }
}

/// The text with its ASCII letters in upper case.
pub open spec fn ascii_uppercase(text: Seq<char>) -> Seq<char> {
    text.map_values(|c: char| ascii_upper(c))
}

/// The text with its ASCII letters in upper case.
pub fn to_ascii_uppercase(text: &str) -> (out: String)
    ensures
        out@ == ascii_uppercase(text@),
{
    let all = chars(text);
    let mut out = String::new();
    let mut i: usize = 0;
    assert(out@ =~= ascii_uppercase(text@).take(0));
    while i < all.len()
        invariant
            i <= all@.len(),
            all@ == text@,
            out@ == ascii_uppercase(text@).take(i as int),
        decreases all@.len() - i,
    {
        let c: char = all[i];
        let upper: char = if 'a' <= c && c <= 'z' {
            ((c as u32 - 32) as u8) as char
        } else {
            c
        };
        let ghost before_push = out@;
        out.push(upper);
        assert(out@ =~= before_push.push(upper));
        assert(ascii_uppercase(text@).take(i + 1) =~= ascii_uppercase(text@).take(i as int).push(
            upper,
        ));
        i = i + 1;
    }
    assert(ascii_uppercase(text@).take(i as int) =~= ascii_uppercase(text@));
    out
}

/// The file type that a search is narrowed to: as the library writes it, else in upper case.
pub open spec fn wanted_type(file_type: Option<Seq<char>>) -> Option<Seq<char>> {
    match text_given(file_type) {
        None => None,
        Some(file_type) => match canonical_type(file_type) {
            Some(known) => Some(known),
            None => Some(ascii_uppercase(file_type)),
        },
    }
}

/// What a search is narrowed to, with empty parts left out.
pub open spec fn given_filters(filters: Filters) -> Filters {
    Filters {
        collection_id: text_given(filters.collection_id),
        tag_id: text_given(filters.tag_id),
        file_type: wanted_type(filters.file_type),
        document_date_from: text_given(filters.document_date_from),
        document_date_to: text_given(filters.document_date_to),
    }
}

/// What a search is narrowed to, or what is wrong with it. `from_day` and `to_day` tell whether the
/// dates name days.
pub open spec fn checked_filters(filters: Filters, from_day: bool, to_day: bool) -> Result<
    Filters,
    Failure,
> {
    let given = given_filters(filters);
    if given.document_date_from is Some && !from_day {
        Err(date_check(false)->Err_0)
    } else if given.document_date_to is Some && !to_day {
        Err(date_check(false)->Err_0)
    } else if given.document_date_from is Some && given.document_date_to is Some && before(
        given.document_date_to->Some_0,
        given.document_date_from->Some_0,
    ) {
        Err(
            failure(
                ErrorKind::InvalidDocumentMetadata,
                "文档日期起始值不能晚于结束值。"@,
            ),
        )
    } else {
        Ok(given)
    }
}

/// A date names a day, where there is one.
pub open spec fn day_named(date: Option<Seq<char>>) -> bool {
    match text_given(date) {
        Some(date) => names_day(date),
        None => false,
    }
}

fn wanted_file_type(file_type: &Option<String>) -> (wanted: Option<String>)
    ensures
        optional(wanted) == wanted_type(optional(*file_type)),
{
    match normalize_optional_text(file_type) {
        None => None,
        Some(file_type) => match canonical_file_type(file_type.as_str()) {
            Some(known) => Some(known),
            None => Some(to_ascii_uppercase(file_type.as_str())),
        },
    }
}

/// What a search is narrowed to, with empty parts left out.
fn normalized_filters(filters: &DocumentSearchFilters) -> (given: DocumentSearchFilters)
    ensures
        given@ == given_filters(filters@),
{
    DocumentSearchFilters {
        collection_id: normalize_optional_text(&filters.collection_id),
        tag_id: normalize_optional_text(&filters.tag_id),
        file_type: wanted_file_type(&filters.file_type),
        document_date_from: normalize_optional_text(&filters.document_date_from),
        document_date_to: normalize_optional_text(&filters.document_date_to),
    }
}

/// What a search is narrowed to, given whether its dates name days.
pub fn check_search_filters(filters: &DocumentSearchFilters, from_day: bool, to_day: bool) -> (result:
    LibraryResult<DocumentSearchFilters>)
    ensures
        outcome(result) == checked_filters(filters@, from_day, to_day),
{
    let given = normalized_filters(filters);
    if given.document_date_from.is_some() {
        if let Err(error) = accept_document_date(from_day) {
            return Err(error);
        }
    }
    if given.document_date_to.is_some() {
        if let Err(error) = accept_document_date(to_day) {
            return Err(error);
        }
    }
    let reversed = match (&given.document_date_from, &given.document_date_to) {
        (Some(from), Some(to)) => is_before(to.as_str(), from.as_str()),
        _ => false,
    };
    if reversed {
        return Err(
            LibraryError::InvalidDocumentMetadata(
                "文档日期起始值不能晚于结束值。".to_owned(),
            ),
        );
    }
    Ok(given)
}

fn names_a_day(date: &Option<String>) -> (found: bool)
    ensures
        found == day_named(optional(*date)),
{
    match normalize_optional_text(date) {
        Some(date) => validate_document_date(date.as_str()).is_ok(),
        None => false,
    }
}

/// What a search is narrowed to.
pub fn normalize_search_filters(filters: &DocumentSearchFilters) -> (result: LibraryResult<
    DocumentSearchFilters,
>)
    ensures
        outcome(result) == checked_filters(
            filters@,
            day_named(filters@.document_date_from),
            day_named(filters@.document_date_to),
        ),
{
    let from_day = names_a_day(&filters.document_date_from);
    let to_day = names_a_day(&filters.document_date_to);
    check_search_filters(filters, from_day, to_day)
}

/// Whether the collection and the tag that a search is narrowed to are there, or which one is not.
pub open spec fn filter_targets(
    filters: Filters,
    collections: Seq<Collection>,
    tags: Seq<Seq<char>>,
) -> Result<(), Failure> {
    if filters.collection_id matches Some(id) && collection_at(collections, id) is None {
        Err(failure(ErrorKind::CollectionNotFound, "集合不存在："@ + filters.collection_id->Some_0))
    } else if filters.tag_id matches Some(id) && !tags.contains(id) {
        Err(failure(ErrorKind::TagNotFound, "标签不存在："@ + filters.tag_id->Some_0))
    } else {
        Ok(())
    }
}

/// Checks that the collection and the tag that a search is narrowed to are there; `tags` holds the ids
/// of all tags.
pub fn check_filter_targets(
    filters: &DocumentSearchFilters,
    collections: &Vec<CollectionSummary>,
    tags: &Vec<String>,
) -> (result: LibraryResult<()>)
    ensures
        outcome(result) == filter_targets(filters@, collection_views(collections@), views(tags@)),
{
    if let Some(id) = &filters.collection_id {
        if let Err(error) = ensure_collection_exists(collections, id.as_str()) {
            return Err(error);
        }
    }
    if let Some(id) = &filters.tag_id {
        if !list_contains(tags, id.as_str()) {
            let mut detail = "标签不存在：".to_owned();
            detail.append(id.as_str());
            return Err(LibraryError::TagNotFound(detail));
        }
    }
    Ok(())
}

/// A document is among those that a search is narrowed to.
pub open spec fn passes(filters: Filters, document: Document) -> bool {
    &&& filters.collection_id matches Some(id) ==> document.collection_id == id
    &&& filters.tag_id matches Some(id) ==> has_tag(document.tags, id)
    &&& filters.file_type matches Some(file_type) ==> ascii_uppercase(document.file_type)
        == ascii_uppercase(file_type)
    &&& filters.document_date_from matches Some(from) ==> (document.document_date is Some && !before(
        document.document_date->Some_0,
        from,
    ))
    &&& filters.document_date_to matches Some(to) ==> (document.document_date is Some && !before(
        to,
        document.document_date->Some_0,
    ))
}

/// One of the tags has this id.
pub open spec fn has_tag(tags: Seq<Tag>, id: Seq<char>) -> bool {
    exists|i: int| 0 <= i < tags.len() && (#[trigger] tags[i]).id == id
}

fn holds_tag(tags: &Vec<TagSummary>, id: &str) -> (found: bool)
    ensures
        found == has_tag(tag_views(tags@), id@),
{
    let ghost all = tag_views(tags@);
    let mut i: usize = 0;
    while i < tags.len()
        invariant
            i <= tags@.len(),
            all == tag_views(tags@),
            forall|j: int| 0 <= j < i ==> (#[trigger] all[j]).id != id@,
        decreases tags@.len() - i,
    {
        assert(all[i as int] == tags@[i as int]@);
        if same(tags[i].id.as_str(), id) {
            return true;
        }
        i = i + 1;
    }
    false
}

/// Whether a document is among those that a search is narrowed to.
pub fn passes_filters(filters: &DocumentSearchFilters, document: &DocumentSummary) -> (found: bool)
    ensures
        found == passes(filters@, document@),
{
    let in_collection = match &filters.collection_id {
        Some(id) => same(document.collection_id.as_str(), id.as_str()),
        None => true,
    };
    let tagged = match &filters.tag_id {
        Some(id) => holds_tag(&document.tags, id.as_str()),
        None => true,
    };
    let of_type = match &filters.file_type {
        Some(file_type) => same(
            to_ascii_uppercase(document.file_type.as_str()).as_str(),
            to_ascii_uppercase(file_type.as_str()).as_str(),
        ),
        None => true,
    };
    let not_before = match &filters.document_date_from {
        Some(from) => match &document.document_date {
            Some(date) => !is_before(date.as_str(), from.as_str()),
            None => false,
        },
        None => true,
    };
    let not_behind = match &filters.document_date_to {
        Some(to) => match &document.document_date {
            Some(date) => !is_before(to.as_str(), date.as_str()),
            None => false,
        },
        None => true,
    };
    in_collection && tagged && of_type && not_before && not_behind
}

// ---- Matching ----

/// The text holds the query; the case of letters does not count.
pub open spec fn holds_query(text: Seq<char>, query: Seq<char>) -> bool {
    contains(lowercase(text), lowercase(query))
}

/// The name of a collection.
#[derive(Debug)]
pub struct CollectionName {
    pub id: String,
    pub name: String,
}

/// The name of a collection holds the query.
pub open spec fn name_holds(names: Seq<CollectionName>, id: Seq<char>, query: Seq<char>) -> bool {
    exists|i: int|
        0 <= i < names.len() && (#[trigger] names[i]).id@ == id && holds_query(names[i].name@, query)
}

/// The name of a tag holds the query.
pub open spec fn tag_holds(tags: Seq<Tag>, query: Seq<char>) -> bool {
    exists|i: int| 0 <= i < tags.len() && holds_query((#[trigger] tags[i]).name, query)
}

/// What may be missing holds the query; where it is missing it is empty.
pub open spec fn option_holds(text: Option<Seq<char>>, query: Seq<char>) -> bool {
    match text {
        Some(text) => holds_query(text, query),
        None => holds_query(Seq::empty(), query),
    }
}

/// What is known of a document besides its text holds the query.
pub open spec fn metadata_holds(document: Document, query: Seq<char>, names: Seq<CollectionName>) -> bool {
    ||| holds_query(document.title, query)
    ||| option_holds(document.description, query)
    ||| holds_query(document.file_name, query)
    ||| holds_query(document.file_type, query)
    ||| option_holds(document.document_date, query)
    ||| holds_query(document.source_path, query)
    ||| tag_holds(document.tags, query)
    ||| name_holds(names, document.collection_id, query)
}

fn text_holds(text: &str, lower_query: &str) -> (found: bool)
    ensures
        found == contains(lowercase(text@), lower_query@),
{
    has_text(chars(to_lowercase(text).as_str()).as_slice(), lower_query)
}

fn optional_holds(text: &Option<String>, lower_query: &str) -> (found: bool)
    ensures
        found == (match optional(*text) {
            Some(text) => contains(lowercase(text), lower_query@),
            None => contains(lowercase(Seq::empty()), lower_query@),
        }),
{
    match text {
        Some(text) => text_holds(text.as_str(), lower_query),
        None => {
            proof {
                reveal_strlit("");
            }
            assert(""@ =~= Seq::empty());
            text_holds("", lower_query)
        },
    }
}

/// Whether what is known of a document besides its text holds the query.
pub fn metadata_matches(document: &DocumentSummary, query: &str, names: &Vec<CollectionName>) -> (found:
    bool)
    ensures
        found == metadata_holds(document@, query@, names@),
{
    let lower = to_lowercase(query);
    if text_holds(document.title.as_str(), lower.as_str()) || optional_holds(
        &document.description,
        lower.as_str(),
    ) || text_holds(document.file_name.as_str(), lower.as_str()) || text_holds(
        document.file_type.as_str(),
        lower.as_str(),
    ) || optional_holds(&document.document_date, lower.as_str()) || text_holds(
        document.source_path.as_str(),
        lower.as_str(),
    ) {
        return true;
    }
    let ghost tags = tag_views(document.tags@);
    let mut i: usize = 0;
    while i < document.tags.len()
        invariant
            i <= document.tags@.len(),
            lower@ == lowercase(query@),
            tags == tag_views(document.tags@),
            document@.tags == tags,
            forall|j: int| 0 <= j < i ==> !holds_query((#[trigger] tags[j]).name, query@),
        decreases document.tags@.len() - i,
    {
        assert(tags[i as int] == document.tags@[i as int]@);
        if text_holds(document.tags[i].name.as_str(), lower.as_str()) {
            assert(tag_holds(tags, query@));
            return true;
        }
        i = i + 1;
    }
    let mut k: usize = 0;
    while k < names.len()
        invariant
            k <= names@.len(),
            lower@ == lowercase(query@),
            forall|j: int|
                0 <= j < k ==> !((#[trigger] names@[j]).id@ == document.collection_id@
                    && holds_query(names@[j].name@, query@)),
        decreases names@.len() - k,
    {
        if same(names[k].id.as_str(), document.collection_id.as_str()) && text_holds(
            names[k].name.as_str(),
            lower.as_str(),
        ) {
            assert(name_holds(names@, document@.collection_id, query@));
            return true;
        }
        k = k + 1;
    }
    false
}

/// The text with each quote twice.
pub open spec fn quotes_doubled(text: Seq<char>) -> Seq<char>
    decreases text.len(),
{
    if text.len() == 0 {
        Seq::empty()
    } else if text.last() == '"' {
        quotes_doubled(text.drop_last()).push('"').push('"')
    } else {
        quotes_doubled(text.drop_last()).push(text.last())
    }
}

/// The query as a phrase of the full-text index.
pub fn fts_phrase(query: &str) -> (phrase: String)
    ensures
        phrase@ == seq!['"'] + quotes_doubled(query@) + seq!['"'],
{
    let all = chars(query);
    let mut phrase = String::new();
    phrase.push('"');
    let mut i: usize = 0;
    assert(phrase@ =~= seq!['"'] + quotes_doubled(all@.take(0)));
    while i < all.len()
        invariant
            i <= all@.len(),
            all@ == query@,
            phrase@ == seq!['"'] + quotes_doubled(all@.take(i as int)),
        decreases all@.len() - i,
    {
        assert(all@.take(i + 1).drop_last() =~= all@.take(i as int));
        if all[i] == '"' {
            phrase.push('"');
        }
        phrase.push(all[i]);
        assert(phrase@ =~= seq!['"'] + quotes_doubled(all@.take(i + 1)));
        i = i + 1;
    }
    assert(all@.take(i as int) =~= all@);
    let ghost before_close = phrase@;
    phrase.push('"');
    assert(phrase@ =~= before_close + seq!['"']);
    phrase
}

/// What the full-text index is asked for.
pub open spec fn index_question(query: Seq<char>) -> Option<Seq<char>> {
    if trim(query).len() > 2 {
        Some("extracted_text : "@ + (seq!['"'] + quotes_doubled(trim(query)) + seq!['"']))
    } else {
        None
    }
}

/// What the full-text index is asked for; queries of one or two characters are looked for in the
/// metadata alone.
pub fn full_text_question(query: &str) -> (question: Option<String>)
    ensures
        optional(question) == index_question(query@),
{
    let query = trimmed(query);
    if chars(query.as_str()).len() > 2 {
        let mut question = "extracted_text : ".to_owned();
        question.append(fts_phrase(query.as_str()).as_str());
        Some(question)
    } else {
        None
    }
}

/// A place in the text of a document that the index found.
#[derive(Debug)]
pub struct ContentMatch {
    pub document_id: String,
    pub snippet: String,
}

/// The last place that the index found in a document.
pub open spec fn match_in(matches: Seq<ContentMatch>, id: Seq<char>) -> Option<Seq<char>>
    decreases matches.len(),
{
    if matches.len() == 0 {
        None
    } else if matches.last().document_id@ == id {
        Some(matches.last().snippet@)
    } else {
        match_in(matches.drop_last(), id)
    }
}

/// What a search finds of a document. Without a query it finds every one; what the index found comes
/// before the metadata.
pub open spec fn hit_of(
    document: Document,
    query: Seq<char>,
    matches: Seq<ContentMatch>,
    names: Seq<CollectionName>,
) -> Option<SearchHit> {
    let words = trim(query);
    let found = match_in(matches, document.id);
    if words.len() == 0 {
        Some(SearchHit { document, snippet: None, match_kind: SearchMatchKind::Metadata })
    } else if words.len() > 2 && found is Some && trim(found->Some_0).len() > 0 {
        Some(SearchHit { document, snippet: found, match_kind: SearchMatchKind::Content })
    } else if metadata_holds(document, words, names) {
        Some(SearchHit { document, snippet: None, match_kind: SearchMatchKind::Metadata })
    } else {
        None
    }
}

/// What a search finds of the documents, in their order.
pub open spec fn hits(
    documents: Seq<Document>,
    query: Seq<char>,
    matches: Seq<ContentMatch>,
    names: Seq<CollectionName>,
) -> Seq<SearchHit>
    decreases documents.len(),
{
    if documents.len() == 0 {
        Seq::empty()
    } else {
        let so_far = hits(documents.drop_last(), query, matches, names);
        match hit_of(documents.last(), query, matches, names) {
            Some(hit) => so_far.push(hit),
            None => so_far,
        }
    }
}

fn find_match(matches: &Vec<ContentMatch>, id: &str) -> (snippet: Option<String>)
    ensures
        optional(snippet) == match_in(matches@, id@),
{
    let mut left: usize = matches.len();
    assert(matches@.take(left as int) =~= matches@);
    while left > 0
        invariant
            left <= matches@.len(),
            match_in(matches@.take(left as int), id@) == match_in(matches@, id@),
        decreases left,
    {
        assert(matches@.take(left as int).last() == matches@[left - 1]);
        assert(matches@.take(left as int).drop_last() =~= matches@.take(left - 1));
        if same(matches[left - 1].document_id.as_str(), id) {
            return Some(matches[left - 1].snippet.clone());
        }
        left = left - 1;
    }
    None
}

/// What a search finds of a document.
fn search_document(
    document: &DocumentSummary,
    words: &str,
    matches: &Vec<ContentMatch>,
    names: &Vec<CollectionName>,
    Ghost(query): Ghost<Seq<char>>,
) -> (hit: Option<DocumentSearchResult>)
    requires
        words@ == trim(query),
    ensures
        (match hit {
            Some(hit) => Some(hit@),
            None => None,
        }) == hit_of(document@, query, matches@, names@),
{
    let length: usize = chars(words).len();
    if length > 2 {
        if let Some(snippet) = find_match(matches, document.id.as_str()) {
            if chars(trimmed(snippet.as_str()).as_str()).len() > 0 {
                return Some(
                    DocumentSearchResult {
                        document: document.copy(),
                        snippet: Some(snippet),
                        match_kind: SearchMatchKind::Content,
                    },
                );
            }
        }
    }
    if length == 0 || metadata_matches(document, words, names) {
        Some(
            DocumentSearchResult {
                document: document.copy(),
                snippet: None,
                match_kind: SearchMatchKind::Metadata,
            },
        )
    } else {
        None
    }
}

/// What a search finds of the documents that it is narrowed to. `matches` holds what the full-text
/// index answered.
pub fn search_documents(
    documents: &Vec<DocumentSummary>,
    query: &str,
    matches: &Vec<ContentMatch>,
    names: &Vec<CollectionName>,
) -> (results: Vec<DocumentSearchResult>)
    ensures
        search_hit_views(results@) == hits(document_views(documents@), query@, matches@, names@),
{
    let ghost all = document_views(documents@);
    let words = trimmed(query);
    let mut results: Vec<DocumentSearchResult> = Vec::new();
    let mut i: usize = 0;
    assert(search_hit_views(results@) =~= hits(all.take(0), query@, matches@, names@));
    while i < documents.len()
        invariant
            i <= documents@.len(),
            all == document_views(documents@),
            words@ == trim(query@),
            search_hit_views(results@) == hits(all.take(i as int), query@, matches@, names@),
        decreases documents@.len() - i,
    {
        assert(all.take(i + 1).drop_last() =~= all.take(i as int));
        assert(all.take(i + 1).last() == documents@[i as int]@);
        if let Some(hit) = search_document(
            &documents[i],
            words.as_str(),
            matches,
            names,
            Ghost(query@),
        ) {
            let ghost before_push = search_hit_views(results@);
            let ghost added = hit@;
            results.push(hit);
            assert(search_hit_views(results@) =~= before_push.push(added));
        }
        i = i + 1;
    }
    assert(all.take(i as int) =~= all);
    results
}

// ---- Laws ----

/// A search without a query lists every document that it is narrowed to, in their order.
pub proof fn empty_queries_list_everything(
    documents: Seq<Document>,
    query: Seq<char>,
    matches: Seq<ContentMatch>,
    names: Seq<CollectionName>,
)
    requires
        trim(query).len() == 0,
    ensures
        hits(documents, query, matches, names).len() == documents.len(),
        forall|i: int|
            0 <= i < documents.len() ==> (#[trigger] hits(
                documents,
                query,
                matches,
                names,
            )[i]).document == documents[i],
    decreases documents.len(),
{
    if documents.len() > 0 {
        let shorter = documents.drop_last();
        empty_queries_list_everything(shorter, query, matches, names);
        let found = hits(documents, query, matches, names);
        assert forall|i: int| 0 <= i < documents.len() implies (#[trigger] found[i]).document
            == documents[i] by {
            if i < shorter.len() {
                assert(found[i] == hits(shorter, query, matches, names)[i]);
                assert(shorter[i] == documents[i]);
            }
        }
    }
}

/// A query of one or two characters is never answered from the text of documents.
pub proof fn short_queries_look_at_metadata(
    document: Document,
    query: Seq<char>,
    matches: Seq<ContentMatch>,
    names: Seq<CollectionName>,
)
    requires
        0 < trim(query).len() <= 2,
    ensures
        index_question(query) is None,
        hit_of(document, query, matches, names) is Some <==> metadata_holds(
            document,
            trim(query),
            names,
        ),
        hit_of(document, query, matches, names) matches Some(hit) ==> hit.snippet is None
            && hit.match_kind == SearchMatchKind::Metadata,
{
}

/// Every hit is one of the documents, and its words stand in the text or in the metadata.
pub proof fn hits_are_documents(
    documents: Seq<Document>,
    query: Seq<char>,
    matches: Seq<ContentMatch>,
    names: Seq<CollectionName>,
    hit: SearchHit,
)
    requires
        hits(documents, query, matches, names).contains(hit),
    ensures
        documents.contains(hit.document),
        trim(query).len() == 0 || hit.match_kind == SearchMatchKind::Content || metadata_holds(
            hit.document,
            trim(query),
            names,
        ),
        hit.match_kind == SearchMatchKind::Content ==> hit.snippet == match_in(
            matches,
            hit.document.id,
        ) && hit.snippet is Some,
    decreases documents.len(),
{
    if documents.len() > 0 {
        let shorter = documents.drop_last();
        let so_far = hits(shorter, query, matches, names);
        let all = hits(documents, query, matches, names);
        let at = choose|at: int| 0 <= at < all.len() && all[at] == hit;
        if at < so_far.len() {
            assert(so_far[at] == hit);
            hits_are_documents(shorter, query, matches, names, hit);
            let place = choose|place: int|
                0 <= place < shorter.len() && shorter[place] == hit.document;
            assert(documents[place] == hit.document);
        } else {
            assert(documents[documents.len() - 1] == hit.document);
        }
    }
}

/// `part` stands in `text` at some place; the case of letters does not count.
pub open spec fn stands_in(part: Seq<char>, text: Seq<char>) -> bool {
    exists|at: int|
        0 <= at <= lowercase(text).len() - lowercase(part).len() && #[trigger] lowercase(text).subrange(
            at,
            at + lowercase(part).len(),
        ) == lowercase(part)
}

/// A hit on this document is among the hits.
pub open spec fn found_among(found: Seq<SearchHit>, document: Document) -> bool {
    exists|i: int| 0 <= i < found.len() && (#[trigger] found[i]).document == document
}

proof fn lemma_stands_in_is_holding(part: Seq<char>, text: Seq<char>)
    ensures
        stands_in(part, text) == holds_query(text, part),
{
    let hay = lowercase(text);
    let needle = lowercase(part);
    if holds_query(text, part) {
        let at = choose|at: int| occurs_at(hay, needle, at);
        assert(hay.subrange(at, at + needle.len()) == needle);
    }
    if stands_in(part, text) {
        let at = choose|at: int|
            0 <= at <= hay.len() - needle.len() && #[trigger] hay.subrange(at, at + needle.len())
                == needle;
        assert(occurs_at(hay, needle, at));
    }
}

/// What a search finds of one part of the documents and then of the rest.
pub proof fn documents_are_answered_in_turn(
    first: Seq<Document>,
    second: Seq<Document>,
    query: Seq<char>,
    matches: Seq<ContentMatch>,
    names: Seq<CollectionName>,
)
    ensures
        hits(first + second, query, matches, names) == hits(first, query, matches, names) + hits(
            second,
            query,
            matches,
            names,
        ),
        second.len() == 1 ==> hits(second, query, matches, names).len() <= 1,
    decreases second.len(),
{
    if second.len() > 0 {
        documents_are_answered_in_turn(first, second.drop_last(), query, matches, names);
        assert((first + second).drop_last() =~= first + second.drop_last());
        assert((first + second).last() == second.last());
        assert(hits(first + second, query, matches, names) =~= hits(first, query, matches, names)
            + hits(second, query, matches, names));
        reveal_with_fuel(hits, 2);
    } else {
        assert(first + second =~= first);
        assert(hits(first, query, matches, names) + hits(second, query, matches, names) =~= hits(
            first,
            query,
            matches,
            names,
        ));
    }
}

proof fn lemma_hit_is_among(
    documents: Seq<Document>,
    at: int,
    query: Seq<char>,
    matches: Seq<ContentMatch>,
    names: Seq<CollectionName>,
)
    requires
        0 <= at < documents.len(),
        hit_of(documents[at], query, matches, names) is Some,
    ensures
        hits(documents, query, matches, names).contains(
            hit_of(documents[at], query, matches, names)->Some_0,
        ),
        found_among(hits(documents, query, matches, names), documents[at]),
    decreases documents.len(),
{
    let shorter = documents.drop_last();
    let so_far = hits(shorter, query, matches, names);
    let found = hits(documents, query, matches, names);
    let hit = hit_of(documents[at], query, matches, names)->Some_0;
    if at < shorter.len() {
        assert(shorter[at] == documents[at]);
        lemma_hit_is_among(shorter, at, query, matches, names);
        let k = choose|k: int| 0 <= k < so_far.len() && so_far[k] == hit;
        assert(found[k] == hit);
    } else {
        assert(found[found.len() - 1] == hit);
    }
}

/// A search finds every document with the query in a title.
pub proof fn titles_are_searched(
    documents: Seq<Document>,
    at: int,
    query: Seq<char>,
    matches: Seq<ContentMatch>,
    names: Seq<CollectionName>,
)
    requires
        0 <= at < documents.len(),
        stands_in(trim(query), documents[at].title),
    ensures
        found_among(hits(documents, query, matches, names), documents[at]),
{
    lemma_stands_in_is_holding(trim(query), documents[at].title);
    lemma_hit_is_among(documents, at, query, matches, names);
}

/// A search finds every document with the query in a description.
pub proof fn descriptions_are_searched(
    documents: Seq<Document>,
    at: int,
    query: Seq<char>,
    matches: Seq<ContentMatch>,
    names: Seq<CollectionName>,
)
    requires
        0 <= at < documents.len(),
        documents[at].description is Some,
        stands_in(trim(query), documents[at].description->Some_0),
    ensures
        found_among(hits(documents, query, matches, names), documents[at]),
{
    lemma_stands_in_is_holding(trim(query), documents[at].description->Some_0);
    lemma_hit_is_among(documents, at, query, matches, names);
}

/// A search finds every document with the query in a file name.
pub proof fn file_names_are_searched(
    documents: Seq<Document>,
    at: int,
    query: Seq<char>,
    matches: Seq<ContentMatch>,
    names: Seq<CollectionName>,
)
    requires
        0 <= at < documents.len(),
        stands_in(trim(query), documents[at].file_name),
    ensures
        found_among(hits(documents, query, matches, names), documents[at]),
{
    lemma_stands_in_is_holding(trim(query), documents[at].file_name);
    lemma_hit_is_among(documents, at, query, matches, names);
}

/// A search finds every document with the query in a file type.
pub proof fn file_types_are_searched(
    documents: Seq<Document>,
    at: int,
    query: Seq<char>,
    matches: Seq<ContentMatch>,
    names: Seq<CollectionName>,
)
    requires
        0 <= at < documents.len(),
        stands_in(trim(query), documents[at].file_type),
    ensures
        found_among(hits(documents, query, matches, names), documents[at]),
{
    lemma_stands_in_is_holding(trim(query), documents[at].file_type);
    lemma_hit_is_among(documents, at, query, matches, names);
}

/// A search finds every document with the query in a date.
pub proof fn dates_are_searched(
    documents: Seq<Document>,
    at: int,
    query: Seq<char>,
    matches: Seq<ContentMatch>,
    names: Seq<CollectionName>,
)
    requires
        0 <= at < documents.len(),
        documents[at].document_date is Some,
        stands_in(trim(query), documents[at].document_date->Some_0),
    ensures
        found_among(hits(documents, query, matches, names), documents[at]),
{
    lemma_stands_in_is_holding(trim(query), documents[at].document_date->Some_0);
    lemma_hit_is_among(documents, at, query, matches, names);
}

/// A search finds every document with the query in the path that its file was imported from.
pub proof fn source_paths_are_searched(
    documents: Seq<Document>,
    at: int,
    query: Seq<char>,
    matches: Seq<ContentMatch>,
    names: Seq<CollectionName>,
)
    requires
        0 <= at < documents.len(),
        stands_in(trim(query), documents[at].source_path),
    ensures
        found_among(hits(documents, query, matches, names), documents[at]),
{
    lemma_stands_in_is_holding(trim(query), documents[at].source_path);
    lemma_hit_is_among(documents, at, query, matches, names);
}

/// A search finds every document with the query in the name of one of its tags.
pub proof fn tag_names_are_searched(
    documents: Seq<Document>,
    at: int,
    tag: int,
    query: Seq<char>,
    matches: Seq<ContentMatch>,
    names: Seq<CollectionName>,
)
    requires
        0 <= at < documents.len(),
        0 <= tag < documents[at].tags.len(),
        stands_in(trim(query), documents[at].tags[tag].name),
    ensures
        found_among(hits(documents, query, matches, names), documents[at]),
{
    lemma_stands_in_is_holding(trim(query), documents[at].tags[tag].name);
    assert(tag_holds(documents[at].tags, trim(query)));
    lemma_hit_is_among(documents, at, query, matches, names);
}

/// A search finds every document with the query in the name of its collection.
pub proof fn collection_names_are_searched(
    documents: Seq<Document>,
    at: int,
    collection: int,
    query: Seq<char>,
    matches: Seq<ContentMatch>,
    names: Seq<CollectionName>,
)
    requires
        0 <= at < documents.len(),
        0 <= collection < names.len(),
        names[collection].id@ == documents[at].collection_id,
        stands_in(trim(query), names[collection].name@),
    ensures
        found_among(hits(documents, query, matches, names), documents[at]),
{
    lemma_stands_in_is_holding(trim(query), names[collection].name@);
    assert(name_holds(names, documents[at].collection_id, trim(query)));
    lemma_hit_is_among(documents, at, query, matches, names);
}

/// A search of more than two characters finds every document in whose text the index found it, and
/// shows the last place that the index gave, unless that is blank.
pub proof fn texts_are_searched(
    documents: Seq<Document>,
    at: int,
    place: int,
    query: Seq<char>,
    matches: Seq<ContentMatch>,
    names: Seq<CollectionName>,
)
    requires
        0 <= at < documents.len(),
        trim(query).len() > 2,
        0 <= place < matches.len(),
        matches[place].document_id@ == documents[at].id,
        trim(matches[place].snippet@).len() > 0,
        forall|j: int|
            place < j < matches.len() ==> (#[trigger] matches[j]).document_id@ != documents[at].id,
    ensures
        hits(documents, query, matches, names).contains(
            SearchHit {
                document: documents[at],
                snippet: Some(matches[place].snippet@),
                match_kind: SearchMatchKind::Content,
            },
        ),
{
    lemma_last_match(matches, documents[at].id, place);
    lemma_hit_is_among(documents, at, query, matches, names);
}

proof fn lemma_last_match(matches: Seq<ContentMatch>, id: Seq<char>, place: int)
    requires
        0 <= place < matches.len(),
        matches[place].document_id@ == id,
        forall|j: int| place < j < matches.len() ==> (#[trigger] matches[j]).document_id@ != id,
    ensures
        match_in(matches, id) == Some(matches[place].snippet@),
    decreases matches.len(),
{
    if place < matches.len() - 1 {
        let shorter = matches.drop_last();
        assert(matches[matches.len() - 1].document_id@ != id);
        assert(shorter[place] == matches[place]);
        assert forall|j: int| place < j < shorter.len() implies (#[trigger] shorter[j]).document_id@
            != id by {
            assert(matches[j] == shorter[j]);
        }
        lemma_last_match(shorter, id, place);
    }
}

proof fn lemma_match_is_one(matches: Seq<ContentMatch>, id: Seq<char>)
    requires
        match_in(matches, id) is Some,
    ensures
        exists|k: int|
            0 <= k < matches.len() && (#[trigger] matches[k]).document_id@ == id
                && matches[k].snippet@ == match_in(matches, id)->Some_0,
    decreases matches.len(),
{
    if matches.last().document_id@ == id {
        assert(matches[matches.len() - 1].document_id@ == id);
    } else {
        let shorter = matches.drop_last();
        lemma_match_is_one(shorter, id);
        let k = choose|k: int|
            0 <= k < shorter.len() && (#[trigger] shorter[k]).document_id@ == id
                && shorter[k].snippet@ == match_in(shorter, id)->Some_0;
        assert(matches[k] == shorter[k]);
    }
}

/// What may be missing, as a text; what is missing is empty.
pub open spec fn text_of(text: Option<Seq<char>>) -> Seq<char> {
    match text {
        Some(text) => text,
        None => Seq::empty(),
    }
}

/// A search with a query finds only documents that hold it: a hit on the text shows a place that the
/// index found in that document, and for any other hit the query stands in one of the texts that are
/// known of the document.
pub proof fn hits_hold_the_query(
    documents: Seq<Document>,
    query: Seq<char>,
    matches: Seq<ContentMatch>,
    names: Seq<CollectionName>,
    hit: SearchHit,
)
    requires
        hits(documents, query, matches, names).contains(hit),
        trim(query).len() > 0,
    ensures
        documents.contains(hit.document),
        hit.match_kind == SearchMatchKind::Content ==> trim(query).len() > 2 && exists|k: int|
            0 <= k < matches.len() && (#[trigger] matches[k]).document_id@ == hit.document.id
                && hit.snippet == Some(matches[k].snippet@) && trim(matches[k].snippet@).len() > 0,
        hit.match_kind == SearchMatchKind::Metadata ==> hit.snippet is None && {
            let words = trim(query);
            ||| stands_in(words, hit.document.title)
            ||| stands_in(words, text_of(hit.document.description))
            ||| stands_in(words, hit.document.file_name)
            ||| stands_in(words, hit.document.file_type)
            ||| stands_in(words, text_of(hit.document.document_date))
            ||| stands_in(words, hit.document.source_path)
            ||| exists|i: int|
                0 <= i < hit.document.tags.len() && stands_in(words, (#[trigger] hit.document.tags[i]).name)
            ||| exists|i: int|
                0 <= i < names.len() && (#[trigger] names[i]).id@ == hit.document.collection_id
                    && stands_in(words, names[i].name@)
        },
    decreases documents.len(),
{
    let shorter = documents.drop_last();
    let so_far = hits(shorter, query, matches, names);
    let all = hits(documents, query, matches, names);
    let words = trim(query);
    let at = choose|at: int| 0 <= at < all.len() && all[at] == hit;
    if at < so_far.len() {
        assert(so_far[at] == hit);
        hits_hold_the_query(shorter, query, matches, names, hit);
        let place = choose|place: int| 0 <= place < shorter.len() && shorter[place] == hit.document;
        assert(documents[place] == hit.document);
    } else {
        let document = documents.last();
        assert(documents[documents.len() - 1] == hit.document);
        if hit.match_kind == SearchMatchKind::Content {
            lemma_match_is_one(matches, document.id);
        } else {
            lemma_stands_in_is_holding(words, document.title);
            lemma_stands_in_is_holding(words, text_of(document.description));
            lemma_stands_in_is_holding(words, document.file_name);
            lemma_stands_in_is_holding(words, document.file_type);
            lemma_stands_in_is_holding(words, text_of(document.document_date));
            lemma_stands_in_is_holding(words, document.source_path);
            if tag_holds(document.tags, words) {
                let i = choose|i: int|
                    0 <= i < document.tags.len() && holds_query((#[trigger] document.tags[i]).name, words);
                lemma_stands_in_is_holding(words, document.tags[i].name);
            }
            if name_holds(names, document.collection_id, words) {
                let i = choose|i: int|
                    0 <= i < names.len() && (#[trigger] names[i]).id@ == document.collection_id
                        && holds_query(names[i].name@, words);
                lemma_stands_in_is_holding(words, names[i].name@);
            }
        }
    }
}

/// What a phrase of the index stands for: two quotes are one, and a quote alone would end the phrase.
pub open spec fn phrase_read(inside: Seq<char>) -> Option<Seq<char>>
    decreases inside.len(),
{
    if inside.len() == 0 {
        Some(Seq::empty())
    } else if inside.last() != '"' {
        match phrase_read(inside.drop_last()) {
            Some(text) => Some(text.push(inside.last())),
            None => None,
        }
    } else if inside.len() > 1 && inside[inside.len() - 2] == '"' {
        match phrase_read(inside.take(inside.len() - 2)) {
            Some(text) => Some(text.push('"')),
            None => None,
        }
    } else {
        None
    }
}

proof fn lemma_phrase_reads_back(text: Seq<char>)
    ensures
        phrase_read(quotes_doubled(text)) == Some(text),
    decreases text.len(),
{
    if text.len() > 0 {
        lemma_phrase_reads_back(text.drop_last());
        let inside = quotes_doubled(text);
        if text.last() == '"' {
            assert(inside.take(inside.len() - 2) =~= quotes_doubled(text.drop_last()));
        } else {
            assert(inside.drop_last() =~= quotes_doubled(text.drop_last()));
        }
        assert(text.drop_last().push(text.last()) =~= text);
    }
}

/// The index is asked for the query as one phrase of the text column, whatever quotes the query
/// holds, and only where the query has more than two characters.
pub proof fn the_index_is_asked_for_the_query(query: Seq<char>)
    ensures
        index_question(query) is Some <==> trim(query).len() > 2,
        index_question(query) matches Some(question) ==> {
            let start = "extracted_text : \""@;
            &&& question.len() >= start.len() + 1
            &&& question.take(start.len() as int) == start
            &&& question.last() == '"'
            &&& phrase_read(question.subrange(start.len() as int, question.len() - 1)) == Some(
                trim(query),
            )
        },
{
    if trim(query).len() > 2 {
        reveal_strlit("extracted_text : \"");
        reveal_strlit("extracted_text : ");
        let start = "extracted_text : \""@;
        let question = index_question(query)->Some_0;
        lemma_phrase_reads_back(trim(query));
        assert(question.take(start.len() as int) =~= start);
        assert(question.subrange(start.len() as int, question.len() - 1) =~= quotes_doubled(
            trim(query),
        ));
    }
}

/// A search that is narrowed to nothing lets every document through, and each part that it is
/// narrowed to lets through the documents of that collection, with that tag, of that type and of
/// those days; the parts count together.
pub proof fn filters_narrow(filters: Filters, document: Document)
    ensures
        ({
            let none = Filters {
                collection_id: None,
                tag_id: None,
                file_type: None,
                document_date_from: None,
                document_date_to: None,
            };
            let in_collection = Filters { collection_id: filters.collection_id, ..none };
            let tagged = Filters { tag_id: filters.tag_id, ..none };
            let of_type = Filters { file_type: filters.file_type, ..none };
            let from = Filters { document_date_from: filters.document_date_from, ..none };
            let to = Filters { document_date_to: filters.document_date_to, ..none };
            &&& passes(none, document)
            &&& passes(filters, document) <==> passes(in_collection, document) && passes(tagged, document)
                && passes(of_type, document) && passes(from, document) && passes(to, document)
            &&& filters.collection_id is Some ==> (passes(in_collection, document)
                <==> document.collection_id == filters.collection_id->Some_0)
            &&& filters.tag_id is Some ==> (passes(tagged, document) <==> exists|i: int|
                0 <= i < document.tags.len() && (#[trigger] document.tags[i]).id
                    == filters.tag_id->Some_0)
            &&& filters.file_type == Some(document.file_type) ==> passes(of_type, document)
            &&& filters.file_type is Some && filters.file_type->Some_0.len()
                != document.file_type.len() ==> !passes(of_type, document)
            &&& document.document_date is None ==> (passes(from, document)
                <==> filters.document_date_from is None) && (passes(to, document)
                <==> filters.document_date_to is None)
            &&& document.document_date is Some && filters.document_date_from is Some ==> (passes(
                from,
                document,
            ) <==> document.document_date == filters.document_date_from || before(
                filters.document_date_from->Some_0,
                document.document_date->Some_0,
            ))
            &&& document.document_date is Some && filters.document_date_to is Some ==> (passes(
                to,
                document,
            ) <==> document.document_date == filters.document_date_to || before(
                document.document_date->Some_0,
                filters.document_date_to->Some_0,
            ))
        }),
{
    if document.document_date is Some && filters.document_date_from is Some {
        assert(document.document_date->Some_0.take(0) =~= filters.document_date_from->Some_0.take(0));
        lemma_order_is_total(
            document.document_date->Some_0,
            filters.document_date_from->Some_0,
            0,
        );
    }
    if document.document_date is Some && filters.document_date_to is Some {
        assert(document.document_date->Some_0.take(0) =~= filters.document_date_to->Some_0.take(0));
        lemma_order_is_total(document.document_date->Some_0, filters.document_date_to->Some_0, 0);
    }
    if filters.file_type is Some {
        assert(ascii_uppercase(filters.file_type->Some_0).len() == filters.file_type->Some_0.len());
        assert(ascii_uppercase(document.file_type).len() == document.file_type.len());
    }
}

} // verus!
