//! Collections and tags: their names, the tree that collections make, and what changes to them ask
//! for.

use chrono::NaiveDate;
use vstd::prelude::*;
use crate::classification::{ensure_tags_exist, known_tags};
use crate::data::{collection_views, tag_views, Collection, Tag};
use crate::error::{failure, outcome, ErrorKind, Failure, LibraryError, LibraryResult};
use crate::models::{
    CollectionDeleteResult, CollectionSummary, DocumentMetadataUpdate, TagSummary,
};
use crate::paths::{paths_equal, same_place};
use crate::text::{
    add_new, ascii_lowercase, chars, copy_option, lemma_with_new_holds_all, lemma_with_new_keeps_distinct,
    optional, same, trim, trimmed, views, with_new,
};

verus! {

// ---- Names and texts ----

/// The name of a collection, or what is wrong with it.
pub open spec fn collection_name(name: Seq<char>) -> Result<Seq<char>, Failure> {
    if trim(name).len() == 0 {
        Err(failure(ErrorKind::InvalidCollection, "集合名称不能为空。"@))
    } else {
        Ok(trim(name))
    }
}

/// The name of a collection, without the white space around it.
pub fn validate_collection_name(name: &str) -> (result: LibraryResult<String>)
    ensures
        outcome(result) == collection_name(name@),
{
    let name = trimmed(name);
    if chars(name.as_str()).len() == 0 {
        Err(LibraryError::InvalidCollection("集合名称不能为空。".to_owned()))
    } else {
        Ok(name)
    }
}

/// The name of a tag, or what is wrong with it.
pub open spec fn tag_name(name: Seq<char>) -> Result<Seq<char>, Failure> {
    if trim(name).len() == 0 {
        Err(failure(ErrorKind::InvalidTag, "标签名称不能为空。"@))
    } else if trim(name).len() > 50 {
        Err(failure(ErrorKind::InvalidTag, "标签名称不能超过 50 个字符。"@))
    } else {
        Ok(trim(name))
    }
}

/// The name of a tag, without the white space around it.
pub fn validate_tag_name(name: &str) -> (result: LibraryResult<String>)
    ensures
        outcome(result) == tag_name(name@),
{
    let name = trimmed(name);
    let length: usize = chars(name.as_str()).len();
    if length == 0 {
        Err(LibraryError::InvalidTag("标签名称不能为空。".to_owned()))
    } else if length > 50 {
        Err(LibraryError::InvalidTag("标签名称不能超过 50 个字符。".to_owned()))
    } else {
        Ok(name)
    }
}

/// The title of a document, or what is wrong with it.
pub open spec fn document_title(title: Seq<char>) -> Result<Seq<char>, Failure> {
    if trim(title).len() == 0 {
        Err(failure(ErrorKind::InvalidDocumentMetadata, "文档标题不能为空。"@))
    } else if trim(title).len() > 500 {
        Err(failure(ErrorKind::InvalidDocumentMetadata, "文档标题不能超过 500 个字符。"@))
    } else {
        Ok(trim(title))
    }
}

/// The title of a document, without the white space around it.
pub fn validate_document_title(title: &str) -> (result: LibraryResult<String>)
    ensures
        outcome(result) == document_title(title@),
{
    let title = trimmed(title);
    let length: usize = chars(title.as_str()).len();
    if length == 0 {
        Err(LibraryError::InvalidDocumentMetadata("文档标题不能为空。".to_owned()))
    } else if length > 500 {
        Err(
            LibraryError::InvalidDocumentMetadata("文档标题不能超过 500 个字符。".to_owned()),
        )
    } else {
        Ok(title)
    }
}

/// A text that is there: without the white space around it, and missing where nothing is left.
pub open spec fn text_given(text: Option<Seq<char>>) -> Option<Seq<char>> {
    match text {
        Some(text) if trim(text).len() > 0 => Some(trim(text)),
        _ => None,
    }
}

/// A text that is there, without the white space around it.
pub fn normalize_optional_text(value: &Option<String>) -> (text: Option<String>)
    ensures
        optional(text) == text_given(optional(*value)),
{
    match value {
        Some(text) => {
            let text = trimmed(text.as_str());
            if chars(text.as_str()).len() > 0 {
                Some(text)
            } else {
                None
            }
        },
        None => None,
    }
}

// ---- Dates ----

/// The number that two digits of a text write.
pub open spec fn two_digits(text: Seq<char>, at: int) -> int {
    (text[at] as int - '0' as int) * 10 + (text[at + 1] as int - '0' as int)
}

/// The text is written as YYYY-MM-DD.
pub open spec fn written_as_date(text: Seq<char>) -> bool {
    &&& text.len() == 10
    &&& forall|i: int|
        0 <= i < 10 ==> if i == 4 || i == 7 {
            #[trigger] text[i] == '-'
        } else {
            '0' <= text[i] <= '9'
        }
}

/// How many days a month has.
pub open spec fn days_of_month(year: int, month: int) -> int {
    if month == 2 {
        if year % 4 == 0 && (year % 100 != 0 || year % 400 == 0) {
            29
        } else {
            28
        }
    } else if month == 4 || month == 6 || month == 9 || month == 11 {
        30
    } else {
        31
    }
}

/// The calendar has the day that a text written as YYYY-MM-DD names.
pub open spec fn in_calendar(text: Seq<char>) -> bool {
    let year = two_digits(text, 0) * 100 + two_digits(text, 2);
    let month = two_digits(text, 5);
    let day = two_digits(text, 8);
    1 <= month <= 12 && 1 <= day <= days_of_month(year, month)
}

/// The text names a day as year, month and day.
pub uninterp spec fn names_day(text: Seq<char>) -> bool;

/// `chrono::NaiveDate::parse_from_str` with the format `%Y-%m-%d`: whether it succeeds is a function of
/// the text; of a text written as YYYY-MM-DD it takes the days of the Gregorian calendar. Which other
/// texts it takes (signs, white space, fewer digits) is not stated.
#[verifier::external_body]
fn parses_as_day(text: &str) -> (found: bool)
    ensures
        found == names_day(text@),
        written_as_date(text@) ==> found == in_calendar(text@),
{
    NaiveDate::parse_from_str(text, "%Y-%m-%d").is_ok()
}

/// Whether a date is accepted, given whether it names a day.
pub open spec fn date_check(day: bool) -> Result<(), Failure> {
    if day {
        Ok(())
    } else {
        Err(
            failure(
                ErrorKind::InvalidDocumentMetadata,
                "文档日期必须使用 YYYY-MM-DD 格式。"@,
            ),
        )
    }
}

/// Accepts a date that names a day.
pub fn accept_document_date(day: bool) -> (result: LibraryResult<()>)
    ensures
        outcome(result) == date_check(day),
{
    if day {
        Ok(())
    } else {
        Err(
            LibraryError::InvalidDocumentMetadata(
                "文档日期必须使用 YYYY-MM-DD 格式。".to_owned(),
            ),
        )
    }
}

/// Checks the date of a document.
pub fn validate_document_date(date: &str) -> (result: LibraryResult<()>)
    ensures
        outcome(result) == date_check(names_day(date@)),
        written_as_date(date@) ==> (result is Ok <==> in_calendar(date@)),
{
    accept_document_date(parses_as_day(date))
}

// ---- Finding collections ----

/// The position of the first collection from `from` on with this id.
pub open spec fn collection_from(list: Seq<Collection>, id: Seq<char>, from: int) -> Option<int>
    decreases list.len() - from,
{
    if from < 0 || from >= list.len() {
        None
    } else if list[from].id == id {
        Some(from)
    } else {
        collection_from(list, id, from + 1)
    }
}

/// The position of the collection with this id.
pub open spec fn collection_at(list: Seq<Collection>, id: Seq<char>) -> Option<int> {
    collection_from(list, id, 0)
}

/// The collection with this id, or that there is none.
pub open spec fn known_collection(list: Seq<Collection>, id: Seq<char>) -> Result<Collection, Failure> {
    match collection_at(list, id) {
        Some(at) => Ok(list[at]),
        None => Err(failure(ErrorKind::CollectionNotFound, "集合不存在："@ + id)),
    }
}

fn find_collection(list: &Vec<CollectionSummary>, id: &str) -> (found: Option<usize>)
    ensures
        collection_at(collection_views(list@), id@) == (match found {
            Some(at) => Some(at as int),
            None => None,
        }),
        found matches Some(at) ==> at < list@.len(),
{
    let ghost all = collection_views(list@);
    let mut i: usize = 0;
    while i < list.len()
        invariant
            i <= list@.len(),
            all == collection_views(list@),
            collection_from(all, id@, i as int) == collection_at(all, id@),
        decreases list@.len() - i,
    {
        assert(all[i as int] == list@[i as int]@);
        if same(list[i].id.as_str(), id) {
            return Some(i);
        }
        i = i + 1;
    }
    None
}

fn no_collection(id: &str) -> (error: LibraryError)
    ensures
        error@ == failure(ErrorKind::CollectionNotFound, "集合不存在："@ + id@),
{
    let mut detail = "集合不存在：".to_owned();
    detail.append(id);
    LibraryError::CollectionNotFound(detail)
}

/// The collection with this id.
pub fn load_collection_summary(list: &Vec<CollectionSummary>, id: &str) -> (result: LibraryResult<
    CollectionSummary,
>)
    ensures
        outcome(result) == known_collection(collection_views(list@), id@),
{
    match find_collection(list, id) {
        Some(at) => {
            assert(collection_views(list@)[at as int] == list@[at as int]@);
            Ok(list[at].copy())
        },
        None => Err(no_collection(id)),
    }
}

/// Checks that there is a collection with this id.
pub fn ensure_collection_exists(list: &Vec<CollectionSummary>, id: &str) -> (result: LibraryResult<()>)
    ensures
        outcome(result) == (match known_collection(collection_views(list@), id@) {
            Ok(_) => Ok(()),
            Err(error) => Err(error),
        }),
{
    match find_collection(list, id) {
        Some(_) => Ok(()),
        None => Err(no_collection(id)),
    }
}

// ---- The tree ----

/// The collection that holds the collection with this id.
pub open spec fn parent_of(list: Seq<Collection>, id: Seq<char>) -> Option<Seq<char>> {
    match collection_at(list, id) {
        Some(at) => list[at].parent_id,
        None => None,
    }
}

/// The collection `steps` steps up from the one with this id.
pub open spec fn climb(list: Seq<Collection>, id: Seq<char>, steps: nat) -> Option<Seq<char>>
    decreases steps,
{
    if steps == 0 {
        Some(id)
    } else {
        match climb(list, id, (steps - 1) as nat) {
            Some(below) => parent_of(list, below),
            None => None,
        }
    }
}

/// A collection is the other one or lies below it, at most so many steps.
pub open spec fn lies_below(
    list: Seq<Collection>,
    id: Seq<char>,
    other: Seq<char>,
    most: nat,
) -> bool {
    exists|steps: nat| steps <= most && #[trigger] climb(list, id, steps) == Some(other)
}

/// Whether there is such a collection and the second one is it or lies below it. No way up is longer
/// than the list.
pub fn collection_is_descendant(
    list: &Vec<CollectionSummary>,
    collection_id: &str,
    potential_descendant_id: &str,
) -> (found: bool)
    ensures
        found == (collection_at(collection_views(list@), collection_id@) is Some && lies_below(
            collection_views(list@),
            potential_descendant_id@,
            collection_id@,
            list@.len(),
        )),
{
    if find_collection(list, collection_id).is_none() {
        return false;
    }
    climbs_to(list, potential_descendant_id, collection_id)
}

/// Whether a collection is the other one or lies below it.
fn climbs_to(list: &Vec<CollectionSummary>, id: &str, other: &str) -> (found: bool)
    ensures
        found == lies_below(collection_views(list@), id@, other@, list@.len()),
{
    let ghost all = collection_views(list@);
    let size: usize = list.len();
    let mut current: String = id.to_owned();
    let mut steps: usize = 0;
    while steps < size
        invariant
            steps <= size,
            size == list@.len(),
            all == collection_views(list@),
            climb(all, id@, steps as nat) == Some(current@),
            forall|earlier: nat| earlier < steps ==> #[trigger] climb(all, id@, earlier) != Some(other@),
        decreases size - steps,
    {
        if same(current.as_str(), other) {
            return true;
        }
        let parent = match find_collection(list, current.as_str()) {
            Some(at) => {
                assert(all[at as int] == list@[at as int]@);
                copy_option(&list[at].parent_id)
            },
            None => None,
        };
        assert(climb(all, id@, (steps + 1) as nat) == optional(parent));
        match parent {
            None => {
                proof {
                    assert forall|later: nat| later > steps implies #[trigger] climb(all, id@, later)
                        is None by {
                        lemma_climb_stays_out(all, id@, (steps + 1) as nat, later);
                    }
                }
                return false;
            },
            Some(parent) => {
                current = parent;
            },
        }
        steps = steps + 1;
    }
    same(current.as_str(), other)
}

/// Beyond the top there is nothing.
proof fn lemma_climb_stays_out(list: Seq<Collection>, id: Seq<char>, steps: nat, later: nat)
    requires
        climb(list, id, steps) is None,
        steps <= later,
    ensures
        climb(list, id, later) is None,
    decreases later - steps,
{
    if steps < later {
        lemma_climb_stays_out(list, id, steps, (later - 1) as nat);
    }
}

// ---- Changes to collections ----

/// A new collection, or why there is none.
pub open spec fn created(
    list: Seq<Collection>,
    name: Seq<char>,
    parent_id: Option<Seq<char>>,
    new_id: Seq<char>,
) -> Result<Collection, Failure> {
    match collection_name(name) {
        Err(error) => Err(error),
        Ok(name) => if parent_id is Some && collection_at(list, parent_id->Some_0) is None {
            Err(failure(ErrorKind::CollectionNotFound, "集合不存在："@ + parent_id->Some_0))
        } else {
            Ok(Collection { id: new_id, name, parent_id, is_inbox: false, document_count: 0 })
        },
    }
}

/// A new collection.
pub fn create_collection(
    list: &Vec<CollectionSummary>,
    name: &str,
    parent_id: &Option<String>,
    new_id: &str,
) -> (result: LibraryResult<CollectionSummary>)
    ensures
        outcome(result) == created(
            collection_views(list@),
            name@,
            optional(*parent_id),
            new_id@,
        ),
{
    let name = match validate_collection_name(name) {
        Err(error) => {
            return Err(error);
        },
        Ok(name) => name,
    };
    if let Some(parent) = parent_id {
        if let Err(error) = ensure_collection_exists(list, parent.as_str()) {
            return Err(error);
        }
    }
    Ok(
        CollectionSummary {
            id: new_id.to_owned(),
            name,
            parent_id: copy_option(parent_id),
            is_inbox: false,
            document_count: 0,
        },
    )
}

/// A collection that may be changed: it is there, and not the inbox.
pub open spec fn changeable(list: Seq<Collection>, id: Seq<char>, refusal: Seq<char>) -> Result<
    Collection,
    Failure,
> {
    match known_collection(list, id) {
        Err(error) => Err(error),
        Ok(collection) => if collection.is_inbox {
            Err(failure(ErrorKind::ProtectedCollection, refusal))
        } else {
            Ok(collection)
        },
    }
}

fn changeable_collection(list: &Vec<CollectionSummary>, id: &str, refusal: &str) -> (result:
    LibraryResult<CollectionSummary>)
    ensures
        outcome(result) == changeable(collection_views(list@), id@, refusal@),
{
    match load_collection_summary(list, id) {
        Err(error) => Err(error),
        Ok(collection) => {
            if collection.is_inbox {
                Err(LibraryError::ProtectedCollection(refusal.to_owned()))
            } else {
                Ok(collection)
            }
        },
    }
}

/// A collection with a new name, or why it keeps the old one.
pub open spec fn renamed(list: Seq<Collection>, id: Seq<char>, name: Seq<char>) -> Result<
    Collection,
    Failure,
> {
    match changeable(list, id, "收件箱不能重命名。"@) {
        Err(error) => Err(error),
        Ok(collection) => match collection_name(name) {
            Err(error) => Err(error),
            Ok(name) => Ok(Collection { name, ..collection }),
        },
    }
}

/// A collection with a new name.
pub fn rename_collection(list: &Vec<CollectionSummary>, id: &str, name: &str) -> (result: LibraryResult<
    CollectionSummary,
>)
    ensures
        outcome(result) == renamed(collection_views(list@), id@, name@),
{
    let collection = match changeable_collection(list, id, "收件箱不能重命名。") {
        Err(error) => {
            return Err(error);
        },
        Ok(collection) => collection,
    };
    match validate_collection_name(name) {
        Err(error) => Err(error),
        Ok(name) => Ok(CollectionSummary { name, ..collection }),
    }
}

/// A collection under another one, or why it stays where it is.
pub open spec fn moved(list: Seq<Collection>, id: Seq<char>, parent_id: Option<Seq<char>>) -> Result<
    Collection,
    Failure,
> {
    match changeable(list, id, "收件箱不能移动。"@) {
        Err(error) => Err(error),
        Ok(collection) => match parent_id {
            None => Ok(Collection { parent_id, ..collection }),
            Some(parent) => if collection_at(list, parent) is None {
                Err(failure(ErrorKind::CollectionNotFound, "集合不存在："@ + parent))
            } else if lies_below(list, parent, id, list.len()) {
                Err(
                    failure(ErrorKind::CollectionCycle, "不能把集合移动到自身或其后代下。"@),
                )
            } else {
                Ok(Collection { parent_id, ..collection })
            },
        },
    }
}

/// A collection under another one, or at the top; never under itself or one below it.
pub fn move_collection(list: &Vec<CollectionSummary>, id: &str, parent_id: &Option<String>) -> (result:
    LibraryResult<CollectionSummary>)
    ensures
        outcome(result) == moved(collection_views(list@), id@, optional(*parent_id)),
{
    let collection = match changeable_collection(list, id, "收件箱不能移动。") {
        Err(error) => {
            return Err(error);
        },
        Ok(collection) => collection,
    };
    assert(collection_views(list@).len() == list@.len());
    if let Some(parent) = parent_id {
        if let Err(error) = ensure_collection_exists(list, parent.as_str()) {
            return Err(error);
        }
        if collection_is_descendant(list, id, parent.as_str()) {
            return Err(
                LibraryError::CollectionCycle("不能把集合移动到自身或其后代下。".to_owned()),
            );
        }
    }
    Ok(CollectionSummary { parent_id: copy_option(parent_id), ..collection })
}

/// What the deletion of a collection does.
#[derive(Debug)]
pub struct CollectionRemoval {
    pub result: CollectionDeleteResult,
    /// The collection to which those below go.
    pub children_parent_id: Option<String>,
}

/// The collection for documents that have no other.
pub const INBOX_ID: &'static str = "inbox";

/// What the deletion of a collection does: its documents go to the inbox, the collections in it one
/// level up.
pub fn delete_collection(list: &Vec<CollectionSummary>, id: &str) -> (result: LibraryResult<
    CollectionRemoval,
>)
    ensures
        match changeable(collection_views(list@), id@, "收件箱不能删除。"@) {
            Err(error) => result matches Err(found) && found@ == error,
            Ok(collection) => result matches Ok(removal) && {
                &&& removal.result.collection_id@ == id@
                &&& removal.result.target_collection_id@ == INBOX_ID@
                &&& removal.result.moved_document_count == collection.document_count
                &&& optional(removal.children_parent_id) == collection.parent_id
            },
        },
{
    match changeable_collection(list, id, "收件箱不能删除。") {
        Err(error) => Err(error),
        Ok(collection) => Ok(
            CollectionRemoval {
                result: CollectionDeleteResult {
                    collection_id: id.to_owned(),
                    target_collection_id: INBOX_ID.to_owned(),
                    moved_document_count: collection.document_count,
                },
                children_parent_id: collection.parent_id,
            },
        ),
    }
}

/// The collection to which a document goes back: the one it was in, where that is still there, else
/// the inbox.
pub open spec fn collection_to_restore(list: Seq<Collection>, original: Option<Seq<char>>) -> Seq<char> {
    match original {
        Some(id) => if collection_at(list, id) is Some {
            id
        } else {
            INBOX_ID@
        },
        None => INBOX_ID@,
    }
}

/// The collection to which a document goes back.
pub fn restored_collection(list: &Vec<CollectionSummary>, original: &Option<String>) -> (id: String)
    ensures
        id@ == collection_to_restore(collection_views(list@), optional(*original)),
{
    match original {
        Some(id) => {
            if find_collection(list, id.as_str()).is_some() {
                id.clone()
            } else {
                INBOX_ID.to_owned()
            }
        },
        None => INBOX_ID.to_owned(),
    }
}

// ---- Tags ----

/// Another tag has this name; the case of ASCII letters does not count.
pub open spec fn name_taken(tags: Seq<Tag>, name: Seq<char>, except: Option<Seq<char>>) -> bool {
    exists|i: int|
        0 <= i < tags.len() && same_place((#[trigger] tags[i]).name, name) && Some(tags[i].id) != except
}

/// Whether another tag has this name.
pub fn tag_name_exists(tags: &Vec<TagSummary>, name: &str, except: &Option<String>) -> (found: bool)
    ensures
        found == name_taken(tag_views(tags@), name@, optional(*except)),
{
    let ghost all = tag_views(tags@);
    let mut i: usize = 0;
    while i < tags.len()
        invariant
            i <= tags@.len(),
            all == tag_views(tags@),
            forall|j: int|
                0 <= j < i ==> !(same_place((#[trigger] all[j]).name, name@) && Some(all[j].id)
                    != optional(*except)),
        decreases tags@.len() - i,
    {
        assert(all[i as int] == tags@[i as int]@);
        let excepted = match except {
            Some(id) => same(id.as_str(), tags[i].id.as_str()),
            None => false,
        };
        if !excepted && paths_equal(tags[i].name.as_str(), name) {
            return true;
        }
        i = i + 1;
    }
    false
}

/// There is a tag with this id.
pub open spec fn tag_known(tags: Seq<Tag>, id: Seq<char>) -> bool {
    exists|i: int| 0 <= i < tags.len() && (#[trigger] tags[i]).id == id
}

/// Checks that there is a tag with this id.
pub fn ensure_tag_exists(tags: &Vec<TagSummary>, id: &str) -> (result: LibraryResult<()>)
    ensures
        outcome(result) == (if tag_known(tag_views(tags@), id@) {
            Ok(())
        } else {
            Err(failure(ErrorKind::TagNotFound, "标签不存在："@ + id@))
        }),
{
    let ghost all = tag_views(tags@);
    let mut i: usize = 0;
    while i < tags.len()
        invariant
            i <= tags@.len(),
            all == tag_views(tags@),
            forall|j: int| 0 <= j < i ==> (#[trigger] all[j]).id != id@,
        decreases tags@.len() - i,
    {
        assert(all[i as int] == tags@[i as int]@);
        if same(tags[i].id.as_str(), id) {
            return Ok(());
        }
        i = i + 1;
    }
    let mut detail = "标签不存在：".to_owned();
    detail.append(id);
    Err(LibraryError::TagNotFound(detail))
}

/// The name of a tag that may take it, or why not.
pub open spec fn free_tag_name(tags: Seq<Tag>, name: Seq<char>, except: Option<Seq<char>>) -> Result<
    Seq<char>,
    Failure,
> {
    match tag_name(name) {
        Err(error) => Err(error),
        Ok(name) => if except is Some && !tag_known(tags, except->Some_0) {
            Err(failure(ErrorKind::TagNotFound, "标签不存在："@ + except->Some_0))
        } else if name_taken(tags, name, except) {
            Err(failure(ErrorKind::TagAlreadyExists, "标签已存在："@ + name))
        } else {
            Ok(name)
        },
    }
}

/// The name for a new tag, or for the tag `renamed`: no other tag may have it.
pub fn check_tag_name(tags: &Vec<TagSummary>, name: &str, renamed: &Option<String>) -> (result:
    LibraryResult<String>)
    ensures
        outcome(result) == free_tag_name(tag_views(tags@), name@, optional(*renamed)),
{
    let name = match validate_tag_name(name) {
        Err(error) => {
            return Err(error);
        },
        Ok(name) => name,
    };
    if let Some(id) = renamed {
        if let Err(error) = ensure_tag_exists(tags, id.as_str()) {
            return Err(error);
        }
    }
    if tag_name_exists(tags, name.as_str(), renamed) {
        let mut detail = "标签已存在：".to_owned();
        detail.append(name.as_str());
        return Err(LibraryError::TagAlreadyExists(detail));
    }
    Ok(name)
}

// ---- Metadata of a document ----

/// What is written of the metadata of a document.
#[derive(Debug)]
pub struct PreparedMetadata {
    pub title: String,
    pub description: Option<String>,
    pub document_date: Option<String>,
    pub collection_id: String,
    pub tag_ids: Vec<String>,
}

/// [`PreparedMetadata`] by characters.
#[verifier::ext_equal]
pub struct Prepared {
    pub title: Seq<char>,
    pub description: Option<Seq<char>>,
    pub document_date: Option<Seq<char>>,
    pub collection_id: Seq<char>,
    pub tag_ids: Seq<Seq<char>>,
}

impl View for PreparedMetadata {
    type V = Prepared;

    open spec fn view(&self) -> Prepared {
        Prepared {
            title: self.title@,
            description: optional(self.description),
            document_date: optional(self.document_date),
            collection_id: self.collection_id@,
            tag_ids: views(self.tag_ids@),
        }
    }
}

/// The error on a document that is not there.
pub open spec fn no_document(id: Seq<char>) -> Failure {
    failure(ErrorKind::DocumentNotFound, "文档不存在或已删除："@ + id)
}

/// What is written of the metadata of a document, or why it is refused. `day` tells whether the date
/// names a day.
pub open spec fn prepared(
    update: DocumentMetadataUpdate,
    day: bool,
    document_id: Seq<char>,
    document_exists: bool,
    collections: Seq<Collection>,
    tags: Seq<Seq<char>>,
) -> Result<Prepared, Failure> {
    let date = text_given(optional(update.document_date));
    let tag_ids = with_new(Seq::empty(), views(update.tag_ids@));
    match document_title(update.title@) {
        Err(error) => Err(error),
        Ok(title) => if date is Some && !day {
            Err(date_check(false)->Err_0)
        } else if !document_exists {
            Err(no_document(document_id))
        } else if collection_at(collections, update.collection_id@) is None {
            Err(failure(ErrorKind::CollectionNotFound, "集合不存在："@ + update.collection_id@))
        } else {
            match known_tags(tag_ids, 0, tags) {
                Err(error) => Err(error),
                Ok(()) => Ok(
                    Prepared {
                        title,
                        description: text_given(optional(update.description)),
                        document_date: date,
                        collection_id: update.collection_id@,
                        tag_ids,
                    },
                ),
            }
        },
    }
}

/// The date of an update names a day, where there is one.
pub open spec fn day_given(update: DocumentMetadataUpdate) -> bool {
    match text_given(optional(update.document_date)) {
        Some(date) => names_day(date),
        None => false,
    }
}

/// What is written of the metadata of a document, given whether its date names a day.
pub fn prepare_metadata(
    update: &DocumentMetadataUpdate,
    day: bool,
    document_id: &str,
    document_exists: bool,
    collections: &Vec<CollectionSummary>,
    tags: &Vec<String>,
) -> (result: LibraryResult<PreparedMetadata>)
    ensures
        outcome(result) == prepared(
            *update,
            day,
            document_id@,
            document_exists,
            collection_views(collections@),
            views(tags@),
        ),
{
    let title = match validate_document_title(update.title.as_str()) {
        Err(error) => {
            return Err(error);
        },
        Ok(title) => title,
    };
    let description = normalize_optional_text(&update.description);
    let document_date = normalize_optional_text(&update.document_date);
    if document_date.is_some() {
        if let Err(error) = accept_document_date(day) {
            return Err(error);
        }
    }
    if let Err(error) = ensure_document_exists(document_id, document_exists) {
        return Err(error);
    }
    if let Err(error) = ensure_collection_exists(collections, update.collection_id.as_str()) {
        return Err(error);
    }
    let mut tag_ids: Vec<String> = Vec::new();
    assert(views(tag_ids@) =~= Seq::empty());
    add_new(&mut tag_ids, &update.tag_ids);
    if let Err(error) = ensure_tags_exist(&tag_ids, tags) {
        return Err(error);
    }
    Ok(
        PreparedMetadata {
            title,
            description,
            document_date,
            collection_id: update.collection_id.clone(),
            tag_ids,
        },
    )
}

/// What is written of the metadata of a document.
pub fn update_document_metadata(
    update: &DocumentMetadataUpdate,
    document_id: &str,
    document_exists: bool,
    collections: &Vec<CollectionSummary>,
    tags: &Vec<String>,
) -> (result: LibraryResult<PreparedMetadata>)
    ensures
        outcome(result) == prepared(
            *update,
            day_given(*update),
            document_id@,
            document_exists,
            collection_views(collections@),
            views(tags@),
        ),
{
    let day = match normalize_optional_text(&update.document_date) {
        Some(date) => parses_as_day(date.as_str()),
        None => false,
    };
    prepare_metadata(update, day, document_id, document_exists, collections, tags)
}

/// Checks that a document is there.
pub fn ensure_document_exists(document_id: &str, exists: bool) -> (result: LibraryResult<()>)
    ensures
        outcome(result) == (if exists {
            Ok(())
        } else {
            Err(no_document(document_id@))
        }),
{
    if exists {
        return Ok(());
    }
    let mut detail = "文档不存在或已删除：".to_owned();
    detail.append(document_id);
    Err(LibraryError::DocumentNotFound(detail))
}

// ---- Laws ----

/// No two collections have the same id.
pub open spec fn ids_differ(list: Seq<Collection>) -> bool {
    forall|i: int, j: int| 0 <= i < j < list.len() ==> (#[trigger] list[i]).id != (#[trigger] list[j]).id
}

/// Each collection lies at the top or in one that is there.
pub open spec fn parents_known(list: Seq<Collection>) -> bool {
    forall|i: int|
        0 <= i < list.len() && (#[trigger] list[i]).parent_id is Some ==> collection_at(
            list,
            list[i].parent_id->Some_0,
        ) is Some
}

/// Every way up comes to an end.
pub open spec fn ways_end(list: Seq<Collection>) -> bool {
    forall|id: Seq<char>| #[trigger] way_ends(list, id)
}

/// The way up from a collection comes to an end.
pub open spec fn way_ends(list: Seq<Collection>, id: Seq<char>) -> bool {
    exists|steps: nat| #[trigger] climb(list, id, steps) is None
}

/// The collections make trees: each is known by its id, and none lies below itself.
pub open spec fn sound(list: Seq<Collection>) -> bool {
    ids_differ(list) && parents_known(list) && ways_end(list)
}

/// The list with a collection changed.
pub open spec fn changed(list: Seq<Collection>, collection: Collection) -> Seq<Collection> {
    match collection_at(list, collection.id) {
        Some(at) => list.update(at, collection),
        None => list,
    }
}

/// The list without a collection; those in it lie one level up.
pub open spec fn without(list: Seq<Collection>, id: Seq<char>) -> Seq<Collection> {
    match collection_at(list, id) {
        Some(at) => lifted(list, id, list[at].parent_id).remove(at),
        None => list,
    }
}

/// The list with the collections in one put into another.
pub open spec fn lifted(list: Seq<Collection>, id: Seq<char>, parent_id: Option<Seq<char>>) -> Seq<
    Collection,
> {
    list.map_values(
        |collection: Collection|
            if collection.parent_id == Some(id) {
                Collection { parent_id, ..collection }
            } else {
                collection
            },
    )
}

/// What is found by an id has it, and is the first that has it.
proof fn lemma_collection_from(list: Seq<Collection>, id: Seq<char>, from: int)
    requires
        0 <= from <= list.len(),
    ensures
        match collection_from(list, id, from) {
            Some(at) => from <= at < list.len() && list[at].id == id && forall|i: int|
                from <= i < at ==> (#[trigger] list[i]).id != id,
            None => forall|i: int| from <= i < list.len() ==> (#[trigger] list[i]).id != id,
        },
    decreases list.len() - from,
{
    if from < list.len() && list[from].id != id {
        lemma_collection_from(list, id, from + 1);
    }
}

/// Where ids differ, a collection is found at its place.
proof fn lemma_found_at(list: Seq<Collection>, id: Seq<char>, at: int)
    requires
        ids_differ(list),
        0 <= at < list.len(),
        list[at].id == id,
    ensures
        collection_at(list, id) == Some(at),
{
    lemma_collection_from(list, id, 0);
    match collection_at(list, id) {
        Some(found) => {
            if found < at {
                assert(list[found].id != list[at].id);
            } else if at < found {
                assert(list[at].id != id);
            }
        },
        None => {
            assert(list[at].id != id);
        },
    }
}

/// Steps up can be taken one after the other.
proof fn lemma_climb_on(list: Seq<Collection>, id: Seq<char>, first: nat, more: nat)
    requires
        climb(list, id, first) is Some,
    ensures
        climb(list, id, first + more) == climb(list, climb(list, id, first)->Some_0, more),
    decreases more,
{
    if more > 0 {
        lemma_climb_on(list, id, first, (more - 1) as nat);
    }
}

/// As long as a changed collection is not met, the way up is the same.
proof fn lemma_same_way(
    list: Seq<Collection>,
    other: Seq<Collection>,
    id: Seq<char>,
    avoided: Seq<char>,
    steps: nat,
)
    requires
        forall|x: Seq<char>| x != avoided ==> #[trigger] parent_of(other, x) == parent_of(list, x),
        forall|m: nat| m < steps ==> #[trigger] climb(list, id, m) != Some(avoided),
    ensures
        climb(other, id, steps) == climb(list, id, steps),
    decreases steps,
{
    if steps > 0 {
        lemma_same_way(list, other, id, avoided, (steps - 1) as nat);
        assert(climb(list, id, (steps - 1) as nat) != Some(avoided));
    }
}

/// The first step at which a collection is met, if it is met by then.
proof fn lemma_first_meeting(list: Seq<Collection>, id: Seq<char>, met: Seq<char>, by: nat) -> (step:
    Option<nat>)
    ensures
        match step {
            Some(first) => first < by && climb(list, id, first) == Some(met) && forall|m: nat|
                m < first ==> #[trigger] climb(list, id, m) != Some(met),
            None => forall|m: nat| m < by ==> #[trigger] climb(list, id, m) != Some(met),
        },
    decreases by,
{
    if by == 0 {
        None
    } else {
        match lemma_first_meeting(list, id, met, (by - 1) as nat) {
            Some(first) => Some(first),
            None => {
                if climb(list, id, (by - 1) as nat) == Some(met) {
                    Some((by - 1) as nat)
                } else {
                    assert forall|m: nat| m < by implies #[trigger] climb(list, id, m) != Some(met) by {
                        if m < by - 1 {
                            assert(climb(list, id, m) != Some(met));
                        }
                    }
                    None
                }
            },
        }
    }
}

/// A way up that comes to an end never passes a collection twice.
proof fn lemma_no_circle(list: Seq<Collection>, id: Seq<char>, round: nat, steps: nat)
    requires
        round > 0,
        climb(list, id, round) == Some(id),
    ensures
        climb(list, id, steps) is Some,
    decreases steps,
{
    if steps < round {
        if climb(list, id, steps) is None {
            lemma_climb_stays_out(list, id, steps, round);
        }
    } else {
        lemma_no_circle(list, id, round, (steps - round) as nat);
        lemma_climb_on(list, id, round, (steps - round) as nat);
    }
}

/// The collections on the way up.
spec fn way(list: Seq<Collection>, id: Seq<char>, steps: nat) -> Seq<Seq<char>> {
    Seq::new(steps + 1, |i: int| climb(list, id, i as nat)->Some_0)
}

/// A way up from a collection that is there is shorter than the list.
proof fn lemma_ways_are_short(list: Seq<Collection>, id: Seq<char>, steps: nat)
    requires
        sound(list),
        collection_at(list, id) is Some,
        climb(list, id, steps) is Some,
    ensures
        steps < list.len(),
{
    broadcast use vstd::set_lib::group_set_properties;

    let path = way(list, id, steps);
    let ids = list.map_values(|collection: Collection| collection.id);
    assert forall|i: nat| i <= steps implies (#[trigger] climb(list, id, i)) is Some by {
        if climb(list, id, i) is None {
            lemma_climb_stays_out(list, id, i, steps);
        }
    }
    assert forall|i: int| 0 <= i < path.len() implies ids.contains(#[trigger] path[i]) by {
        lemma_way_is_known(list, id, i as nat);
        let at = collection_at(list, path[i])->Some_0;
        lemma_collection_from(list, path[i], 0);
        assert(ids[at] == path[i]);
    }
    assert forall|i: int, j: int| 0 <= i < j < path.len() implies path[i] != path[j] by {
        if path[i] == path[j] {
            let round = (j - i) as nat;
            lemma_climb_on(list, id, i as nat, round);
            assert(climb(list, path[i], round) == Some(path[i]));
            assert(way_ends(list, path[i]));
            let end = choose|n: nat| #[trigger] climb(list, path[i], n) is None;
            lemma_no_circle(list, path[i], round, end);
        }
    }
    assert(path.no_duplicates());
    path.unique_seq_to_set();
    assert(path.to_set().subset_of(ids.to_set()));
    vstd::seq_lib::seq_to_set_is_finite(ids);
    vstd::set_lib::lemma_len_subset(path.to_set(), ids.to_set());
    ids.lemma_cardinality_of_set();
}

/// All collections on the way up from one that is there are there.
proof fn lemma_way_is_known(list: Seq<Collection>, id: Seq<char>, steps: nat)
    requires
        parents_known(list),
        collection_at(list, id) is Some,
        climb(list, id, steps) is Some,
    ensures
        collection_at(list, climb(list, id, steps)->Some_0) is Some,
    decreases steps,
{
    if steps > 0 {
        lemma_way_is_known(list, id, (steps - 1) as nat);
        let below = climb(list, id, (steps - 1) as nat)->Some_0;
        lemma_collection_from(list, below, 0);
        let at = collection_at(list, below)->Some_0;
        assert(list[at].parent_id is Some);
    }
}

/// A change that keeps the ids keeps what is found by them.
proof fn lemma_same_ids(list: Seq<Collection>, other: Seq<Collection>, id: Seq<char>, from: int)
    requires
        list.len() == other.len(),
        forall|i: int| 0 <= i < list.len() ==> (#[trigger] list[i]).id == other[i].id,
        0 <= from <= list.len(),
    ensures
        collection_from(other, id, from) == collection_from(list, id, from),
    decreases list.len() - from,
{
    if from < list.len() {
        lemma_same_ids(list, other, id, from + 1);
    }
}

/// After every move that is accepted, the collections still make trees.
pub proof fn moves_keep_trees(list: Seq<Collection>, id: Seq<char>, parent_id: Option<Seq<char>>)
    requires
        sound(list),
        moved(list, id, parent_id) is Ok,
    ensures
        sound(changed(list, moved(list, id, parent_id)->Ok_0)),
{
    let collection = moved(list, id, parent_id)->Ok_0;
    lemma_collection_from(list, id, 0);
    let at = collection_at(list, id)->Some_0;
    assert(collection.id == id);
    let other = changed(list, collection);
    assert(other == list.update(at, collection));
    assert forall|x: Seq<char>| collection_at(other, x) == collection_at(list, x) by {
        lemma_same_ids(list, other, x, 0);
    }
    assert forall|i: int| 0 <= i < other.len() && (#[trigger] other[i]).parent_id is Some implies collection_at(
        other,
        other[i].parent_id->Some_0,
    ) is Some by {
        if i != at {
            assert(other[i] == list[i]);
        }
    }
    assert forall|x: Seq<char>| x != id implies #[trigger] parent_of(other, x) == parent_of(list, x) by {
        lemma_collection_from(list, x, 0);
        match collection_at(list, x) {
            Some(found) => {
                assert(found != at);
            },
            None => {},
        }
    }
    assert(parent_of(other, id) == parent_id);
    assert forall|x: Seq<char>| #[trigger] way_ends(other, x) by {
        assert(way_ends(list, x));
        let end = choose|n: nat| #[trigger] climb(list, x, n) is None;
        match lemma_first_meeting(list, x, id, end) {
            None => {
                lemma_same_way(list, other, x, id, end);
            },
            Some(first) => {
                lemma_same_way(list, other, x, id, first);
                match parent_id {
                    None => {
                        assert(climb(other, x, first + 1) is None);
                    },
                    Some(parent) => {
                        assert(way_ends(list, parent));
                        let top = choose|n: nat| #[trigger] climb(list, parent, n) is None;
                        assert forall|m: nat| m < top implies #[trigger] climb(list, parent, m) != Some(
                            id,
                        ) by {
                            if climb(list, parent, m) == Some(id) {
                                lemma_ways_are_short(list, parent, m);
                                assert(lies_below(list, parent, id, list.len()));
                            }
                        }
                        lemma_same_way(list, other, parent, id, top);
                        assert(climb(other, x, first + 1) == Some(parent));
                        lemma_climb_on(other, x, first + 1, top);
                        assert(climb(other, x, first + 1 + top) is None);
                    },
                }
            },
        }
    }
    assert(ids_differ(other));
}

/// With a new collection the collections still make trees.
pub proof fn creations_keep_trees(
    list: Seq<Collection>,
    name: Seq<char>,
    parent_id: Option<Seq<char>>,
    new_id: Seq<char>,
)
    requires
        sound(list),
        created(list, name, parent_id, new_id) is Ok,
        collection_at(list, new_id) is None,
    ensures
        sound(list.push(created(list, name, parent_id, new_id)->Ok_0)),
{
    let collection = created(list, name, parent_id, new_id)->Ok_0;
    let other = list.push(collection);
    lemma_collection_from(list, new_id, 0);
    assert forall|i: int, j: int| 0 <= i < j < other.len() implies (#[trigger] other[i]).id != (
    #[trigger] other[j]).id by {
        if j == list.len() {
            assert(list[i].id != new_id);
        }
    }
    assert(ids_differ(other));
    assert forall|x: Seq<char>| x != new_id implies collection_at(other, x) == collection_at(list, x) by {
        lemma_pushed(list, collection, x, 0);
    }
    lemma_found_at(other, new_id, list.len() as int);
    assert forall|i: int| 0 <= i < other.len() && (#[trigger] other[i]).parent_id is Some implies collection_at(
        other,
        other[i].parent_id->Some_0,
    ) is Some by {
        let parent = other[i].parent_id->Some_0;
        if i < list.len() {
            assert(other[i] == list[i]);
        }
        assert(collection_at(list, parent) is Some);
    }
    assert forall|x: Seq<char>| x != new_id implies #[trigger] parent_of(other, x) == parent_of(
        list,
        x,
    ) by {
        lemma_collection_from(list, x, 0);
    }
    assert forall|x: Seq<char>| x != new_id implies #[trigger] way_ends(other, x) by {
        assert(way_ends(list, x));
        let end = choose|n: nat| #[trigger] climb(list, x, n) is None;
        assert forall|m: nat| m < end implies #[trigger] climb(list, x, m) != Some(new_id) by {
            if climb(list, x, m) == Some(new_id) {
                if collection_at(list, x) is Some {
                    lemma_way_is_known(list, x, m);
                } else if m > 0 {
                    assert(climb(list, x, 0) == Some(x));
                    assert(climb(list, x, 1) is None);
                    lemma_climb_stays_out(list, x, 1, m);
                }
            }
        }
        lemma_same_way(list, other, x, new_id, end);
    }
    assert(way_ends(other, new_id)) by {
        assert(climb(other, new_id, 0) == Some(new_id));
        match parent_id {
            None => {
                assert(climb(other, new_id, 1) is None);
            },
            Some(parent) => {
                assert(parent != new_id);
                assert(way_ends(other, parent));
                let end = choose|n: nat| #[trigger] climb(other, parent, n) is None;
                assert(climb(other, new_id, 1) == Some(parent));
                lemma_climb_on(other, new_id, 1, end);
                assert(climb(other, new_id, 1 + end) is None);
            },
        }
    }
}

/// One more collection changes nothing for the ids of others.
proof fn lemma_pushed(list: Seq<Collection>, collection: Collection, id: Seq<char>, from: int)
    requires
        0 <= from <= list.len(),
        collection.id != id,
    ensures
        collection_from(list.push(collection), id, from) == collection_from(list, id, from),
    decreases list.len() - from,
{
    let other = list.push(collection);
    if from < list.len() {
        assert(other[from] == list[from]);
        lemma_pushed(list, collection, id, from + 1);
    } else {
        assert(other[from] == collection);
        assert(collection_from(other, id, from + 1) is None);
    }
}

/// After a collection was deleted, the collections still make trees, and none of them is it.
pub proof fn deletions_keep_trees(list: Seq<Collection>, id: Seq<char>)
    requires
        sound(list),
        changeable(list, id, "收件箱不能删除。"@) is Ok,
    ensures
        sound(without(list, id)),
        collection_at(without(list, id), id) is None,
        without(list, id).len() == list.len() - 1,
{
    lemma_collection_from(list, id, 0);
    let at = collection_at(list, id)->Some_0;
    let above = list[at].parent_id;
    let raised = lifted(list, id, above);
    let other = without(list, id);
    assert(other == raised.remove(at));
    assert forall|i: int| 0 <= i < other.len() implies (#[trigger] other[i]) == raised[if i < at {
        i
    } else {
        i + 1
    }] by {}
    assert forall|i: int, j: int| 0 <= i < j < other.len() implies (#[trigger] other[i]).id != (
    #[trigger] other[j]).id by {
        let left = if i < at {
            i
        } else {
            i + 1
        };
        let right = if j < at {
            j
        } else {
            j + 1
        };
        assert(list[left].id != list[right].id);
    }
    assert(ids_differ(other));
    assert(collection_at(other, id) is None) by {
        lemma_collection_from(other, id, 0);
        if let Some(found) = collection_at(other, id) {
            let place = if found < at {
                found
            } else {
                found + 1
            };
            assert(list[place].id == id);
            if place < at {
                assert(list[place].id != list[at].id);
            } else {
                assert(list[at].id != list[place].id);
            }
        }
    }
    assert forall|x: Seq<char>| x != id && collection_at(list, x) is Some implies #[trigger] parent_of(
        other,
        x,
    ) == (if parent_of(list, x) == Some(id) {
        above
    } else {
        parent_of(list, x)
    }) && collection_at(other, x) is Some by {
        lemma_collection_from(list, x, 0);
        let place = collection_at(list, x)->Some_0;
        let now = if place < at {
            place
        } else {
            place - 1
        };
        assert(place != at);
        assert(other[now] == raised[place]);
        lemma_found_at(other, x, now);
    }
    assert forall|x: Seq<char>| collection_at(list, x) is None implies #[trigger] parent_of(other, x) is None by {
        lemma_collection_from(list, x, 0);
        lemma_collection_from(other, x, 0);
        if let Some(found) = collection_at(other, x) {
            let place = if found < at {
                found
            } else {
                found + 1
            };
            assert(list[place].id == x);
        }
    }
    assert(above != Some(id)) by {
        if above == Some(id) {
            assert(climb(list, id, 0) == Some(id));
            assert(climb(list, id, 1) == Some(id));
            assert(way_ends(list, id));
            let end = choose|n: nat| #[trigger] climb(list, id, n) is None;
            lemma_no_circle(list, id, 1, end);
        }
    }
    assert forall|i: int| 0 <= i < other.len() && (#[trigger] other[i]).parent_id is Some implies collection_at(
        other,
        other[i].parent_id->Some_0,
    ) is Some by {
        let place = if i < at {
            i
        } else {
            i + 1
        };
        let parent = other[i].parent_id->Some_0;
        assert(parent != id);
        if list[place].parent_id == Some(id) {
            assert(list[at].parent_id == Some(parent));
        } else {
            assert(list[place].parent_id == Some(parent));
        }
        assert(collection_at(list, parent) is Some);
        assert(parent_of(other, parent) == parent_of(other, parent));
    }
    assert forall|x: Seq<char>| #[trigger] way_ends(other, x) by {
        assert(way_ends(list, x));
        let end = choose|n: nat| #[trigger] climb(list, x, n) is None;
        lemma_shorter_way(list, other, id, above, x, end);
    }
}

/// A way up that leaves one collection out still comes to an end.
proof fn lemma_shorter_way(
    list: Seq<Collection>,
    other: Seq<Collection>,
    id: Seq<char>,
    above: Option<Seq<char>>,
    x: Seq<char>,
    end: nat,
)
    requires
        climb(list, x, end) is None,
        parent_of(list, id) == above,
        collection_at(other, id) is None,
        forall|y: Seq<char>|
            y != id && collection_at(list, y) is Some ==> #[trigger] parent_of(other, y) == (if parent_of(
                list,
                y,
            ) == Some(id) {
                above
            } else {
                parent_of(list, y)
            }),
        forall|y: Seq<char>| collection_at(list, y) is None ==> #[trigger] parent_of(other, y) is None,
    ensures
        way_ends(other, x),
    decreases end,
{
    assert(climb(list, x, 0) == Some(x));
    assert(climb(other, x, 0) == Some(x));
    assert(climb(other, x, 1) == parent_of(other, x));
    assert(climb(list, x, 1) == parent_of(list, x));
    if x == id || collection_at(list, x) is None {
        assert(climb(other, x, 1) is None);
    } else {
        match parent_of(other, x) {
            None => {},
            Some(next) => {
                let direct = parent_of(list, x)->Some_0;
                assert(parent_of(list, x) is Some);
                lemma_climb_on(list, x, 1, (end - 1) as nat);
                if parent_of(list, x) == Some(id) {
                    assert(climb(list, id, 0) == Some(id));
                    assert(climb(list, id, 1) == Some(next));
                    lemma_climb_on(list, id, 1, (end - 2) as nat);
                    lemma_shorter_way(list, other, id, above, next, (end - 2) as nat);
                } else {
                    assert(next == direct);
                    lemma_shorter_way(list, other, id, above, next, (end - 1) as nat);
                }
                let top = choose|n: nat| #[trigger] climb(other, next, n) is None;
                lemma_climb_on(other, x, 1, top);
                assert(climb(other, x, 1 + top) is None);
            },
        }
    }
}

/// The inbox keeps its name and its place, and is never deleted.
pub proof fn the_inbox_stays(
    list: Seq<Collection>,
    id: Seq<char>,
    name: Seq<char>,
    parent_id: Option<Seq<char>>,
)
    requires
        known_collection(list, id) matches Ok(collection) && collection.is_inbox,
    ensures
        renamed(list, id, name) matches Err(error) && error.kind == ErrorKind::ProtectedCollection,
        moved(list, id, parent_id) matches Err(error) && error.kind == ErrorKind::ProtectedCollection,
        changeable(list, id, "收件箱不能删除。"@) matches Err(error) && error.kind
            == ErrorKind::ProtectedCollection,
{
}

/// No two tags have the same name.
pub open spec fn tag_names_differ(tags: Seq<Tag>) -> bool {
    forall|i: int, j: int|
        0 <= i < j < tags.len() ==> !same_place((#[trigger] tags[i]).name, (#[trigger] tags[j]).name)
}

/// A new tag never takes the name of another one.
pub proof fn new_tags_have_names_of_their_own(tags: Seq<Tag>, name: Seq<char>, tag: Tag)
    requires
        tag_names_differ(tags),
        free_tag_name(tags, name, None) == Ok::<Seq<char>, Failure>(tag.name),
    ensures
        tag_names_differ(tags.push(tag)),
{
    let more = tags.push(tag);
    assert forall|i: int, j: int| 0 <= i < j < more.len() implies !same_place(
        (#[trigger] more[i]).name,
        (#[trigger] more[j]).name,
    ) by {
        if j == tags.len() {
            assert(Some(tags[i].id) != None::<Seq<char>>);
            assert(!same_place(tags[i].name, tag.name));
        }
    }
}

/// A document is never given a tag twice.
pub proof fn metadata_gives_each_tag_once(
    update: DocumentMetadataUpdate,
    day: bool,
    document_id: Seq<char>,
    document_exists: bool,
    collections: Seq<Collection>,
    tags: Seq<Seq<char>>,
)
    requires
        prepared(update, day, document_id, document_exists, collections, tags) is Ok,
    ensures
        prepared(
            update,
            day,
            document_id,
            document_exists,
            collections,
            tags,
        )->Ok_0.tag_ids.no_duplicates(),
{
    crate::text::lemma_with_new_keeps_distinct(Seq::empty(), views(update.tag_ids@));
}

/// There is a collection with this id.
pub open spec fn is_there(list: Seq<Collection>, id: Seq<char>) -> bool {
    exists|i: int| 0 <= i < list.len() && (#[trigger] list[i]).id == id
}

proof fn lemma_first_with_id(list: Seq<Collection>, id: Seq<char>, from: int)
    requires
        0 <= from,
    ensures
        collection_from(list, id, from) is Some <==> exists|i: int|
            from <= i < list.len() && (#[trigger] list[i]).id == id,
        collection_from(list, id, from) matches Some(at) ==> from <= at < list.len() && list[at].id == id
            && forall|i: int| from <= i < at ==> (#[trigger] list[i]).id != id,
    decreases list.len() - from,
{
    if from < list.len() {
        lemma_first_with_id(list, id, from + 1);
        if list[from].id != id && collection_from(list, id, from + 1) is None {
            assert forall|i: int| from <= i < list.len() implies (#[trigger] list[i]).id != id by {
                if i > from {
                    assert(!(from + 1 <= i < list.len() && list[i].id == id));
                }
            }
        }
    }
}

/// A collection is found by its id, and none by an id that no collection has.
pub proof fn collections_are_found_by_id(list: Seq<Collection>, id: Seq<char>)
    ensures
        known_collection(list, id) is Ok <==> is_there(list, id),
        known_collection(list, id) matches Ok(found) ==> found.id == id && list.contains(found),
        known_collection(list, id) matches Err(error) ==> error.kind == ErrorKind::CollectionNotFound,
{
    lemma_first_with_id(list, id, 0);
}

/// A new collection has the name that was entered, without the white space around it, lies where it
/// was put and is empty. It is refused only without a name, and in a collection that is not there.
pub proof fn collections_are_made_as_asked(
    list: Seq<Collection>,
    name: Seq<char>,
    parent_id: Option<Seq<char>>,
    new_id: Seq<char>,
)
    ensures
        created(list, name, parent_id, new_id) is Ok <==> trim(name).len() > 0 && (parent_id is Some
            ==> is_there(list, parent_id->Some_0)),
        created(list, name, parent_id, new_id) matches Ok(made) ==> made.id == new_id && made.name
            == trim(name) && made.parent_id == parent_id && !made.is_inbox && made.document_count == 0,
        trim(name).len() == 0 ==> (created(list, name, parent_id, new_id) matches Err(error)
            && error.kind == ErrorKind::InvalidCollection),
{
    if parent_id is Some {
        lemma_first_with_id(list, parent_id->Some_0, 0);
    }
}

/// A new name is given to a collection that is there and is not the inbox, unless it is blank, and
/// nothing else of the collection changes.
pub proof fn names_change_alone(list: Seq<Collection>, id: Seq<char>, name: Seq<char>)
    ensures
        ({
            let found = known_collection(list, id);
            &&& renamed(list, id, name) is Ok <==> is_there(list, id) && !found->Ok_0.is_inbox && trim(
                name,
            ).len() > 0
            &&& renamed(list, id, name) matches Ok(made) ==> made.name == trim(name) && made.id == id
                && made.parent_id == found->Ok_0.parent_id && made.is_inbox == found->Ok_0.is_inbox
                && made.document_count == found->Ok_0.document_count
        }),
{
    collections_are_found_by_id(list, id);
}

/// A collection that is not the inbox can be moved to the top and into every collection that is not
/// below it; nothing else of it changes.
pub proof fn collections_move_where_they_may(
    list: Seq<Collection>,
    id: Seq<char>,
    parent_id: Option<Seq<char>>,
)
    requires
        is_there(list, id),
        !known_collection(list, id)->Ok_0.is_inbox,
    ensures
        moved(list, id, parent_id) is Ok <==> (parent_id matches Some(parent) ==> is_there(list, parent)
            && forall|steps: nat|
            steps <= list.len() ==> #[trigger] climb(list, parent, steps) != Some(id)),
        moved(list, id, parent_id) matches Ok(made) ==> made.parent_id == parent_id && made.id == id
            && made.name == known_collection(list, id)->Ok_0.name && made.document_count
            == known_collection(list, id)->Ok_0.document_count,
        parent_id == Some(id) ==> (moved(list, id, parent_id) matches Err(error) && error.kind
            == ErrorKind::CollectionCycle),
{
    collections_are_found_by_id(list, id);
    if parent_id is Some {
        lemma_first_with_id(list, parent_id->Some_0, 0);
        if parent_id == Some(id) {
            assert(climb(list, id, 0) == Some(id));
        }
    }
}

/// A tag takes a name of one to fifty characters that no other tag has in any case of its letters; a
/// tag that is renamed may keep its own.
pub proof fn tags_take_free_names(tags: Seq<Tag>, name: Seq<char>, except: Option<Seq<char>>)
    ensures
        free_tag_name(tags, name, except) is Ok <==> 1 <= trim(name).len() <= 50 && (except matches Some(
            id,
        ) ==> exists|i: int| 0 <= i < tags.len() && (#[trigger] tags[i]).id == id) && forall|i: int|
            0 <= i < tags.len() && Some((#[trigger] tags[i]).id) != except ==> ascii_lowercase(tags[i].name)
                != ascii_lowercase(trim(name)),
        free_tag_name(tags, name, except) matches Ok(taken) ==> taken == trim(name),
{
    if name_taken(tags, trim(name), except) {
        let i = choose|i: int|
            0 <= i < tags.len() && same_place((#[trigger] tags[i]).name, trim(name)) && Some(tags[i].id)
                != except;
        assert(ascii_lowercase(tags[i].name) == ascii_lowercase(trim(name)));
    } else {
        assert forall|i: int| 0 <= i < tags.len() && Some((#[trigger] tags[i]).id) != except implies ascii_lowercase(
            tags[i].name,
        ) != ascii_lowercase(trim(name)) by {
            assert(!same_place(tags[i].name, trim(name)));
        }
    }
}

/// The metadata of a document is taken where its title has one to five hundred characters, its date,
/// if there is one, names a day, and the document, the collection and all tags are there. It is kept
/// as entered, without white space around the texts; a blank text is none, and each tag counts once.
pub proof fn metadata_is_kept_as_entered(
    update: DocumentMetadataUpdate,
    day: bool,
    document_id: Seq<char>,
    document_exists: bool,
    collections: Seq<Collection>,
    tags: Seq<Seq<char>>,
)
    ensures
        ({
            let result = prepared(update, day, document_id, document_exists, collections, tags);
            let wanted = views(update.tag_ids@);
            &&& result is Ok <==> {
                &&& 1 <= trim(update.title@).len() <= 500
                &&& (update.document_date is Some && trim(update.document_date->Some_0@).len() > 0 ==> day)
                &&& document_exists
                &&& is_there(collections, update.collection_id@)
                &&& forall|i: int| 0 <= i < wanted.len() ==> tags.contains(#[trigger] wanted[i])
            }
            &&& result matches Ok(kept) ==> {
                &&& kept.title == trim(update.title@)
                &&& kept.collection_id == update.collection_id@
                &&& kept.description == if update.description is Some && trim(
                    update.description->Some_0@,
                ).len() > 0 {
                    Some(trim(update.description->Some_0@))
                } else {
                    None
                }
                &&& kept.document_date == if update.document_date is Some && trim(
                    update.document_date->Some_0@,
                ).len() > 0 {
                    Some(trim(update.document_date->Some_0@))
                } else {
                    None
                }
                &&& kept.tag_ids.no_duplicates()
                &&& forall|tag: Seq<char>| #[trigger] kept.tag_ids.contains(tag) <==> wanted.contains(tag)
            }
        }),
{
    let wanted = views(update.tag_ids@);
    let once = with_new(Seq::empty(), wanted);
    lemma_first_with_id(collections, update.collection_id@, 0);
    lemma_with_new_keeps_distinct(Seq::empty(), wanted);
    lemma_with_new_holds_all(Seq::empty(), wanted);
    lemma_tags_are_known(once, 0, tags);
    assert forall|tag: Seq<char>| #[trigger] once.contains(tag) <==> wanted.contains(tag) by {
        assert(!Seq::<Seq<char>>::empty().contains(tag));
    }
    if forall|i: int| 0 <= i < wanted.len() ==> tags.contains(#[trigger] wanted[i]) {
        assert forall|i: int| 0 <= i < once.len() implies tags.contains(#[trigger] once[i]) by {
            assert(once.contains(once[i]));
            let k = choose|k: int| 0 <= k < wanted.len() && wanted[k] == once[i];
            assert(tags.contains(wanted[k]));
        }
    }
    if forall|i: int| 0 <= i < once.len() ==> tags.contains(#[trigger] once[i]) {
        assert forall|i: int| 0 <= i < wanted.len() implies tags.contains(#[trigger] wanted[i]) by {
            assert(wanted.contains(wanted[i]));
            assert(once.contains(wanted[i]));
            let k = choose|k: int| 0 <= k < once.len() && once[k] == wanted[i];
            assert(tags.contains(once[k]));
        }
    }
}

proof fn lemma_tags_are_known(wanted: Seq<Seq<char>>, at: int, tags: Seq<Seq<char>>)
    requires
        0 <= at,
    ensures
        known_tags(wanted, at, tags) is Ok <==> forall|i: int|
            at <= i < wanted.len() ==> tags.contains(#[trigger] wanted[i]),
    decreases wanted.len() - at,
{
    if at < wanted.len() {
        lemma_tags_are_known(wanted, at + 1, tags);
        if !tags.contains(wanted[at]) {
            assert(!(forall|i: int| at <= i < wanted.len() ==> tags.contains(#[trigger] wanted[i])));
        }
    }
}

/// When a collection is deleted, those in it lie where it lay; every other collection stays as it is.
pub proof fn deletions_lift_what_lies_inside(list: Seq<Collection>, id: Seq<char>, at: int, other: int)
    requires
        ids_differ(list),
        0 <= at < list.len(),
        list[at].id == id,
        0 <= other < list.len(),
        other != at,
    ensures
        without(list, id).contains(
            if list[other].parent_id == Some(id) {
                Collection { parent_id: list[at].parent_id, ..list[other] }
            } else {
                list[other]
            },
        ),
{
    lemma_first_with_id(list, id, 0);
    let found = collection_at(list, id)->Some_0;
    if found < at {
        assert(list[found].id != list[at].id);
    } else if at < found {
        assert(list[at].id != list[found].id);
    }
    let up = lifted(list, id, list[at].parent_id);
    let less = up.remove(at);
    let place: int = if other < at {
        other
    } else {
        other - 1
    };
    assert(less[place] == up[other]);
}

} // verus!
