//! Rules that give new documents a collection and tags.

use vstd::prelude::*;
use crate::data::{preview_item_views, rule_views, PreviewItem, Rule, RuleInput};
use crate::error::{failure, outcome, ErrorKind, Failure, LibraryError, LibraryResult};
use crate::formats::{supported_file_type, supported_type};
use crate::models::{
    ClassificationPreviewItem, ClassificationPreviewRequest, ClassificationPreviewResponse,
    ClassificationRule, ClassificationRuleInput, ClassificationRuleOperation, ClassificationRuleUpdate,
};
use crate::paths::{display_file_name, display_name, replace_char, replaced};
use crate::text::{
    add_new, before, chars, contains, copy_option, find_chars, has_prefix, is_before,
    lemma_with_new_holds_all, lemma_with_new_keeps_distinct, list_contains, lowercase, optional, same,
    same_option, sort_texts,
    sorted, sorting_orders_and_keeps, starts_with, strictly_ordered, text_between, to_lowercase, trim,
    trimmed, views, with_new,
};

verus! {

// ---- Matching ----

/// The text without the slashes at its end.
pub open spec fn without_slashes(text: Seq<char>) -> Seq<char>
    decreases text.len(),
{
    if text.len() > 0 && text.last() == '/' {
        without_slashes(text.drop_last())
    } else {
        text
    }
}

/// A path in the form in which paths are compared: slashes, lower case.
pub open spec fn path_key(path: Seq<char>) -> Seq<char> {
    lowercase(replaced(path, '\\', '/'))
}

/// A key stands at or below the key of a directory, which may end in slashes.
pub open spec fn key_within(key: Seq<char>, full: Seq<char>) -> bool {
    let root = without_slashes(full);
    root.len() == 0 || key == root || starts_with(key, root.push('/'))
}

/// The path is the directory or stands below it.
pub open spec fn is_within(path: Seq<char>, directory: Seq<char>) -> bool {
    key_within(path_key(path), path_key(directory))
}

/// Whether the path is the directory or stands below it; case and separators do not count.
pub fn path_is_within(path: &str, directory: &str) -> (found: bool)
    ensures
        found == is_within(path@, directory@),
{
    let key = to_lowercase(replace_char(path, '\\', '/').as_str());
    let full = to_lowercase(replace_char(directory, '\\', '/').as_str());
    directory_holds(key.as_str(), full.as_str())
}

/// Whether a key stands at or below the key of a directory.
pub fn directory_holds(key: &str, full: &str) -> (found: bool)
    ensures
        found == key_within(key@, full@),
{
    let all = chars(full);
    let mut end: usize = all.len();
    assert(full@.take(end as int) =~= full@);
    while end > 0 && all[end - 1] == '/'
        invariant
            end <= all@.len(),
            all@ == full@,
            without_slashes(full@.take(end as int)) == without_slashes(full@),
        decreases end,
    {
        assert(full@.take(end as int).drop_last() =~= full@.take(end - 1));
        end = end - 1;
    }
    let mut root = text_between(all.as_slice(), 0, end);
    assert(root@ =~= full@.take(end as int));
    assert(root@ == without_slashes(full@));
    if end == 0 || same(key, root.as_str()) {
        return true;
    }
    root.push('/');
    has_prefix(chars(key).as_slice(), root.as_str())
}

/// A condition that is given: not missing and not blank.
pub open spec fn condition(value: Option<Seq<char>>) -> Option<Seq<char>> {
    match value {
        Some(text) => if trim(text).len() > 0 {
            Some(trim(text))
        } else {
            None
        },
        None => None,
    }
}

/// A condition that is given: not missing and not blank.
fn given(value: &Option<String>) -> (text: Option<String>)
    ensures
        optional(text) == condition(optional(*value)),
{
    match value {
        Some(text) => {
            let text = trimmed(text.as_str());
            if chars(text.as_str()).len() > 0 {
                Some(text)
            } else {
                None
            }
        },
        None => None,
    }
}

/// The rule matches a file: every condition that is given holds.
pub open spec fn matches_rule(
    rule: Rule,
    source_path: Seq<char>,
    file_name: Seq<char>,
    file_type: Option<Seq<char>>,
) -> bool {
    let pattern = trim(rule.file_name_pattern);
    &&& pattern.len() == 0 || contains(lowercase(file_name), lowercase(pattern))
    &&& condition(rule.file_type) is Some ==> file_type == condition(rule.file_type)
    &&& condition(rule.source_directory) matches Some(directory) ==> is_within(
        source_path,
        directory,
    )
}

/// Whether the rule matches a file.
pub fn rule_matches(
    rule: &ClassificationRule,
    source_path: &str,
    file_name: &str,
    file_type: &Option<String>,
) -> (found: bool)
    ensures
        found == matches_rule(rule@, source_path@, file_name@, optional(*file_type)),
{
    let pattern = trimmed(rule.file_name_pattern.as_str());
    if chars(pattern.as_str()).len() > 0 {
        let name = chars(to_lowercase(file_name).as_str());
        let part = chars(to_lowercase(pattern.as_str()).as_str());
        if find_chars(name.as_slice(), part.as_slice(), 0).is_none() {
            assert(!contains(name@, part@));
            return false;
        }
        assert(contains(name@, part@));
    }
    let expected = given(&rule.file_type);
    if expected.is_some() && !same_option(file_type, &expected) {
        return false;
    }
    if let Some(directory) = given(&rule.source_directory) {
        if !path_is_within(source_path, directory.as_str()) {
            return false;
        }
    }
    true
}

// ---- Plans ----

/// What the rules do with a file.
#[derive(Debug, Clone, PartialEq, Eq)]
pub struct ClassificationPlan {
    pub collection_id: String,
    pub tag_ids: Vec<String>,
    /// The rules that match, in their order.
    pub matched_rule_ids: Vec<String>,
}

/// [`ClassificationPlan`] by characters.
#[verifier::ext_equal]
pub struct Plan {
    pub collection_id: Seq<char>,
    pub tag_ids: Seq<Seq<char>>,
    pub matched_rule_ids: Seq<Seq<char>>,
}

impl View for ClassificationPlan {
    type V = Plan;

    open spec fn view(&self) -> Plan {
        Plan {
            collection_id: self.collection_id@,
            tag_ids: views(self.tag_ids@),
            matched_rule_ids: views(self.matched_rule_ids@),
        }
    }
}

/// The rule is switched on and matches the file.
pub open spec fn applies(rule: Rule, source_path: Seq<char>) -> bool {
    rule.enabled && matches_rule(
        rule,
        source_path,
        display_name(source_path),
        supported_type(source_path),
    )
}

/// The rules that apply to the file, in their order.
pub open spec fn matched(rules: Seq<Rule>, source_path: Seq<char>) -> Seq<Rule>
    decreases rules.len(),
{
    if rules.len() == 0 {
        Seq::empty()
    } else if applies(rules.last(), source_path) {
        matched(rules.drop_last(), source_path).push(rules.last())
    } else {
        matched(rules.drop_last(), source_path)
    }
}

/// The ids of the rules.
pub open spec fn ids(rules: Seq<Rule>) -> Seq<Seq<char>> {
    rules.map_values(|rule: Rule| rule.id)
}

/// The collection of the first rule that has one.
pub open spec fn first_collection(rules: Seq<Rule>) -> Option<Seq<char>>
    decreases rules.len(),
{
    if rules.len() == 0 {
        None
    } else if first_collection(rules.drop_last()) is Some {
        first_collection(rules.drop_last())
    } else {
        rules.last().collection_id
    }
}

/// The tags of all rules, in their order, each once.
pub open spec fn merged_tags(rules: Seq<Rule>) -> Seq<Seq<char>>
    decreases rules.len(),
{
    if rules.len() == 0 {
        Seq::empty()
    } else {
        with_new(merged_tags(rules.drop_last()), rules.last().tag_ids)
    }
}

/// What the rules do with a file. A collection that the user chose comes first, then the first rule
/// with a collection, then the inbox; the tags of all matching rules are given.
pub open spec fn planned(
    rules: Seq<Rule>,
    source_path: Seq<char>,
    explicit: Option<Seq<char>>,
    inbox: Seq<char>,
) -> Plan {
    let found = matched(rules, source_path);
    Plan {
        collection_id: match explicit {
            Some(collection) => collection,
            None => match first_collection(found) {
                Some(collection) => collection,
                None => inbox,
            },
        },
        tag_ids: merged_tags(found),
        matched_rule_ids: ids(found),
    }
}

/// What the rules do with a file. The preview and the import both ask here.
pub fn plan_classification(
    rules: &[ClassificationRule],
    source_path: &str,
    explicit_collection_id: &Option<String>,
    inbox_id: &str,
) -> (plan: ClassificationPlan)
    ensures
        plan@ == planned(
            rule_views(rules@),
            source_path@,
            optional(*explicit_collection_id),
            inbox_id@,
        ),
{
    let file_name = display_file_name(source_path);
    let file_type = supported_file_type(source_path);
    let ghost all = rule_views(rules@);
    let mut collection: Option<String> = None;
    let mut tag_ids: Vec<String> = Vec::new();
    let mut matched_rule_ids: Vec<String> = Vec::new();
    let mut i: usize = 0;
    assert(views(tag_ids@) =~= Seq::empty());
    assert(views(matched_rule_ids@) =~= ids(matched(all.take(0), source_path@)));
    while i < rules.len()
        invariant
            i <= rules@.len(),
            all == rule_views(rules@),
            file_name@ == display_name(source_path@),
            optional(file_type) == supported_type(source_path@),
            optional(collection) == first_collection(matched(all.take(i as int), source_path@)),
            views(tag_ids@) == merged_tags(matched(all.take(i as int), source_path@)),
            views(matched_rule_ids@) == ids(matched(all.take(i as int), source_path@)),
        decreases rules@.len() - i,
    {
        let rule = &rules[i];
        let ghost so_far = matched(all.take(i as int), source_path@);
        assert(all.take(i + 1).drop_last() =~= all.take(i as int));
        assert(all.take(i + 1).last() == rule@);
        if rule.enabled && rule_matches(rule, source_path, file_name.as_str(), &file_type) {
            let ghost more = so_far.push(rule@);
            assert(more.drop_last() =~= so_far);
            if collection.is_none() {
                collection = copy_option(&rule.collection_id);
            }
            add_new(&mut tag_ids, &rule.tag_ids);
            let ghost listed = views(matched_rule_ids@);
            matched_rule_ids.push(rule.id.clone());
            assert(views(matched_rule_ids@) =~= listed.push(rule@.id));
            assert(ids(more) =~= ids(so_far).push(rule@.id));
        }
        i = i + 1;
    }
    assert(all.take(i as int) =~= all);
    let collection_id = match copy_option(explicit_collection_id) {
        Some(chosen) => chosen,
        None => match collection {
            Some(found) => found,
            None => inbox_id.to_owned(),
        },
    };
    ClassificationPlan { collection_id, tag_ids, matched_rule_ids }
}

/// Whether a collection that was asked for counts: only one that is still there. Without one, and
/// where it is gone, documents go to the inbox, and the user is told of the latter.
pub open spec fn resolved_target(target: Option<Seq<char>>, exists: bool) -> (Seq<char>, Option<Seq<char>>) {
    match target {
        None => ("inbox"@, None),
        Some(id) => if exists {
            (id, None)
        } else {
            ("inbox"@, Some("目标集合已删除，文档已改为导入收件箱。"@))
        },
    }
}

/// The collection for new documents, and what the user is told of it.
pub fn resolve_target_collection(target_collection_id: &Option<String>, exists: bool) -> (resolved: (
    String,
    Option<String>,
))
    ensures
        (resolved.0@, optional(resolved.1)) == resolved_target(
            optional(*target_collection_id),
            exists,
        ),
{
    match target_collection_id {
        None => ("inbox".to_owned(), None),
        Some(id) => {
            if exists {
                (id.clone(), None)
            } else {
                (
                    "inbox".to_owned(),
                    Some("目标集合已删除，文档已改为导入收件箱。".to_owned()),
                )
            }
        },
    }
}

/// The collection that the user chose, where it counts.
pub open spec fn explicit_target(target: Option<Seq<char>>, exists: bool) -> Option<Seq<char>> {
    if exists {
        target
    } else {
        None
    }
}

/// What the rules would do with the file at the path: the plan that an import of it follows.
pub open spec fn previewed(
    rules: Seq<Rule>,
    source_path: Seq<char>,
    explicit: Option<Seq<char>>,
    inbox: Seq<char>,
) -> PreviewItem {
    let plan = planned(rules, source_path, explicit, inbox);
    PreviewItem {
        source_path,
        file_name: display_name(source_path),
        file_type: supported_type(source_path),
        collection_id: plan.collection_id,
        tag_ids: plan.tag_ids,
        matched_rule_ids: plan.matched_rule_ids,
    }
}

/// What the rules would do with one file.
pub fn preview_item(
    rules: &[ClassificationRule],
    source_path: &str,
    explicit: &Option<String>,
    inbox_id: &str,
) -> (item: ClassificationPreviewItem)
    ensures
        item@ == previewed(rule_views(rules@), source_path@, optional(*explicit), inbox_id@),
{
    let plan = plan_classification(rules, source_path, explicit, inbox_id);
    ClassificationPreviewItem {
        source_path: source_path.to_owned(),
        file_name: display_file_name(source_path),
        file_type: supported_file_type(source_path),
        collection_id: plan.collection_id,
        tag_ids: plan.tag_ids,
        matched_rule_ids: plan.matched_rule_ids,
    }
}

/// What the rules would do with each of the files, in order. A target collection that is gone
/// does not count.
pub fn preview_classification(
    rules: &[ClassificationRule],
    request: &ClassificationPreviewRequest,
    target_exists: bool,
    inbox_id: &str,
) -> (response: ClassificationPreviewResponse)
    ensures
        preview_item_views(response.items@) == views(request.paths@).map_values(
            |path: Seq<char>|
                previewed(
                    rule_views(rules@),
                    path,
                    explicit_target(optional(request.target_collection_id), target_exists),
                    inbox_id@,
                ),
        ),
{
    let explicit = if target_exists {
        copy_option(&request.target_collection_id)
    } else {
        None
    };
    let mut items: Vec<ClassificationPreviewItem> = Vec::new();
    let mut i: usize = 0;
    while i < request.paths.len()
        invariant
            i <= request.paths@.len(),
            items@.len() == i,
            forall|j: int|
                0 <= j < i ==> (#[trigger] items@[j])@ == previewed(
                    rule_views(rules@),
                    request.paths@[j]@,
                    optional(explicit),
                    inbox_id@,
                ),
        decreases request.paths@.len() - i,
    {
        let item = preview_item(rules, &request.paths[i], &explicit, inbox_id);
        items.push(item);
        i = i + 1;
    }
    ClassificationPreviewResponse { items }
}

// ---- Changes to the list ----

/// Why what the user entered for a rule is refused, if it is.
pub open spec fn input_check(
    input: RuleInput,
    collections: Seq<Seq<char>>,
    tags: Seq<Seq<char>>,
) -> Result<(), Failure> {
    if trim(input.name).len() == 0 {
        Err(failure(ErrorKind::InvalidCollection, "规则名称不能为空。"@))
    } else if trim(input.file_name_pattern).len() == 0 && input.file_type is None
        && input.source_directory is None && input.collection_id is None && input.tag_ids.len()
        == 0 {
        Err(
            failure(
                ErrorKind::InvalidCollection,
                "请至少填写一个匹配条件，或指定目标集合与标签。"@,
            ),
        )
    } else if input.collection_id matches Some(id) && !collections.contains(id) {
        Err(
            failure(
                ErrorKind::CollectionNotFound,
                "集合不存在："@ + input.collection_id->Some_0,
            ),
        )
    } else {
        known_tags(input.tag_ids, 0, tags)
    }
}

/// Whether the tags from `at` on are known, or which one is not.
pub open spec fn known_tags(wanted: Seq<Seq<char>>, at: int, tags: Seq<Seq<char>>) -> Result<(), Failure>
    decreases wanted.len() - at,
{
    if at < 0 || at >= wanted.len() {
        Ok(())
    } else if !tags.contains(wanted[at]) {
        Err(failure(ErrorKind::TagNotFound, "标签不存在："@ + wanted[at]))
    } else {
        known_tags(wanted, at + 1, tags)
    }
}

/// Checks that all tags are known.
pub fn ensure_tags_exist(wanted: &Vec<String>, tags: &Vec<String>) -> (result: LibraryResult<()>)
    ensures
        outcome(result) == known_tags(views(wanted@), 0, views(tags@)),
{
    let ghost all = views(wanted@);
    let mut i: usize = 0;
    while i < wanted.len()
        invariant
            i <= wanted@.len(),
            all == views(wanted@),
            known_tags(all, i as int, views(tags@)) == known_tags(all, 0, views(tags@)),
        decreases wanted@.len() - i,
    {
        assert(all[i as int] == wanted@[i as int]@);
        if !list_contains(tags, wanted[i].as_str()) {
            let mut detail = "标签不存在：".to_owned();
            detail.append(wanted[i].as_str());
            return Err(LibraryError::TagNotFound(detail));
        }
        i = i + 1;
    }
    Ok(())
}

/// Checks what the user entered for a rule.
fn validate_input(input: &ClassificationRuleInput, collections: &Vec<String>, tags: &Vec<String>)
    -> (result: LibraryResult<()>)
    ensures
        outcome(result) == input_check(input@, views(collections@), views(tags@)),
{
    if chars(trimmed(input.name.as_str()).as_str()).len() == 0 {
        return Err(LibraryError::InvalidCollection("规则名称不能为空。".to_owned()));
    }
    assert(views(input.tag_ids@).len() == input.tag_ids@.len());
    if chars(trimmed(input.file_name_pattern.as_str()).as_str()).len() == 0
        && input.file_type.is_none() && input.source_directory.is_none()
        && input.collection_id.is_none() && input.tag_ids.len() == 0 {
        return Err(
            LibraryError::InvalidCollection(
                "请至少填写一个匹配条件，或指定目标集合与标签。".to_owned(),
            ),
        );
    }
    if let Some(id) = &input.collection_id {
        if !list_contains(collections, id.as_str()) {
            let mut detail = "集合不存在：".to_owned();
            detail.append(id.as_str());
            return Err(LibraryError::CollectionNotFound(detail));
        }
    }
    ensure_tags_exist(&input.tag_ids, tags)
}

/// Why a change to the list is refused, if it is.
pub open spec fn operation_check(
    operation: ClassificationRuleOperation,
    collections: Seq<Seq<char>>,
    tags: Seq<Seq<char>>,
) -> Result<(), Failure> {
    match operation {
        ClassificationRuleOperation::Create { rule } => input_check(rule@, collections, tags),
        ClassificationRuleOperation::Update { rule } => input_check(rule.input@, collections, tags),
        _ => Ok(()),
    }
}

/// Checks a change to the list; the collections and tags that a rule names must be there.
pub fn validate_classification_operation(
    operation: &ClassificationRuleOperation,
    collections: &Vec<String>,
    tags: &Vec<String>,
) -> (result: LibraryResult<()>)
    ensures
        outcome(result) == operation_check(*operation, views(collections@), views(tags@)),
{
    match operation {
        ClassificationRuleOperation::Create { rule } => validate_input(rule, collections, tags),
        ClassificationRuleOperation::Update { rule } => validate_input(
            &rule.input,
            collections,
            tags,
        ),
        _ => Ok(()),
    }
}

/// One rule comes before another: by position, then by id.
pub open spec fn comes_before(a: Rule, b: Rule) -> bool {
    a.position < b.position || (a.position == b.position && before(a.id, b.id))
}

/// The list in order with one more rule in its place.
pub open spec fn with_rule(list: Seq<Rule>, rule: Rule) -> Seq<Rule>
    decreases list.len(),
{
    if list.len() == 0 || !comes_before(rule, list.last()) {
        list.push(rule)
    } else {
        with_rule(list.drop_last(), rule).push(list.last())
    }
}

/// The rules in order.
pub open spec fn in_order(rules: Seq<Rule>) -> Seq<Rule>
    decreases rules.len(),
{
    if rules.len() == 0 {
        Seq::empty()
    } else {
        with_rule(in_order(rules.drop_last()), rules.last())
    }
}

/// The largest position, or zero.
pub open spec fn last_position(rules: Seq<Rule>) -> i64
    decreases rules.len(),
{
    if rules.len() == 0 {
        0
    } else if rules.len() == 1 {
        rules[0].position
    } else {
        let before = last_position(rules.drop_last());
        if before >= rules.last().position {
            before
        } else {
            rules.last().position
        }
    }
}

/// The rule with what the user entered; its id and position stay.
pub open spec fn rewritten(rule: Rule, input: RuleInput) -> Rule {
    Rule {
        id: rule.id,
        name: input.name,
        enabled: input.enabled,
        position: rule.position,
        file_name_pattern: input.file_name_pattern,
        file_type: input.file_type,
        source_directory: input.source_directory,
        collection_id: input.collection_id,
        tag_ids: sorted(input.tag_ids),
    }
}

/// The last place of an id in a list, counted from one.
pub open spec fn place_of(ordered: Seq<Seq<char>>, id: Seq<char>) -> Option<nat>
    decreases ordered.len(),
{
    if ordered.len() == 0 {
        None
    } else if ordered.last() == id {
        Some(ordered.len())
    } else {
        place_of(ordered.drop_last(), id)
    }
}

/// What a change makes of one rule that was there; nothing where it is deleted.
pub open spec fn changed(rule: Rule, operation: ClassificationRuleOperation) -> Option<Rule> {
    match operation {
        ClassificationRuleOperation::Create { .. } => Some(rule),
        ClassificationRuleOperation::Update { rule: update } => if rule.id == update.id@ {
            Some(rewritten(rule, update.input@))
        } else {
            Some(rule)
        },
        ClassificationRuleOperation::Delete { rule_id } => if rule.id == rule_id@ {
            None
        } else {
            Some(rule)
        },
        ClassificationRuleOperation::SetEnabled { rule_id, enabled } => if rule.id == rule_id@ {
            Some(Rule { enabled, ..rule })
        } else {
            Some(rule)
        },
        ClassificationRuleOperation::Reorder { ordered_rule_ids } => match place_of(
            views(ordered_rule_ids@),
            rule.id,
        ) {
            Some(place) => Some(Rule { position: place as i64, ..rule }),
            None => Some(rule),
        },
    }
}

/// What a change makes of the rules that were there.
pub open spec fn all_changed(rules: Seq<Rule>, operation: ClassificationRuleOperation) -> Seq<Rule>
    decreases rules.len(),
{
    if rules.len() == 0 {
        Seq::empty()
    } else {
        let so_far = all_changed(rules.drop_last(), operation);
        match changed(rules.last(), operation) {
            Some(rule) => so_far.push(rule),
            None => so_far,
        }
    }
}

/// The list after a change. A new rule comes last; deleting one leaves the positions of the others.
pub open spec fn after_operation(
    rules: Seq<Rule>,
    operation: ClassificationRuleOperation,
    new_id: Seq<char>,
) -> Seq<Rule> {
    let kept = all_changed(rules, operation);
    in_order(
        match operation {
            ClassificationRuleOperation::Create { rule } => kept.push(
                rewritten(
                    Rule {
                        id: new_id,
                        name: Seq::empty(),
                        enabled: false,
                        position: (last_position(rules) + 1) as i64,
                        file_name_pattern: Seq::empty(),
                        file_type: None,
                        source_directory: None,
                        collection_id: None,
                        tag_ids: Seq::empty(),
                    },
                    rule@,
                ),
            ),
            _ => kept,
        },
    )
}

/// Puts a rule in its place in an ordered list.
fn insert_rule(list: &mut Vec<ClassificationRule>, rule: ClassificationRule)
    ensures
        rule_views(final(list)@) == with_rule(rule_views(old(list)@), rule@),
{
    let ghost all = rule_views(list@);
    let mut at: usize = list.len();
    assert(all.take(at as int) =~= all);
    assert(with_rule(all, rule@) =~= with_rule(all.take(at as int), rule@) + all.skip(at as int));
    while at > 0 && (rule.position < list[at - 1].position || (rule.position == list[at
        - 1].position && is_before(rule.id.as_str(), list[at - 1].id.as_str())))
        invariant
            at <= list@.len(),
            all == rule_views(list@),
            all == rule_views(old(list)@),
            with_rule(all, rule@) == with_rule(all.take(at as int), rule@) + all.skip(at as int),
        decreases at,
    {
        let ghost head = all.take(at as int);
        assert(head.last() == list@[at - 1]@);
        assert(head.drop_last() =~= all.take(at - 1));
        assert(with_rule(head.drop_last(), rule@).push(head.last()) + all.skip(at as int)
            =~= with_rule(head.drop_last(), rule@) + all.skip(at - 1));
        at = at - 1;
    }
    proof {
        if at > 0 {
            assert(all.take(at as int).last() == list@[at - 1]@);
        }
    }
    let ghost added = rule@;
    list.insert(at, rule);
    assert(rule_views(list@) =~= all.take(at as int).push(added) + all.skip(at as int));
}

/// The rules in order.
fn sort_rules(rules: Vec<ClassificationRule>) -> (list: Vec<ClassificationRule>)
    ensures
        rule_views(list@) == in_order(rule_views(rules@)),
{
    let ghost all = rule_views(rules@);
    let mut list: Vec<ClassificationRule> = Vec::new();
    assert(rule_views(list@) =~= Seq::empty());
    let mut i: usize = 0;
    while i < rules.len()
        invariant
            i <= rules@.len(),
            all == rule_views(rules@),
            rule_views(list@) == in_order(all.take(i as int)),
        decreases rules@.len() - i,
    {
        assert(all.take(i + 1).drop_last() =~= all.take(i as int));
        assert(all.take(i + 1).last() == rules@[i as int]@);
        insert_rule(&mut list, rules[i].copy());
        i = i + 1;
    }
    assert(all.take(i as int) =~= all);
    list
}

/// The largest position, or zero.
fn largest_position(rules: &[ClassificationRule]) -> (position: i64)
    ensures
        position == last_position(rule_views(rules@)),
{
    let ghost all = rule_views(rules@);
    if rules.len() == 0 {
        return 0;
    }
    let mut position: i64 = rules[0].position;
    let mut i: usize = 1;
    assert(all.take(1)[0] == rules@[0]@);
    while i < rules.len()
        invariant
            1 <= i <= rules@.len(),
            all == rule_views(rules@),
            position == last_position(all.take(i as int)),
        decreases rules@.len() - i,
    {
        assert(all.take(i + 1).drop_last() =~= all.take(i as int));
        assert(all.take(i + 1).last() == rules@[i as int]@);
        if position < rules[i].position {
            position = rules[i].position;
        }
        i = i + 1;
    }
    assert(all.take(i as int) =~= all);
    position
}

/// The last place of an id in a list, counted from one.
fn place_in(ordered: &Vec<String>, id: &str) -> (place: Option<usize>)
    ensures
        (match place {
            Some(found) => Some(found as nat),
            None => None,
        }) == place_of(views(ordered@), id@),
{
    let ghost all = views(ordered@);
    let mut at: usize = ordered.len();
    assert(all.take(at as int) =~= all);
    while at > 0
        invariant
            at <= ordered@.len(),
            all == views(ordered@),
            place_of(all.take(at as int), id@) == place_of(all, id@),
        decreases at,
    {
        let ghost head = all.take(at as int);
        assert(head.last() == ordered@[at - 1]@);
        assert(head.drop_last() =~= all.take(at - 1));
        if same(ordered[at - 1].as_str(), id) {
            return Some(at);
        }
        at = at - 1;
    }
    None
}

/// A rule with what the user entered.
fn rewrite(id: String, position: i64, input: &ClassificationRuleInput) -> (rule: ClassificationRule)
    ensures
        rule@ == rewritten(Rule { id: id@, position, ..rule@ }, input@),
{
    ClassificationRule {
        id,
        name: input.name.clone(),
        enabled: input.enabled,
        position,
        file_name_pattern: input.file_name_pattern.clone(),
        file_type: copy_option(&input.file_type),
        source_directory: copy_option(&input.source_directory),
        collection_id: copy_option(&input.collection_id),
        tag_ids: sort_texts(&input.tag_ids),
    }
}

/// What a change makes of one rule.
fn change_rule(rule: &ClassificationRule, operation: &ClassificationRuleOperation) -> (kept: Option<
    ClassificationRule,
>)
    requires
        operation matches ClassificationRuleOperation::Reorder { ordered_rule_ids } ==> ordered_rule_ids@.len()
            <= i64::MAX,
    ensures
        (match kept {
            Some(found) => Some(found@),
            None => None,
        }) == changed(rule@, *operation),
{
    let mut copy = rule.copy();
    match operation {
        ClassificationRuleOperation::Create { .. } => {},
        ClassificationRuleOperation::Update { rule: update } => {
            if same(rule.id.as_str(), update.id.as_str()) {
                return Some(rewrite(rule.id.clone(), rule.position, &update.input));
            }
        },
        ClassificationRuleOperation::Delete { rule_id } => {
            if same(rule.id.as_str(), rule_id.as_str()) {
                return None;
            }
        },
        ClassificationRuleOperation::SetEnabled { rule_id, enabled } => {
            if same(rule.id.as_str(), rule_id.as_str()) {
                copy.enabled = *enabled;
            }
        },
        ClassificationRuleOperation::Reorder { ordered_rule_ids } => {
            if let Some(place) = place_in(ordered_rule_ids, rule.id.as_str()) {
                proof {
                    lemma_place_is_in_the_list(views(ordered_rule_ids@), rule.id@);
                }
                copy.position = place as i64;
            }
        },
    }
    Some(copy)
}

proof fn lemma_place_is_in_the_list(ordered: Seq<Seq<char>>, id: Seq<char>)
    ensures
        place_of(ordered, id) matches Some(place) ==> 0 < place <= ordered.len()
            && ordered[place - 1] == id,
    decreases ordered.len(),
{
    if ordered.len() > 0 && ordered.last() != id {
        lemma_place_is_in_the_list(ordered.drop_last(), id);
    }
}

/// There is a rule with this id.
pub open spec fn has_rule(rules: Seq<Rule>, id: Seq<char>) -> bool {
    exists|i: int| 0 <= i < rules.len() && (#[trigger] rules[i]).id == id
}

/// What the user entered for a rule names only collections and tags that are there.
pub open spec fn names_known(
    input: RuleInput,
    collections: Seq<Seq<char>>,
    tags: Seq<Seq<char>>,
) -> bool {
    &&& input.collection_id matches Some(id) ==> collections.contains(id)
    &&& forall|i: int| 0 <= i < input.tag_ids.len() ==> tags.contains(#[trigger] input.tag_ids[i])
}

/// The records that the change makes refer to records that are there: a rule to its collection, and a
/// tag of a rule to the rule and the tag. Where there is no rule to update, its collection is not
/// written.
pub open spec fn references_hold(
    rules: Seq<Rule>,
    operation: ClassificationRuleOperation,
    collections: Seq<Seq<char>>,
    tags: Seq<Seq<char>>,
) -> bool {
    match operation {
        ClassificationRuleOperation::Create { rule } => names_known(rule@, collections, tags),
        ClassificationRuleOperation::Update { rule } => if has_rule(rules, rule.id@) {
            names_known(rule.input@, collections, tags)
        } else {
            rule.input@.tag_ids.len() == 0
        },
        _ => true,
    }
}

/// The list after a change, or why it cannot be made; `collections` and `tags` hold the ids of those
/// that are there. A change to a rule that is not there does nothing.
pub open spec fn changed_rules(
    rules: Seq<Rule>,
    operation: ClassificationRuleOperation,
    new_id: Seq<char>,
    collections: Seq<Seq<char>>,
    tags: Seq<Seq<char>>,
) -> Result<Seq<Rule>, Failure> {
    if references_hold(rules, operation, collections, tags) {
        Ok(after_operation(rules, operation, new_id))
    } else {
        Err(failure(ErrorKind::Database, "FOREIGN KEY constraint failed"@))
    }
}

/// A list of rules, or why there is none, by views.
pub open spec fn rules_or_failure(result: LibraryResult<Vec<ClassificationRule>>) -> Result<
    Seq<Rule>,
    Failure,
> {
    match result {
        Ok(list) => Ok(rule_views(list@)),
        Err(error) => Err(error@),
    }
}

/// Whether there is a rule with this id.
fn rule_exists(rules: &[ClassificationRule], id: &str) -> (found: bool)
    ensures
        found == has_rule(rule_views(rules@), id@),
{
    let ghost all = rule_views(rules@);
    let mut i: usize = 0;
    while i < rules.len()
        invariant
            i <= rules@.len(),
            all == rule_views(rules@),
            forall|j: int| 0 <= j < i ==> (#[trigger] all[j]).id != id@,
        decreases rules@.len() - i,
    {
        assert(all[i as int] == rules@[i as int]@);
        if same(rules[i].id.as_str(), id) {
            return true;
        }
        i = i + 1;
    }
    false
}

/// Whether what the user entered names only collections and tags that are there.
fn names_are_known(
    input: &ClassificationRuleInput,
    collections: &Vec<String>,
    tags: &Vec<String>,
) -> (known: bool)
    ensures
        known == names_known(input@, views(collections@), views(tags@)),
{
    if let Some(id) = &input.collection_id {
        if !list_contains(collections, id.as_str()) {
            return false;
        }
    }
    let ghost wanted = input@.tag_ids;
    let mut i: usize = 0;
    while i < input.tag_ids.len()
        invariant
            i <= input.tag_ids@.len(),
            wanted == input@.tag_ids,
            wanted == views(input.tag_ids@),
            forall|j: int| 0 <= j < i ==> views(tags@).contains(#[trigger] wanted[j]),
        decreases input.tag_ids@.len() - i,
    {
        assert(wanted[i as int] == input.tag_ids@[i as int]@);
        if !list_contains(tags, input.tag_ids[i].as_str()) {
            return false;
        }
        i = i + 1;
    }
    true
}

/// Whether the records that the change makes refer to records that are there.
fn refers_to_records(
    rules: &[ClassificationRule],
    operation: &ClassificationRuleOperation,
    collections: &Vec<String>,
    tags: &Vec<String>,
) -> (holds: bool)
    ensures
        holds == references_hold(
            rule_views(rules@),
            *operation,
            views(collections@),
            views(tags@),
        ),
{
    match operation {
        ClassificationRuleOperation::Create { rule } => names_are_known(rule, collections, tags),
        ClassificationRuleOperation::Update { rule } => {
            assert(views(rule.input.tag_ids@).len() == rule.input.tag_ids@.len());
            if rule_exists(rules, rule.id.as_str()) {
                names_are_known(&rule.input, collections, tags)
            } else {
                rule.input.tag_ids.len() == 0
            }
        },
        _ => true,
    }
}

/// The list after a change; `collections` and `tags` hold the ids of those that are there. A new rule
/// comes last; deleting one leaves the positions of the others; a tag that is given twice counts once;
/// a change that refers to what is not there is refused.
pub fn apply_classification_rule_operation(
    rules: &[ClassificationRule],
    operation: &ClassificationRuleOperation,
    new_id: String,
    collections: &Vec<String>,
    tags: &Vec<String>,
) -> (result: LibraryResult<Vec<ClassificationRule>>)
    requires
        operation is Create ==> last_position(rule_views(rules@)) < i64::MAX,
        operation matches ClassificationRuleOperation::Reorder { ordered_rule_ids } ==> ordered_rule_ids@.len()
            <= i64::MAX,
    ensures
        rules_or_failure(result) == changed_rules(
            rule_views(rules@),
            *operation,
            new_id@,
            views(collections@),
            views(tags@),
        ),
{
    let ghost all = rule_views(rules@);
    if !refers_to_records(rules, operation, collections, tags) {
        return Err(LibraryError::Database("FOREIGN KEY constraint failed".to_owned()));
    }
    let mut kept: Vec<ClassificationRule> = Vec::new();
    let mut i: usize = 0;
    assert(rule_views(kept@) =~= Seq::empty());
    while i < rules.len()
        invariant
            i <= rules@.len(),
            all == rule_views(rules@),
            operation matches ClassificationRuleOperation::Reorder { ordered_rule_ids } ==> ordered_rule_ids@.len()
                <= i64::MAX,
            rule_views(kept@) == all_changed(all.take(i as int), *operation),
        decreases rules@.len() - i,
    {
        assert(all.take(i + 1).drop_last() =~= all.take(i as int));
        assert(all.take(i + 1).last() == rules@[i as int]@);
        if let Some(rule) = change_rule(&rules[i], operation) {
            let ghost so_far = rule_views(kept@);
            let ghost added = rule@;
            kept.push(rule);
            assert(rule_views(kept@) =~= so_far.push(added));
        }
        i = i + 1;
    }
    assert(all.take(i as int) =~= all);
    if let ClassificationRuleOperation::Create { rule: input } = operation {
        let ghost so_far = rule_views(kept@);
        let rule = rewrite(new_id, largest_position(rules) + 1, input);
        let ghost added = rule@;
        kept.push(rule);
        assert(rule_views(kept@) =~= so_far.push(added));
    }
    Ok(sort_rules(kept))
}

/// The list after a change that the user asked for: first the change is checked, and only one that
/// passes is made.
pub fn change_classification_rules(
    rules: &[ClassificationRule],
    operation: &ClassificationRuleOperation,
    new_id: String,
    collections: &Vec<String>,
    tags: &Vec<String>,
) -> (result: LibraryResult<Vec<ClassificationRule>>)
    requires
        operation is Create ==> last_position(rule_views(rules@)) < i64::MAX,
        operation matches ClassificationRuleOperation::Reorder { ordered_rule_ids } ==> ordered_rule_ids@.len()
            <= i64::MAX,
    ensures
        rules_or_failure(result) == (match operation_check(
            *operation,
            views(collections@),
            views(tags@),
        ) {
            Err(error) => Err(error),
            Ok(_) => changed_rules(
                rule_views(rules@),
                *operation,
                new_id@,
                views(collections@),
                views(tags@),
            ),
        }),
{
    match validate_classification_operation(operation, collections, tags) {
        Err(error) => Err(error),
        Ok(_) => apply_classification_rule_operation(rules, operation, new_id, collections, tags),
    }
}

// ---- Laws ----

/// The rules stand in order.
pub open spec fn ordered(rules: Seq<Rule>) -> bool {
    forall|i: int, j: int|
        0 <= i < j < rules.len() ==> !comes_before(#[trigger] rules[j], #[trigger] rules[i])
}

proof fn lemma_with_rule_is_ordered(list: Seq<Rule>, rule: Rule)
    requires
        ordered(list),
    ensures
        ordered(with_rule(list, rule)),
        with_rule(list, rule).to_multiset() == list.to_multiset().insert(rule),
    decreases list.len(),
{
    broadcast use vstd::seq_lib::group_to_multiset_ensures;

    if list.len() > 0 && comes_before(rule, list.last()) {
        let shorter = list.drop_last();
        lemma_with_rule_is_ordered(shorter, rule);
        let inner = with_rule(shorter, rule);
        let longer = inner.push(list.last());
        assert(list =~= shorter.push(list.last()));
        assert(longer.to_multiset() =~= list.to_multiset().insert(rule));
        assert(rule.id.take(0) =~= list.last().id.take(0));
        crate::text::lemma_order_is_total(rule.id, list.last().id, 0);
        assert forall|i: int, j: int| 0 <= i < j < longer.len() implies !comes_before(
            #[trigger] longer[j],
            #[trigger] longer[i],
        ) by {
            if j == inner.len() {
                assert(inner.to_multiset().count(inner[i]) > 0) by {
                    assert(inner.contains(inner[i]));
                }
                if inner[i] != rule {
                    assert(shorter.to_multiset().count(inner[i]) > 0);
                    assert(shorter.contains(inner[i]));
                    let k = choose|k: int| 0 <= k < shorter.len() && shorter[k] == inner[i];
                    assert(!comes_before(list[list.len() - 1], list[k]));
                }
            }
        }
    } else {
        let longer = list.push(rule);
        assert forall|i: int, j: int| 0 <= i < j < longer.len() implies !comes_before(
            #[trigger] longer[j],
            #[trigger] longer[i],
        ) by {
            if j == list.len() && i < list.len() - 1 {
                assert(!comes_before(list[list.len() - 1], list[i]));
                if comes_before(rule, list[i]) {
                    assert(list[i].id.take(0) =~= list.last().id.take(0));
                    crate::text::lemma_order_is_total(list[i].id, list.last().id, 0);
                    if list[i].position == list.last().position && before(
                        list[i].id,
                        list.last().id,
                    ) && rule.position == list[i].position {
                        crate::text::lemma_order_is_transitive(
                            rule.id,
                            list[i].id,
                            list.last().id,
                            0,
                        );
                    }
                }
            }
        }
    }
}

/// The list after any change stands in order, by position and then by id, and ordering loses or
/// doubles no rule.
pub proof fn lists_stay_in_order(rules: Seq<Rule>)
    ensures
        ordered(in_order(rules)),
        in_order(rules).to_multiset() == rules.to_multiset(),
    decreases rules.len(),
{
    broadcast use vstd::seq_lib::group_to_multiset_ensures;

    if rules.len() > 0 {
        let shorter = rules.drop_last();
        lists_stay_in_order(shorter);
        lemma_with_rule_is_ordered(in_order(shorter), rules.last());
        assert(rules =~= shorter.push(rules.last()));
    }
}

/// A plan gives every tag at most once, and only tags of rules that match.
pub proof fn plans_give_each_tag_once(rules: Seq<Rule>)
    ensures
        merged_tags(rules).no_duplicates(),
        forall|tag: Seq<char>|
            merged_tags(rules).contains(tag) ==> exists|i: int|
                0 <= i < rules.len() && (#[trigger] rules[i]).tag_ids.contains(tag),
    decreases rules.len(),
{
    if rules.len() > 0 {
        let shorter = rules.drop_last();
        plans_give_each_tag_once(shorter);
        lemma_with_new_keeps_distinct(merged_tags(shorter), rules.last().tag_ids);
        assert forall|tag: Seq<char>| merged_tags(rules).contains(tag) implies exists|i: int|
            0 <= i < rules.len() && (#[trigger] rules[i]).tag_ids.contains(tag) by {
            if merged_tags(shorter).contains(tag) {
                let i = choose|i: int|
                    0 <= i < shorter.len() && (#[trigger] shorter[i]).tag_ids.contains(tag);
                assert(rules[i].tag_ids.contains(tag));
            } else {
                assert(rules[rules.len() - 1].tag_ids.contains(tag));
            }
        }
    }
}

/// A collection that the user chose is never changed by a rule.
pub proof fn chosen_collections_win(
    rules: Seq<Rule>,
    source_path: Seq<char>,
    explicit: Seq<char>,
    inbox: Seq<char>,
)
    ensures
        planned(rules, source_path, Some(explicit), inbox).collection_id == explicit,
{
}

/// A rule that is switched off takes no part: without it the plan is the same.
pub proof fn disabled_rules_take_no_part(
    rules: Seq<Rule>,
    rule: Rule,
    source_path: Seq<char>,
)
    requires
        !rule.enabled,
    ensures
        matched(rules.push(rule), source_path) == matched(rules, source_path),
{
    assert(rules.push(rule).drop_last() =~= rules);
}

/// The file meets the conditions of a rule that is on: the pattern, where there is one, stands in its
/// name, its type is the one asked for, and it lies in the directory asked for; a blank condition
/// asks for nothing. Letters count without their case.
pub open spec fn meets(rule: Rule, source_path: Seq<char>) -> bool {
    let name = lowercase(display_name(source_path));
    &&& rule.enabled
    &&& trim(rule.file_name_pattern).len() > 0 ==> exists|at: int|
        0 <= at <= name.len() - lowercase(trim(rule.file_name_pattern)).len() && #[trigger] name.subrange(
            at,
            at + lowercase(trim(rule.file_name_pattern)).len(),
        ) == lowercase(trim(rule.file_name_pattern))
    &&& rule.file_type matches Some(wanted) ==> trim(wanted).len() == 0 || supported_type(source_path)
        == Some(trim(wanted))
    &&& rule.source_directory matches Some(directory) ==> trim(directory).len() == 0 || is_within(
        source_path,
        trim(directory),
    )
}

proof fn lemma_meets_is_applies(rule: Rule, source_path: Seq<char>)
    ensures
        meets(rule, source_path) == applies(rule, source_path),
{
    let name = lowercase(display_name(source_path));
    let part = lowercase(trim(rule.file_name_pattern));
    if contains(name, part) {
        let at = choose|at: int| crate::text::occurs_at(name, part, at);
        assert(name.subrange(at, at + part.len()) == part);
    }
    if exists|at: int|
        0 <= at <= name.len() - part.len() && #[trigger] name.subrange(at, at + part.len()) == part {
        let at = choose|at: int|
            0 <= at <= name.len() - part.len() && #[trigger] name.subrange(at, at + part.len()) == part;
        assert(crate::text::occurs_at(name, part, at));
    }
}

/// The rules that apply are those of one part of the list and then those of the rest.
proof fn lemma_matched_in_turn(first: Seq<Rule>, second: Seq<Rule>, source_path: Seq<char>)
    ensures
        matched(first + second, source_path) == matched(first, source_path) + matched(
            second,
            source_path,
        ),
    decreases second.len(),
{
    if second.len() > 0 {
        lemma_matched_in_turn(first, second.drop_last(), source_path);
        assert((first + second).drop_last() =~= first + second.drop_last());
        assert((first + second).last() == second.last());
        assert(matched(first + second, source_path) =~= matched(first, source_path) + matched(
            second,
            source_path,
        ));
    } else {
        assert(first + second =~= first);
        assert(matched(first, source_path) + matched(second, source_path) =~= matched(
            first,
            source_path,
        ));
    }
}

/// Rules that apply stand in the list and are met.
proof fn lemma_matched_are_met(rules: Seq<Rule>, source_path: Seq<char>)
    ensures
        forall|i: int|
            0 <= i < matched(rules, source_path).len() ==> rules.contains(
                #[trigger] matched(rules, source_path)[i],
            ) && meets(matched(rules, source_path)[i], source_path),
        forall|i: int|
            0 <= i < rules.len() && meets(#[trigger] rules[i], source_path) ==> matched(
                rules,
                source_path,
            ).contains(rules[i]),
    decreases rules.len(),
{
    if rules.len() > 0 {
        let shorter = rules.drop_last();
        let before_last = matched(shorter, source_path);
        let all = matched(rules, source_path);
        lemma_matched_are_met(shorter, source_path);
        lemma_meets_is_applies(rules.last(), source_path);
        assert forall|i: int| 0 <= i < all.len() implies rules.contains(#[trigger] all[i]) && meets(
            all[i],
            source_path,
        ) by {
            if i < before_last.len() {
                assert(all[i] == before_last[i]);
                let k = choose|k: int| 0 <= k < shorter.len() && shorter[k] == all[i];
                assert(rules[k] == all[i]);
            } else {
                assert(rules[rules.len() - 1] == all[i]);
            }
        }
        assert forall|i: int| 0 <= i < rules.len() && meets(#[trigger] rules[i], source_path) implies all.contains(
            rules[i],
        ) by {
            if i < shorter.len() {
                assert(shorter[i] == rules[i]);
                let k = choose|k: int| 0 <= k < before_last.len() && before_last[k] == rules[i];
                assert(all[k] == rules[i]);
            } else {
                assert(all[all.len() - 1] == rules[i]);
            }
        }
    }
}

proof fn lemma_first_collection(rules: Seq<Rule>)
    ensures
        first_collection(rules) is None <==> forall|i: int|
            0 <= i < rules.len() ==> (#[trigger] rules[i]).collection_id is None,
        forall|i: int|
            0 <= i < rules.len() && (#[trigger] rules[i]).collection_id is Some && (forall|j: int|
                0 <= j < i ==> (#[trigger] rules[j]).collection_id is None) ==> first_collection(rules)
                == rules[i].collection_id,
    decreases rules.len(),
{
    if rules.len() > 0 {
        let shorter = rules.drop_last();
        lemma_first_collection(shorter);
        assert(forall|i: int| 0 <= i < shorter.len() ==> shorter[i] == rules[i]);
        if first_collection(shorter) is None {
            assert forall|i: int| 0 <= i < shorter.len() implies (#[trigger] rules[i]).collection_id is None by {
                assert(shorter[i].collection_id is None);
            }
        } else {
            let k = choose|k: int| 0 <= k < shorter.len() && !((#[trigger] shorter[k]).collection_id is None);
            assert(rules[k].collection_id is Some);
            assert forall|i: int|
                0 <= i < rules.len() && (#[trigger] rules[i]).collection_id is Some && (forall|j: int|
                    0 <= j < i ==> (#[trigger] rules[j]).collection_id is None) implies first_collection(
                rules,
            ) == rules[i].collection_id by {
                if i == shorter.len() {
                    assert(rules[k].collection_id is None);
                } else {
                    assert(shorter[i] == rules[i]);
                    assert forall|j: int| 0 <= j < i implies (#[trigger] shorter[j]).collection_id is None by {
                        assert(rules[j].collection_id is None);
                    }
                }
            }
        }
    }
}

/// Without a collection that the user chose, a document goes to the collection of the rule whose
/// conditions it meets and that has one, where no rule before it has one too.
pub proof fn the_first_collection_is_taken(
    rules: Seq<Rule>,
    source_path: Seq<char>,
    inbox: Seq<char>,
    at: int,
)
    requires
        0 <= at < rules.len(),
        meets(rules[at], source_path),
        rules[at].collection_id is Some,
        forall|j: int|
            0 <= j < at && meets(#[trigger] rules[j], source_path) ==> rules[j].collection_id is None,
    ensures
        planned(rules, source_path, None, inbox).collection_id == rules[at].collection_id->Some_0,
{
    let first = rules.take(at);
    let rest = rules.skip(at + 1);
    assert(rules =~= first + seq![rules[at]] + rest);
    lemma_matched_in_turn(first + seq![rules[at]], rest, source_path);
    lemma_matched_in_turn(first, seq![rules[at]], source_path);
    lemma_meets_is_applies(rules[at], source_path);
    assert(seq![rules[at]].drop_last() =~= Seq::empty());
    reveal_with_fuel(matched, 2);
    assert(matched(seq![rules[at]], source_path) =~= seq![rules[at]]);
    let before_it = matched(first, source_path);
    let found = matched(rules, source_path);
    assert(found =~= before_it + seq![rules[at]] + matched(rest, source_path));
    lemma_matched_are_met(first, source_path);
    assert forall|j: int| 0 <= j < before_it.len() implies (#[trigger] found[j]).collection_id is None by {
        assert(found[j] == before_it[j]);
        let k = choose|k: int| 0 <= k < first.len() && first[k] == before_it[j];
        assert(rules[k] == before_it[j]);
    }
    lemma_first_collection(found);
    assert(found[before_it.len() as int] == rules[at]);
}

/// Without a collection that the user chose, a document goes to the inbox where no rule whose
/// conditions it meets has a collection.
pub proof fn the_inbox_takes_the_rest(rules: Seq<Rule>, source_path: Seq<char>, inbox: Seq<char>)
    requires
        forall|j: int|
            0 <= j < rules.len() && meets(#[trigger] rules[j], source_path) ==> rules[j].collection_id is None,
    ensures
        planned(rules, source_path, None, inbox).collection_id == inbox,
{
    let found = matched(rules, source_path);
    lemma_matched_are_met(rules, source_path);
    lemma_first_collection(found);
    assert forall|j: int| 0 <= j < found.len() implies (#[trigger] found[j]).collection_id is None by {
        let k = choose|k: int| 0 <= k < rules.len() && rules[k] == found[j];
        assert(meets(rules[k], source_path));
    }
}

/// A document gets every tag of every rule whose conditions it meets, no other and none twice, and
/// the tags of rules that come first stand first. A collection that the user chose changes nothing
/// of that.
pub proof fn all_rules_give_their_tags(
    rules: Seq<Rule>,
    more: Seq<Rule>,
    source_path: Seq<char>,
    explicit: Option<Seq<char>>,
    inbox: Seq<char>,
)
    ensures
        ({
            let tags = planned(rules, source_path, explicit, inbox).tag_ids;
            let longer = planned(rules + more, source_path, explicit, inbox).tag_ids;
            &&& forall|tag: Seq<char>| #[trigger]
                tags.contains(tag) <==> exists|i: int|
                    0 <= i < rules.len() && meets(#[trigger] rules[i], source_path)
                        && rules[i].tag_ids.contains(tag)
            &&& tags.no_duplicates()
            &&& tags.len() <= longer.len() && longer.take(tags.len() as int) == tags
        }),
{
    let found = matched(rules, source_path);
    let tags = merged_tags(found);
    plans_give_each_tag_once(found);
    lemma_matched_are_met(rules, source_path);
    lemma_matched_in_turn(rules, more, source_path);
    lemma_merged_tags_grow(found, matched(more, source_path));
    lemma_merged_tags_hold_all(found);
    assert forall|tag: Seq<char>| #[trigger] tags.contains(tag) <==> exists|i: int|
        0 <= i < rules.len() && meets(#[trigger] rules[i], source_path) && rules[i].tag_ids.contains(
            tag,
        ) by {
        if tags.contains(tag) {
            let i = choose|i: int| 0 <= i < found.len() && (#[trigger] found[i]).tag_ids.contains(tag);
            let k = choose|k: int| 0 <= k < rules.len() && rules[k] == found[i];
            assert(meets(rules[k], source_path) && rules[k].tag_ids.contains(tag));
        }
        if exists|i: int|
            0 <= i < rules.len() && meets(#[trigger] rules[i], source_path)
                && rules[i].tag_ids.contains(tag) {
            let i = choose|i: int|
                0 <= i < rules.len() && meets(#[trigger] rules[i], source_path)
                    && rules[i].tag_ids.contains(tag);
            assert(found.contains(rules[i]));
            let k = choose|k: int| 0 <= k < found.len() && found[k] == rules[i];
            assert(found[k].tag_ids.contains(tag));
        }
    }
}

proof fn lemma_merged_tags_grow(first: Seq<Rule>, second: Seq<Rule>)
    ensures
        merged_tags(first).len() <= merged_tags(first + second).len(),
        merged_tags(first + second).take(merged_tags(first).len() as int) == merged_tags(first),
    decreases second.len(),
{
    let tags = merged_tags(first);
    if second.len() > 0 {
        lemma_merged_tags_grow(first, second.drop_last());
        assert((first + second).drop_last() =~= first + second.drop_last());
        let so_far = merged_tags(first + second.drop_last());
        lemma_with_new_holds_all(so_far, second.last().tag_ids);
        let all = merged_tags(first + second);
        assert(all.take(so_far.len() as int).take(tags.len() as int) =~= all.take(tags.len() as int));
    } else {
        assert(first + second =~= first);
        assert(tags.take(tags.len() as int) =~= tags);
    }
}

proof fn lemma_merged_tags_hold_all(rules: Seq<Rule>)
    ensures
        forall|i: int, tag: Seq<char>|
            0 <= i < rules.len() && #[trigger] rules[i].tag_ids.contains(tag) ==> merged_tags(
                rules,
            ).contains(tag),
    decreases rules.len(),
{
    if rules.len() > 0 {
        let shorter = rules.drop_last();
        lemma_merged_tags_hold_all(shorter);
        lemma_with_new_holds_all(merged_tags(shorter), rules.last().tag_ids);
        assert forall|i: int, tag: Seq<char>|
            0 <= i < rules.len() && #[trigger] rules[i].tag_ids.contains(tag) implies merged_tags(
            rules,
        ).contains(tag) by {
            if i < shorter.len() {
                assert(shorter[i].tag_ids.contains(tag));
            }
        }
    }
}

/// The rules that a plan names are those whose conditions the file meets, each once and in their
/// order.
pub proof fn plans_name_the_rules_that_are_met(
    rules: Seq<Rule>,
    rule: Rule,
    source_path: Seq<char>,
    explicit: Option<Seq<char>>,
    inbox: Seq<char>,
)
    ensures
        planned(rules.push(rule), source_path, explicit, inbox).matched_rule_ids == if meets(
            rule,
            source_path,
        ) {
            planned(rules, source_path, explicit, inbox).matched_rule_ids.push(rule.id)
        } else {
            planned(rules, source_path, explicit, inbox).matched_rule_ids
        },
        planned(Seq::empty(), source_path, explicit, inbox).matched_rule_ids.len() == 0,
{
    lemma_meets_is_applies(rule, source_path);
    assert(rules.push(rule).drop_last() =~= rules);
    assert(ids(matched(rules, source_path).push(rule)) =~= ids(matched(rules, source_path)).push(
        rule.id,
    ));
}

/// A path lies in a directory where it is the directory or goes on behind it with a slash; the kind of
/// slash, slashes at the end of the directory and the case of letters do not count. A directory of
/// slashes alone holds everything.
pub proof fn directories_hold_what_lies_below(
    path: Seq<char>,
    directory: Seq<char>,
    root: Seq<char>,
    slashes: Seq<char>,
)
    requires
        lowercase(replaced(directory, '\\', '/')) == root + slashes,
        forall|i: int| 0 <= i < slashes.len() ==> (#[trigger] slashes[i]) == '/',
        root.len() > 0 ==> root.last() != '/',
    ensures
        is_within(path, directory) <==> {
            let key = lowercase(replaced(path, '\\', '/'));
            ||| root.len() == 0
            ||| key == root
            ||| exists|rest: Seq<char>| key == #[trigger] (root.push('/') + rest)
        },
{
    let key = path_key(path);
    lemma_slashes_go(root, slashes);
    let start = root.push('/');
    if starts_with(key, start) {
        let rest = key.skip(start.len() as int);
        assert(key =~= start + rest);
    }
    if exists|rest: Seq<char>| key == #[trigger] (start + rest) {
        let rest = choose|rest: Seq<char>| key == #[trigger] (start + rest);
        assert(key.subrange(0, start.len() as int) =~= start);
    }
}

proof fn lemma_slashes_go(root: Seq<char>, slashes: Seq<char>)
    requires
        forall|i: int| 0 <= i < slashes.len() ==> (#[trigger] slashes[i]) == '/',
        root.len() > 0 ==> root.last() != '/',
    ensures
        without_slashes(root + slashes) == root,
    decreases slashes.len(),
{
    let text = root + slashes;
    if slashes.len() == 0 {
        assert(text =~= root);
    } else {
        let fewer = slashes.drop_last();
        assert(slashes[slashes.len() - 1] == '/');
        assert(text.last() == '/');
        assert(text.drop_last() =~= root + fewer);
        assert forall|i: int| 0 <= i < fewer.len() implies (#[trigger] fewer[i]) == '/' by {
            assert(fewer[i] == slashes[i]);
        }
        lemma_slashes_go(root, fewer);
    }
}

proof fn lemma_order_keeps_members(rules: Seq<Rule>)
    ensures
        in_order(rules).len() == rules.len(),
        forall|rule: Rule| #[trigger] in_order(rules).contains(rule) <==> rules.contains(rule),
{
    broadcast use vstd::seq_lib::group_to_multiset_ensures;

    lists_stay_in_order(rules);
    let sorted_rules = in_order(rules);
    assert(sorted_rules.to_multiset().len() == rules.to_multiset().len());
    assert forall|rule: Rule| #[trigger] sorted_rules.contains(rule) <==> rules.contains(rule) by {
        assert(sorted_rules.to_multiset().count(rule) == rules.to_multiset().count(rule));
    }
}

proof fn lemma_changed_members(rules: Seq<Rule>, operation: ClassificationRuleOperation)
    ensures
        all_changed(rules, operation).len() <= rules.len(),
        forall|rule: Rule| #[trigger]
            all_changed(rules, operation).contains(rule) <==> exists|i: int|
                0 <= i < rules.len() && changed(#[trigger] rules[i], operation) == Some(rule),
        (forall|i: int| 0 <= i < rules.len() ==> changed(#[trigger] rules[i], operation) is Some)
            ==> all_changed(rules, operation).len() == rules.len(),
    decreases rules.len(),
{
    if rules.len() > 0 {
        let shorter = rules.drop_last();
        lemma_changed_members(shorter, operation);
        let all = all_changed(rules, operation);
        let so_far = all_changed(shorter, operation);
        assert(forall|i: int| 0 <= i < shorter.len() ==> shorter[i] == rules[i]);
        assert forall|rule: Rule| #[trigger] all.contains(rule) <==> exists|i: int|
            0 <= i < rules.len() && changed(#[trigger] rules[i], operation) == Some(rule) by {
            if all.contains(rule) {
                let k = choose|k: int| 0 <= k < all.len() && all[k] == rule;
                if k < so_far.len() {
                    assert(so_far[k] == rule);
                    assert(so_far.contains(rule));
                    let i = choose|i: int|
                        0 <= i < shorter.len() && changed(#[trigger] shorter[i], operation) == Some(rule);
                    assert(changed(rules[i], operation) == Some(rule));
                } else {
                    assert(changed(rules[rules.len() - 1], operation) == Some(rule));
                }
            }
            if exists|i: int|
                0 <= i < rules.len() && changed(#[trigger] rules[i], operation) == Some(rule) {
                let i = choose|i: int|
                    0 <= i < rules.len() && changed(#[trigger] rules[i], operation) == Some(rule);
                if i < shorter.len() {
                    assert(changed(shorter[i], operation) == Some(rule));
                    assert(so_far.contains(rule));
                    let k = choose|k: int| 0 <= k < so_far.len() && so_far[k] == rule;
                    assert(all[k] == rule);
                } else {
                    assert(all[all.len() - 1] == rule);
                }
            }
        }
        if forall|i: int| 0 <= i < rules.len() ==> changed(#[trigger] rules[i], operation) is Some {
            assert forall|i: int| 0 <= i < shorter.len() implies changed(
                #[trigger] shorter[i],
                operation,
            ) is Some by {
                assert(changed(rules[i], operation) is Some);
            }
            assert(changed(rules[rules.len() - 1], operation) is Some);
        }
    }
}

/// Deleting a rule takes out the rules with that id and leaves every other one as it is.
pub proof fn deletions_take_out_one_rule(
    rules: Seq<Rule>,
    rule_id: String,
    new_id: Seq<char>,
    collections: Seq<Seq<char>>,
    tags: Seq<Seq<char>>,
)
    ensures
        changed_rules(
            rules,
            ClassificationRuleOperation::Delete { rule_id },
            new_id,
            collections,
            tags,
        ) matches Ok(list) && forall|rule: Rule| #[trigger]
            list.contains(rule) <==> rules.contains(rule) && rule.id != rule_id@,
{
    let operation = ClassificationRuleOperation::Delete { rule_id };
    let list = after_operation(rules, operation, new_id);
    lemma_changed_members(rules, operation);
    lemma_order_keeps_members(all_changed(rules, operation));
    assert forall|rule: Rule| #[trigger] list.contains(rule) <==> rules.contains(rule) && rule.id
        != rule_id@ by {
        assert(list.contains(rule) == all_changed(rules, operation).contains(rule));
        if rules.contains(rule) && rule.id != rule_id@ {
            let i = choose|i: int| 0 <= i < rules.len() && rules[i] == rule;
            assert(changed(rules[i], operation) == Some(rule));
        }
    }
}

/// Switching a rule on or off changes nothing but that of that rule.
pub proof fn switches_change_one_rule(
    rules: Seq<Rule>,
    rule_id: String,
    enabled: bool,
    new_id: Seq<char>,
    collections: Seq<Seq<char>>,
    tags: Seq<Seq<char>>,
)
    ensures
        changed_rules(
            rules,
            ClassificationRuleOperation::SetEnabled { rule_id, enabled },
            new_id,
            collections,
            tags,
        ) matches Ok(list) && list.len() == rules.len() && forall|i: int|
            0 <= i < rules.len() ==> if (#[trigger] rules[i]).id == rule_id@ {
                list.contains(Rule { enabled, ..rules[i] })
            } else {
                list.contains(rules[i])
            },
{
    let operation = ClassificationRuleOperation::SetEnabled { rule_id, enabled };
    let list = after_operation(rules, operation, new_id);
    lemma_changed_members(rules, operation);
    lemma_order_keeps_members(all_changed(rules, operation));
    assert forall|i: int| 0 <= i < rules.len() implies if (#[trigger] rules[i]).id == rule_id@ {
        list.contains(Rule { enabled, ..rules[i] })
    } else {
        list.contains(rules[i])
    } by {
        let made = changed(rules[i], operation)->Some_0;
        assert(all_changed(rules, operation).contains(made));
        assert(list.contains(made));
    }
}

/// Updating a rule gives it what the user entered and keeps its id and its place; the other rules stay
/// as they are. Its tags are those entered, in order and each once.
pub proof fn updates_rewrite_one_rule(
    rules: Seq<Rule>,
    update: ClassificationRuleUpdate,
    new_id: Seq<char>,
    collections: Seq<Seq<char>>,
    tags: Seq<Seq<char>>,
    at: int,
)
    requires
        0 <= at < rules.len(),
    ensures
        changed_rules(
            rules,
            ClassificationRuleOperation::Update { rule: update },
            new_id,
            collections,
            tags,
        ) matches Ok(list) ==> list.len() == rules.len() && if rules[at].id == update.id@ {
            exists|i: int|
                0 <= i < list.len() && (#[trigger] list[i]).id == rules[at].id && list[i].position
                    == rules[at].position && list[i].name == update.input@.name && list[i].enabled
                    == update.input@.enabled && list[i].file_name_pattern
                    == update.input@.file_name_pattern && list[i].file_type
                    == update.input@.file_type && list[i].source_directory
                    == update.input@.source_directory && list[i].collection_id
                    == update.input@.collection_id && strictly_ordered(list[i].tag_ids) && (forall|
                    tag: Seq<char>,
                |
                    list[i].tag_ids.contains(tag) <==> update.input@.tag_ids.contains(tag))
        } else {
            list.contains(rules[at])
        },
{
    let operation = ClassificationRuleOperation::Update { rule: update };
    let list = after_operation(rules, operation, new_id);
    lemma_changed_members(rules, operation);
    lemma_order_keeps_members(all_changed(rules, operation));
    sorting_orders_and_keeps(update.input@.tag_ids);
    let made = changed(rules[at], operation)->Some_0;
    assert(all_changed(rules, operation).contains(made));
    assert(list.contains(made));
    let i = choose|i: int| 0 <= i < list.len() && list[i] == made;
    assert(list[i] == made);
}

/// A new rule is added with what the user entered, behind all others; these stay as they are.
pub proof fn creations_add_one_rule(
    rules: Seq<Rule>,
    input: ClassificationRuleInput,
    new_id: Seq<char>,
    collections: Seq<Seq<char>>,
    tags: Seq<Seq<char>>,
)
    requires
        forall|i: int| 0 <= i < rules.len() ==> (#[trigger] rules[i]).position < i64::MAX,
    ensures
        changed_rules(
            rules,
            ClassificationRuleOperation::Create { rule: input },
            new_id,
            collections,
            tags,
        ) matches Ok(list) ==> {
            &&& list.len() == rules.len() + 1
            &&& forall|i: int| 0 <= i < rules.len() ==> list.contains(#[trigger] rules[i])
            &&& exists|i: int|
                0 <= i < list.len() && (#[trigger] list[i]).id == new_id && list[i].name == input@.name
                    && list[i].enabled == input@.enabled && list[i].file_name_pattern
                    == input@.file_name_pattern && list[i].file_type == input@.file_type
                    && list[i].source_directory == input@.source_directory && list[i].collection_id
                    == input@.collection_id && (forall|tag: Seq<char>|
                    list[i].tag_ids.contains(tag) <==> input@.tag_ids.contains(tag)) && (forall|j: int|
                    0 <= j < rules.len() ==> (#[trigger] rules[j]).position < list[i].position)
        },
{
    let operation = ClassificationRuleOperation::Create { rule: input };
    let kept = all_changed(rules, operation);
    let list = after_operation(rules, operation, new_id);
    lemma_changed_members(rules, operation);
    lemma_last_position(rules);
    sorting_orders_and_keeps(input@.tag_ids);
    let blank = Rule {
        id: new_id,
        name: Seq::empty(),
        enabled: false,
        position: (last_position(rules) + 1) as i64,
        file_name_pattern: Seq::empty(),
        file_type: None,
        source_directory: None,
        collection_id: None,
        tag_ids: Seq::empty(),
    };
    let made = rewritten(blank, input@);
    let longer = kept.push(made);
    lemma_order_keeps_members(longer);
    assert(list == in_order(longer));
    assert forall|i: int| 0 <= i < rules.len() implies list.contains(#[trigger] rules[i]) by {
        assert(changed(rules[i], operation) == Some(rules[i]));
        assert(kept.contains(rules[i]));
        let k = choose|k: int| 0 <= k < kept.len() && kept[k] == rules[i];
        assert(longer[k] == rules[i]);
        assert(longer.contains(rules[i]));
    }
    assert(longer[longer.len() - 1] == made);
    assert(longer.contains(made));
    assert(list.contains(made));
    let i = choose|i: int| 0 <= i < list.len() && list[i] == made;
    assert(list[i] == made);
}

proof fn lemma_last_position(rules: Seq<Rule>)
    ensures
        forall|i: int|
            0 <= i < rules.len() ==> (#[trigger] rules[i]).position <= last_position(rules),
        rules.len() > 0 ==> exists|i: int|
            0 <= i < rules.len() && (#[trigger] rules[i]).position == last_position(rules),
    decreases rules.len(),
{
    if rules.len() == 1 {
        assert(rules[0].position == last_position(rules));
    } else if rules.len() > 1 {
        let shorter = rules.drop_last();
        lemma_last_position(shorter);
        assert(forall|i: int| 0 <= i < shorter.len() ==> shorter[i] == rules[i]);
        let k = choose|k: int|
            0 <= k < shorter.len() && (#[trigger] shorter[k]).position == last_position(shorter);
        assert(rules[k].position == last_position(shorter));
        assert(rules[rules.len() - 1] == rules.last());
        assert forall|i: int| 0 <= i < rules.len() implies (#[trigger] rules[i]).position
            <= last_position(rules) by {
            if i < shorter.len() {
                assert(shorter[i].position <= last_position(shorter));
            }
        }
    }
}

proof fn lemma_place(ordered_ids: Seq<Seq<char>>, id: Seq<char>, at: int)
    requires
        0 <= at < ordered_ids.len(),
        ordered_ids[at] == id,
        forall|i: int| at < i < ordered_ids.len() ==> (#[trigger] ordered_ids[i]) != id,
    ensures
        place_of(ordered_ids, id) == Some((at + 1) as nat),
    decreases ordered_ids.len(),
{
    if at < ordered_ids.len() - 1 {
        assert(ordered_ids[ordered_ids.len() - 1] != id);
        let shorter = ordered_ids.drop_last();
        assert forall|i: int| at < i < shorter.len() implies (#[trigger] shorter[i]) != id by {
            assert(shorter[i] == ordered_ids[i]);
        }
        lemma_place(shorter, id, at);
    }
}

/// Reordering gives each rule that is named the place of its id in the list, counted from one, and
/// changes nothing else of it.
pub proof fn reordering_gives_places(
    rules: Seq<Rule>,
    ordered_rule_ids: Vec<String>,
    new_id: Seq<char>,
    collections: Seq<Seq<char>>,
    tags: Seq<Seq<char>>,
    at: int,
    place: int,
)
    requires
        0 <= at < rules.len(),
        0 <= place < ordered_rule_ids@.len(),
        ordered_rule_ids@[place]@ == rules[at].id,
        forall|j: int|
            place < j < ordered_rule_ids@.len() ==> (#[trigger] ordered_rule_ids@[j])@ != rules[at].id,
    ensures
        changed_rules(
            rules,
            ClassificationRuleOperation::Reorder { ordered_rule_ids },
            new_id,
            collections,
            tags,
        ) matches Ok(list) && list.len() == rules.len() && list.contains(
            Rule { position: (place + 1) as i64, ..rules[at] },
        ),
{
    let operation = ClassificationRuleOperation::Reorder { ordered_rule_ids };
    let list = after_operation(rules, operation, new_id);
    let ordered_ids = views(ordered_rule_ids@);
    assert forall|j: int| place < j < ordered_ids.len() implies (#[trigger] ordered_ids[j])
        != rules[at].id by {
        assert(ordered_ids[j] == ordered_rule_ids@[j]@);
    }
    lemma_place(ordered_ids, rules[at].id, place);
    lemma_changed_members(rules, operation);
    lemma_order_keeps_members(all_changed(rules, operation));
    let made = Rule { position: (place + 1) as i64, ..rules[at] };
    assert(changed(rules[at], operation) == Some(made));
    assert(all_changed(rules, operation).contains(made));
    assert(list.contains(made));
}

/// What the user enters for a rule is taken where it has a name, asks for or gives something, and
/// names only collections and tags that are there, and only there.
pub proof fn rules_are_taken_where_they_say_something(
    input: ClassificationRuleInput,
    collections: Seq<Seq<char>>,
    tags: Seq<Seq<char>>,
)
    ensures
        operation_check(
            ClassificationRuleOperation::Create { rule: input },
            collections,
            tags,
        ) is Ok <==> {
            &&& trim(input@.name).len() > 0
            &&& (trim(input@.file_name_pattern).len() > 0 || input@.file_type is Some
                || input@.source_directory is Some || input@.collection_id is Some
                || input@.tag_ids.len() > 0)
            &&& input@.collection_id is Some ==> collections.contains(input@.collection_id->Some_0)
            &&& forall|i: int| 0 <= i < input@.tag_ids.len() ==> tags.contains(#[trigger] input@.tag_ids[i])
        },
{
    lemma_tags_known(input@.tag_ids, 0, tags);
}

proof fn lemma_tags_known(wanted: Seq<Seq<char>>, at: int, tags: Seq<Seq<char>>)
    requires
        0 <= at,
    ensures
        known_tags(wanted, at, tags) is Ok <==> forall|i: int|
            at <= i < wanted.len() ==> tags.contains(#[trigger] wanted[i]),
    decreases wanted.len() - at,
{
    if at < wanted.len() {
        lemma_tags_known(wanted, at + 1, tags);
        if !tags.contains(wanted[at]) {
            assert(!(forall|i: int| at <= i < wanted.len() ==> tags.contains(#[trigger] wanted[i])));
        }
    }
}

} // verus!
