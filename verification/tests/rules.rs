use document_library::classification::{
    apply_classification_rule_operation, change_classification_rules, plan_classification,
    preview_classification, resolve_target_collection, rule_matches,
    validate_classification_operation,
};
use document_library::models::{
    ClassificationPreviewRequest, ClassificationRule, ClassificationRuleInput, ClassificationRuleOperation,
    ClassificationRuleUpdate,
};

fn rule_input(name: &str, pattern: &str, tags: Vec<String>) -> ClassificationRuleInput {
    ClassificationRuleInput {
        name: name.to_string(),
        enabled: true,
        file_name_pattern: pattern.to_string(),
        file_type: None,
        source_directory: None,
        collection_id: None,
        tag_ids: tags,
    }
}

fn create(list: &[ClassificationRule], rule: ClassificationRuleInput, id: &str) -> Vec<ClassificationRule> {
    apply_classification_rule_operation(
        list,
        &ClassificationRuleOperation::Create { rule: rule.clone() },
        id.to_string(),
        &rule.collection_id.into_iter().collect(),
        &rule.tag_ids,
    )
    .unwrap()
}

#[test]
fn rules_keep_user_order_and_merged_tag_ids() {
    let tag_a = "tag-a".to_string();
    let tag_b = "tag-b".to_string();
    let tags = vec![tag_a.clone(), tag_b.clone()];
    let first = apply_classification_rule_operation(
        &[],
        &ClassificationRuleOperation::Create {
            rule: ClassificationRuleInput {
                name: "发票".to_string(),
                enabled: true,
                file_name_pattern: "发票".to_string(),
                file_type: Some("PDF".to_string()),
                source_directory: Some("C:\\QQ".to_string()),
                collection_id: None,
                tag_ids: vec![tag_a.clone(), tag_a.clone()],
            },
        },
        "rule-1".to_string(),
        &Vec::new(),
        &tags,
    )
    .unwrap();
    assert_eq!(first.len(), 1);
    assert_eq!(first[0].position, 1);
    assert_eq!(first[0].tag_ids, vec![tag_a.clone()]);

    let second = apply_classification_rule_operation(
        &first,
        &ClassificationRuleOperation::Create {
            rule: ClassificationRuleInput {
                name: "归档".to_string(),
                enabled: false,
                file_name_pattern: String::new(),
                file_type: None,
                source_directory: None,
                collection_id: None,
                tag_ids: Vec::new(),
            },
        },
        "rule-2".to_string(),
        &Vec::new(),
        &tags,
    )
    .unwrap();
    assert_eq!(second.len(), 2);
    assert_eq!(second[1].position, 2);
    assert!(!second[1].enabled);

    let reordered = apply_classification_rule_operation(
        &second,
        &ClassificationRuleOperation::Reorder {
            ordered_rule_ids: vec![second[1].id.clone(), second[0].id.clone()],
        },
        String::new(),
        &Vec::new(),
        &tags,
    )
    .unwrap();
    assert_eq!(reordered[0].id, second[1].id);
    assert_eq!(reordered[0].position, 1);
    assert_eq!(reordered[1].id, second[0].id);
    assert_eq!(reordered[1].position, 2);

    let disabled = apply_classification_rule_operation(
        &reordered,
        &ClassificationRuleOperation::SetEnabled {
            rule_id: reordered[0].id.clone(),
            enabled: true,
        },
        String::new(),
        &Vec::new(),
        &tags,
    )
    .unwrap();
    assert!(disabled[0].enabled);

    let updated = apply_classification_rule_operation(
        &disabled,
        &ClassificationRuleOperation::Update {
            rule: ClassificationRuleUpdate {
                id: disabled[0].id.clone(),
                input: ClassificationRuleInput {
                    name: "发票与票据".to_string(),
                    enabled: true,
                    file_name_pattern: "票据".to_string(),
                    file_type: Some("PDF".to_string()),
                    source_directory: None,
                    collection_id: None,
                    tag_ids: vec![tag_b.clone()],
                },
            },
        },
        String::new(),
        &Vec::new(),
        &tags,
    )
    .unwrap();
    assert_eq!(updated[0].name, "发票与票据");
    assert_eq!(updated[0].tag_ids, vec![tag_b.clone()]);
    assert!(updated[0].source_directory.is_none());

    let deleted = apply_classification_rule_operation(
        &updated,
        &ClassificationRuleOperation::Delete {
            rule_id: updated[0].id.clone(),
        },
        String::new(),
        &Vec::new(),
        &tags,
    )
    .unwrap();
    assert_eq!(deleted.len(), 1);
    assert_eq!(deleted[0].position, 2, "删除后不重排既有位置");
}

#[test]
fn the_first_rule_gives_the_collection_and_all_give_tags() {
    let mut first = rule_input("a", "报告", vec!["t1".to_string(), "t2".to_string()]);
    first.collection_id = Some("c1".to_string());
    let mut second = rule_input("b", "", vec!["t2".to_string(), "t3".to_string()]);
    second.collection_id = Some("c2".to_string());
    let list = create(&create(&[], first, "r1"), second, "r2");

    let plan = plan_classification(&list, "C:\\docs\\季度报告.PDF", &None, "inbox");
    assert_eq!(plan.collection_id, "c1");
    assert_eq!(plan.tag_ids, vec!["t1", "t2", "t3"]);
    assert_eq!(plan.matched_rule_ids, vec!["r1", "r2"]);

    let chosen = plan_classification(&list, "/docs/other.txt", &Some("mine".to_string()), "inbox");
    assert_eq!(chosen.collection_id, "mine");
    assert_eq!(chosen.matched_rule_ids, vec!["r2"]);
}

#[test]
fn disabled_rules_take_no_part_in_a_plan() {
    let mut rule = rule_input("a", "", vec!["t1".to_string()]);
    rule.enabled = false;
    rule.collection_id = Some("c1".to_string());
    let list = create(&[], rule, "r1");
    let plan = plan_classification(&list, "/docs/a.txt", &None, "inbox");
    assert_eq!(plan.collection_id, "inbox");
    assert!(plan.tag_ids.is_empty());
    assert!(plan.matched_rule_ids.is_empty());
}

#[test]
fn patterns_and_directories_ignore_case() {
    let mut rule = rule_input("a", " ÄPFEL ", Vec::new());
    rule.source_directory = Some("C:/Users/Me/".to_string());
    let list = create(&[], rule, "r1");
    assert!(rule_matches(&list[0], "c:\\users\\me\\x.txt", "grüne äpfel.txt", &Some("TXT".to_string())));
    assert!(!rule_matches(&list[0], "c:\\users\\melon\\x.txt", "äpfel.txt", &Some("TXT".to_string())));
    assert!(!rule_matches(&list[0], "c:\\users\\me\\x.txt", "birnen.txt", &Some("TXT".to_string())));
}

#[test]
fn the_type_condition_must_match() {
    let mut rule = rule_input("a", "", Vec::new());
    rule.file_type = Some("PDF".to_string());
    let list = create(&[], rule, "r1");
    assert!(rule_matches(&list[0], "/a.pdf", "a.pdf", &Some("PDF".to_string())));
    assert!(!rule_matches(&list[0], "/a.txt", "a.txt", &Some("TXT".to_string())));
    assert!(!rule_matches(&list[0], "/a", "a", &None));
}

#[test]
fn rules_must_name_things_that_exist() {
    let collections = vec!["c1".to_string()];
    let tags = vec!["t1".to_string()];
    let check = |rule: ClassificationRuleInput| {
        validate_classification_operation(
            &ClassificationRuleOperation::Create { rule },
            &collections,
            &tags,
        )
    };
    assert!(check(rule_input("a", "x", vec!["t1".to_string()])).is_ok());
    assert_eq!(check(rule_input("  ", "x", Vec::new())).unwrap_err().code(), "invalidCollection");
    assert_eq!(check(rule_input("a", " ", Vec::new())).unwrap_err().code(), "invalidCollection");
    assert_eq!(
        check(rule_input("a", "x", vec!["t2".to_string()])).unwrap_err().message(),
        "标签不存在：t2"
    );
    let mut unknown = rule_input("a", "x", Vec::new());
    unknown.collection_id = Some("c2".to_string());
    assert_eq!(check(unknown).unwrap_err().message(), "集合不存在：c2");
}

#[test]
fn a_missing_target_falls_back_to_the_inbox_with_a_notice() {
    let (id, notice) = resolve_target_collection(&Some("c1".to_string()), true);
    assert_eq!(id, "c1");
    assert!(notice.is_none());
    let (id, notice) = resolve_target_collection(&Some("gone".to_string()), false);
    assert_eq!(id, "inbox");
    assert!(notice.is_some());
}

#[test]
fn previews_tell_what_an_import_would_do() {
    let rules = create(&[], rule_input("PDF", "report", vec!["tag".to_string()]), "r1");
    let request = ClassificationPreviewRequest {
        paths: vec!["D:\\in\\Report.pdf".to_string(), "D:\\in\\note.xyz".to_string()],
        target_collection_id: Some("target".to_string()),
    };
    let gone = preview_classification(&rules, &request, false, "inbox");
    assert_eq!(gone.items.len(), 2);
    let plan = plan_classification(&rules, "D:\\in\\Report.pdf", &None, "inbox");
    assert_eq!(gone.items[0].collection_id, plan.collection_id);
    assert_eq!(gone.items[0].tag_ids, plan.tag_ids);
    assert_eq!(gone.items[0].matched_rule_ids, vec!["r1".to_string()]);
    assert_eq!(gone.items[0].file_type.as_deref(), Some("PDF"));
    assert_eq!(gone.items[1].file_type, None);
    assert_eq!(gone.items[1].collection_id, "inbox");
    let kept = preview_classification(&rules, &request, true, "inbox");
    assert_eq!(kept.items[1].collection_id, "target");
}

#[test]
fn rules_refer_to_records_that_are_there() {
    let list = create(&[], rule_input("a", "x", Vec::new()), "r1");
    let (collections, tags) = (vec!["c1".to_string()], vec!["t1".to_string()]);
    let input = |collection: Option<&str>, tags: &[&str]| ClassificationRuleInput {
        collection_id: collection.map(str::to_string),
        ..rule_input("b", "y", tags.iter().map(|tag| tag.to_string()).collect())
    };
    let update = |id: &str, input: ClassificationRuleInput| ClassificationRuleOperation::Update {
        rule: ClassificationRuleUpdate { id: id.to_string(), input },
    };
    let apply = |operation: ClassificationRuleOperation| {
        apply_classification_rule_operation(&list, &operation, "r2".to_string(), &collections, &tags)
    };
    let create_rule = |rule: ClassificationRuleInput| apply(ClassificationRuleOperation::Create { rule });
    let error = create_rule(input(None, &["t1", "gone"])).unwrap_err();
    assert_eq!(error.code(), "database");
    assert_eq!(error.message(), "资料库数据库错误：FOREIGN KEY constraint failed");
    assert_eq!(create_rule(input(Some("gone"), &[])).unwrap_err().code(), "database");
    assert_eq!(create_rule(input(Some("c1"), &["t1"])).unwrap().len(), 2);

    assert_eq!(apply(update("r1", input(None, &["gone"]))).unwrap_err().code(), "database");
    assert_eq!(apply(update("r1", input(Some("gone"), &[]))).unwrap_err().code(), "database");
    assert_eq!(apply(update("r1", input(Some("c1"), &["t1"]))).unwrap()[0].name, "b");

    assert_eq!(apply(update("gone", input(None, &["t1"]))).unwrap_err().code(), "database");
    assert_eq!(apply(update("gone", input(None, &[]))).unwrap(), list);
    assert_eq!(apply(update("gone", input(Some("gone"), &[]))).unwrap(), list);

    let change = |operation: &ClassificationRuleOperation| {
        change_classification_rules(&list, operation, "r2".to_string(), &collections, &tags)
    };
    assert_eq!(change(&update("r1", input(None, &["t1"]))).unwrap()[0].name, "b");
    assert_eq!(change(&update("gone", input(None, &["t1"]))).unwrap_err().code(), "database");
    assert_eq!(
        change(&update("gone", input(None, &["t2"]))).unwrap_err().message(),
        "标签不存在：t2"
    );
}
