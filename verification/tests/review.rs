use iam_policy_autopilot::review::actions::{
    extract_actions, extract_explanations, extract_individual_action_groups, explanation_has_fas,
    ActionGroup, ExplainedOperation, Explanation, Explanations, GeneratePoliciesResult, IamPolicy,
    OperationSource, PolicyWithMetadata, Reason, Statement, FAS_DOCS_URL,
};
use iam_policy_autopilot::review::comment::{format_action_list, format_comment_body};
use iam_policy_autopilot::review::diff::{
    parse_added_lines, parse_added_lines_checked, parse_hunk_new_start, AddedLine, AddedLines,
};
use iam_policy_autopilot::review::generate::{
    compute_anchor_line, extract_sdk_call_lines, first_added_line, generate_review,
    supported_files, FileAnalysis, Language, Version,
};
use iam_policy_autopilot::sdk::{Location, SdkMethodCall, SdkMethodCallMetadata};
use iam_policy_autopilot::text_map::TextMap;

fn strings(v: &[&str]) -> Vec<String> {
    v.iter().map(|s| s.to_string()).collect()
}

#[test]
fn test_format_comment_body_added_only() {
    let added = strings(&["s3:PutObject", "s3:PutObjectAcl"]);
    let removed = Vec::new();
    let explanations = TextMap::new();
    let body = format_comment_body(&added, &removed, &explanations, &None);
    let expected = "\
⚠️ **New IAM permissions required by this change:**\n\
\n\
- `s3:PutObject`\n\
- `s3:PutObjectAcl`\n\
\n\
> These permissions were detected via static analysis of the added code.\n\
> Review carefully before granting.";
    assert_eq!(body, expected);
}

#[test]
fn test_format_comment_body_removed_only() {
    let added = Vec::new();
    let removed = strings(&["s3:GetObject"]);
    let explanations = TextMap::new();
    let body = format_comment_body(&added, &removed, &explanations, &None);
    let expected = "\
✅ **IAM permissions no longer required after this change:**\n\
\n\
- `s3:GetObject`";
    assert_eq!(body, expected);
}

#[test]
fn test_format_comment_body_with_explanation() {
    let added = strings(&["kms:GenerateDataKey"]);
    let removed = Vec::new();
    let mut explanations = TextMap::new();
    explanations.insert(
        "kms:GenerateDataKey".to_string(),
        format!("needed for [Forward Access Session]({}) permissions", FAS_DOCS_URL),
    );
    let body = format_comment_body(&added, &removed, &explanations, &None);
    let expected = format!(
        "⚠️ **New IAM permissions required by this change:**\n\n\
- `kms:GenerateDataKey` — needed for [Forward Access Session]({}) permissions\n\n\
> These permissions were detected via static analysis of the added code.\n\
> Review carefully before granting.",
        FAS_DOCS_URL
    );
    assert_eq!(body, expected);
}

#[test]
fn test_format_comment_body_both() {
    let added = strings(&["s3:PutObject"]);
    let removed = strings(&["s3:GetObject"]);
    let explanations = TextMap::new();
    let body = format_comment_body(&added, &removed, &explanations, &None);
    let expected = "\
⚠️ **New IAM permissions required by this change:**\n\
\n\
- `s3:PutObject`\n\
\n\
> These permissions were detected via static analysis of the added code.\n\
> Review carefully before granting.\n\
\n\
---\n\
\n\
✅ **IAM permissions no longer required after this change:**\n\
\n\
- `s3:GetObject`";
    assert_eq!(body, expected);
}

#[test]
fn test_format_comment_body_grouped_by_operation() {
    let added = strings(&["s3:GetObject", "s3:PutObject", "s3:PutObjectAcl"]);
    let removed = Vec::new();
    let explanations = TextMap::new();
    let groups = vec![
        ActionGroup {
            key: "s3.get_object(Bucket='b', Key='k')".to_string(),
            actions: strings(&["s3:GetObject"]),
        },
        ActionGroup {
            key: "s3.put_object(Bucket='b', Key='k', Body=b'')".to_string(),
            actions: strings(&["s3:PutObject", "s3:PutObjectAcl"]),
        },
    ];
    let body = format_comment_body(&added, &removed, &explanations, &Some(groups));
    let expected = "\
⚠️ **New IAM permissions required by this change:**\n\
\n\
`s3.get_object(Bucket='b', Key='k')`\n\
- `s3:GetObject`\n\
\n\
`s3.put_object(Bucket='b', Key='k', Body=b'')`\n\
- `s3:PutObject`\n\
- `s3:PutObjectAcl`\n\
\n\
> These permissions were detected via static analysis of the added code.\n\
> Review carefully before granting.";
    assert_eq!(body, expected);
}

#[test]
fn nothing_to_say_gives_an_empty_comment() {
    assert_eq!(format_comment_body(&Vec::new(), &Vec::new(), &TextMap::new(), &None), "");
}

#[test]
fn test_extract_actions_empty() {
    let result = GeneratePoliciesResult { policies: vec![], explanations: None };
    assert!(extract_actions(&result).is_empty());
}

#[test]
fn test_parse_added_lines_new_file() {
    let diff = "\
diff --git a/src/handler.py b/src/handler.py
new file mode 100644
index 0000000..abc1234
--- /dev/null
+++ b/src/handler.py
@@ -0,0 +1,3 @@
+import boto3
+s3 = boto3.client('s3')
+s3.put_object(Bucket='my-bucket', Key='my-key', Body=b'data')
";
    let result = parse_added_lines(diff);
    let lines = result.get("src/handler.py").expect("file not found");
    assert!(lines.contains(&1), "line 1 should be added");
    assert!(lines.contains(&2), "line 2 should be added");
    assert!(lines.contains(&3), "line 3 should be added");
}

#[test]
fn test_parse_added_lines_modification() {
    let diff = "\
diff --git a/src/handler.py b/src/handler.py
index abc1234..def5678 100644
--- a/src/handler.py
+++ b/src/handler.py
@@ -1,3 +1,3 @@
 import boto3
 s3 = boto3.client('s3')
-s3.get_object(Bucket='my-bucket', Key='my-key')
+s3.put_object(Bucket='my-bucket', Key='my-key', Body=b'data')
";
    let result = parse_added_lines(diff);
    let lines = result.get("src/handler.py").expect("file not found");
    assert!(!lines.contains(&1), "line 1 is context, not added");
    assert!(!lines.contains(&2), "line 2 is context, not added");
    assert!(lines.contains(&3), "line 3 should be added");
}

#[test]
fn test_parse_hunk_new_start() {
    assert_eq!(parse_hunk_new_start("@@ -0,0 +1,3 @@"), Some(1));
    assert_eq!(parse_hunk_new_start("@@ -1,3 +1,3 @@"), Some(1));
    assert_eq!(parse_hunk_new_start("@@ -10,5 +12,7 @@"), Some(12));
    assert_eq!(parse_hunk_new_start("@@ -1 +1 @@"), Some(1));
    assert_eq!(parse_hunk_new_start("@@ -1 @@"), None);
    assert_eq!(parse_hunk_new_start("@@ -1 +x @@"), None);
}

#[test]
fn line_numbers_that_do_not_fit_are_reported() {
    let diff = "+++ b/a.py\n@@ -1 +4294967295,2 @@\n+x\n+y\n";
    assert!(parse_added_lines_checked(diff).is_none());
    let diff = "+++ b/a.py\n@@ -1 +7,2 @@\n+x\n-z\n y\n+w\n";
    let added = parse_added_lines_checked(diff).unwrap();
    assert_eq!(added.of_file("a.py"), [7, 9]);
    assert!(added.get("b.py").is_none());
}

#[test]
fn three_plus_signs_do_not_count_as_added() {
    let diff = "+++ b/a.js\n@@ -1 +1,4 @@\n+let i = 0;\n+++i;\n+f(i);\n g();\n";
    let added = parse_added_lines(diff);
    assert_eq!(added.of_file("a.js"), [1, 3]);
}

fn policies(ids: &[(Option<&str>, &[&str])]) -> GeneratePoliciesResult {
    GeneratePoliciesResult {
        policies: ids
            .iter()
            .map(|(id, actions)| PolicyWithMetadata {
                policy: IamPolicy {
                    id: id.map(|s| s.to_string()),
                    statement: vec![Statement { action: strings(actions) }],
                },
            })
            .collect(),
        explanations: None,
    }
}

#[test]
fn actions_are_listed_once_and_in_order() {
    let result = policies(&[(None, &["s3:PutObject", "s3:GetObject"]), (None, &["s3:GetObject"])]);
    assert_eq!(extract_actions(&result), ["s3:GetObject", "s3:PutObject"]);
}

#[test]
fn actions_of_unchanged_files_need_no_comment() {
    let same = || Version::Analysed(policies(&[(None, &["s3:GetObject"])]));
    let other = || Version::Analysed(policies(&[(None, &["s3:PutObject"])]));
    let analysis = |base, head| FileAnalysis {
        path: "a.py".to_string(),
        base,
        head,
        sdk_lines: vec![3],
    };
    let added = AddedLines { lines: vec![AddedLine { file: "a.py".to_string(), line: 3 }] };
    assert!(generate_review(&vec![analysis(same(), same())], &added).is_empty());

    let failed = vec![analysis(same(), Version::Failed), analysis(Version::Failed, other())];
    assert!(generate_review(&failed, &added).is_empty());

    let deleted = generate_review(&vec![analysis(same(), Version::Missing)], &added);
    assert_eq!(deleted.len(), 1);
    assert!(deleted[0].body.contains("no longer required"));

    let comments = generate_review(&vec![analysis(same(), other())], &added);
    assert_eq!(comments.len(), 1);
    assert_eq!(comments[0].path, "a.py");
    assert_eq!(comments[0].line, 3);
    assert!(comments[0].body.contains("s3:PutObject"));
    assert!(comments[0].body.contains("s3:GetObject"));
}

#[test]
fn comments_stand_at_changed_calls() {
    assert_eq!(compute_anchor_line(&vec![4, 7, 9], &vec![7, 8, 9]), 7);
    assert_eq!(compute_anchor_line(&vec![4], &vec![9, 8]), 8);
    assert_eq!(compute_anchor_line(&vec![4], &vec![]), 1);
    assert_eq!(first_added_line(&vec![5, 3, 4]), 3);
    assert_eq!(first_added_line(&vec![]), 1);
}

fn call_at(line: usize) -> SdkMethodCall {
    SdkMethodCall {
        name: "GetObject".to_string(),
        possible_services: strings(&["s3"]),
        metadata: Some(SdkMethodCallMetadata::new(
            "x".to_string(),
            Location::new("a.py".to_string(), (line, 1), (line, 9)),
        )),
    }
}

#[test]
fn lines_of_calls_are_collected() {
    let lines = extract_sdk_call_lines(&vec![call_at(4), call_at(2)]);
    assert_eq!(lines, [2, 4]);
}

#[test]
fn files_are_told_by_their_extensions() {
    assert!(matches!(Language::from_path("x/a.py"), Some(Language::Python)));
    assert!(Language::from_path("README.md").is_none());
    let file = |p: &str| (p.to_string(), String::new());
    let found = supported_files(
        &vec![file("b.py"), file("a.md")],
        &vec![file("c.go"), file("b.py"), file("a.go")],
    );
    let names: Vec<&str> = found.iter().map(|f| f.0.as_str()).collect();
    assert_eq!(names, ["a.go", "b.py", "c.go"]);
    assert_eq!(found[0].1.as_str(), "go");
    assert_eq!(found[0].1.extension(), "go");
}

fn explained(sources: Vec<OperationSource>) -> Explanation {
    Explanation {
        reasons: vec![Reason {
            operations: sources.into_iter().map(|source| ExplainedOperation { source }).collect(),
        }],
    }
}

#[test]
fn forwarded_operations_are_explained() {
    let fas = explained(vec![
        OperationSource::Extracted,
        OperationSource::Fas("s3:PutObject".to_string()),
    ]);
    assert!(explanation_has_fas(&fas));
    assert!(!explanation_has_fas(&explained(vec![OperationSource::Provided])));
    let mut result = policies(&[]);
    result.explanations = Some(Explanations {
        explanation_for_action: vec![
            ("kms:Decrypt".to_string(), fas),
            ("s3:PutObject".to_string(), explained(vec![OperationSource::Extracted])),
        ],
    });
    let found = extract_explanations(&result);
    let text = found.get("kms:Decrypt").unwrap();
    assert_eq!(
        text,
        &format!("needed for [Forward Access Session]({}) permissions", FAS_DOCS_URL)
    );
    assert!(found.get("s3:PutObject").is_none());
    let list = format_action_list(&strings(&["kms:Decrypt", "s3:PutObject"]), &found);
    assert!(list.contains(&format!("- `kms:Decrypt` — {text}")));
    assert!(list.contains("- `s3:PutObject`"));
}

#[test]
fn actions_are_grouped_by_the_calls_that_need_them() {
    let among = strings(&["s3:GetObject", "s3:PutObject", "s3:PutObjectAcl"]);
    let result = policies(&[
        (Some("s3.put()"), &["s3:PutObjectAcl", "s3:PutObject", "kms:Decrypt"]),
        (Some("s3.get()"), &["s3:GetObject"]),
    ]);
    let groups = extract_individual_action_groups(&result, &among).unwrap();
    assert_eq!(
        groups,
        [
            ActionGroup { key: "s3.get()".to_string(), actions: strings(&["s3:GetObject"]) },
            ActionGroup {
                key: "s3.put()".to_string(),
                actions: strings(&["s3:PutObject", "s3:PutObjectAcl"]),
            },
        ]
    );
    let unnamed = policies(&[(Some("a"), &["s3:GetObject"]), (None, &["s3:PutObject"])]);
    assert!(extract_individual_action_groups(&unnamed, &among).is_none());
    let one = policies(&[(Some("a"), &["s3:GetObject"]), (Some("a"), &["s3:PutObject"])]);
    assert!(extract_individual_action_groups(&one, &among).is_none());
}
