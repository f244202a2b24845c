use iam_policy_autopilot::json::JsonValue;
use iam_policy_autopilot::policy_checker::{
    action_matches_pattern, format_conditions, PolicyChecker, PolicyDocument, RawStatement,
    StatementOrVec, StringOrVec,
};
use serde_json::Value;

fn json(v: &Value) -> JsonValue {
    match v {
        Value::Null => JsonValue::Null,
        Value::Bool(b) => JsonValue::Bool(*b),
        Value::Number(n) => JsonValue::Number(n.to_string()),
        Value::String(s) => JsonValue::Text(s.clone()),
        Value::Array(a) => JsonValue::List(a.iter().map(json).collect()),
        Value::Object(o) => {
            JsonValue::Object(o.iter().map(|(k, v)| (k.clone(), json(v))).collect())
        }
    }
}

fn one_or_more(v: &Value) -> StringOrVec {
    match v {
        Value::String(s) => StringOrVec::Single(s.clone()),
        Value::Array(a) => {
            StringOrVec::Multiple(a.iter().map(|s| s.as_str().unwrap().to_string()).collect())
        }
        _ => panic!("neither a text nor a list"),
    }
}

fn statement(s: &Value) -> RawStatement {
    RawStatement {
        effect: s["Effect"].as_str().unwrap().to_string(),
        action: one_or_more(&s["Action"]),
        resource: one_or_more(&s["Resource"]),
        condition: s.get("Condition").map(json),
    }
}

fn checker(text: &str) -> PolicyChecker {
    let v: Value = serde_json::from_str(text).unwrap();
    let statement = match v["Statement"].as_array() {
        Some(list) => StatementOrVec::Multiple(list.iter().map(statement).collect()),
        None => StatementOrVec::Single(Box::new(statement(&v["Statement"]))),
    };
    PolicyChecker::from_document(&PolicyDocument { statement })
}

#[test]
fn statements_that_do_not_count() {
    let s = r#"{"Effect": "Allow", "Action": "s3:Get*", "Resource": "arn:aws:s3:::b"}"#;
    let other = r#"{"Effect": "allow", "Action": "*", "Resource": "*"}"#;
    let listed = checker(&format!(r#"{{"Statement": [{s}]}}"#));
    let alone = checker(&format!(r#"{{"Statement": {s}}}"#));
    let more = checker(&format!(r#"{{"Statement": [{other}, {s}, {other}]}}"#));
    for action in ["s3:GetObject", "s3:PutObject", "s3:getObject"] {
        let status = listed.check_action(action);
        assert_eq!(status.allowed, action == "s3:GetObject");
        assert_eq!(alone.check_action(action), status);
        assert_eq!(more.check_action(action), status);
    }
}

fn sample_policy() -> &'static str {
    r#"{
        "Version": "2012-10-17",
        "Statement": [
            {
                "Effect": "Allow",
                "Action": ["s3:GetObject", "s3:PutObject"],
                "Resource": "arn:aws:s3:::my-bucket/*"
            },
            {
                "Effect": "Allow",
                "Action": "kms:Decrypt",
                "Resource": "*",
                "Condition": {
                    "StringEquals": {
                        "kms:ViaService": "s3.us-east-1.amazonaws.com"
                    }
                }
            },
            {
                "Effect": "Allow",
                "Action": "dynamodb:*",
                "Resource": "*"
            },
            {
                "Effect": "Deny",
                "Action": "s3:DeleteObject",
                "Resource": "*"
            }
        ]
    }"#
}

#[test]
fn test_unconditionally_allowed() {
    let status = checker(sample_policy()).check_action("dynamodb:PutItem");
    assert!(status.is_fully_allowed());
}

#[test]
fn test_missing_action() {
    let status = checker(sample_policy()).check_action("sqs:SendMessage");
    assert!(status.is_missing());
}

#[test]
fn test_denied_action() {
    let status = checker(sample_policy()).check_action("s3:DeleteObject");
    assert!(status.denied);
}

#[test]
fn test_conditional_action() {
    let status = checker(sample_policy()).check_action("kms:Decrypt");
    assert!(status.allowed);
    assert!(!status.conditions.is_empty());
    assert!(status.conditions[0].contains("kms:ViaService"));
    assert_eq!(
        status.conditions[0],
        "StringEquals: kms:ViaService = s3.us-east-1.amazonaws.com"
    );
    assert!(!status.is_fully_allowed());
}

#[test]
fn test_resource_restricted() {
    let status = checker(sample_policy()).check_action("s3:GetObject");
    assert!(status.allowed);
    assert!(!status.restricted_resources.is_empty());
    assert!(status.restricted_resources[0].contains("my-bucket"));
}

#[test]
fn test_both_conditional_and_restricted() {
    let policy = r#"{
        "Version": "2012-10-17",
        "Statement": [{
            "Effect": "Allow",
            "Action": "s3:PutObject",
            "Resource": "arn:aws:s3:::prod-bucket/*",
            "Condition": { "StringEquals": { "s3:x-amz-acl": "bucket-owner-full-control" } }
        }]
    }"#;
    let status = checker(policy).check_action("s3:PutObject");
    assert!(status.allowed);
    assert!(!status.conditions.is_empty());
    assert!(!status.restricted_resources.is_empty());
}

#[test]
fn patterns_match_whole_actions() {
    assert!(action_matches_pattern("s3:GetObject", "*"));
    assert!(action_matches_pattern("s3:GetObject", "s3:Get*"));
    assert!(action_matches_pattern("s3:GetObject", "s3:Get?bject"));
    assert!(action_matches_pattern("s3:GetObject", "s3:*Obj*t"));
    assert!(action_matches_pattern("s3:GetObject", "s3:GetObject"));
    assert!(!action_matches_pattern("s3:GetObject", "s3:Get"));
    assert!(!action_matches_pattern("s3:GetObject", "s3:GetObject?"));
    assert!(!action_matches_pattern("s3:GetObject", ""));
}

#[test]
fn conditions_of_other_shapes_have_no_text() {
    assert!(format_conditions(&JsonValue::Null).is_empty());
}
