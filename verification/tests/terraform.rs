use iam_policy_autopilot::errors::ExtractorError;
use iam_policy_autopilot::extraction::extract_from_plans;
use iam_policy_autopilot::input_kind::{
    classify_files, classify_inputs, ClassifiedInputs, IacFormat, InputFile,
};
use iam_policy_autopilot::json::JsonValue;
use iam_policy_autopilot::language::Language;
use iam_policy_autopilot::library_model::{
    CallPattern, CallPatternKey, CallType, ExternalLibraryModel, SdkOperationMapping,
};
use iam_policy_autopilot::terraform::crud_map::{
    CrudMap, CrudSlot, CrudSlots, ResourceEntry, TagsInfo,
};
use iam_policy_autopilot::terraform::mapper::{map_plan, plan_to_sdk_calls, MappedPlan};
use iam_policy_autopilot::terraform::model_index::{ModelIndex, ModelIndexError};
use iam_policy_autopilot::terraform::plan::{
    extract_name_prefix, fields_look_like_plan, looks_like_plan, planned_resources,
    slots_for_actions, PlannedResource, RawResourceChange,
};
use iam_policy_autopilot::terraform::symbols::handler_key;
use iam_policy_autopilot::versions::get_terraform_model_version;
use serde_json::Value;

const PFX: &str = "github.com/hashicorp/terraform-provider-aws/internal/service/";

fn key(module: &str, class: Option<&str>, function: &str) -> CallPatternKey {
    CallPatternKey {
        module: module.to_string(),
        class_name: class.map(|s| s.to_string()),
        function_name: function.to_string(),
    }
}

#[test]
fn handler_key_matches_model_join_triple() {
    let check = |suffix: &str, module: &str, class: Option<&str>, function: &str| {
        assert_eq!(
            handler_key(&format!("{PFX}{suffix}")).unwrap(),
            key(module, class, function)
        );
    };
    check(
        "accessanalyzer.resourceAnalyzerCreate",
        "accessanalyzer",
        None,
        "resourceAnalyzerCreate",
    );
    check(
        "sqs.(*queueAttributeHandler).Upsert-fm",
        "sqs",
        Some("queueAttributeHandler"),
        "Upsert",
    );
    check("sqs.(*queueAttributeHandler).Read-fm", "sqs", Some("queueAttributeHandler"), "Read");
    check(
        "glue.resourceResourcePolicy.resourceResourcePolicyPut.func1",
        "glue",
        None,
        "resourceResourcePolicyPut",
    );
    check("s3.(*servicePackage).ListTags", "s3", Some("servicePackage"), "ListTags");
    check("lambda.(*servicePackage).UpdateTags", "lambda", Some("servicePackage"), "UpdateTags");
}

#[test]
fn handler_key_rejects_non_service_symbols() {
    let provider = "github.com/hashicorp/terraform-provider-aws/internal/provider.something";
    assert_eq!(handler_key(provider), None);
    assert_eq!(handler_key("some/other/path.func"), None);
    assert_eq!(handler_key(&format!("{PFX}s3/sub.func")), None);
    assert_eq!(handler_key(&format!("{PFX}.func")), None);
    assert_eq!(handler_key(&format!("{PFX}s3.")), None);
    assert_eq!(handler_key(&format!("{PFX}s3.-fm")), None);
    assert_eq!(handler_key(&format!("{PFX}s3")), None);
}

fn optional(v: &Value, k: &str) -> Option<String> {
    v.get(k).and_then(|s| s.as_str()).map(|s| s.to_string())
}

fn crud_map(text: &str) -> CrudMap {
    let v: Value = serde_json::from_str(text).unwrap();
    CrudMap::from_entries(
        v.as_array()
            .unwrap()
            .iter()
            .map(|e| ResourceEntry {
                resource_type: optional(e, "resource_type").unwrap(),
                create: optional(e, "create"),
                read: optional(e, "read"),
                update: optional(e, "update"),
                delete: optional(e, "delete"),
                tags: e.get("tags").map(|t| TagsInfo {
                    list_tags_symbol: optional(t, "list_tags_symbol"),
                    update_tags_symbol: optional(t, "update_tags_symbol"),
                }),
            })
            .collect(),
    )
}

fn model(text: &str) -> ExternalLibraryModel {
    let v: Value = serde_json::from_str(text).unwrap();
    ExternalLibraryModel {
        library_name: optional(&v, "library_name").unwrap(),
        language: Language::try_from_str(v["language"].as_str().unwrap()).unwrap(),
        version: optional(&v, "version"),
        call_patterns: v["call_patterns"]
            .as_array()
            .unwrap()
            .iter()
            .map(|p| CallPattern {
                module: optional(p, "module_path").unwrap(),
                class_name: optional(p, "class_name"),
                function_name: optional(p, "function_name").unwrap(),
                call_type: match p["call_type"].as_str().unwrap() {
                    "function" => CallType::Function,
                    "static_method" => CallType::StaticMethod,
                    _ => CallType::InstanceMethod,
                },
                sdk_operations: p["sdk_operations"]
                    .as_array()
                    .unwrap()
                    .iter()
                    .map(|o| op(o["service"].as_str().unwrap(), o["operation"].as_str().unwrap()))
                    .collect(),
            })
            .collect(),
    }
}

fn index(text: &str) -> ModelIndex {
    ModelIndex::from_model(model(text)).unwrap()
}

const SAMPLE: &str = r#"[
    {
        "resource_type": "aws_s3_bucket",
        "create": "pkg/internal/service/s3.resourceBucketCreate",
        "read": "pkg/internal/service/s3.resourceBucketRead",
        "update": "pkg/internal/service/s3.resourceBucketUpdate",
        "delete": "pkg/internal/service/s3.resourceBucketDelete"
    },
    {
        "resource_type": "aws_immutable_thing",
        "create": "pkg/internal/service/x.resourceThingCreate",
        "read": "pkg/internal/service/x.resourceThingRead",
        "delete": "pkg/internal/service/x.resourceThingDelete"
    }
]"#;

#[test]
fn handler_returns_symbol_for_each_slot() {
    let map = crud_map(SAMPLE);
    let entry = map.get("aws_s3_bucket").unwrap();
    let handler = |slot| entry.handler(slot).map(|s| s.as_str());
    assert_eq!(handler(CrudSlot::Create), Some("pkg/internal/service/s3.resourceBucketCreate"));
    assert_eq!(handler(CrudSlot::Read), Some("pkg/internal/service/s3.resourceBucketRead"));
    assert_eq!(handler(CrudSlot::Update), Some("pkg/internal/service/s3.resourceBucketUpdate"));
    assert_eq!(handler(CrudSlot::Delete), Some("pkg/internal/service/s3.resourceBucketDelete"));
    assert_eq!(entry.handler_symbols().len(), 4);
}

#[test]
fn missing_update_slot_is_none() {
    let map = crud_map(SAMPLE);
    let entry = map.get("aws_immutable_thing").unwrap();
    assert_eq!(entry.handler(CrudSlot::Update), None);
    assert_eq!(
        entry.handler(CrudSlot::Create).map(|s| s.as_str()),
        Some("pkg/internal/service/x.resourceThingCreate")
    );
}

#[test]
fn unknown_resource_type_is_none() {
    assert_eq!(crud_map(SAMPLE).get("aws_does_not_exist"), None);
}

#[test]
fn untagged_entry_has_no_tag_symbols() {
    let map = crud_map(SAMPLE);
    let entry = map.get("aws_s3_bucket").unwrap();
    assert_eq!(entry.tags, None);
    assert_eq!(entry.list_tags_symbol(), None);
    assert_eq!(entry.update_tags_symbol(), None);
}

#[test]
fn tagged_entry_exposes_tag_symbols() {
    let json = r#"[{
        "resource_type": "aws_bucket_like",
        "read": "pkg/internal/service/s3.resourceBucketRead",
        "tags": {
            "resource_type": "Bucket",
            "identifier_attribute": "bucket",
            "list_tags_symbol": "pkg/internal/service/s3.(*servicePackage).ListTags",
            "update_tags_symbol": "pkg/internal/service/s3.(*servicePackage).UpdateTags"
        }
    }]"#;
    let map = crud_map(json);
    let entry = map.get("aws_bucket_like").unwrap();
    assert_eq!(
        entry.list_tags_symbol().map(|s| s.as_str()),
        Some("pkg/internal/service/s3.(*servicePackage).ListTags")
    );
    assert_eq!(
        entry.update_tags_symbol().map(|s| s.as_str()),
        Some("pkg/internal/service/s3.(*servicePackage).UpdateTags")
    );
    assert_eq!(entry.handler_symbols().len(), 3);
}

#[test]
fn later_entries_replace_earlier_ones() {
    let map = crud_map(
        r#"[{ "resource_type": "aws_x", "create": "a" }, { "resource_type": "aws_x", "read": "b" }]"#,
    );
    let entry = map.get("aws_x").unwrap();
    assert_eq!(entry.handler(CrudSlot::Create), None);
    assert_eq!(entry.handler(CrudSlot::Read).map(|s| s.as_str()), Some("b"));
}

const MODEL_SAMPLE: &str = r#"{
    "library_name": "terraform-provider-aws",
    "language": "go",
    "version": "v6.34.0",
    "call_patterns": [
        {
            "module_path": "accessanalyzer",
            "class_name": null,
            "function_name": "resourceAnalyzerCreate",
            "call_type": "function",
            "sdk_operations": [
                { "service": "accessanalyzer", "operation": "CreateAnalyzer" },
                { "service": "accessanalyzer", "operation": "GetAnalyzer" }
            ]
        },
        {
            "module_path": "sqs",
            "class_name": "queueAttributeHandler",
            "function_name": "Upsert",
            "call_type": "instance_method",
            "sdk_operations": [
                { "service": "sqs", "operation": "SetQueueAttributes" }
            ]
        }
    ]
}"#;

fn op(service: &str, operation: &str) -> SdkOperationMapping {
    SdkOperationMapping { service: service.to_string(), operation: operation.to_string() }
}

#[test]
fn indexes_free_function_handler() {
    let index = index(MODEL_SAMPLE);
    let key = key("accessanalyzer", None, "resourceAnalyzerCreate");
    assert_eq!(
        index.operations(&key),
        Some(vec![op("accessanalyzer", "CreateAnalyzer"), op("accessanalyzer", "GetAnalyzer")])
    );
}

#[test]
fn indexes_method_handler_by_class_and_method() {
    let index = index(MODEL_SAMPLE);
    let key = key("sqs", Some("queueAttributeHandler"), "Upsert");
    assert_eq!(index.operations(&key), Some(vec![op("sqs", "SetQueueAttributes")]));
}

#[test]
fn unknown_handler_is_none() {
    let index = index(MODEL_SAMPLE);
    assert_eq!(index.operations(&key("s3", None, "resourceBucketCreate")), None);
}

#[test]
fn exposes_version() {
    assert_eq!(index(MODEL_SAMPLE).version().as_deref(), Some("v6.34.0"));
}

#[test]
fn rejects_wrong_identity() {
    let library = model(r#"{"library_name":"wrong","language":"go","call_patterns":[]}"#);
    let language = model(
        r#"{"library_name":"terraform-provider-aws","language":"python","call_patterns":[]}"#,
    );
    let e = ModelIndex::from_model(library).unwrap_err();
    assert!(matches!(e, ModelIndexError::WrongLibrary(_)));
    assert_eq!(
        e.describe(),
        "Unexpected terraform model library_name: \"wrong\" (expected \"terraform-provider-aws\")"
    );
    let e = ModelIndex::from_model(language).unwrap_err();
    assert!(matches!(e, ModelIndexError::WrongLanguage(Language::Python)));
    assert_eq!(e.describe(), "Unexpected terraform model language: Python (expected Go)");
}

#[test]
fn patterns_of_one_handler_add_up() {
    let mut twice = model(MODEL_SAMPLE);
    let mut again = twice.call_patterns[1].clone();
    again.sdk_operations = vec![op("sqs", "GetQueueAttributes")];
    twice.call_patterns.push(again);
    let index = ModelIndex::from_model(twice).unwrap();
    let key = key("sqs", Some("queueAttributeHandler"), "Upsert");
    assert_eq!(
        index.operations(&key),
        Some(vec![op("sqs", "SetQueueAttributes"), op("sqs", "GetQueueAttributes")])
    );
}

#[test]
fn the_version_of_the_model_is_told() {
    let version = get_terraform_model_version(Ok(model(MODEL_SAMPLE))).unwrap();
    assert_eq!(version.as_deref(), Some("v6.34.0"));
    let e = get_terraform_model_version(Err("expected value".to_string())).unwrap_err();
    assert!(matches!(
        e,
        ExtractorError::Configuration { message, source: None }
            if message == "Failed to read embedded Terraform model version: Failed to parse \
                           terraform-model.json: expected value"
    ));
    let mut other = model(MODEL_SAMPLE);
    other.language = Language::Java;
    assert!(get_terraform_model_version(Ok(other)).is_err());
}

fn slots(items: &[CrudSlot]) -> CrudSlots {
    CrudSlots {
        create: items.contains(&CrudSlot::Create),
        read: items.contains(&CrudSlot::Read),
        update: items.contains(&CrudSlot::Update),
        delete: items.contains(&CrudSlot::Delete),
    }
}

#[test]
fn slots_for_actions_maps_each_action_set() {
    let check = |actions: &[&str], expected: &[CrudSlot]| {
        let actions: Vec<String> = actions.iter().map(|s| s.to_string()).collect();
        assert_eq!(slots_for_actions(&actions), slots(expected));
    };
    check(&["create"], &[CrudSlot::Read, CrudSlot::Create]);
    check(&["update"], &[CrudSlot::Read, CrudSlot::Update]);
    check(&["delete"], &[CrudSlot::Read, CrudSlot::Delete]);
    check(&["create", "delete"], &[CrudSlot::Read, CrudSlot::Create, CrudSlot::Delete]);
    check(&["delete", "create"], &[CrudSlot::Read, CrudSlot::Create, CrudSlot::Delete]);
    check(&["no-op"], &[CrudSlot::Read]);
    check(&["read"], &[CrudSlot::Read]);
}

fn to_json(v: &Value) -> JsonValue {
    match v {
        Value::Null => JsonValue::Null,
        Value::Bool(b) => JsonValue::Bool(*b),
        Value::Number(n) => JsonValue::Number(n.to_string()),
        Value::String(s) => JsonValue::Text(s.clone()),
        Value::Array(a) => JsonValue::List(a.iter().map(to_json).collect()),
        Value::Object(o) => {
            JsonValue::Object(o.iter().map(|(k, v)| (k.clone(), to_json(v))).collect())
        }
    }
}

fn changes(text: &str) -> Vec<RawResourceChange> {
    let v: Value = serde_json::from_str(text).unwrap();
    v["resource_changes"]
        .as_array()
        .unwrap()
        .iter()
        .map(|c| RawResourceChange {
            address: optional(c, "address").unwrap(),
            resource_type: optional(c, "type").unwrap(),
            mode: optional(c, "mode"),
            actions: c["change"]["actions"]
                .as_array()
                .unwrap()
                .iter()
                .map(|a| a.as_str().unwrap().to_string())
                .collect(),
            after: to_json(&c["change"]["after"]),
        })
        .collect()
}

#[test]
fn parses_managed_resource_change() {
    let json = r#"{
        "resource_changes": [
            {
                "address": "aws_s3_bucket.example",
                "type": "aws_s3_bucket",
                "mode": "managed",
                "change": { "actions": ["create"], "after": { "name": "my-bucket" } }
            }
        ]
    }"#;
    let resources = planned_resources(&changes(json));
    assert_eq!(
        resources,
        vec![PlannedResource {
            address: "aws_s3_bucket.example".to_string(),
            resource_type: "aws_s3_bucket".to_string(),
            slots: slots(&[CrudSlot::Read, CrudSlot::Create]),
            name_prefix: None,
        }]
    );
}

const MIXED_PLAN: &str = r#"{
    "resource_changes": [
        { "address": "data.aws_ami.x", "type": "aws_ami", "mode": "data",
          "change": { "actions": ["read"], "after": {} } },
        { "address": "random_id.x", "type": "random_id", "mode": "managed",
          "change": { "actions": ["create"], "after": {} } },
        { "address": "aws_s3_bucket.x", "type": "aws_s3_bucket", "mode": "managed",
          "change": { "actions": ["create"], "after": {} } }
    ]
}"#;

#[test]
fn skips_data_sources_and_non_aws_resources() {
    let resources = planned_resources(&changes(MIXED_PLAN));
    let types: Vec<&str> = resources.iter().map(|r| r.resource_type.as_str()).collect();
    assert_eq!(types, vec!["aws_s3_bucket"]);
}

#[test]
fn extracts_name_prefix() {
    let check = |text: &str, expected: Option<&str>| {
        let after: Value = serde_json::from_str(text).unwrap();
        assert_eq!(extract_name_prefix(&to_json(&after)).as_deref(), expected);
    };
    check(r#"{ "name_prefix": "my-bucket-" }"#, Some("my-bucket-"));
    check(r#"{ "name": "final-name", "name_prefix": "my-bucket-" }"#, None);
    check(r#"{ "name": null, "name_prefix": "my-bucket-" }"#, Some("my-bucket-"));
    check(r#"{ "other": "x" }"#, None);
    check(r#"{ "name_prefix": "" }"#, None);
    check(r#"{ "name_prefix": 7 }"#, None);
    check("null", None);
}

#[test]
fn empty_plan_yields_no_resources() {
    assert_eq!(planned_resources(&changes(r#"{ "resource_changes": [] }"#)), vec![]);
}

#[test]
fn looks_like_plan_detects_plan_json() {
    let check = |contents: &str, expected: bool| {
        assert_eq!(looks_like_plan(contents.as_bytes()), expected, "{contents}");
    };
    check(r#"{ "format_version": "1.2", "resource_changes": [] }"#, true);
    check(
        r#"{ "format_version": "1.2", "resource_changes": [{"type":"aws_s3_bucket"}] }"#,
        true,
    );
    check(r#"{ "format_version": "4", "values": {} }"#, false);
    check(r#"{ "resource_changes": [] }"#, false);
    check(r#"{ "format_version": "1.2", "resource_changes": {} }"#, false);
    check(r#"{ "name": "my-config", "settings": {} }"#, false);
    check("package main", false);
    check("[]", false);
    let field = |k: &str, list: bool| (k.to_string(), list);
    assert!(fields_look_like_plan(&vec![
        field("resource_changes", true),
        field("format_version", false),
    ]));
    assert!(!fields_look_like_plan(&vec![
        field("resource_changes", false),
        field("format_version", true),
    ]));
}

fn crud_map_json(create: &str, read: &str) -> String {
    format!(
        r#"[{{
            "resource_type": "aws_accessanalyzer_analyzer",
            "create": "{PFX}{create}",
            "read": "{PFX}{read}"
        }}]"#
    )
}

const MODEL_JSON: &str = r#"{
    "library_name": "terraform-provider-aws",
    "language": "go",
    "version": "v6.34.0",
    "call_patterns": [
        {
            "module_path": "accessanalyzer",
            "function_name": "resourceAnalyzerCreate",
            "call_type": "function",
            "sdk_operations": [
                { "service": "accessanalyzer", "operation": "CreateAnalyzer" },
                { "service": "accessanalyzer", "operation": "GetAnalyzer" }
            ]
        },
        {
            "module_path": "accessanalyzer",
            "function_name": "resourceAnalyzerRead",
            "call_type": "function",
            "sdk_operations": [
                { "service": "accessanalyzer", "operation": "GetAnalyzer" }
            ]
        }
    ]
}"#;

fn build(crud_json: &str) -> (CrudMap, ModelIndex) {
    (crud_map(crud_json), index(MODEL_JSON))
}

fn named(kind: &str, items: &[CrudSlot]) -> PlannedResource {
    PlannedResource {
        address: format!("{kind}.example"),
        resource_type: kind.to_string(),
        slots: slots(items),
        name_prefix: None,
    }
}

fn resource(items: &[CrudSlot]) -> PlannedResource {
    named("aws_accessanalyzer_analyzer", items)
}

fn pairs(mapped: &MappedPlan) -> Vec<(String, String)> {
    let mut v: Vec<(String, String)> = mapped
        .calls
        .iter()
        .map(|c| (c.possible_services[0].clone(), c.name.clone()))
        .collect();
    v.sort();
    v
}

fn pair(service: &str, op: &str) -> (String, String) {
    (service.to_string(), op.to_string())
}

#[test]
fn create_emits_create_handler_ops_and_dedupes() {
    let crud = crud_map_json(
        "accessanalyzer.resourceAnalyzerCreate",
        "accessanalyzer.resourceAnalyzerRead",
    );
    let (crud_map, model) = build(&crud);
    let mapped =
        map_plan(&vec![resource(&[CrudSlot::Create, CrudSlot::Read])], &crud_map, &model);
    assert_eq!(
        pairs(&mapped),
        vec![pair("accessanalyzer", "CreateAnalyzer"), pair("accessanalyzer", "GetAnalyzer")]
    );
    assert_eq!(mapped.warnings, Vec::<String>::new());
    assert!(mapped.calls.iter().all(|c| c.metadata.is_none()));
}

#[test]
fn read_only_change_emits_read_handler_ops() {
    let crud = crud_map_json(
        "accessanalyzer.resourceAnalyzerCreate",
        "accessanalyzer.resourceAnalyzerRead",
    );
    let (crud_map, model) = build(&crud);
    let mapped = map_plan(&vec![resource(&[CrudSlot::Read])], &crud_map, &model);
    assert_eq!(pairs(&mapped), vec![pair("accessanalyzer", "GetAnalyzer")]);
}

#[test]
fn unknown_resource_type_warns_and_emits_nothing() {
    let crud = crud_map_json(
        "accessanalyzer.resourceAnalyzerCreate",
        "accessanalyzer.resourceAnalyzerRead",
    );
    let (crud_map, model) = build(&crud);
    let unknown = PlannedResource {
        address: "aws_unmodeled_thing.x".to_string(),
        resource_type: "aws_unmodeled_thing".to_string(),
        slots: slots(&[CrudSlot::Read, CrudSlot::Create]),
        name_prefix: None,
    };
    let mapped = map_plan(&vec![unknown], &crud_map, &model);
    assert_eq!(mapped.calls, Vec::new());
    assert_eq!(mapped.warnings.len(), 1);
    assert_eq!(
        mapped.warnings[0],
        "Resource 'aws_unmodeled_thing.x' (aws_unmodeled_thing) has no entry in the Terraform \
         CRUD map; emitting no actions for it"
    );
}

#[test]
fn handler_with_no_model_pattern_warns() {
    let crud = crud_map_json(
        "accessanalyzer.resourceMysteryCreate",
        "accessanalyzer.resourceMysteryRead",
    );
    let (crud_map, model) = build(&crud);
    let r = PlannedResource {
        address: "aws_accessanalyzer_analyzer.x".to_string(),
        resource_type: "aws_accessanalyzer_analyzer".to_string(),
        slots: slots(&[CrudSlot::Read, CrudSlot::Create]),
        name_prefix: None,
    };
    let mapped = map_plan(&vec![r], &crud_map, &model);
    assert_eq!(mapped.calls, Vec::new());
    assert_eq!(mapped.warnings.len(), 1);
    assert_eq!(
        mapped.warnings[0],
        "Resource 'aws_accessanalyzer_analyzer.x' (aws_accessanalyzer_analyzer) is in the CRUD \
         map but no handler resolved to any modeled SDK operations; emitting no actions for it"
    );
}

const TAGGED_CRUD_JSON: &str = r#"[{
    "resource_type": "aws_bucket_like",
    "create": "github.com/hashicorp/terraform-provider-aws/internal/service/s3.resourceBucketCreate",
    "read": "github.com/hashicorp/terraform-provider-aws/internal/service/s3.resourceBucketRead",
    "delete": "github.com/hashicorp/terraform-provider-aws/internal/service/s3.resourceBucketDelete",
    "tags": {
        "resource_type": "Bucket",
        "identifier_attribute": "bucket",
        "list_tags_symbol": "github.com/hashicorp/terraform-provider-aws/internal/service/s3.(*servicePackage).ListTags",
        "update_tags_symbol": "github.com/hashicorp/terraform-provider-aws/internal/service/s3.(*servicePackage).UpdateTags"
    }
}]"#;

const TAGGED_MODEL_JSON: &str = r#"{
    "library_name": "terraform-provider-aws",
    "language": "go",
    "version": "v6.34.0",
    "call_patterns": [
        { "module_path": "s3", "function_name": "resourceBucketCreate", "call_type": "function",
          "sdk_operations": [ { "service": "s3", "operation": "CreateBucket" } ] },
        { "module_path": "s3", "function_name": "resourceBucketRead", "call_type": "function",
          "sdk_operations": [ { "service": "s3", "operation": "GetBucketAcl" } ] },
        { "module_path": "s3", "function_name": "resourceBucketDelete", "call_type": "function",
          "sdk_operations": [ { "service": "s3", "operation": "DeleteBucket" } ] },
        { "module_path": "s3", "class_name": "servicePackage", "function_name": "ListTags", "call_type": "instance_method",
          "sdk_operations": [ { "service": "s3", "operation": "GetBucketTagging" } ] },
        { "module_path": "s3", "class_name": "servicePackage", "function_name": "UpdateTags", "call_type": "instance_method",
          "sdk_operations": [ { "service": "s3", "operation": "PutBucketTagging" } ] }
    ]
}"#;

#[test]
fn tag_call_rule_per_slot_set() {
    let check = |items: &[CrudSlot], expected: &[(&str, &str)]| {
        let crud_map = crud_map(TAGGED_CRUD_JSON);
        let model = index(TAGGED_MODEL_JSON);
        let mapped = map_plan(&vec![named("aws_bucket_like", items)], &crud_map, &model);
        let mut expected: Vec<(String, String)> =
            expected.iter().map(|(s, o)| pair(s, o)).collect();
        expected.sort();
        assert_eq!(pairs(&mapped), expected);
        assert_eq!(mapped.warnings, Vec::<String>::new());
    };
    check(&[CrudSlot::Read], &[("s3", "GetBucketAcl"), ("s3", "GetBucketTagging")]);
    check(
        &[CrudSlot::Read, CrudSlot::Delete],
        &[("s3", "GetBucketAcl"), ("s3", "DeleteBucket"), ("s3", "GetBucketTagging")],
    );
    check(
        &[CrudSlot::Create, CrudSlot::Read],
        &[
            ("s3", "CreateBucket"),
            ("s3", "GetBucketAcl"),
            ("s3", "GetBucketTagging"),
            ("s3", "PutBucketTagging"),
        ],
    );
    check(
        &[CrudSlot::Update, CrudSlot::Read],
        &[("s3", "GetBucketAcl"), ("s3", "GetBucketTagging"), ("s3", "PutBucketTagging")],
    );
}

#[test]
fn untagged_resource_emits_no_tag_ops() {
    let (crud_map, model) = build(&crud_map_json(
        "accessanalyzer.resourceAnalyzerCreate",
        "accessanalyzer.resourceAnalyzerRead",
    ));
    let mapped =
        map_plan(&vec![resource(&[CrudSlot::Create, CrudSlot::Read])], &crud_map, &model);
    assert_eq!(
        pairs(&mapped),
        vec![pair("accessanalyzer", "CreateAnalyzer"), pair("accessanalyzer", "GetAnalyzer")]
    );
}

#[test]
fn a_resource_in_several_plans_counts_once() {
    let plan = || {
        changes(
            r#"{ "resource_changes": [
                { "address": "aws_bucket_like.b", "type": "aws_bucket_like",
                  "change": { "actions": ["create"], "after": {} } }
            ] }"#,
        )
    };
    let crud_map = crud_map(TAGGED_CRUD_JSON);
    let model = index(TAGGED_MODEL_JSON);
    let (once, _) = plan_to_sdk_calls(&vec![plan()], &crud_map, &model);
    let (twice, resources) = plan_to_sdk_calls(&vec![plan(), plan()], &crud_map, &model);
    assert_eq!(once.calls, twice.calls);
    assert_eq!(resources.len(), 2);
    let extracted = extract_from_plans(&vec![plan(), changes(MIXED_PLAN)], &crud_map, &model);
    assert_eq!(extracted.methods, once.calls);
    assert_eq!(extracted.metadata.total_methods, 4);
    assert_eq!(extracted.metadata.warnings.len(), 1);
    assert_eq!(extracted.sdk, Language::Go);
}

const PLAN_JSON: &str = r#"{ "format_version": "1.2", "resource_changes": [] }"#;
const NOT_A_PLAN_JSON: &str = r#"{ "some": "config", "settings": {} }"#;

fn input(path: &str, content: &str) -> InputFile {
    InputFile { path: path.to_string(), content: Some(content.as_bytes().to_vec()) }
}

#[test]
fn empty_is_empty_source() {
    match classify_inputs(&vec![]).unwrap() {
        ClassifiedInputs::Source(v) => assert!(v.is_empty()),
        ClassifiedInputs::Iac(..) => panic!("expected Source"),
    }
}

#[test]
fn all_source_classifies_as_source() {
    for paths in [vec!["a.py", "b.py"], vec!["a.go"], vec!["a.py", "b.go"]] {
        let files = paths
            .iter()
            .map(|p| InputFile { path: p.to_string(), content: None })
            .collect();
        match classify_inputs(&files).unwrap() {
            ClassifiedInputs::Source(v) => assert_eq!(v, paths),
            ClassifiedInputs::Iac(..) => panic!("expected Source for {paths:?}"),
        }
    }
}

#[test]
fn multiple_plans_classify_as_iac_union() {
    let files = vec![input("a.tfplan.json", PLAN_JSON), input("b.tfplan.json", PLAN_JSON)];
    match classify_inputs(&files).unwrap() {
        ClassifiedInputs::Iac(IacFormat::TerraformPlan, v) => {
            assert_eq!(v, vec!["a.tfplan.json", "b.tfplan.json"])
        }
        ClassifiedInputs::Source(_) => panic!("expected Iac(TerraformPlan)"),
    }
}

#[test]
fn plan_mixed_with_source_errors() {
    let files = vec![input("plan.json", PLAN_JSON), input("app.py", "import boto3\n")];
    let err = classify_inputs(&files).unwrap_err().describe();
    assert!(err.contains("Cannot mix a Terraform plan with other inputs"));
    assert_eq!(
        err,
        "Cannot mix a Terraform plan with other inputs in one run.\n\
         Pass either one or more `terraform show -json` plans, or application source files of a \
         single language — not both.\n  Terraform plans:\n    plan.json\n  Other inputs:\n    \
         app.py\n"
    );
}

#[test]
fn non_plan_json_is_treated_as_source_not_iac() {
    match classify_inputs(&vec![input("config.json", NOT_A_PLAN_JSON)]).unwrap() {
        ClassifiedInputs::Source(v) => assert_eq!(v, vec!["config.json"]),
        ClassifiedInputs::Iac(..) => panic!("non-plan JSON must not be IaC"),
    }
}

#[test]
fn files_of_known_kinds_are_classified() {
    let paths = vec!["p".to_string(), "s".to_string()];
    assert!(matches!(
        classify_files(&paths, &vec![true, true]),
        Ok(ClassifiedInputs::Iac(IacFormat::TerraformPlan, v)) if v == paths
    ));
    assert!(matches!(
        classify_files(&paths, &vec![false, true]),
        Err(e) if e.plans == ["s"] && e.sources == ["p"]
    ));
}
