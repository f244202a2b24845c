use iam_policy_autopilot::errors::ExtractorError;
use iam_policy_autopilot::java::extractor::{
    JavaExtractionError, JavaLanguageExtractorSet, SdkExtractor,
};
use iam_policy_autopilot::java::imports::{
    classify_utility_import, extract_service_from_fqn, extract_service_from_import, first_segment,
    last_segment, parse_import, ImportEntry, ImportTables,
};
use iam_policy_autopilot::java::naming::{
    java_service_name, pascal_case, remove_leading_ci, remove_trailing_ci, split_camel_case,
    split_on_word_boundaries,
};
use iam_policy_autopilot::java::pipeline::{extract_java_sdk_calls, import_table};
use iam_policy_autopilot::java::scan::scan_java;
use iam_policy_autopilot::java::scope::type_name_of;
use iam_policy_autopilot::java::services::{
    apply_import_filter, SdkServiceDefinition, ServiceMethodRef, ServiceModelIndex,
};
use iam_policy_autopilot::java::types::ExtractionResult;
use iam_policy_autopilot::java::utilities::{
    JavaUtilitiesModel, JavaUtilityFeature, JavaUtilityOperation, UtilityService,
};
use iam_policy_autopilot::language::{Language, SourceFile};
use iam_policy_autopilot::sdk::{Parameter, ParameterValue, SdkMethodCall};
use iam_policy_autopilot::text_map::TextMap;

fn strings(v: &[&str]) -> Vec<String> {
    v.iter().map(|s| s.to_string()).collect()
}

fn no_index() -> ServiceModelIndex {
    ServiceModelIndex {
        services: TextMap::new(),
        method_lookup: TextMap::new(),
        waiter_lookup: TextMap::new(),
    }
}

fn no_model() -> JavaUtilitiesModel {
    JavaUtilitiesModel { services: vec![] }
}

fn tables() -> ImportTables {
    let mut services = TextMap::new();
    services.insert("cloudwatchlogs".to_string(), "logs".to_string());
    ImportTables { services, utilities: import_table(&model()) }
}

fn lookup(entries: &[(&str, &[(&str, &str)])]) -> TextMap<Vec<ServiceMethodRef>> {
    let mut r = TextMap::new();
    for (method, refs) in entries {
        r.insert(
            method.to_string(),
            refs.iter()
                .map(|(service, operation)| ServiceMethodRef {
                    service_name: service.to_string(),
                    operation_name: operation.to_string(),
                })
                .collect(),
        );
    }
    r
}

fn index() -> ServiceModelIndex {
    let mut services = TextMap::new();
    for (name, id) in [("s3", "S3"), ("s3control", "S3 Control"), ("dynamodb", "DynamoDB")] {
        services.insert(name.to_string(), SdkServiceDefinition { service_id: id.to_string() });
    }
    ServiceModelIndex {
        services,
        method_lookup: lookup(&[
            ("listBuckets", &[("s3", "ListBuckets"), ("s3control", "ListBuckets")]),
            ("listObjectsV2", &[("s3", "ListObjectsV2")]),
            ("getObject", &[("s3", "GetObject")]),
            ("deleteTable", &[("dynamodb", "DeleteTable")]),
        ]),
        waiter_lookup: lookup(&[
            ("bucketExists", &[("s3", "HeadBucket"), ("s3control", "GetBucket")]),
            ("tableExists", &[("dynamodb", "DescribeTable")]),
        ]),
    }
}

fn model() -> JavaUtilitiesModel {
    JavaUtilitiesModel {
        services: vec![UtilityService {
            name: "s3-transfer-manager".to_string(),
            features: vec![JavaUtilityFeature {
                method_name: "uploadFile".to_string(),
                receiver_class: "S3TransferManager".to_string(),
                import: "software.amazon.awssdk.transfer.s3".to_string(),
                operations: vec![
                    JavaUtilityOperation {
                        service: "s3".to_string(),
                        name: "PutObject".to_string(),
                    },
                    JavaUtilityOperation {
                        service: "s3".to_string(),
                        name: "UploadPart".to_string(),
                    },
                ],
            }],
        }],
    }
}

fn java(path: &str, text: &str) -> SourceFile {
    SourceFile::with_language(path.to_string(), text.to_string(), Language::Java)
}

fn calls_in(files: Vec<SourceFile>) -> Vec<SdkMethodCall> {
    extract_java_sdk_calls(&files, &tables(), &index(), &model()).unwrap()
}

fn names(calls: &[SdkMethodCall]) -> Vec<&str> {
    calls.iter().map(|c| c.name.as_str()).collect()
}

#[test]
fn test_extract_java_sdk_calls_empty_input() {
    let result = extract_java_sdk_calls(&vec![], &tables(), &no_index(), &no_model());
    assert!(
        matches!(result, Err(ExtractorError::Validation { .. })),
        "empty input should return Validation error"
    );
}

#[test]
fn test_extract_java_sdk_calls_not_java_file() {
    let source = SourceFile::with_language(
        "test.py".to_string(),
        "s3_client.put_object()".to_string(),
        Language::Python,
    );
    let result = extract_java_sdk_calls(&vec![source], &tables(), &no_index(), &no_model());
    assert!(
        matches!(result, Err(ExtractorError::MethodExtraction { .. })),
        "Python file should return MethodExtraction error"
    );
}

#[test]
fn test_combined_rule_builds_without_error() {
    let set = JavaLanguageExtractorSet::default_aws_v2();
    let yaml = set.build_combined_rule();
    assert!(yaml.contains("any:"), "combined rule should contain any:");
    assert!(yaml.contains("java_combined"), "combined rule should have id");
}

#[test]
fn test_extract_from_non_java_file_errors() {
    let set = JavaLanguageExtractorSet::default_aws_v2();
    let source = SourceFile::with_language(
        "test.py".to_string(),
        "s3.put_object()".to_string(),
        Language::Python,
    );
    assert!(matches!(
        set.extract_from_file(&source, &tables()),
        Err(JavaExtractionError::NotJavaFile { .. })
    ));
}

#[test]
fn test_apply_import_filter() {
    let check = |services: &[&str], imported: &[&str], expected: &[&str], msg: &str| {
        let left = apply_import_filter(strings(services), &strings(imported));
        assert_eq!(left, expected, "{msg}");
    };
    check(&["s3", "s3control"], &["s3"], &["s3"], "narrows to s3");
    check(&["s3", "dynamodb"], &[], &["s3", "dynamodb"], "empty imports pass all");
    check(&["s3"], &["dynamodb"], &[], "no match returns empty");
    check(
        &["s3", "dynamodb", "sqs"],
        &["dynamodb", "sqs"],
        &["dynamodb", "sqs"],
        "partial overlap",
    );
}

#[test]
fn test_extract_service_from_fqn_qualified() {
    assert_eq!(
        extract_service_from_fqn("software.amazon.awssdk.services.s3.waiters.S3Waiter").as_deref(),
        Some("s3")
    );
    assert_eq!(
        extract_service_from_fqn("software.amazon.awssdk.services.cloudvault.CloudVaultClient")
            .as_deref(),
        Some("cloudvault")
    );
}

#[test]
fn test_extract_service_from_fqn_simple_name() {
    assert_eq!(extract_service_from_fqn("S3Client"), None);
    assert_eq!(extract_service_from_fqn("CloudVaultWaiter"), None);
}

#[test]
fn test_java_sdk_v2_basic_extraction() {
    let java_source = r#"
import software.amazon.awssdk.services.s3.S3Client;
import software.amazon.awssdk.services.s3.model.ListBucketsRequest;
import software.amazon.awssdk.services.s3.model.ListBucketsResponse;

public class S3Example {
    public static void main(String[] args) {
        S3Client s3 = S3Client.builder().build();
        ListBucketsRequest request = ListBucketsRequest.builder().build();
        ListBucketsResponse response = s3.listBuckets(request);
        response.buckets().forEach(bucket -> System.out.println(bucket.name()));
        // test list objects v2
        var response = s3.listObjectsV2();
        response.contents().forEach(object -> System.out.println(object.key()));
    }
}
    "#;
    let calls = calls_in(vec![java("TestV2Basic.java", java_source)]);
    let list_buckets_op = calls
        .iter()
        .find(|call| call.name == "listBuckets")
        .expect("Should find listBuckets operation");
    assert_eq!(
        list_buckets_op.possible_services,
        vec!["s3"],
        "Should associate with S3 service"
    );
    let list_objects_v2_op = calls
        .iter()
        .find(|call| call.name == "listObjectsV2")
        .expect("Should find listObjectsV2 operation");
    assert_eq!(
        list_objects_v2_op.possible_services,
        vec!["s3"],
        "Should associate with S3 service"
    );
    let metadata = list_buckets_op.metadata.as_ref().unwrap();
    assert_eq!(metadata.expr, "s3.listBuckets(request)");
    assert_eq!(metadata.receiver.as_deref(), Some("s3"));
    assert_eq!(metadata.location.file_path, "TestV2Basic.java");
    assert_eq!(metadata.location.start_position, (10, 40));
    assert_eq!(metadata.location.end_position, (10, 63));
    assert!(matches!(
        &metadata.parameters[..],
        [Parameter::Positional { value: ParameterValue::Unresolved(v), position: 0, .. }]
            if v == "request"
    ));
}

#[test]
fn test_java_sdk_v2_paginator_extraction() {
    let java_source = r#"
import software.amazon.awssdk.services.s3.S3Client;
import software.amazon.awssdk.services.s3.paginators.ListBucketsIterable;

public class S3Example {
    public static void main(String[] args) {
        S3Client s3 = S3Client.builder().build();

        ListBucketsIterable response = s3.listBucketsPaginator();
        response.buckets().forEach(bucket -> System.out.println(bucket.name()));
    }
}
    "#;
    let calls = calls_in(vec![java("TestV2Paginator.java", java_source)]);
    let list_buckets_op = calls
        .iter()
        .find(|call| call.name == "listBuckets")
        .expect("Should find listBuckets operation");
    assert_eq!(
        list_buckets_op.possible_services,
        vec!["s3"],
        "Should associate with S3 service"
    );
}

#[test]
fn test_java_no_sdk_calls() {
    let java_source = r#"
public class NoSdkExample {
    public static void main(String[] args) {
        System.out.println("Hello, World!");
    }
}
    "#;
    let calls = calls_in(vec![java("NoSdkExample.java", java_source)]);
    assert!(calls.is_empty(), "Should find no method calls");
}

const WAITS: &str = r#"
import software.amazon.awssdk.services.s3.*;

class Waits {
    private final S3Client s3 = S3Client.create();
    void run(S3Waiter waiter, String name) {
        waiter.waitUntilBucketExists(b -> b.bucket(name));
        s3.getObjectAsBytes("a");
    }
}
"#;

#[test]
fn waiters_stand_for_the_operation_that_they_poll() {
    let calls = calls_in(vec![java("Waits.java", WAITS)]);
    assert_eq!(names(&calls), ["getObject", "headBucket"]);
    assert_eq!(calls[1].possible_services, ["s3"]);
    assert_eq!(calls[1].metadata.as_ref().unwrap().receiver, None);
    assert!(matches!(
        &calls[0].metadata.as_ref().unwrap().parameters[..],
        [Parameter::Positional { value: ParameterValue::Resolved(v), .. }] if v == "a"
    ));
}

const UPLOADS: &str = r#"
import software.amazon.awssdk.transfer.s3.S3TransferManager;

class Uploads {
    void run(S3TransferManager manager) {
        manager.uploadFile(request);
    }
    void other(Uploader uploader) {
        uploader.uploadFile(request);
    }
    void unknown() {
        factory.make().uploadFile(request);
    }
}
"#;

#[test]
fn utility_methods_stand_for_all_their_operations() {
    let calls = calls_in(vec![java("Uploads.java", UPLOADS)]);
    assert_eq!(names(&calls), ["PutObject", "PutObject", "UploadPart", "UploadPart"]);
    let lines: Vec<usize> =
        calls.iter().map(|c| c.metadata.as_ref().unwrap().location.start_line()).collect();
    assert_eq!(lines, [6, 12, 6, 12]);
}

#[test]
fn the_order_of_files_leaves_the_calls_alone() {
    let a = calls_in(vec![java("a/Waits.java", WAITS), java("b/Uploads.java", UPLOADS)]);
    let b = calls_in(vec![java("b/Uploads.java", UPLOADS), java("a/Waits.java", WAITS)]);
    assert_eq!(a, b);
    assert_eq!(a.len(), 6);
    let twice = calls_in(vec![java("z/Waits.java", WAITS), java("a/Waits.java", WAITS)]);
    let files: Vec<&str> = twice
        .iter()
        .map(|c| c.metadata.as_ref().unwrap().location.file_path.as_str())
        .collect();
    assert_eq!(files, ["a/Waits.java", "z/Waits.java", "a/Waits.java", "z/Waits.java"]);
}

#[test]
fn imports_of_one_file_do_not_narrow_another() {
    let unknown = r#"
class Unknown {
    void run() {
        clients.get().listBuckets();
    }
}
"#;
    let calls = calls_in(vec![java("Unknown.java", unknown), java("Waits.java", WAITS)]);
    assert_eq!(names(&calls), ["getObject", "headBucket", "listBuckets"]);
    assert_eq!(calls[2].possible_services, ["s3", "s3control"]);
}

#[test]
fn calls_are_listed_in_the_order_of_paths() {
    let files = ["-a/Waits.java", "../Waits.java", ".b/Waits.java", "/a/Waits.java"];
    let expected = ["/a/Waits.java", "../Waits.java", "-a/Waits.java", ".b/Waits.java"];
    let calls = calls_in(files.iter().map(|f| java(f, WAITS)).collect());
    let places: Vec<&str> = calls
        .iter()
        .filter(|c| c.name == "getObject")
        .map(|c| c.metadata.as_ref().unwrap().location.file_path.as_str())
        .collect();
    assert_eq!(places, expected);
}

#[test]
fn repeated_files_may_come_in_any_order() {
    let waits = || java("Waits.java", WAITS);
    let uploads = || java("Uploads.java", UPLOADS);
    let calls = calls_in(vec![waits(), waits(), uploads()]);
    assert_eq!(calls.iter().filter(|c| c.name == "getObject").count(), 2);
    assert_eq!(calls_in(vec![waits(), uploads(), waits()]), calls);
    assert_eq!(calls_in(vec![uploads(), waits(), waits()]), calls);

    let spelled = || java(".//Waits.java", WAITS);
    let again = || java("./Waits.java", WAITS);
    let one = calls_in(vec![spelled(), uploads(), again()]);
    let other = calls_in(vec![again(), spelled(), uploads()]);
    assert_eq!(names(&one), names(&other));
    assert!(one.iter().all(|c| other.contains(c)) && other.iter().all(|c| one.contains(c)));
}

#[test]
fn broken_rules_are_refused() {
    let set = JavaLanguageExtractorSet { extractors: vec![] };
    match set.extract_from_file(&java("A.java", "class A {}"), &tables()) {
        Err(JavaExtractionError::ParseError { path, message }) => {
            assert_eq!(path, "A.java");
            assert!(message.starts_with("Failed to compile combined rule: "));
        }
        _ => panic!("a set without extractors has no rule"),
    }
}

#[test]
fn rules_find_nodes_of_the_tree() {
    let rule = JavaLanguageExtractorSet { extractors: vec![SdkExtractor::Import] }
        .build_combined_rule();
    let labels = strings(&["IMPORT_MARKER", "OTHER"]);
    let scan = scan_java(&rule, &labels, "import a.B; class A {}").unwrap();
    assert_eq!(scan.nodes[0].kind, "program");
    assert_eq!(scan.matches.len(), 1);
    let at = scan.matches[0].node;
    assert_eq!(scan.nodes[at].text, "import a.B;");
    let bound = scan.matches[0].captures[0].unwrap();
    assert_eq!(scan.nodes[bound].text, "a.B");
    assert_eq!(scan.nodes[bound].start, (0, 7));
    assert_eq!(scan.matches[0].captures, [Some(bound), None]);
}

#[test]
fn errors_of_files_are_described() {
    let path = "A.java".to_string();
    let e = JavaExtractionError::ParseError { path: path.clone(), message: "m".to_string() };
    assert_eq!(e.describe(), "Failed to parse Java source 'A.java': m");
    assert_eq!(
        e.into_extractor_error().describe(),
        "Method extraction failed for 'java' in file 'A.java': m"
    );
    let e = JavaExtractionError::NotJavaFile { path };
    assert_eq!(e.describe(), "Source file is not Java: A.java");
    assert_eq!(
        e.into_extractor_error().describe(),
        "Method extraction failed for 'java' in file 'A.java': Source file is not Java: A.java"
    );
}

#[test]
fn imports_tell_their_service() {
    let tables = tables();
    assert_eq!(
        parse_import("import static software.amazon.awssdk.services.s3.S3Client.create;"),
        ("software.amazon.awssdk.services.s3.S3Client.create".to_string(), true)
    );
    assert_eq!(parse_import("import a.B;"), ("a.B".to_string(), false));
    assert_eq!(
        extract_service_from_import(
            "software.amazon.awssdk.services.cloudwatchlogs.CloudWatchLogsClient",
            &tables
        )
        .as_deref(),
        Some("logs")
    );
    assert_eq!(
        extract_service_from_import("software.amazon.awssdk.services.s3.S3Client", &tables)
            .as_deref(),
        Some("s3")
    );
    assert_eq!(extract_service_from_import("java.util.List", &tables), None);
    assert_eq!(
        classify_utility_import("software.amazon.awssdk.transfer.s3.S3TransferManager", &tables),
        Some(("s3-transfer-manager".to_string(), "S3TransferManager".to_string()))
    );
    assert_eq!(classify_utility_import("java.util.List", &tables), None);
    assert_eq!(first_segment("a.b.c"), "a");
    assert_eq!(last_segment("a.b.c"), "c");
}

#[test]
fn test_extract_service_from_import() {
    let mut services = TextMap::new();
    for (segment, name) in [
        ("cloudwatchlogs", "logs"),
        ("elasticloadbalancing", "elb"),
        ("cognitoidentityprovider", "cognito-idp"),
        ("bedrockruntime", "bedrock-runtime"),
    ] {
        services.insert(segment.to_string(), name.to_string());
    }
    let tables = ImportTables { services, utilities: vec![] };
    for (path, expected) in [
        ("software.amazon.awssdk.services.s3.S3Client", Some("s3")),
        ("software.amazon.awssdk.services.dynamodb.model.GetItemRequest", Some("dynamodb")),
        ("software.amazon.awssdk.services.sts.StsClient", Some("sts")),
        ("software.amazon.awssdk.services.s3control.S3ControlClient", Some("s3control")),
        ("software.amazon.awssdk.services.cloudwatchlogs.CloudWatchLogsClient", Some("logs")),
        (
            "software.amazon.awssdk.services.elasticloadbalancing.ElasticLoadBalancingClient",
            Some("elb"),
        ),
        (
            "software.amazon.awssdk.services.cognitoidentityprovider.CognitoIdentityProviderClient",
            Some("cognito-idp"),
        ),
        (
            "software.amazon.awssdk.services.bedrockruntime.BedrockRuntimeClient",
            Some("bedrock-runtime"),
        ),
        (
            "software.amazon.awssdk.services.bedrockruntime.model.InvokeModelRequest",
            Some("bedrock-runtime"),
        ),
        ("java.util.List", None),
        ("com.example.MyClass", None),
        ("com.example.services.foo.Bar", None),
    ] {
        assert_eq!(
            extract_service_from_import(path, &tables).as_deref(),
            expected,
            "unexpected service for import path '{path}'"
        );
    }
}

#[test]
fn test_classify_utility_import() {
    let entry = |prefix: &str, service_name: &str| ImportEntry {
        prefix: prefix.to_string(),
        service_name: service_name.to_string(),
    };
    let tables = ImportTables {
        services: TextMap::new(),
        utilities: vec![
            entry("software.amazon.awssdk.transfer.s3", "s3"),
            entry("software.amazon.awssdk.services.s3.presigner", "s3"),
            entry("software.amazon.awssdk.enhanced.dynamodb", "dynamodb"),
        ],
    };
    for (path, expected) in [
        (
            "software.amazon.awssdk.transfer.s3.S3TransferManager",
            Some(("s3", "S3TransferManager")),
        ),
        (
            "software.amazon.awssdk.services.s3.presigner.S3Presigner",
            Some(("s3", "S3Presigner")),
        ),
        (
            "software.amazon.awssdk.enhanced.dynamodb.DynamoDbEnhancedClient",
            Some(("dynamodb", "DynamoDbEnhancedClient")),
        ),
        (
            "software.amazon.awssdk.enhanced.dynamodb.DynamoDbTable",
            Some(("dynamodb", "DynamoDbTable")),
        ),
        ("software.amazon.awssdk.services.cloudfront.utils.CloudFrontUtilities", None),
        ("software.amazon.awssdk.services.s3.S3Client", None),
        ("java.util.List", None),
        ("software.amazon.awssdk.transfer.s3.*", None),
    ] {
        let expected = expected.map(|(u, c)| (u.to_string(), c.to_string()));
        assert_eq!(classify_utility_import(path, &tables), expected, "failed for '{path}'");
    }
}

#[test]
fn packages_are_listed_once_for_each_service() {
    let mut twice = model();
    let again = JavaUtilityFeature {
        method_name: "downloadFile".to_string(),
        receiver_class: "S3TransferManager".to_string(),
        import: "software.amazon.awssdk.transfer.s3".to_string(),
        operations: vec![],
    };
    twice.services[0].features.push(again);
    assert_eq!(
        import_table(&twice),
        [ImportEntry {
            prefix: "software.amazon.awssdk.transfer.s3".to_string(),
            service_name: "s3-transfer-manager".to_string(),
        }]
    );
}

#[test]
fn declared_types_lose_their_type_arguments() {
    assert_eq!(type_name_of("DynamoDbTable<Customer>").as_deref(), Some("DynamoDbTable"));
    assert_eq!(type_name_of("S3Client").as_deref(), Some("S3Client"));
    assert_eq!(type_name_of("var"), None);
}

#[test]
fn service_identifiers_become_class_names() {
    let check = |id: &str, expected: &str| assert_eq!(java_service_name(id), expected);
    check("S3", "S3");
    check("ACM PCA", "AcmPca");
    check("API Gateway", "ApiGateway");
    check("ApiGatewayV2", "ApiGatewayV2");
    check("CloudWatch Logs", "CloudWatchLogs");
    check("Database Migration Service", "DatabaseMigration");
    check("DynamoDB", "DynamoDb");
    check("EC2", "Ec2");
    check("IoT 1Click Devices Service", "Iot1ClickDevices");
    check("Amazon Glacier", "Glacier");
    assert_eq!(pascal_case("elastic-load balancing"), "ElasticLoadBalancing");
    assert_eq!(split_on_word_boundaries("CloudFront2020"), ["Cloud", "Front2020"]);
    assert_eq!(split_camel_case("aBC"), "a BC");
    assert_eq!(remove_leading_ci("AmazonMQ", "amazon"), "MQ");
    assert_eq!(remove_leading_ci("Ama", "amazon"), "Ama");
    assert_eq!(remove_trailing_ci("IotService", "SERVICE"), "Iot");
}

#[test]
fn results_add_up() {
    let set = JavaLanguageExtractorSet::default_aws_v2();
    let a = set.extract_from_file(&java("Waits.java", WAITS), &tables()).unwrap();
    let b = set.extract_from_file(&java("Uploads.java", UPLOADS), &tables()).unwrap();
    assert_eq!((a.imports.len(), a.utility_imports.len()), (1, 0));
    assert_eq!((b.imports.len(), b.utility_imports.len()), (0, 1));
    assert_eq!(a.imports[0].expr, "software.amazon.awssdk.services.s3.*");
    assert_eq!(b.utility_imports[0].class_name, "S3TransferManager");
    let n = (a.calls.len() + b.calls.len(), a.waiters.len());
    let mut both = ExtractionResult::default();
    both.extend(a);
    both.extend(b);
    assert_eq!((both.calls.len(), both.waiters.len()), n);
    assert_eq!((both.imports.len(), both.utility_imports.len()), (1, 1));
}
