use iam_policy_autopilot::javascript::shared::{ExtractionUtils, JsV3LibrariesMapping};
use iam_policy_autopilot::javascript::types::{
    CommandUsage, ImportInfo, JavaScriptScanResults, MethodCall, NamespaceUsages, ScanUsages,
    SublibraryInfo, ValidClientTypes,
};
use iam_policy_autopilot::language::Language;
use iam_policy_autopilot::sdk::{Location, Parameter, ParameterValue, SdkMethodCall};
use iam_policy_autopilot::text_map::TextMap;

#[test]
fn test_javascript_language_support() {
    assert_eq!(Language::JavaScript.to_string(), "javascript");
    assert_eq!(Language::TypeScript.to_string(), "typescript");

    assert_eq!(Language::try_from_str("js").unwrap(), Language::JavaScript);
    assert_eq!(Language::try_from_str("javascript").unwrap(), Language::JavaScript);
    assert_eq!(Language::try_from_str("ts").unwrap(), Language::TypeScript);
    assert_eq!(Language::try_from_str("typescript").unwrap(), Language::TypeScript);
}

#[test]
fn test_extract_service_from_sublibrary() {
    assert_eq!(
        ExtractionUtils::extract_service_from_sublibrary("client-s3"),
        Some("s3".to_string())
    );
    assert_eq!(
        ExtractionUtils::extract_service_from_sublibrary("lib-dynamodb"),
        Some("dynamodb".to_string())
    );
    assert_eq!(
        ExtractionUtils::extract_service_from_sublibrary("client-lambda"),
        Some("lambda".to_string())
    );
    assert_eq!(
        ExtractionUtils::extract_service_from_sublibrary("client-ec2"),
        Some("ec2".to_string())
    );
    assert_eq!(
        ExtractionUtils::extract_service_from_sublibrary("lib-storage"),
        Some("storage".to_string())
    );

    assert_eq!(ExtractionUtils::extract_service_from_sublibrary("other"), None);
    assert_eq!(ExtractionUtils::extract_service_from_sublibrary("unknown-prefix-service"), None);
    assert_eq!(ExtractionUtils::extract_service_from_sublibrary("service-s3"), None);
    assert_eq!(ExtractionUtils::extract_service_from_sublibrary(""), None);
}

#[test]
fn test_convert_arguments_to_parameters() {
    let mut arguments: TextMap<String> = TextMap::new();
    arguments.insert("Bucket".to_string(), "my-bucket".to_string());
    arguments.insert("Key".to_string(), "my-key".to_string());

    let parameters = ExtractionUtils::convert_arguments_to_parameters(&arguments);
    assert_eq!(parameters.len(), 2);

    for param in &parameters {
        match param {
            Parameter::Keyword { name, value, position, .. } => {
                assert!(name == "Bucket" || name == "Key");
                assert!(value.as_string() == "my-bucket" || value.as_string() == "my-key");
                assert!(*position < 2);
            }
            _ => panic!("Expected keyword parameter"),
        }
    }
}

#[test]
fn arguments_keep_the_place_of_their_names() {
    let mut arguments: TextMap<String> = TextMap::new();
    for (name, value) in [("Bucket", "a"), ("Key", "b"), ("Bucket", "c")] {
        arguments.insert(name.to_string(), value.to_string());
    }
    let entry = |name: &str, value: &str| (name.to_string(), value.to_string());
    assert_eq!(arguments.entries(), &[entry("Bucket", "c"), entry("Key", "b")]);
    let parameters = ExtractionUtils::convert_arguments_to_parameters(&arguments);
    assert_eq!(parameters.len(), 2);
    match &parameters[0] {
        Parameter::Keyword { name, value, position, type_annotation } => {
            assert_eq!((name.as_str(), value.as_string().as_str(), *position), ("Bucket", "c", 0));
            assert!(type_annotation.is_none());
        }
        _ => panic!("Expected keyword parameter"),
    }
}

#[test]
fn test_camel_case_to_pascal_case() {
    assert_eq!(ExtractionUtils::camel_case_to_pascal_case("getObject"), "GetObject");
    assert_eq!(ExtractionUtils::camel_case_to_pascal_case("listTables"), "ListTables");
    assert_eq!(ExtractionUtils::camel_case_to_pascal_case("createBucket"), "CreateBucket");
    assert_eq!(ExtractionUtils::camel_case_to_pascal_case("query"), "Query");
    assert_eq!(ExtractionUtils::camel_case_to_pascal_case(""), "");
    assert_eq!(ExtractionUtils::camel_case_to_pascal_case("ßeta"), "SSeta");
}

fn place(line: usize) -> Location {
    Location::new("app.js".to_string(), (line, 1), (line, 20))
}

fn import(original: &str, local: &str) -> ImportInfo {
    ImportInfo::new(original.to_string(), local.to_string(), "import ...", place(1))
}

fn usage(text: &str, line: usize) -> CommandUsage {
    CommandUsage::new(
        text.to_string(),
        place(line),
        vec![Parameter::Keyword {
            name: "Bucket".to_string(),
            value: ParameterValue::Unresolved("b".to_string()),
            position: 0,
            type_annotation: None,
        }],
    )
}

fn no_usages() -> ScanUsages {
    ScanUsages {
        instantiations: TextMap::new(),
        paginators: TextMap::new(),
        waiters: TextMap::new(),
        command_inputs: TextMap::new(),
        namespace_instantiations: Vec::new(),
        namespace_paginators: Vec::new(),
        namespace_waiters: Vec::new(),
    }
}

fn scan_of(imports: Vec<SublibraryInfo>) -> JavaScriptScanResults {
    let mut scan = JavaScriptScanResults::new();
    scan.imports = imports;
    scan
}

fn sublibrary(name: &str, imports: &[(&str, &str)]) -> SublibraryInfo {
    let mut info = SublibraryInfo::new(name.to_string());
    for (original, local) in imports {
        info.add_import(import(original, local));
    }
    info
}

fn names(calls: &[SdkMethodCall]) -> Vec<(String, String)> {
    calls.iter().map(|c| (c.possible_services[0].clone(), c.name.clone())).collect()
}

fn pair(service: &str, name: &str) -> (String, String) {
    (service.to_string(), name.to_string())
}

#[test]
fn imported_names_give_calls_by_kind() {
    let scan = scan_of(vec![sublibrary(
        "client-s3",
        &[
            ("S3Client", "S3Client"),
            ("QueryCommandInput", "QueryCommandInput"),
            ("waitUntilBucketExists", "wait"),
            ("paginateListObjectsV2", "paginateListObjectsV2"),
            ("PutObjectCommand", "Put"),
        ],
    )]);
    let mut usages = no_usages();
    usages.instantiations.insert("Put".to_string(), usage("new Put({Bucket: b})", 7));
    usages.waiters.insert("wait".to_string(), usage("wait(c)", 8));
    usages.command_inputs.insert("QueryCommandInput".to_string(), usage("x: QueryCommandInput", 9));
    let calls = ExtractionUtils::extract_operations_from_imports(&scan, &usages, &None);
    assert_eq!(
        names(&calls),
        [
            pair("s3", "PutObject"),
            pair("s3", "ListObjectsV2"),
            pair("s3", "BucketExists"),
            pair("s3", "Query"),
        ]
    );
    let put = calls[0].metadata.as_ref().unwrap();
    assert_eq!(put.expr, "new Put({Bucket: b})");
    assert_eq!(put.location, place(7));
    assert_eq!(put.parameters.len(), 1);
    let paginate = calls[1].metadata.as_ref().unwrap();
    assert_eq!(paginate.expr, "import ...");
    assert!(paginate.parameters.is_empty());
    let input = calls[3].metadata.as_ref().unwrap();
    assert_eq!(input.location, place(9));
    assert!(input.parameters.is_empty());
}

#[test]
fn unknown_libraries_give_no_calls() {
    let scan = scan_of(vec![sublibrary("util-retry", &[("PutObjectCommand", "P")])]);
    let calls = ExtractionUtils::extract_operations_from_imports(&scan, &no_usages(), &None);
    assert!(calls.is_empty());
}

fn storage_mapping() -> Option<JsV3LibrariesMapping> {
    let mut storage: TextMap<Vec<String>> = TextMap::new();
    storage.insert(
        "Upload".to_string(),
        vec!["PutObjectCommand".to_string(), "UploadPartCommand".to_string(), "Other".to_string()],
    );
    storage.insert("ScanCommand".to_string(), vec!["QueryCommand".to_string()]);
    let mut all: TextMap<TextMap<Vec<String>>> = TextMap::new();
    all.insert("storage".to_string(), storage);
    Some(JsV3LibrariesMapping { library_operation_expansions: all })
}

#[test]
fn auxiliary_libraries_expand_their_names() {
    let mapping = storage_mapping();
    assert_eq!(
        ExtractionUtils::expand_lib_names(true, "storage", "ScanCommand", &mapping),
        ["QueryCommand"]
    );
    assert_eq!(
        ExtractionUtils::expand_lib_names(true, "storage", "Unknown", &mapping),
        ["Unknown"]
    );
    assert_eq!(
        ExtractionUtils::expand_lib_names(false, "storage", "ScanCommand", &mapping),
        ["ScanCommand"]
    );
    let scan = scan_of(vec![sublibrary(
        "lib-storage",
        &[("Upload", "Upload"), ("ScanCommand", "Scan")],
    )]);
    let calls = ExtractionUtils::extract_operations_from_imports(&scan, &no_usages(), &mapping);
    assert_eq!(
        names(&calls),
        [pair("storage", "Query"), pair("storage", "PutObject"), pair("storage", "UploadPart")]
    );
}

#[test]
fn whole_libraries_are_searched_under_their_names() {
    let mut s3 = sublibrary("client-s3", &[]);
    s3.set_wildcard_namespace("S3".to_string());
    let mut storage = sublibrary("lib-storage", &[]);
    storage.set_wildcard_namespace("Storage".to_string());
    let mut scan = JavaScriptScanResults::default();
    scan.imports = vec![s3];
    scan.requires = vec![storage];
    let mut usages = no_usages();
    usages.namespace_instantiations = vec![
        NamespaceUsages {
            namespace: "S3".to_string(),
            form: "Command".to_string(),
            found: vec![("GetObjectCommand".to_string(), usage("new S3.GetObjectCommand()", 3))],
        },
        NamespaceUsages {
            namespace: "Storage".to_string(),
            form: "Upload".to_string(),
            found: vec![("Upload".to_string(), usage("new Storage.Upload()", 4))],
        },
    ];
    usages.namespace_paginators = vec![NamespaceUsages {
        namespace: "S3".to_string(),
        form: "paginate".to_string(),
        found: vec![("paginateListParts".to_string(), usage("S3.paginateListParts()", 5))],
    }];
    usages.namespace_waiters = vec![NamespaceUsages {
        namespace: "S3".to_string(),
        form: "waitUntil".to_string(),
        found: vec![("waitUntilObjectExists".to_string(), usage("S3.waitUntil..", 6))],
    }];
    let calls =
        ExtractionUtils::extract_operations_from_imports(&scan, &usages, &storage_mapping());
    assert_eq!(
        names(&calls),
        [
            pair("s3", "GetObject"),
            pair("s3", "ListParts"),
            pair("s3", "ObjectExists"),
            pair("storage", "PutObject"),
            pair("storage", "UploadPart"),
        ]
    );
}

fn method(name: &str, library: &str) -> MethodCall {
    let mut arguments: TextMap<String> = TextMap::new();
    arguments.insert("Bucket".to_string(), "'b'".to_string());
    MethodCall {
        client_variable: "client".to_string(),
        client_type: "S3".to_string(),
        original_client_type: "S3".to_string(),
        client_sublibrary: library.to_string(),
        method_name: name.to_string(),
        arguments,
        expr: format!("client.{name}()"),
        location: place(2),
    }
}

#[test]
fn methods_of_clients_give_calls() {
    let mut scan = JavaScriptScanResults::new();
    scan.method_calls =
        vec![method("getObject", "client-s3"), method("send", "client-s3"), method("x", "other")];
    let calls = ExtractionUtils::extract_operations_from_method_calls(&scan);
    assert_eq!(names(&calls), [pair("s3", "GetObject")]);
    let metadata = calls[0].metadata.as_ref().unwrap();
    assert_eq!(metadata.receiver.as_deref(), Some("client"));
    assert_eq!(metadata.parameters.len(), 1);
}

#[test]
fn later_imports_hide_earlier_ones() {
    let info = sublibrary("client-s3", &[("A", "X"), ("B", "X"), ("C", "C")]);
    assert_eq!(info.name_mappings.get("X").map(|s| s.as_str()), Some("B"));
    assert_eq!(info.imports.len(), 3);
    assert!(info.imports[0].is_renamed);
    assert!(!info.imports[2].is_renamed);
    let types = ValidClientTypes::new(Vec::new(), TextMap::new(), TextMap::new());
    assert!(types.is_empty());
}
