use iam_policy_autopilot::commands::{
    exit_after, first_step, parse_answer, plan_failure_note, refusal_after_question,
    refusal_without_terminal, report_apply, ApplyError, ApplyResult, DenialType, ExitCode, FixStep,
    PlanFailure, Report,
};
use iam_policy_autopilot::errors::ExtractorError;
use iam_policy_autopilot::framework::{
    build_combined_rule, check_labels, ExtractorRule, LanguageExtractorSet,
};
use iam_policy_autopilot::language::{Language, SourceFile};
use iam_policy_autopilot::lints::{ImplBlock, ImplItem, NoExtractOverride};
use iam_policy_autopilot::order::sorted_set;
use iam_policy_autopilot::paths::{
    components, ends_with_path, extension, file_name, parent_name, path_less, same_path,
    starts_with_path,
};
use iam_policy_autopilot::service_configuration::ServiceConfiguration;
use iam_policy_autopilot::text::{
    ends_with, find_text, join, less, lines, parse_u32, parse_usize, remove_char, show_number,
    split, starts_with, strip_prefix, strip_suffix, trim, trim_char,
};
use iam_policy_autopilot::text_map::TextMap;
use iam_policy_autopilot::versions::{
    get_boto3_version_info, get_botocore_version_info, version_lines, GitSubmoduleMetadata,
};

fn strings(v: &[&str]) -> Vec<String> {
    v.iter().map(|s| s.to_string()).collect()
}

fn map(entries: &[(&str, &str)]) -> TextMap<String> {
    let mut r = TextMap::new();
    for (k, v) in entries {
        r.insert(k.to_string(), v.to_string());
    }
    r
}

#[test]
fn test_service_configuration_rename_methods() {
    let config = ServiceConfiguration {
        rename_services_operation_action_map: map(&[("old-service", "new-service")]),
        rename_services_service_reference: TextMap::new(),
        smithy_botocore_service_name_mapping: TextMap::new(),
        resource_overrides: TextMap::new(),
    };
    assert_eq!(config.rename_service_operation_action_map("old-service"), "new-service");
    assert_eq!(
        config.rename_service_operation_action_map("unchanged-service"),
        "unchanged-service"
    );
    assert_eq!(config.rename_service_service_reference("old-service"), "old-service");
}

#[test]
fn import_segments_stand_for_services() {
    let config = ServiceConfiguration {
        rename_services_operation_action_map: TextMap::new(),
        rename_services_service_reference: map(&[("a", "b")]),
        smithy_botocore_service_name_mapping: map(&[
            ("cloudwatch-logs", "logs"),
            ("api-gateway", "apigateway"),
        ]),
        resource_overrides: TextMap::new(),
    };
    let m = config.build_java_import_service_map(&strings(&[
        "s3",
        "bedrock-runtime",
        "cloud-watch-logs",
        "s-3-outposts",
        "s3-outposts",
    ]));
    let at = |k: &str| m.get(k).map(|s| s.as_str());
    assert_eq!(at("cloudwatchlogs"), Some("logs"));
    assert_eq!(at("apigateway"), Some("apigateway"));
    assert_eq!(at("bedrockruntime"), Some("bedrock-runtime"));
    assert_eq!(at("s3outposts"), Some("s3-outposts"));
    assert_eq!(at("s3"), None);
    assert_eq!(config.rename_service_service_reference("a"), "b");
}

#[test]
fn test_file_system_error_creation() {
    let io_error = std::io::Error::new(std::io::ErrorKind::NotFound, "File not found");
    let error = ExtractorError::file_system(
        "read".to_string(),
        "/path/to/file".to_string(),
        io_error.to_string(),
    );
    assert!(matches!(error, ExtractorError::FileSystem { .. }));
    assert!(error.describe().contains("read"));
    assert!(error.describe().contains("/path/to/file"));
    assert_eq!(
        error.describe(),
        "File system error during read on path '/path/to/file': File not found"
    );
}

#[test]
fn errors_are_described() {
    let s = |t: &str| t.to_string();
    let check = |e: ExtractorError, expected: &str| assert_eq!(e.describe(), expected);
    check(
        ExtractorError::unknown_file_system(s("gone")),
        "File system error during unknown operation on path 'unknown path': gone",
    );
    check(ExtractorError::unknown_json(s("eof")), "JSON parsing error in unknown context: eof");
    check(
        ExtractorError::UnsupportedFileLanguage { path: s("a.rb"), extension: s("rb") },
        "Unsupported language for file 'a.rb' with extension 'rb'. Supported languages: Python, \
         TypeScript, JavaScript, Go, Java",
    );
    check(
        ExtractorError::unsupported_language_override(s("ruby")),
        "Unsupported language. Supported languages: Python, TypeScript, JavaScript, Go, Java",
    );
    check(
        ExtractorError::Configuration { message: s("m"), source: None },
        "Configuration error: m",
    );
    check(ExtractorError::validation(s("m")), "Validation error: m");
    check(
        ExtractorError::sdk_processing_with_source(s("boto3"), s("m"), s("x")),
        "SDK processing error for 'boto3': m",
    );
    check(
        ExtractorError::method_extraction(s("java"), s("A.java"), s("m")),
        "Method extraction failed for 'java' in file 'A.java': m",
    );
    check(
        ExtractorError::OperationFasMapNotFound { service_name: s("s3"), path: s("p") },
        "OperationFas map not found for service 's3' at path 'p'",
    );
    check(
        ExtractorError::OperationFasMapParseError {
            service_name: s("s3"),
            message: s("m"),
            source: None,
        },
        "Failed to parse OperationFas map for service 's3': m",
    );
    check(
        ExtractorError::OperationActionMapNotFound { service_name: s("s3"), path: s("p") },
        "OperationAction map not found for service 's3' at path 'p'",
    );
    check(
        ExtractorError::OperationActionMapParseError {
            service_name: s("s3"),
            message: s("m"),
            source: None,
        },
        "Failed to parse OperationAction map for service 's3': m",
    );
    check(
        ExtractorError::ServiceReferenceNotFound { service_name: s("s3"), path: s("p") },
        "Service Reference not found for service 's3' at path 'p'",
    );
    check(
        ExtractorError::service_reference_parse_error_with_source(s("s3"), s("m"), s("x")),
        "Failed to parse Service Reference for service 's3': m",
    );
    check(
        ExtractorError::ResourceMatchError {
            service_name: s("s3"),
            message: s("m"),
            source: None,
        },
        "Resource matching error for service 's3': m",
    );
    check(
        ExtractorError::enrichment_error(s("s3"), s("m")),
        "Enrichment error for service 's3': m",
    );
    check(ExtractorError::policy_generation(s("m")), "Policy generation error: m");
    check(
        ExtractorError::invalid_service_hints(s("s4")),
        "Provided service hints do not exist:\ns4",
    );
}

#[test]
fn policies_are_applied_with_consent_only() {
    let implicit = DenialType::ImplicitIdentity;
    assert_eq!(first_step(implicit, false, true), FixStep::Apply);
    assert_eq!(first_step(implicit, true, false), FixStep::Ask);
    assert_eq!(first_step(implicit, false, false), FixStep::RefuseWithoutTerminal);
    assert_eq!(first_step(DenialType::ResourcePolicy, true, true), FixStep::ShowResourcePolicy);
    assert_eq!(first_step(DenialType::ExplicitIdentity, true, true), FixStep::ExplainDeny);
    assert_eq!(first_step(DenialType::Other, true, true), FixStep::Unsupported);
    assert_eq!(exit_after(FixStep::RefuseWithoutTerminal), Some(ExitCode::Success));
    assert_eq!(exit_after(FixStep::ExplainDeny), Some(ExitCode::Error));
    assert_eq!(exit_after(FixStep::Apply), None);
    for (text, yes) in [
        ("y\n", true),
        ("  YES \r\n", true),
        ("Yes\nno", true),
        ("", false),
        ("n\n", false),
        ("\ny", false),
        ("yeah", false),
    ] {
        assert_eq!(parse_answer(text), yes, "{text:?}");
    }
}

fn refused(r: &Report) -> (&str, &str) {
    match r {
        Report::Refused { reason, message } => (reason, message),
        other => panic!("{other:?}"),
    }
}

#[test]
fn refusals_are_explained() {
    assert_eq!(
        refused(&refusal_without_terminal()),
        (
            "refused_non_tty",
            "run interactively in a TTY to apply changes, or use --yes flag"
        )
    );
    assert!(refusal_after_question(Some(true)).is_none());
    let (report, code) = refusal_after_question(Some(false)).unwrap();
    assert_eq!(refused(&report), ("aborted_by_user", "apply aborted by user"));
    assert_eq!(code, ExitCode::Success);
    let (report, code) = refusal_after_question(None).unwrap();
    assert_eq!(
        refused(&report),
        ("refused_non_tty", "run interactively in a TTY to apply changes")
    );
    assert_eq!(code, ExitCode::Success);
    for (failure, note) in [
        (PlanFailure::NoService("x".to_string()), "Failed to initialize service: x"),
        (PlanFailure::NothingDenied, "No AccessDenied found in provided text"),
        (PlanFailure::Other("x".to_string()), "Failed to create plan: x"),
    ] {
        assert_eq!(plan_failure_note(&failure), note);
    }
}

#[test]
fn failures_to_apply_are_reported() {
    let check = |e: ApplyError, reason: &str, message: &str| {
        let (report, code) = report_apply(Err(e));
        assert_eq!(refused(&report), (reason, message));
        assert_eq!(code, ExitCode::Error);
    };
    check(
        ApplyError::UnsupportedDenialType,
        "explain_only",
        "this denial type is not fixable with an inline identity policy",
    );
    check(
        ApplyError::UnsupportedPrincipal("root".to_string()),
        "unsupported_principal",
        "root",
    );
    check(
        ApplyError::AccountMismatch {
            principal_account: "1".to_string(),
            caller_account: "2".to_string(),
        },
        "account_mismatch",
        "principal account (1) differs from caller account (2)",
    );
    check(
        ApplyError::MultiActionError(12),
        "multi_action_error",
        "Expected exactly 1 action for canonical policy, got 12. This is a bug.",
    );
    check(
        ApplyError::Aws("service error: NoSuchEntity".to_string()),
        "principal_not_found",
        "the IAM principal no longer exists or is not visible",
    );
    check(ApplyError::Aws("throttled".to_string()), "mutation_error", "throttled");
    let (report, code) = report_apply(Err(ApplyError::DuplicateStatement {
        action: "s3:GetObject".to_string(),
        resource: "*".to_string(),
    }));
    assert!(matches!(
        report,
        Report::DuplicateStatement { action, resource }
            if action == "s3:GetObject" && resource == "*"
    ));
    assert_eq!(code, ExitCode::Duplicate);
}

#[test]
fn applied_policies_are_reported() {
    let applied = |is_new_policy| ApplyResult {
        is_new_policy,
        policy_name: "p".to_string(),
        principal_kind: "role".to_string(),
        principal_name: "r".to_string(),
        statement_count: 2,
    };
    assert!(matches!(
        report_apply(Ok(applied(true))),
        (Report::PolicyCreated { policy_name, .. }, ExitCode::Success) if policy_name == "p"
    ));
    assert!(matches!(
        report_apply(Ok(applied(false))),
        (Report::StatementAdded { statement_count: 2, .. }, ExitCode::Success)
    ));
}

#[test]
fn overridden_extract_methods_are_found() {
    let item = |name: &str, is_fn| ImplItem { name: name.to_string(), is_fn };
    let block = |path: Option<&[&str]>| ImplBlock {
        of_trait: path.map(strings),
        items: vec![
            item("extractor_set", true),
            item("extract", true),
            item("extract", false),
            item("extract", true),
        ],
    };
    let lint = NoExtractOverride;
    assert_eq!(lint.check_item(&block(Some(&["framework", "LanguageExtractor"]))), [1, 3]);
    assert!(lint.check_item(&block(Some(&["LanguageExtractor", "Other"]))).is_empty());
    assert!(lint.check_item(&block(Some(&[]))).is_empty());
    assert!(lint.check_item(&block(None)).is_empty());
}

fn extractor(label: &str) -> ExtractorRule {
    ExtractorRule { label: label.to_string(), rule: format!("pattern: ${label}") }
}

#[test]
fn labels_tell_extractors_apart() {
    assert!(check_labels(&strings(&["A", "B"])).is_ok());
    assert_eq!(check_labels(&strings(&["A", "B", "C", "B", "A"])).unwrap_err().label, "B");
    let twice = vec![extractor("A"), extractor("A")];
    let e = LanguageExtractorSet::new(Language::Go, twice).unwrap_err();
    assert_eq!(e.describe(), "duplicate discriminator label 'A' in extractor set");
    let set =
        LanguageExtractorSet::new(Language::Go, vec![extractor("A"), extractor("B")]).unwrap();
    assert_eq!(set.route(&strings(&["X", "B"])), Some(1));
    assert_eq!(set.route(&strings(&["B", "A"])), Some(0));
    assert_eq!(set.route(&strings(&["X"])), None);
    let rule = set.build_combined_rule();
    assert!(rule.contains("Go_combined") && rule.contains("language: Go"));
    assert!(rule.contains("pattern: $A") && rule.contains("pattern: $B"));
    assert_eq!(
        build_combined_rule("x", "Java", &strings(&["kind: a\nhas:\n  kind: b"])),
        "id: x\nlanguage: Java\nrule:\n  any:\n    - kind: a\n      has:\n        kind: b\n"
    );
}

#[test]
fn files_of_other_languages_are_refused() {
    let set = LanguageExtractorSet::new(Language::Go, vec![extractor("A")]).unwrap();
    let file = |path: &str, language| {
        SourceFile::with_language(path.to_string(), String::new(), language)
    };
    assert!(set.check_languages(&vec![file("a.go", Language::Go)]).is_ok());
    let files = vec![file("a.go", Language::Go), file("b.py", Language::Python)];
    let e = set.check_languages(&files).unwrap_err();
    assert_eq!(
        e.describe(),
        "Method extraction failed for 'unknown' in file 'b.py': source file language 'python' \
         does not match extractor language"
    );
}

fn metadata(tag: Option<&str>) -> GitSubmoduleMetadata {
    GitSubmoduleMetadata {
        git_commit_hash: "abc".to_string(),
        git_tag: tag.map(|t| t.to_string()),
        data_hash: "def".to_string(),
    }
}

#[test]
fn versions_are_listed() {
    assert_eq!(get_boto3_version_info(Ok(metadata(None))).unwrap(), metadata(None));
    assert!(matches!(
        get_botocore_version_info(Err("no file".to_string())),
        Err(ExtractorError::SdkProcessing { sdk_name, source, .. })
            if sdk_name == "botocore" && source.as_deref() == Some("no file")
    ));
    assert_eq!(
        version_lines("0.1.0", &Some(metadata(Some("1.2"))), &Some(metadata(None))),
        [
            "iam-policy-autopilot 0.1.0",
            "boto3 version: commit_id=abc, commit_tag=1.2, data_hash=def",
            "botocore version: commit_id=abc, commit_tag=None, data_hash=def",
        ]
    );
    assert_eq!(version_lines("0.1.0", &None, &None), ["iam-policy-autopilot 0.1.0"]);
}

#[test]
fn languages_are_known_by_their_names() {
    for language in [
        Language::Python,
        Language::JavaScript,
        Language::TypeScript,
        Language::Go,
        Language::Java,
    ] {
        assert_eq!(Language::try_from_str(language.as_str()).unwrap(), language);
    }
    assert_eq!(Language::try_from_str("ts").unwrap(), Language::TypeScript);
    assert!(Language::try_from_str("ruby").is_err());
}

#[test]
fn paths_are_compared_by_their_components() {
    assert_eq!(components("/a//b/./c/"), ["/", "a", "b", "c"]);
    assert_eq!(components("./a/.."), [".", "a", ".."]);
    assert!(same_path("a//b/", "a/b") && !same_path("/a/b", "a/b"));
    assert!(ends_with_path("/work/src/main.go", "src/main.go"));
    assert!(!ends_with_path("/work/src/main.go", "rc/main.go"));
    assert!(starts_with_path("/work/src", "/work") && !starts_with_path("/workshop", "/work"));
    assert_eq!(file_name("/a/b.rs").as_deref(), Some("b.rs"));
    assert_eq!(file_name("a/.."), None);
    assert_eq!(parent_name("/a/b.rs").as_deref(), Some("a"));
    assert_eq!(extension("a.tar.gz").as_deref(), Some("gz"));
    assert_eq!(extension(".bashrc"), None);
    assert!(path_less("a/b", "a.b") && !path_less("a/b", "a//b"));
    assert!(path_less("/a", ".b") && path_less("/a", "./b") && path_less("./b", "../a"));
    assert!(path_less("../a", "-a") && path_less("../a", ".b") && !path_less("-a", ".."));
}

#[test]
fn texts_are_taken_apart_and_put_together() {
    assert_eq!(split("a,,b", ','), ["a", "", "b"]);
    assert_eq!(lines("a\r\nb\n\nc"), ["a", "b", "", "c"]);
    assert_eq!(join(&strings(&["a", "b"]), ", "), "a, b");
    assert_eq!(trim(" \t a b\u{a0}\n"), "a b");
    assert_eq!(trim_char("\"\"a\"", '"'), "a");
    assert_eq!(remove_char("a-b-c", '-'), "abc");
    assert!(starts_with("abc", "ab") && ends_with("abc", "bc"));
    assert_eq!(strip_prefix("abc", "ab").as_deref(), Some("c"));
    assert_eq!(strip_suffix("abc", "x"), None);
    let chars = |s: &str| s.chars().collect::<Vec<char>>();
    assert_eq!(find_text(&chars("äbäb"), &chars("äb"), 1), Some(2));
    assert_eq!(find_text(&chars("ab"), &chars("abc"), 0), None);
    assert_eq!(parse_u32("+42"), Some(42));
    assert_eq!(parse_u32("4294967296"), None);
    assert_eq!(parse_usize("-1"), None);
    assert_eq!(show_number(1203), "1203");
    assert!(less("Z", "a") && less("a", "ab") && !less("b", "ab"));
    assert_eq!(sorted_set(&strings(&["b", "a", "b", "B"])), ["B", "a", "b"]);
}
