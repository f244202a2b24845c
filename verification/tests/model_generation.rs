use iam_policy_autopilot::call_graph::{same_node, CallGraph, FunctionNode};
use iam_policy_autopilot::generate_model::{
    check_jobs, conventions_for, entry_nodes, first_action, generate_one, next_action,
    resolve_entry_points, terraform_service_hint, BatchAction, BatchOptions, GenerateModelConfig,
    ServiceHints,
};
use iam_policy_autopilot::go::{normalize_go_entry_point, split_receiver};
use iam_policy_autopilot::go_conventions::{parse_go_symbol, GoConventions};
use iam_policy_autopilot::language::Language;
use iam_policy_autopilot::library_model::{
    CallPattern, CallType, ExternalLibraryModel, LibraryModelRegistry, SdkOperationMapping,
};
use iam_policy_autopilot::model_error::ModelError;
use iam_policy_autopilot::model_generation::{deduplicate_operations, Engine};
use iam_policy_autopilot::sdk::{Location, SdkMethodCall, SdkMethodCallMetadata};
use iam_policy_autopilot::text_map::TextMap;

fn node_at(name: &str, file: &str) -> FunctionNode {
    node_in(name, file, (1, 1), (10, 1))
}

fn node_in(name: &str, file: &str, start: (usize, usize), end: (usize, usize)) -> FunctionNode {
    FunctionNode {
        name: name.to_string(),
        qualified_name: None,
        location: Location::new(file.to_string(), start, end),
    }
}

fn graph_from_spec(edge_specs: &[&str]) -> CallGraph {
    let mut names: Vec<&str> = Vec::new();
    let mut pairs: Vec<(&str, &str)> = Vec::new();
    for spec in edge_specs {
        let parts: Vec<&str> = spec.split("->").collect();
        let caller = parts[0].trim();
        if !names.contains(&caller) {
            names.push(caller);
        }
        if parts.len() == 2 {
            for callee in parts[1].split(',') {
                let callee = callee.trim();
                if !names.contains(&callee) {
                    names.push(callee);
                }
                pairs.push((caller, callee));
            }
        }
    }
    let nodes: Vec<FunctionNode> = names
        .iter()
        .enumerate()
        .map(|(i, name)| node_in(name, "test.go", (i * 10 + 1, 1), (i * 10 + 10, 1)))
        .collect();
    let mut edges: Vec<(FunctionNode, Vec<FunctionNode>)> = Vec::new();
    for (caller, callee) in pairs {
        let caller = nodes.iter().find(|n| n.name == caller).unwrap().clone();
        let callee = nodes.iter().find(|n| n.name == callee).unwrap().clone();
        match edges.iter().position(|e| same_node(&e.0, &caller)) {
            Some(i) => edges[i].1.push(callee),
            None => edges.push((caller, vec![callee])),
        }
    }
    CallGraph::new(nodes, edges)
}

fn node(graph: &CallGraph, name: &str) -> FunctionNode {
    graph.nodes().iter().find(|n| n.name == name).unwrap().clone()
}

fn sdk_call_in(graph: &CallGraph, operation: &str, service: &str, function: &str) -> SdkMethodCall {
    let node = node(graph, function);
    let line = node.location.start_line() + 1;
    SdkMethodCall {
        name: operation.to_string(),
        possible_services: vec![service.to_string()],
        metadata: Some(SdkMethodCallMetadata::new(
            format!("client.{operation}(...)"),
            Location::new(node.location.file_path.clone(), (line, 5), (line, 15)),
        )),
    }
}

fn generate(
    graph: &CallGraph,
    entries: &[&str],
    calls: Vec<SdkMethodCall>,
    name: &str,
) -> ExternalLibraryModel {
    let entries: Vec<FunctionNode> = entries.iter().map(|e| node(graph, e)).collect();
    Engine::new().generate(graph, &entries, &calls, name, Language::Go, &GoConventions)
}

#[test]
fn test_generate_basic() {
    let graph = graph_from_spec(&["handler -> fetch", "fetch"]);
    let call = sdk_call_in(&graph, "GetObject", "s3", "fetch");
    let model = generate(&graph, &["handler"], vec![call], "my-lib");

    assert_eq!(model.library_name, "my-lib");
    assert_eq!(model.language, Language::Go);
    assert_eq!(model.call_patterns.len(), 1);

    let pattern = &model.call_patterns[0];
    assert_eq!(pattern.function_name, "handler");
    assert_eq!(pattern.call_type, CallType::Function);
    assert_eq!(pattern.class_name, None);
    assert_eq!(pattern.sdk_operations.len(), 1);
    assert_eq!(pattern.sdk_operations[0].service, "s3");
    assert_eq!(pattern.sdk_operations[0].operation, "GetObject");
    assert_eq!(model.version, None);
}

#[test]
fn test_generate_filters_empty_entry_points() {
    let graph = graph_from_spec(&["handler", "other"]);
    let call = sdk_call_in(&graph, "GetObject", "s3", "other");
    let model = generate(&graph, &["handler"], vec![call], "lib");
    assert!(model.call_patterns.is_empty());
}

#[test]
fn test_generate_multiple_entry_points() {
    let graph = graph_from_spec(&["a -> shared", "b -> shared", "shared"]);
    let call = sdk_call_in(&graph, "PutItem", "dynamodb", "shared");
    let model = generate(&graph, &["a", "b"], vec![call], "lib");
    assert_eq!(model.call_patterns.len(), 2);
    assert_eq!(model.call_patterns[0].sdk_operations[0].operation, "PutItem");
    assert_eq!(model.call_patterns[1].sdk_operations[0].operation, "PutItem");
}

#[test]
fn test_generate_deduplicates_operations() {
    let graph = graph_from_spec(&["handler -> a, b", "a", "b"]);
    let call_a = sdk_call_in(&graph, "GetObject", "s3", "a");
    let call_b = sdk_call_in(&graph, "GetObject", "s3", "b");
    let model = generate(&graph, &["handler"], vec![call_a, call_b], "lib");
    assert_eq!(model.call_patterns.len(), 1);
    assert_eq!(model.call_patterns[0].sdk_operations.len(), 1);
}

#[test]
fn test_generate_method_receiver() {
    let graph = graph_from_spec(&["(*Server).HandleRequest -> fetch", "fetch"]);
    let call = sdk_call_in(&graph, "GetObject", "s3", "fetch");
    let model = generate(&graph, &["(*Server).HandleRequest"], vec![call], "lib");
    assert_eq!(model.call_patterns.len(), 1);
    let pattern = &model.call_patterns[0];
    assert_eq!(pattern.function_name, "HandleRequest");
    assert_eq!(pattern.class_name, Some("Server".to_string()));
    assert_eq!(pattern.call_type, CallType::InstanceMethod);
}

fn call(name: &str, services: &[&str]) -> SdkMethodCall {
    SdkMethodCall {
        name: name.to_string(),
        possible_services: services.iter().map(|s| s.to_string()).collect(),
        metadata: None,
    }
}

fn pairs(ops: &[SdkOperationMapping]) -> Vec<(String, String)> {
    ops.iter().map(|o| (o.service.clone(), o.operation.clone())).collect()
}

#[test]
fn operations_are_sorted_and_occur_once() {
    let a = deduplicate_operations(&vec![
        call("PutObject", &["s3"]),
        call("GetItem", &["dynamodb"]),
        call("GetObject", &["s3", "dynamodb"]),
        call("PutObject", &["s3"]),
    ]);
    let b = deduplicate_operations(&vec![
        call("GetObject", &["dynamodb", "s3"]),
        call("PutObject", &["s3"]),
        call("GetItem", &["dynamodb"]),
    ]);
    assert_eq!(
        pairs(&a),
        [
            ("dynamodb".to_string(), "GetItem".to_string()),
            ("dynamodb".to_string(), "GetObject".to_string()),
            ("s3".to_string(), "GetObject".to_string()),
            ("s3".to_string(), "PutObject".to_string()),
        ]
    );
    assert_eq!(pairs(&a), pairs(&b));
}

#[test]
fn split_receiver_separates_class_and_method() {
    assert_eq!(
        split_receiver("resourceBucketRead"),
        (None, "resourceBucketRead".to_string())
    );
    assert_eq!(
        split_receiver("(*queueAttributeHandler).Upsert"),
        (Some("queueAttributeHandler".to_string()), "Upsert".to_string())
    );
    assert_eq!(
        split_receiver("(Server).Method"),
        (Some("Server".to_string()), "Method".to_string())
    );
}

#[test]
fn normalize_strips_runtime_decorations() {
    assert_eq!(normalize_go_entry_point("resourceBucketRead"), "resourceBucketRead");
    assert_eq!(
        normalize_go_entry_point("(*queueAttributeHandler).Read-fm"),
        "(*queueAttributeHandler).Read"
    );
    assert_eq!(
        normalize_go_entry_point("resourceResourcePolicyPut.func1"),
        "resourceResourcePolicyPut"
    );
    assert_eq!(
        normalize_go_entry_point("resourceResourcePolicy.resourceResourcePolicyPut.func2"),
        "resourceResourcePolicyPut"
    );
    assert_eq!(normalize_go_entry_point("a.b.func1.func22"), "b");
    assert_eq!(normalize_go_entry_point("a.func"), "a.func");
    assert_eq!(normalize_go_entry_point("a.function1"), "a.function1");
    assert_eq!(normalize_go_entry_point("func1"), "func1");
}

#[test]
fn test_go_is_exported() {
    let exported = |name: &str| GoConventions.is_exported(&node_at(name, "test.go"));
    assert!(exported("HandleRequest"));
    assert!(exported("GetObject"));
    assert!(!exported("fetchData"));
    assert!(!exported("helper"));
    assert!(exported("(*Server).HandleRequest"));
    assert!(!exported("(*Server).fetchData"));
    assert!(exported("(*server).Export"));
    assert!(!exported(""));
    assert!(exported("Ärger"));
    assert!(!exported("ärger"));
}

#[test]
fn test_go_parse_function_name() {
    let check = |name: &str, file: &str, module: &str, class: Option<&str>, func: &str| {
        let key = GoConventions.parse_function_name(&node_at(name, file));
        assert_eq!(key.module, module);
        assert_eq!(key.class_name.as_deref(), class);
        assert_eq!(key.function_name, func);
    };
    check("main", "internal/service/s3/bucket.go", "s3", None, "main");
    check(
        "resourceBucketCreate",
        "internal/service/s3/bucket.go",
        "s3",
        None,
        "resourceBucketCreate",
    );
    check(
        "(*Server).HandleRequest",
        "internal/service/ec2/server.go",
        "ec2",
        Some("Server"),
        "HandleRequest",
    );
    check(
        "(*Server).fetchData",
        "internal/service/ec2/server.go",
        "ec2",
        Some("Server"),
        "fetchData",
    );
    check("(Server).Method", "rds/instance.go", "rds", Some("Server"), "Method");
    check("helper", "helper.go", "", None, "helper");
}

#[test]
fn test_parse_go_symbol_ok() {
    let check = |spec: &str, pkg: &str, func: &str| {
        assert_eq!(parse_go_symbol(spec).unwrap(), (pkg.to_string(), func.to_string()));
    };
    check("s3.resourceBucketCreate", "s3", "resourceBucketCreate");
    check(
        "github.com/hashicorp/terraform-provider-aws/internal/service/s3.resourceBucketCreate",
        "s3",
        "resourceBucketCreate",
    );
    check(
        "sqs.(*queueAttributeHandler).Upsert",
        "sqs",
        "(*queueAttributeHandler).Upsert",
    );
    check(
        "github.com/hashicorp/terraform-provider-aws/internal/service/sqs.(*queueAttributeHandler).Read",
        "sqs",
        "(*queueAttributeHandler).Read",
    );
}

#[test]
fn test_parse_go_symbol_err() {
    assert_eq!(
        parse_go_symbol("noseparator").unwrap_err().describe(),
        "Invalid Go symbol 'noseparator', expected 'pkg.func' (e.g. s3.resourceBucketCreate)"
    );
    assert_eq!(
        parse_go_symbol("s3.").unwrap_err().describe(),
        "Invalid Go symbol 's3.': empty function name"
    );
    assert_eq!(
        parse_go_symbol(".func").unwrap_err().describe(),
        "Invalid Go symbol '.func': empty package name"
    );
}

#[test]
fn test_resolve_symbol_disambiguates_colliding_short_names() {
    let nodes = vec![
        node_at("resourceInstanceRead", "internal/service/ec2/instance.go"),
        node_at("resourceInstanceRead", "internal/service/rds/instance.go"),
    ];
    let conv = GoConventions;
    let ec2 = conv.resolve_symbol("ec2.resourceInstanceRead", &nodes).unwrap();
    assert!(ec2.location.file_path.ends_with("ec2/instance.go"));
    let rds = conv.resolve_symbol("rds.resourceInstanceRead", &nodes).unwrap();
    assert!(rds.location.file_path.ends_with("rds/instance.go"));
}

#[test]
fn test_resolve_symbol_method_form() {
    let nodes = vec![
        node_at("(*queueAttributeHandler).Upsert", "internal/service/sqs/queue.go"),
        node_at("resourceQueueCreate", "internal/service/sqs/queue.go"),
    ];
    let n = GoConventions.resolve_symbol("sqs.(*queueAttributeHandler).Upsert", &nodes).unwrap();
    assert_eq!(n.name, "(*queueAttributeHandler).Upsert");
}

#[test]
fn test_resolve_symbol_accepts_full_import_path() {
    let nodes = vec![node_at("resourceBucketCreate", "internal/service/s3/bucket.go")];
    let n = GoConventions
        .resolve_symbol(
            "github.com/hashicorp/terraform-provider-aws/internal/service/s3.resourceBucketCreate",
            &nodes,
        )
        .unwrap();
    assert_eq!(n.name, "resourceBucketCreate");
}

#[test]
fn test_resolve_symbol_no_match() {
    let nodes = vec![node_at("resourceBucketRead", "internal/service/s3/bucket.go")];
    let conv = GoConventions;
    assert!(conv.resolve_symbol("s3.resourceBucketWrite", &nodes).is_err());
    assert!(conv.resolve_symbol("ec2.resourceBucketRead", &nodes).is_err());
}

#[test]
fn unresolved_symbols_are_explained() {
    let conv = GoConventions;
    let nodes = vec![node_at("read", "a/s3/x.go"), node_at("read", "b/s3/y.go")];
    assert_eq!(
        conv.resolve_symbol("s3.write", &nodes).unwrap_err().describe(),
        "No function named 'write' found in the call graph for symbol 's3.write'"
    );
    assert_eq!(
        conv.resolve_symbol("ec2.read", &nodes).unwrap_err().describe(),
        "Function 'read' exists but not in package 'ec2' for symbol 'ec2.read'. Found in: \
         [\"a/s3/x.go\", \"b/s3/y.go\"]"
    );
    assert_eq!(
        conv.resolve_symbol("s3.read", &nodes).unwrap_err().describe(),
        "Ambiguous symbol 's3.read': 'read' matches multiple nodes in package 's3': \
         [\"a/s3/x.go\", \"b/s3/y.go\"]"
    );
}

#[test]
fn workspace_roots_are_looked_for_from_the_inside_out() {
    let conv = GoConventions;
    let found = conv.workspace_candidates(&vec!["/work/a/b.go".to_string()]).unwrap();
    assert_eq!(found, [vec!["/", "work", "a"], vec!["/", "work"], vec!["/"]]);
    let found = conv.workspace_candidates(&vec!["a/b.go".to_string()]).unwrap();
    assert_eq!(found, [vec!["a"], vec![]]);
    assert_eq!(conv.workspace_root(&vec![false, true, true]), 1);
    assert_eq!(conv.workspace_root(&vec![false, false]), 0);
    assert_eq!(
        conv.workspace_candidates(&Vec::new()).unwrap_err().describe(),
        "No source files provided"
    );
    assert!(matches!(
        conv.workspace_candidates(&vec!["/".to_string()]),
        Err(ModelError::NoSourceFiles)
    ));
}

fn strings(v: &[&str]) -> Vec<String> {
    v.iter().map(|s| s.to_string()).collect()
}

fn entry_error(entry: &str, nodes: &Vec<FunctionNode>) -> String {
    resolve_entry_points(&strings(&[entry]), nodes).unwrap_err().describe()
}

#[test]
fn entry_points_are_the_innermost_functions_at_a_place() {
    let nodes = vec![
        node_in("outer", "/w/src/handler.go", (1, 1), (30, 2)),
        node_in("inner", "/w/src/handler.go", (5, 3), (9, 4)),
        node_in("other", "/w/src/other.go", (1, 1), (9, 2)),
    ];
    let found =
        resolve_entry_points(&strings(&["handler.go:14:1", "src/handler.go:6:1"]), &nodes).unwrap();
    assert_eq!(found.iter().map(|n| n.name.as_str()).collect::<Vec<_>>(), ["outer", "inner"]);
    assert_eq!(
        entry_error("handler.go:14", &nodes),
        "Invalid entry point format 'handler.go:14', expected 'file:line:column' \
         (e.g. handler.go:14:1)"
    );
    assert_eq!(
        entry_error("handler.go:14:x", &nodes),
        "Invalid column in entry point 'handler.go:14:x'"
    );
    assert_eq!(
        entry_error("handler.go:y:1", &nodes),
        "Invalid line number in entry point 'handler.go:y:1'"
    );
    assert_eq!(
        entry_error("handler.go:999:1", &nodes),
        "No function declaration at handler.go:999:1. Available functions in handler.go: \
         [\"outer (1:1)\", \"inner (5:3)\"]"
    );
}

#[test]
fn ambiguous_files_are_named() {
    let nodes = vec![
        node_in("f", "/w/a/x.go", (1, 1), (3, 2)),
        node_in("g", "/w/b/x.go", (1, 1), (3, 2)),
        node_in("h", "/w/a/x.go", (4, 1), (6, 2)),
    ];
    assert_eq!(
        entry_error("x.go:1:1", &nodes),
        "Ambiguous file path 'x.go' in entry point 'x.go:1:1', matches multiple files: \
         {\"/w/a/x.go\", \"/w/b/x.go\"}. Use a longer path to disambiguate."
    );
}

fn config(name: &str, entries: &[&str], symbols: &[&str]) -> GenerateModelConfig {
    GenerateModelConfig {
        source_files: strings(&["test.go"]),
        language: None,
        library_name: name.to_string(),
        entry_points: strings(entries),
        entry_point_symbols: strings(symbols),
        service_hints: Some(ServiceHints { service_names: strings(&["s3"]) }),
    }
}

#[test]
fn entry_points_default_to_exported_functions() {
    let nodes = vec![node_at("helper", "x/test.go"), node_at("Handle", "x/test.go")];
    let found = entry_nodes(&config("lib", &[], &[]), &nodes, &GoConventions).unwrap();
    assert_eq!(found.iter().map(|n| n.name.as_str()).collect::<Vec<_>>(), ["Handle"]);

    let found =
        entry_nodes(&config("lib", &["test.go:2:1"], &["x.Handle"]), &nodes, &GoConventions)
            .unwrap();
    assert_eq!(found.iter().map(|n| n.name.as_str()).collect::<Vec<_>>(), ["helper", "Handle"]);

    let e = entry_nodes(&config("lib", &[], &["x.Nothing"]), &nodes, &GoConventions).unwrap_err();
    assert_eq!(e.describe(), "Failed to resolve entry point symbol 'x.Nothing'");
    assert!(matches!(
        e,
        ModelError::UnresolvedSymbol { cause, .. }
            if cause == "No function named 'Nothing' found in the call graph for symbol 'x.Nothing'"
    ));
}

#[test]
fn one_model_is_generated_from_a_graph() {
    let graph = graph_from_spec(&["Handler -> fetch", "fetch"]);
    let calls = vec![sdk_call_in(&graph, "GetObject", "s3", "fetch")];
    let files = strings(&["/w/test.go"]);
    let generate = |entries: &[&str], files: &Vec<String>| {
        let config = config("lib", entries, &[]);
        generate_one(&graph, &config, files, &calls, Language::Go, &GoConventions)
    };
    let model = generate(&[], &files).unwrap();
    assert_eq!(model.call_patterns.len(), 1);
    assert_eq!(model.call_patterns[0].function_name, "Handler");
    let e = generate(&["nowhere.go:1:1"], &files);
    assert!(matches!(e, Err(ModelError::NoFunctionAt { .. })));
    let e = generate(&["nowhere.go:1:1"], &vec![]);
    assert!(matches!(e, Err(ModelError::NoSourceFiles)));
    assert!(matches!(generate(&[], &strings(&["/"])), Err(ModelError::NoSourceFiles)));
}

#[test]
fn only_go_has_models() {
    assert!(conventions_for(Language::Go).is_ok());
    assert_eq!(
        conventions_for(Language::Java).unwrap_err().describe(),
        "Model generation is not yet supported for java"
    );
}

#[test]
fn jobs_stay_inside_the_workspace() {
    let configs = vec![config("a", &[], &[]), config("b", &[], &[])];
    let inside = vec![strings(&["/w/a.go"]), strings(&["/w/b.go", "/w/x/c.go"])];
    assert!(check_jobs(&configs, &inside, "/w").is_ok());
    let outside = vec![strings(&["/w/a.go"]), strings(&["/w/b.go", "/www/c.go"])];
    assert_eq!(
        check_jobs(&configs, &outside, "/w").unwrap_err().describe(),
        "Job 'b' has source file outside workspace root /w: /www/c.go"
    );
}

#[test]
fn batches_restart_the_server_between_jobs() {
    assert_eq!(BatchOptions::default().restart_every_n, 25);
    assert_eq!(BatchOptions::default().workspace_root, "");
    let mut seen = Vec::new();
    let mut action = first_action(3, 2);
    while !matches!(action, BatchAction::Shutdown(_)) {
        seen.push(action);
        action = next_action(action, true, 3, 2);
    }
    assert_eq!(
        seen,
        [
            BatchAction::Probe(0),
            BatchAction::Run(0),
            BatchAction::Probe(1),
            BatchAction::Run(1),
            BatchAction::Restart(2),
            BatchAction::Probe(2),
            BatchAction::Run(2),
        ]
    );
    assert_eq!(action, BatchAction::Shutdown(true));
    assert_eq!(next_action(BatchAction::Run(1), false, 3, 2), BatchAction::Shutdown(false));
    assert_eq!(next_action(BatchAction::Run(1), true, 3, 0), BatchAction::Probe(2));
    assert_eq!(
        ModelError::ServerStopped { job: "x".to_string() }.describe(),
        "Language server is no longer running (failed before job 'x')"
    );
}

#[test]
fn service_hints_name_known_services() {
    let mut imports: TextMap<String> = TextMap::new();
    imports.insert("elasticsearchservice".to_string(), "es".to_string());
    imports.insert("qldb".to_string(), "qldb-session".to_string());
    let mut known: TextMap<u8> = TextMap::new();
    known.insert("es".to_string(), 0);
    known.insert("s3".to_string(), 0);
    let hint = |p: &str| terraform_service_hint(p, &imports, &known);
    assert_eq!(hint("elasticsearchservice").as_deref(), Some("es"));
    assert_eq!(hint("s3").as_deref(), Some("s3"));
    assert_eq!(hint("qldb"), None);
    assert_eq!(hint("evidently"), None);
}

fn model(name: &str, language: Language) -> ExternalLibraryModel {
    ExternalLibraryModel {
        library_name: name.to_string(),
        language,
        version: None,
        call_patterns: vec![CallPattern {
            module: "some_lib.mod".to_string(),
            class_name: None,
            function_name: "do_thing".to_string(),
            call_type: CallType::Function,
            sdk_operations: vec![SdkOperationMapping {
                service: "s3".to_string(),
                operation: "GetObject".to_string(),
            }],
        }],
    }
}

#[test]
fn registries_hold_the_models_of_one_language() {
    let parsed = vec![
        Some(model("a", Language::Python)),
        None,
        Some(model("b", Language::Go)),
        Some(model("c", Language::Python)),
    ];
    let registry = LibraryModelRegistry::load(&parsed, Language::Python);
    let names: Vec<&str> = registry.models().iter().map(|m| m.library_name.as_str()).collect();
    assert_eq!(names, ["a", "c"]);
    let all = LibraryModelRegistry::from_models(vec![model("d", Language::Go)]);
    assert_eq!(all.models().len(), 1);
    assert_eq!(all.models()[0].call_patterns[0].key().function_name, "do_thing");
}
