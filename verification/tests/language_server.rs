use iam_policy_autopilot::call_graph::CallGraph;
use iam_policy_autopilot::call_hierarchy::{
    build_call_graph, declared_functions, FlatSymbol, LspPosition, LspRange, NestedSymbol,
    OutgoingCall, SymbolKind, SymbolReply,
};
use iam_policy_autopilot::lsp::{
    active_after, answered, extract_type_from_hover, file_url, idle_step, initialized,
    startup_error, url_path, workspace_folder, Hover, HoverContents, IdleEvent, IdleStep, IdleWait,
    LspClientOptions, LspError, MarkedString, OpenedDocuments, ProgressEvent, Reply,
    StartupFailure,
};
use iam_policy_autopilot::sdk::Location;

fn plain(s: &str) -> MarkedString {
    MarkedString::Plain(s.to_string())
}

fn python(s: &str) -> MarkedString {
    MarkedString::LanguageString { language: "python".to_string(), value: s.to_string() }
}

#[test]
fn test_extract_type_from_hover() {
    let check = |contents: HoverContents, expected: Option<&str>| {
        assert_eq!(extract_type_from_hover(&Hover { contents }).as_deref(), expected);
    };
    check(HoverContents::Scalar(plain("str")), Some("str"));
    check(
        HoverContents::Markup("```python\ns3_client: S3Client\n```".to_string()),
        Some("```python\ns3_client: S3Client\n```"),
    );
    check(HoverContents::Scalar(plain("")), None);
    check(HoverContents::Scalar(python("int")), Some("int"));
    check(
        HoverContents::Array(vec![plain("Type: str"), python("extra")]),
        Some("Type: str\nextra"),
    );
    check(HoverContents::Array(vec![plain(""), python("extra"), python("")]), Some("extra"));
    check(HoverContents::Array(vec![plain(""), python("")]), None);
    check(HoverContents::Markup(String::new()), None);
}

#[test]
fn errors_of_the_server_are_described() {
    let check = |e: LspError, expected: &str| assert_eq!(e.describe(), expected);
    check(LspError::ServerNotFound("gopls".to_string()), "gopls not found in PATH");
    check(LspError::Timeout(30), "LSP operation timed out after 30s");
    check(LspError::SendFailed("gone".to_string()), "Failed to send message: gone");
    check(LspError::ParseFailed("x".to_string()), "Failed to parse LSP response: x");
    check(LspError::ServerError("x".to_string()), "Language server error: x");
    check(
        LspError::InvalidPath("a/b".to_string()),
        "Failed to convert a file path to a URI: a/b",
    );
    check(
        startup_error(StartupFailure::NoBinary("ty".to_string())),
        "ty not found in PATH",
    );
    check(
        startup_error(StartupFailure::NoProcess("denied".to_string())),
        "Failed to start language server: Failed to spawn process: denied",
    );
    check(
        startup_error(StartupFailure::NoOutput),
        "Failed to start language server: Failed to get stdout handle",
    );
    check(
        startup_error(StartupFailure::NoInput),
        "Failed to start language server: Failed to get stdin handle",
    );
    check(
        startup_error(StartupFailure::UnreadableWorkspace),
        "Failed to start language server: Invalid workspace path (non-UTF8)",
    );
    check(
        startup_error(StartupFailure::NotConfirmed("closed".to_string())),
        "Failed to initialize language server: Failed to send initialized: closed",
    );
}

#[test]
fn replies_become_results() {
    assert_eq!(answered(Reply::Answer(3), 5), Ok(3));
    assert_eq!(
        answered(Reply::<u8>::Failure("x".to_string()), 5),
        Err(LspError::ServerError("x".to_string()))
    );
    assert_eq!(answered(Reply::<u8>::Elapsed, 5), Err(LspError::Timeout(5)));
    assert_eq!(initialized(Reply::Answer(3), 10), Ok(3));
    assert_eq!(
        initialized(Reply::<u8>::Failure("x".to_string()), 10),
        Err(LspError::InitializeFailed("x".to_string()))
    );
    assert_eq!(initialized(Reply::<u8>::Elapsed, 10), Err(LspError::Timeout(10)));
}

#[test]
fn options_differ_for_gopls() {
    let plain = LspClientOptions::default();
    assert_eq!((plain.request_timeout, plain.idle_timeout, plain.shutdown_timeout), (5, 120, 2));
    assert_eq!(plain.capabilities, None);
    let gopls = LspClientOptions::for_gopls();
    assert_eq!((gopls.request_timeout, gopls.idle_timeout, gopls.shutdown_timeout), (30, 300, 5));
    let capabilities = gopls.capabilities.unwrap();
    assert!(capabilities.hierarchical_document_symbols && capabilities.work_done_progress);
}

#[test]
fn absolute_paths_have_urls() {
    assert_eq!(file_url("/work/a b.go").unwrap(), "file:///work/a%20b.go");
    assert_eq!(file_url("work/a.go"), Err(LspError::InvalidPath("work/a.go".to_string())));
    assert_eq!(file_url(""), Err(LspError::InvalidPath(String::new())));
    assert_eq!(url_path("file:///work/a%20b.go").as_deref(), Some("/work/a b.go"));
    assert_eq!(url_path("file://elsewhere/a.go"), None);
    assert_eq!(url_path("no url"), None);
    let folder = workspace_folder("/work/project").unwrap();
    assert_eq!((folder.uri.as_str(), folder.name.as_str()), ("file:///work/project", "project"));
    assert_eq!(workspace_folder("/").unwrap().name, "workspace");
    assert_eq!(
        workspace_folder("project").unwrap_err().describe(),
        "Failed to start language server: Invalid workspace path"
    );
}

#[test]
fn documents_are_announced_once() {
    let mut opened = OpenedDocuments::new();
    assert_eq!(opened.open("/a.go"), Ok(Some("file:///a.go".to_string())));
    assert_eq!(opened.open("/b.go"), Ok(Some("file:///b.go".to_string())));
    assert_eq!(opened.open("/a.go"), Ok(None));
    assert!(opened.open("a.go").is_err());
    assert_eq!(opened.urls, ["file:///a.go", "file:///b.go"]);
}

#[test]
fn the_server_is_idle_when_its_work_has_ended() {
    let mut active = 0;
    let mut wait = IdleWait::Starting;
    for event in [ProgressEvent::Created, ProgressEvent::Begun, ProgressEvent::Reported] {
        active = active_after(active, event);
        match idle_step(wait, IdleEvent::Active(active)) {
            IdleStep::Wait(w) => wait = w,
            other => panic!("{other:?}"),
        }
    }
    assert_eq!((active, wait), (1, IdleWait::Draining));
    active = active_after(active, ProgressEvent::Ended);
    assert_eq!(idle_step(wait, IdleEvent::Active(active)), IdleStep::Idle);
    assert_eq!(idle_step(wait, IdleEvent::Deadline), IdleStep::TimedOut);
    assert_eq!(idle_step(IdleWait::Starting, IdleEvent::Deadline), IdleStep::Idle);
    assert_eq!(
        idle_step(IdleWait::Starting, IdleEvent::Active(0)),
        IdleStep::Wait(IdleWait::Starting)
    );
    assert_eq!(active_after(0, ProgressEvent::Ended), usize::MAX);
}

fn range(start: (u32, u32), end: (u32, u32)) -> LspRange {
    LspRange {
        start: LspPosition { line: start.0, character: start.1 },
        end: LspPosition { line: end.0, character: end.1 },
    }
}

fn symbol(name: &str, kind: SymbolKind, first: u32, last: u32) -> NestedSymbol {
    NestedSymbol {
        name: name.to_string(),
        detail: Some("func()".to_string()),
        kind,
        range: range((first, 0), (last, 1)),
        selection_range: range((first, 5), (first, 9)),
    }
}

const MAIN: &str = "file:///work/main.go";

fn call_to(uri: &str, line: u32) -> OutgoingCall {
    OutgoingCall { uri: uri.to_string(), range: range((line, 0), (line, 4)) }
}

fn simple_call_chain() -> CallGraph {
    let reply = SymbolReply::Nested(vec![
        symbol("main", SymbolKind::Function, 2, 4),
        symbol("helper", SymbolKind::Function, 6, 8),
        symbol("config", SymbolKind::Other, 9, 9),
        symbol("(*T).deepHelper", SymbolKind::Method, 10, 12),
        symbol("unrelated", SymbolKind::Function, 14, 16),
    ]);
    let functions = declared_functions(MAIN, &reply);
    assert_eq!(functions.len(), 4);
    assert_eq!(functions[0].uri, MAIN);
    assert_eq!(functions[0].name_position, LspPosition { line: 2, character: 5 });
    let nodes = functions.into_iter().map(|f| f.node).collect();
    build_call_graph(
        nodes,
        &vec!["/work/main.go".to_string()],
        &vec![
            Some(vec![call_to(MAIN, 6), call_to("file:///go/src/fmt/print.go", 6)]),
            Some(vec![call_to(MAIN, 11), call_to(MAIN, 9)]),
            Some(vec![]),
            None,
        ],
    )
}

fn callees(graph: &CallGraph, name: &str) -> Vec<String> {
    let node = graph.nodes().iter().find(|n| n.name == name).unwrap();
    graph.outgoing(node).into_iter().map(|n| n.name).collect()
}

#[test]
fn call_graphs_follow_the_replies() {
    let graph = simple_call_chain();
    let names: Vec<&str> = graph.nodes().iter().map(|n| n.name.as_str()).collect();
    assert_eq!(names, ["main", "helper", "(*T).deepHelper", "unrelated"]);
    assert_eq!(callees(&graph, "main"), ["helper"]);
    assert_eq!(callees(&graph, "helper"), ["(*T).deepHelper"]);
    assert!(callees(&graph, "(*T).deepHelper").is_empty());
    assert!(callees(&graph, "unrelated").is_empty());
    assert_eq!(
        graph.nodes()[0].location,
        Location::new("/work/main.go".to_string(), (3, 1), (5, 2))
    );
}

#[test]
fn flat_symbols_are_asked_for_at_their_start() {
    let flat = |name: &str, kind| FlatSymbol {
        name: name.to_string(),
        container_name: Some("main".to_string()),
        kind,
        range: range((1, 2), (3, 4)),
    };
    let reply = SymbolReply::Flat(vec![
        flat("T", SymbolKind::Other),
        flat("run", SymbolKind::Method),
    ]);
    let functions = declared_functions(MAIN, &reply);
    assert_eq!(functions.len(), 1);
    assert_eq!(functions[0].name_position, LspPosition { line: 1, character: 2 });
    assert_eq!(functions[0].node.qualified_name.as_deref(), Some("main"));
    assert!(declared_functions("untitled", &reply).is_empty());
    assert_eq!(Location::from_lsp("untitled", range((0, 0), (0, 1))), None);
}
