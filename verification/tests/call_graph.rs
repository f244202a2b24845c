use iam_policy_autopilot::call_graph::{
    contains_node, innermost_enclosing, same_node, CallGraph, FileFilter, FunctionNode,
};
use iam_policy_autopilot::sdk::{Location, SdkMethodCall, SdkMethodCallMetadata};

fn location(file: &str, start: (usize, usize), end: (usize, usize)) -> Location {
    Location::new(file.to_string(), start, end)
}

fn function(name: &str, file: &str, start: (usize, usize), end: (usize, usize)) -> FunctionNode {
    FunctionNode {
        name: name.to_string(),
        qualified_name: None,
        location: location(file, start, end),
    }
}

/// Each string has the form `caller -> callee1, callee2`. The functions stand one below the other
/// in `test.go`.
fn graph_from_spec(edge_specs: &[&str]) -> CallGraph {
    let mut names: Vec<&str> = Vec::new();
    let mut pairs: Vec<(&str, &str)> = Vec::new();
    for spec in edge_specs {
        let parts: Vec<&str> = spec.split("->").collect();
        let caller = parts[0].trim();
        if !names.contains(&caller) {
            names.push(caller);
        }
        if parts.len() == 2 {
            for callee in parts[1].split(',') {
                let callee = callee.trim();
                if !names.contains(&callee) {
                    names.push(callee);
                }
                pairs.push((caller, callee));
            }
        }
    }
    let nodes: Vec<FunctionNode> = names
        .iter()
        .enumerate()
        .map(|(i, name)| function(name, "test.go", (i * 10 + 1, 1), (i * 10 + 10, 1)))
        .collect();
    let mut edges: Vec<(FunctionNode, Vec<FunctionNode>)> = Vec::new();
    for (caller, callee) in pairs {
        let caller = nodes.iter().find(|n| n.name == caller).unwrap().clone();
        let callee = nodes.iter().find(|n| n.name == callee).unwrap().clone();
        match edges.iter().position(|e| same_node(&e.0, &caller)) {
            Some(i) => edges[i].1.push(callee),
            None => edges.push((caller, vec![callee])),
        }
    }
    CallGraph::new(nodes, edges)
}

fn node(graph: &CallGraph, name: &str) -> FunctionNode {
    graph.nodes().iter().find(|n| n.name == name).unwrap().clone()
}

fn sdk_call_in(graph: &CallGraph, operation: &str, function_name: &str) -> SdkMethodCall {
    let node = node(graph, function_name);
    let line = node.location.start_line() + 1;
    SdkMethodCall {
        name: operation.to_string(),
        possible_services: vec!["s3".to_string()],
        metadata: Some(SdkMethodCallMetadata::new(
            format!("client.{operation}(...)"),
            location(&node.location.file_path, (line, 5), (line, 15)),
        )),
    }
}

fn reachable_names(graph: &CallGraph, from: &str) -> Vec<String> {
    let mut names: Vec<String> = graph
        .reachable_set(&node(graph, from))
        .into_iter()
        .map(|n| n.name)
        .collect();
    names.sort();
    names
}

#[test]
fn test_reachable_set() {
    assert_eq!(reachable_names(&graph_from_spec(&["a -> b", "b -> c"]), "a"), ["a", "b", "c"]);
    assert_eq!(reachable_names(&graph_from_spec(&["a -> b", "b -> c"]), "b"), ["b", "c"]);
    assert_eq!(reachable_names(&graph_from_spec(&["a -> b", "b -> c"]), "c"), ["c"]);
    assert_eq!(
        reachable_names(&graph_from_spec(&["a -> b, c", "b -> d", "c -> d"]), "a"),
        ["a", "b", "c", "d"]
    );
    assert_eq!(reachable_names(&graph_from_spec(&["a -> b", "b -> a"]), "a"), ["a", "b"]);
    assert_eq!(reachable_names(&graph_from_spec(&["a"]), "a"), ["a"]);
}

fn partition(specs: &[&str], calls: &[(&str, &str)], entry: &str) -> Vec<String> {
    let graph = graph_from_spec(specs);
    let calls: Vec<SdkMethodCall> =
        calls.iter().map(|(op, f)| sdk_call_in(&graph, op, f)).collect();
    let result = graph.partition_calls(&vec![node(&graph, entry)], &calls);
    result[0].1.iter().map(|c| c.name.clone()).collect()
}

#[test]
fn test_partition_calls_single_entry() {
    assert_eq!(
        partition(
            &["handler -> fetch", "fetch", "unrelated"],
            &[("GetObject", "fetch"), ("DeleteBucket", "unrelated")],
            "handler"
        ),
        ["GetObject"]
    );
    assert_eq!(
        partition(&["a -> shared", "b -> shared", "shared"], &[("PutItem", "shared")], "a"),
        ["PutItem"]
    );
    assert_eq!(partition(&["handler"], &[("GetObject", "handler")], "handler"), ["GetObject"]);
    let none: [&str; 0] = [];
    assert_eq!(partition(&["handler", "other"], &[("GetObject", "other")], "handler"), none);
}

#[test]
fn test_partition_calls_multiple_entry_points_share_call() {
    let graph = graph_from_spec(&["a -> shared", "b -> shared", "shared"]);
    let call = sdk_call_in(&graph, "PutItem", "shared");
    let entries: Vec<FunctionNode> = ["a", "b"].iter().map(|name| node(&graph, name)).collect();

    let result = graph.partition_calls(&entries, &vec![call]);
    assert_eq!(result.len(), 2);
    assert_eq!(result[0].1.len(), 1);
    assert_eq!(result[1].1.len(), 1);
}

#[test]
fn test_enclosing_function_finds_innermost() {
    let outer = function("outer", "f.go", (1, 1), (30, 1));
    let inner = function("inner", "f.go", (5, 1), (15, 1));
    let graph = CallGraph::new(vec![outer, inner], Vec::new());
    let loc = location("f.go", (10, 5), (10, 15));
    assert_eq!(graph.enclosing_function(&loc).unwrap().name, "inner");
}

#[test]
fn calls_without_a_place_are_left_out() {
    let graph = graph_from_spec(&["handler"]);
    let call = SdkMethodCall {
        name: "GetObject".to_string(),
        possible_services: vec!["s3".to_string()],
        metadata: None,
    };
    let result = graph.partition_calls(&vec![node(&graph, "handler")], &vec![call]);
    assert!(result[0].1.is_empty());
}

#[test]
fn equal_spans_give_the_first_function() {
    let nodes = vec![
        function("first", "f.go", (1, 1), (10, 2)),
        function("second", "f.go", (1, 1), (10, 2)),
        function("elsewhere", "g.go", (2, 1), (3, 1)),
    ];
    let file = FileFilter::Is("f.go".to_string());
    assert_eq!(innermost_enclosing(&nodes, (5, 1), &file).unwrap().name, "first");
    assert!(innermost_enclosing(&nodes, (11, 1), &file).is_none());
}

#[test]
fn spans_of_as_many_lines_go_by_their_last_column() {
    let nodes = vec![
        function("wide", "f.go", (1, 1), (10, 9)),
        function("narrow", "f.go", (1, 1), (10, 4)),
    ];
    let file = FileFilter::Is("f.go".to_string());
    assert_eq!(innermost_enclosing(&nodes, (5, 1), &file).unwrap().name, "narrow");
}

#[test]
fn files_are_told_by_their_components() {
    let nodes = vec![function("f", "/work/src//f.go", (1, 1), (10, 1))];
    let same = FileFilter::Is("/work/src/./f.go".to_string());
    let ends = FileFilter::EndsWith("src/f.go".to_string());
    let other = FileFilter::EndsWith("rc/f.go".to_string());
    assert!(innermost_enclosing(&nodes, (5, 1), &same).is_some());
    assert!(innermost_enclosing(&nodes, (5, 1), &ends).is_some());
    assert!(innermost_enclosing(&nodes, (5, 1), &other).is_none());
}

#[test]
fn the_last_entry_of_a_caller_counts() {
    let a = function("a", "f.go", (1, 1), (2, 1));
    let b = function("b", "f.go", (3, 1), (4, 1));
    let c = function("c", "f.go", (5, 1), (6, 1));
    let edges = vec![(a.clone(), vec![b.clone()]), (a.clone(), vec![c.clone()])];
    let graph = CallGraph::new(vec![a.clone(), b.clone(), c.clone()], edges);
    let callees = graph.outgoing(&a);
    assert_eq!(callees.len(), 1);
    assert!(same_node(&callees[0], &c));
    assert!(graph.outgoing(&b).is_empty());
    assert!(!contains_node(&graph.reachable_set(&a), &b));
}

#[test]
fn what_is_reached_from_what_is_reached_is_reached() {
    let graph = graph_from_spec(&["a -> b", "b -> c", "c -> d"]);
    let from_a = graph.reachable_set(&node(&graph, "a"));
    for n in graph.reachable_set(&node(&graph, "b")) {
        assert!(contains_node(&from_a, &n));
    }
}
