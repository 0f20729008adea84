use cviz::ascii::{box_content, generate_ascii};
use cviz::model::{ComponentNode, CompositionGraph, InterfaceConnection};
use cviz::output::DetailLevel;

/// Build a graph: host → $srv → $middleware → export(handler)
fn test_graph() -> CompositionGraph {
    let mut graph = CompositionGraph::new();

    let mut srv = ComponentNode::new("$srv".to_string(), 0);
    srv.add_import(InterfaceConnection {
        interface_name: "wasi:http/handler@0.3.0".to_string(),
        source_instance: Some(0),
        is_host_import: true,
    });
    graph.add_node(1, srv);

    let mut mw = ComponentNode::new("$middleware".to_string(), 1);
    mw.add_import(InterfaceConnection {
        interface_name: "wasi:http/handler@0.3.0".to_string(),
        source_instance: Some(1),
        is_host_import: false,
    });
    mw.add_import(InterfaceConnection {
        interface_name: "wasi:logging/log@0.1.0".to_string(),
        source_instance: Some(0),
        is_host_import: true,
    });
    graph.add_node(2, mw);

    graph.add_export("wasi:http/handler@0.3.0".to_string(), 2);
    graph
}

#[test]
fn ascii_test_box_content() {
    let lines = vec!["line 1".to_string(), "line 2".to_string()];
    let result = box_content("Test", &lines);
    assert!(result.contains("Test"));
    assert!(result.contains("line 1"));
    assert!(result.contains("line 2"));
    assert!(result.contains("┌"));
    assert!(result.contains("└"));
}

#[test]
fn ascii_test_handler_chain_ascii() {
    let graph = test_graph();
    let output = generate_ascii(&graph, DetailLevel::HandlerChain);

    assert!(output.contains("Handler Chain"), "should have title");
    assert!(output.contains("srv"), "should show srv node");
    assert!(output.contains("middleware"), "should show middleware node");
    assert!(output.contains("handler"), "should show handler label");
    assert!(output.contains("Export"), "should show export at start");
    // Request flow order: export → middleware → srv
    assert!(
        output.contains("[Export: handler] ──> middleware"),
        "should show export pointing to outermost handler"
    );
    assert!(
        output.contains("middleware ──handler──> srv"),
        "should show request flow from middleware to srv"
    );
}

#[test]
fn ascii_test_all_interfaces_ascii() {
    let graph = test_graph();
    let output = generate_ascii(&graph, DetailLevel::AllInterfaces);

    // Host imports section
    assert!(
        output.contains("Host Imports"),
        "should have host imports section"
    );
    assert!(output.contains("handler"), "should show handler interface");
    assert!(output.contains("log"), "should show log interface");

    // Component instances section
    assert!(
        output.contains("Component Instances"),
        "should list instances"
    );
    assert!(output.contains("srv"), "should show srv");
    assert!(output.contains("middleware"), "should show middleware");

    // Connections section
    assert!(
        output.contains("Connections"),
        "should have connections section"
    );
    assert!(output.contains("Export"), "should show export");
}

#[test]
fn ascii_test_full_ascii() {
    let graph = test_graph();
    let output = generate_ascii(&graph, DetailLevel::Full);

    assert!(
        output.contains("All Instances"),
        "should have instances section"
    );
    assert!(output.contains("srv"), "should show srv");
    assert!(output.contains("middleware"), "should show middleware");
    // Full mode shows full interface names
    assert!(
        output.contains("wasi:http/handler@0.3.0"),
        "should show full interface name"
    );
    assert!(output.contains("Connections"), "should have connections");
}

#[test]
fn ascii_test_empty_graph_ascii() {
    let graph = CompositionGraph::new();

    let chain = generate_ascii(&graph, DetailLevel::HandlerChain);
    assert!(chain.contains("No HTTP handler chain found"), "{}", chain);

    let all = generate_ascii(&graph, DetailLevel::AllInterfaces);
    assert!(all.contains("No component instances found"));

    let full = generate_ascii(&graph, DetailLevel::Full);
    assert!(full.contains("No instances found"));
}
