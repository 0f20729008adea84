use cviz::mermaid::generate_mermaid;
use cviz::model::{ComponentNode, CompositionGraph, InterfaceConnection};
use cviz::output::{DetailLevel, Direction};

/// Build a graph: host → $srv → $middleware → export(handler)
fn test_graph() -> CompositionGraph {
    let mut graph = CompositionGraph::new();

    let mut srv = ComponentNode::new("$srv".to_string(), 0);
    srv.add_import(InterfaceConnection {
        interface_name: "wasi:http/handler@0.3.0".to_string(),
        source_instance: Some(0),
        is_host_import: true,
    });
    graph.add_node(1, srv);

    let mut mw = ComponentNode::new("$middleware".to_string(), 1);
    mw.add_import(InterfaceConnection {
        interface_name: "wasi:http/handler@0.3.0".to_string(),
        source_instance: Some(1),
        is_host_import: false,
    });
    mw.add_import(InterfaceConnection {
        interface_name: "wasi:logging/log@0.1.0".to_string(),
        source_instance: Some(0),
        is_host_import: true,
    });
    graph.add_node(2, mw);

    graph.add_export("wasi:http/handler@0.3.0".to_string(), 2);
    graph
}

#[test]
fn test_handler_chain_mermaid() {
    let graph = test_graph();
    let output = generate_mermaid(&graph, DetailLevel::HandlerChain, Direction::LeftToRight);

    assert!(
        output.starts_with("graph LR\n"),
        "should start with graph direction"
    );
    assert!(
        output.contains("subgraph composition"),
        "should have subgraph"
    );
    assert!(
        output.contains("Handler Chain"),
        "should have Handler Chain title"
    );
    assert!(output.contains("srv"), "should show srv node");
    assert!(output.contains("middleware"), "should show middleware node");
    assert!(
        output.contains("-->|\"handler\"|"),
        "should have handler edge"
    );
    // Export should point to the first (outermost) node
    assert!(
        output.contains("export([\"Export: handler\"]) --> middleware"),
        "export should point to outermost handler, got:\n{}",
        output
    );
}

#[test]
fn test_all_interfaces_mermaid() {
    let graph = test_graph();
    let output = generate_mermaid(&graph, DetailLevel::AllInterfaces, Direction::LeftToRight);

    assert!(output.starts_with("graph LR\n"));
    // Host imports subgraph
    assert!(output.contains("subgraph host"), "should have host subgraph");
    assert!(output.contains("handler"), "should show handler host import");
    assert!(output.contains("log"), "should show log host import");
    // Component instances subgraph
    assert!(
        output.contains("subgraph composition"),
        "should have composition subgraph"
    );
    // Connections
    assert!(output.contains("-.->"), "should have dashed host import edges");
    assert!(output.contains("-->|"), "should have solid instance edges");
    // Export
    assert!(output.contains("Export"), "should have export");
}

#[test]
fn test_full_mermaid() {
    let graph = test_graph();
    let output = generate_mermaid(&graph, DetailLevel::Full, Direction::TopDown);

    assert!(output.starts_with("graph TD\n"), "should use TD direction");
    assert!(
        output.contains("subgraph all"),
        "should have all-instances subgraph"
    );
    // Full mode uses full interface names for connections where source exists
    assert!(
        output.contains("wasi:http/handler@0.3.0"),
        "should show full interface name"
    );
}

#[test]
fn test_empty_graph_mermaid() {
    let graph = CompositionGraph::new();

    let chain = generate_mermaid(&graph, DetailLevel::HandlerChain, Direction::LeftToRight);
    assert!(chain.contains("No HTTP handler chain found"));

    let all = generate_mermaid(&graph, DetailLevel::AllInterfaces, Direction::LeftToRight);
    assert!(all.contains("No component instances found"));
}

#[test]
fn mermaid_test_sanitize_for_mermaid() {
    assert_eq!(cviz::model::sanitize_for_mermaid("$srv"), "srv");
    assert_eq!(cviz::model::sanitize_for_mermaid("mdl-a"), "mdl_a");
    assert_eq!(cviz::model::sanitize_for_mermaid("instance_0"), "instance_0");
}
