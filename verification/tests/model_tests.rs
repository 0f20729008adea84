use cviz::model::{
    sanitize_for_mermaid, short_interface_name, ComponentNode, CompositionGraph,
    InterfaceConnection, ValidationError,
};

/// Build a graph: host → $srv → $middleware → export(handler)
fn test_graph() -> CompositionGraph {
    let mut graph = CompositionGraph::new();

    let mut srv = ComponentNode::new("$srv".to_string(), 0);
    srv.add_import(InterfaceConnection {
        interface_name: "wasi:http/handler@0.3.0".to_string(),
        source_instance: Some(0),
        is_host_import: true,
    });
    graph.add_node(1, srv);

    let mut mw = ComponentNode::new("$middleware".to_string(), 1);
    mw.add_import(InterfaceConnection {
        interface_name: "wasi:http/handler@0.3.0".to_string(),
        source_instance: Some(1),
        is_host_import: false,
    });
    mw.add_import(InterfaceConnection {
        interface_name: "wasi:logging/log@0.1.0".to_string(),
        source_instance: Some(0),
        is_host_import: true,
    });
    graph.add_node(2, mw);

    graph.add_export("wasi:http/handler@0.3.0".to_string(), 2);
    graph
}

#[test]
fn test_interface_short_label() {
    let conn = InterfaceConnection::from_instance(
        "wasi:http/handler@0.3.0-rc-2026-01-06".to_string(),
        0,
    );
    assert_eq!(conn.short_label(), "handler");

    let conn2 = InterfaceConnection::from_instance("wasi:io/streams@0.2.0".to_string(), 1);
    assert_eq!(conn2.short_label(), "streams");
}

#[test]
fn test_short_interface_name() {
    assert_eq!(short_interface_name("wasi:http/handler@0.3.0"), "handler");
    assert_eq!(short_interface_name("wasi:io/streams@0.2.0"), "streams");
    assert_eq!(short_interface_name("simple"), "simple");
}

#[test]
fn model_test_sanitize_for_mermaid() {
    assert_eq!(sanitize_for_mermaid("$srv"), "srv");
    assert_eq!(sanitize_for_mermaid("mdl-a"), "mdl_a");
    assert_eq!(sanitize_for_mermaid("instance_0"), "instance_0");
}

#[test]
fn test_display_label() {
    let node = ComponentNode::new("$srv".to_string(), 0);
    assert_eq!(node.display_label(), "srv");
    let plain = ComponentNode::new("plain".to_string(), 0);
    assert_eq!(plain.display_label(), "plain");
}

#[test]
fn test_get_node_and_real_nodes() {
    let graph = test_graph();
    assert!(graph.get_node(1).is_some());
    assert!(graph.get_node(2).is_some());
    assert!(graph.get_node(7).is_none());
    let real = graph.real_nodes();
    assert_eq!(real.len(), 2);
    assert_eq!(real[0].name, "$srv");
    assert_eq!(real[1].name, "$middleware");
}

#[test]
fn test_host_interfaces_sorted_unique() {
    let graph = test_graph();
    let hosts = graph.host_interfaces();
    assert_eq!(
        hosts,
        vec![
            "wasi:http/handler@0.3.0".to_string(),
            "wasi:logging/log@0.1.0".to_string()
        ]
    );
}

#[test]
fn test_validate_ok() {
    let graph = test_graph();
    assert!(graph.validate().is_ok());
}

#[test]
fn test_validate_dangling_export() {
    let mut graph = CompositionGraph::new();
    graph.add_export("test:pkg/iface@1.0.0".to_string(), 9);
    match graph.validate() {
        Err(ValidationError::DanglingExport { interface, index }) => {
            assert_eq!(interface, "test:pkg/iface@1.0.0");
            assert_eq!(index, 9);
        }
        other => panic!("expected a dangling export, got {:?}", other.is_ok()),
    }
}

#[test]
fn test_validate_dangling_import() {
    let mut graph = CompositionGraph::new();
    let mut node = ComponentNode::new("$a".to_string(), 0);
    node.add_import(InterfaceConnection {
        interface_name: "test:pkg/iface@1.0.0".to_string(),
        source_instance: Some(5),
        is_host_import: false,
    });
    graph.add_node(1, node);
    match graph.validate() {
        Err(ValidationError::DanglingImport {
            instance,
            interface,
            index,
        }) => {
            assert_eq!(instance, 1);
            assert_eq!(interface, "test:pkg/iface@1.0.0");
            assert_eq!(index, 5);
        }
        other => panic!("expected a dangling import, got {:?}", other.is_ok()),
    }
}

#[test]
fn test_empty_graph_queries() {
    let graph = CompositionGraph::new();
    assert!(graph.real_nodes().is_empty());
    assert!(graph.host_interfaces().is_empty());
    assert!(graph.get_handler_chain().is_empty());
    assert!(cviz::get_chain_for(&graph, "anything").is_empty());
    assert!(graph.validate().is_ok());
}

#[test]
fn test_add_node_replaces_same_index() {
    let mut graph = CompositionGraph::new();
    graph.add_node(3, ComponentNode::new("$first".to_string(), 0));
    graph.add_node(1, ComponentNode::new("$zero".to_string(), 7));
    graph.add_node(3, ComponentNode::new("$second".to_string(), 1));
    let real = graph.real_nodes();
    assert_eq!(real.len(), 2);
    assert_eq!(real[0].name, "$zero");
    assert_eq!(real[1].name, "$second");
}

#[test]
fn test_json_round_trip() {
    let graph = test_graph();
    let model = graph.to_json_model();
    assert_eq!(model.version, 1);
    let back = cviz::jsonmodel::from_json_model(&model);
    assert!(back.validate().is_ok());
    assert_eq!(back.nodes.len(), graph.nodes.len());
    for (a, b) in graph.nodes.iter().zip(back.nodes.iter()) {
        assert_eq!(a.0, b.0);
        assert_eq!(a.1.name, b.1.name);
        assert_eq!(a.1.component_index, b.1.component_index);
        assert_eq!(a.1.imports.len(), b.1.imports.len());
        for (ca, cb) in a.1.imports.iter().zip(b.1.imports.iter()) {
            assert_eq!(ca.interface_name, cb.interface_name);
            assert_eq!(ca.source_instance, cb.source_instance);
            assert_eq!(ca.is_host_import, cb.is_host_import);
        }
    }
    assert_eq!(back.component_exports, graph.component_exports);
}
