use cviz::jsonmodel::JsonCompositionGraph;
use cviz::model::{ComponentNode, CompositionGraph, InterfaceConnection};
use serde_json::{Number, Value};

/// Build a graph: host → $srv → $middleware → export(handler)
fn test_graph() -> CompositionGraph {
    let mut graph = CompositionGraph::new();

    let mut srv = ComponentNode::new("$srv".to_string(), 0);
    srv.add_import(InterfaceConnection {
        interface_name: "wasi:http/handler@0.3.0".to_string(),
        source_instance: Some(0),
        is_host_import: true,
    });
    graph.add_node(1, srv);

    let mut mw = ComponentNode::new("$middleware".to_string(), 1);
    mw.add_import(InterfaceConnection {
        interface_name: "wasi:http/handler@0.3.0".to_string(),
        source_instance: Some(1),
        is_host_import: false,
    });
    mw.add_import(InterfaceConnection {
        interface_name: "wasi:logging/log@0.1.0".to_string(),
        source_instance: Some(0),
        is_host_import: true,
    });
    graph.add_node(2, mw);

    graph.add_export("wasi:http/handler@0.3.0".to_string(), 2);
    graph
}

/// Serialize the library's interchange model as a pretty JSON document.
fn generate_json(graph: &CompositionGraph) -> Result<String, serde_json::Error> {
    let model: JsonCompositionGraph = graph.to_json_model();
    let mut doc = serde_json::Map::new();
    doc.insert("version".to_string(), Value::Number(Number::from(model.version)));
    let mut nodes: Vec<Value> = Vec::new();
    for node in &model.nodes {
        let mut n = serde_json::Map::new();
        n.insert("id".to_string(), Value::Number(Number::from(node.id)));
        n.insert("name".to_string(), Value::String(node.name.clone()));
        n.insert(
            "component_index".to_string(),
            Value::Number(Number::from(node.component_index)),
        );
        let mut imports: Vec<Value> = Vec::new();
        for conn in &node.imports {
            let mut c = serde_json::Map::new();
            c.insert("interface".to_string(), Value::String(conn.interface.clone()));
            c.insert("short".to_string(), Value::String(conn.short.clone()));
            c.insert(
                "source_instance".to_string(),
                match conn.source_instance {
                    Some(s) => Value::Number(Number::from(s)),
                    None => Value::Null,
                },
            );
            c.insert("is_host_import".to_string(), Value::Bool(conn.is_host_import));
            imports.push(Value::Object(c));
        }
        n.insert("imports".to_string(), Value::Array(imports));
        nodes.push(Value::Object(n));
    }
    doc.insert("nodes".to_string(), Value::Array(nodes));
    let mut exports: Vec<Value> = Vec::new();
    for e in &model.exports {
        let mut x = serde_json::Map::new();
        x.insert("interface".to_string(), Value::String(e.interface.clone()));
        x.insert(
            "source_instance".to_string(),
            Value::Number(Number::from(e.source_instance)),
        );
        exports.push(Value::Object(x));
    }
    doc.insert("exports".to_string(), Value::Array(exports));
    serde_json::to_string_pretty(&Value::Object(doc))
}

#[test]
fn json_test_full_json() {
    let graph = test_graph();
    let output = generate_json(&graph).unwrap();
    println!("{output}");

    assert!(output.contains("srv"), "should show srv");
    assert!(output.contains("middleware"), "should show middleware");
    // Full mode shows full interface names
    assert!(
        output.contains("wasi:http/handler@0.3.0"),
        "should show full interface name"
    );
}

#[test]
fn json_test_empty_graph_json() {
    let graph = CompositionGraph::new();

    let full = generate_json(&graph).unwrap();
    println!("{full}");
    assert!(full.contains("[]"));
}
