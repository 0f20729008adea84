use cviz::{get_chain_for, is_connection_for};

/// WAT for a composed component with two middleware instances chained via wasi:http/handler.
///
/// Structure:
///   host(handler) → middleware-a → middleware-b → export(handler)
fn two_middleware_chain_wat() -> &'static str {
    r#"(component
        (import "wasi:http/handler@0.3.0" (instance $host
            (export "handle" (func))
        ))

        (component $middleware-a
            (import "wasi:http/handler@0.3.0" (instance $imp
                (export "handle" (func))
            ))
            (alias export $imp "handle" (func $f))
            (instance $out (export "handle" (func $f)))
            (export "wasi:http/handler@0.3.0" (instance $out))
        )

        (instance $a (instantiate $middleware-a
            (with "wasi:http/handler@0.3.0" (instance $host))
        ))
        (alias export $a "wasi:http/handler@0.3.0" (instance $a-out))

        (component $middleware-b
            (import "wasi:http/handler@0.3.0" (instance $imp
                (export "handle" (func))
            ))
            (alias export $imp "handle" (func $f))
            (instance $out (export "handle" (func $f)))
            (export "wasi:http/handler@0.3.0" (instance $out))
        )

        (instance $b (instantiate $middleware-b
            (with "wasi:http/handler@0.3.0" (instance $a-out))
        ))
        (alias export $b "wasi:http/handler@0.3.0" (instance $b-out))

        (export "wasi:http/handler@0.3.0" (instance $b-out))
    )"#
}

#[test]
fn test_parse_composed_component() {
    let bytes = wat::parse_str(two_middleware_chain_wat()).expect("failed to parse WAT");
    let graph = cviz::decode::parse_component(&bytes).expect("failed to parse component");

    // Should have exactly 2 real component nodes (the two middleware instances)
    let real_nodes = graph.real_nodes();
    assert_eq!(real_nodes.len(), 2, "expected 2 real component nodes");

    // Each node should have a handler import
    let http_interface = "wasi:http/handler";
    for node in &real_nodes {
        assert!(
            node.imports
                .iter()
                .any(|i| is_connection_for(i, http_interface)),
            "node '{}' should have a handler import",
            node.name
        );
    }

    // Should have an export for the handler
    assert!(
        graph
            .component_exports
            .iter()
            .any(|(k, _)| k.contains(http_interface)),
        "expected handler export"
    );
}

#[test]
fn test_handler_chain_detection() {
    let bytes = wat::parse_str(two_middleware_chain_wat()).expect("failed to parse WAT");
    let graph = cviz::decode::parse_component(&bytes).expect("failed to parse component");

    let http_interface = "wasi:http/handler";
    let chain = get_chain_for(&graph, http_interface);
    assert_eq!(chain.len(), 2, "expected 2 nodes in handler chain");

    // Chain is in request-flow order: outermost (export) first, innermost last
    // First node is the export point (outermost handler)
    let first = graph.get_node(chain[0]).expect("first chain node");
    assert!(
        first
            .imports
            .iter()
            .any(|i| !i.is_host_import && is_connection_for(i, http_interface)),
        "first chain node (outermost) should import handler from another component"
    );

    // Last node imports from host (innermost handler)
    let last = graph.get_node(chain[1]).expect("last chain node");
    assert!(
        last.imports
            .iter()
            .any(|i| i.is_host_import && is_connection_for(i, http_interface)),
        "last chain node (innermost) should import handler from host"
    );

    // First node's handler source should be the last node
    let first_handler = first
        .imports
        .iter()
        .find(|i| is_connection_for(i, http_interface))
        .unwrap();
    assert_eq!(
        first_handler.source_instance,
        Some(chain[1]),
        "first node's handler source should be the last chain node"
    );
}

#[test]
fn test_host_import_detection() {
    let bytes = wat::parse_str(two_middleware_chain_wat()).expect("failed to parse WAT");
    let graph = cviz::decode::parse_component(&bytes).expect("failed to parse component");

    let host_interfaces = graph.host_interfaces();
    assert!(
        host_interfaces
            .iter()
            .any(|i| i.contains("wasi:http/handler")),
        "expected host handler interface, got: {:?}",
        host_interfaces
    );
}

#[test]
fn test_parse_traced_clean_binary() {
    let bytes = wat::parse_str(two_middleware_chain_wat()).expect("failed to parse WAT");
    let (graph, alias_ceiling_hit) =
        cviz::decode::parse_component_traced(&bytes).expect("failed to parse component");
    assert!(!alias_ceiling_hit);
    assert_eq!(graph.real_nodes().len(), 2);
}

#[test]
fn test_parse_rejects_malformed_bytes() {
    let err = cviz::decode::parse_component(&[0x00, 0x61, 0x73]).unwrap_err();
    assert!(!err.message.is_empty());
}
