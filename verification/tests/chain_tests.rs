use std::collections::HashMap;

use cviz::alias::{resolve_alias, resolve_alias_traced};
use cviz::builder::{
    build_graph, build_graph_traced, ExportDecl, ImportArg, InstanceDecl, NameBinding,
    SectionRecord,
};
use cviz::model::{ComponentNode, CompositionGraph, InterfaceConnection};
use cviz::{get_chain_for, is_connection_for};

#[test]
fn test_resolve_alias() {
    let mut aliases = HashMap::new();
    // Chain: 5 -> 3 -> 1
    aliases.insert(5, 3);
    aliases.insert(3, 1);

    assert_eq!(resolve_alias(5, &aliases), 1);
    assert_eq!(resolve_alias(3, &aliases), 1);
    assert_eq!(resolve_alias(1, &aliases), 1); // no alias, returns self
    assert_eq!(resolve_alias(99, &aliases), 99); // unknown, returns self
}

#[test]
fn test_resolve_alias_twice_same_result() {
    let mut aliases = HashMap::new();
    aliases.insert(4, 2);
    let first = resolve_alias(4, &aliases);
    let second = resolve_alias(4, &aliases);
    assert_eq!(first, second);
    // a fully resolved index is a fixed point
    assert_eq!(resolve_alias(first, &aliases), first);
}

#[test]
fn test_resolve_alias_cycle_bounded() {
    let mut aliases = HashMap::new();
    aliases.insert(1, 2);
    aliases.insert(2, 1);
    // resolution of a malformed cycle terminates and returns the last index
    // reached at the hop ceiling
    let r = resolve_alias(1, &aliases);
    assert!(r == 1 || r == 2);
}

#[test]
fn test_resolve_alias_traced_reports_truncation() {
    let mut aliases = HashMap::new();
    aliases.insert(5, 3);
    aliases.insert(3, 1);
    // a completed walk carries no diagnostic
    assert_eq!(resolve_alias_traced(5, &aliases), (1, false));
    assert_eq!(resolve_alias_traced(99, &aliases), (99, false));
    // a cycle hits the hop ceiling: the walk is cut short and flagged
    aliases.insert(1, 5);
    let (_, truncated) = resolve_alias_traced(5, &aliases);
    assert!(truncated);
}

#[test]
fn test_build_reports_alias_ceiling() {
    // two aliases referencing each other form a resolution cycle; a wiring
    // argument through them hits the hop ceiling
    let cyclic = vec![
        SectionRecord::Aliases(vec![Some(1), Some(0)]),
        SectionRecord::Instances(vec![InstanceDecl::Instantiate {
            component_index: 0,
            args: vec![ImportArg {
                name: "test:demo/X@1.0.0".to_string(),
                index: 0,
            }],
        }]),
    ];
    let (graph, truncated) = build_graph_traced(&cyclic);
    assert!(truncated);
    assert_eq!(graph.real_nodes().len(), 1);

    // the well-formed forwarding scenario carries no diagnostic
    let (_, clean) = build_graph_traced(&two_stage_records());
    assert!(!clean);
}

/// The forwarding scenario: a host import of interface `X`; instance `A`
/// imports `X` from the host; instance `B` imports `X` from `A`; the
/// top-level export of `X` is wired to `B`.
fn two_stage_records() -> Vec<SectionRecord> {
    vec![
        // the host-provided instance takes index 0
        SectionRecord::Imports(vec![true]),
        // A takes index 1, importing X from the host instance
        SectionRecord::Instances(vec![InstanceDecl::Instantiate {
            component_index: 0,
            args: vec![ImportArg {
                name: "test:demo/X@1.0.0".to_string(),
                index: 0,
            }],
        }]),
        // an alias re-exports A's X under index 2
        SectionRecord::Aliases(vec![Some(1)]),
        // B takes index 3, importing X through the alias
        SectionRecord::Instances(vec![InstanceDecl::Instantiate {
            component_index: 1,
            args: vec![ImportArg {
                name: "test:demo/X@1.0.0".to_string(),
                index: 2,
            }],
        }]),
        SectionRecord::Exports(vec![ExportDecl {
            name: "test:demo/X@1.0.0".to_string(),
            is_instance: true,
            index: 3,
        }]),
    ]
}

#[test]
fn test_two_stage_forwarding_scenario() {
    let records = two_stage_records();
    let graph = build_graph(&records);

    let real = graph.real_nodes();
    assert_eq!(real.len(), 2);
    // names fall back to the deterministic pattern when no names section is
    // present
    assert_eq!(real[0].name, "instance_1");
    assert_eq!(real[1].name, "instance_3");

    // the chain runs outermost first: B (the export target), then A
    let chain = get_chain_for(&graph, "test:demo/X");
    assert_eq!(chain, vec![3, 1]);

    let hosts = graph.host_interfaces();
    assert_eq!(hosts, vec!["test:demo/X@1.0.0".to_string()]);

    assert!(graph.validate().is_ok());

    // A's import was resolved through the alias and classified against the
    // complete node map
    let a = graph.get_node(1).expect("node A");
    assert_eq!(a.imports.len(), 1);
    assert_eq!(a.imports[0].source_instance, Some(0));
    assert!(a.imports[0].is_host_import);
    let b = graph.get_node(3).expect("node B");
    assert_eq!(b.imports[0].source_instance, Some(1));
    assert!(!b.imports[0].is_host_import);
}

#[test]
fn test_builder_skips_nested_sections() {
    let records = vec![
        SectionRecord::EnterNested,
        // inside a nested definition: must not consume indices or add nodes
        SectionRecord::Imports(vec![true, true]),
        SectionRecord::Instances(vec![InstanceDecl::Instantiate {
            component_index: 9,
            args: vec![],
        }]),
        SectionRecord::ExitNested,
        SectionRecord::Instances(vec![InstanceDecl::Instantiate {
            component_index: 0,
            args: vec![],
        }]),
    ];
    let graph = build_graph(&records);
    let real = graph.real_nodes();
    assert_eq!(real.len(), 1);
    assert_eq!(real[0].name, "instance_0");
}

#[test]
fn test_from_exports_bundle_not_a_node() {
    let records = vec![
        SectionRecord::Instances(vec![
            InstanceDecl::FromExports,
            InstanceDecl::Instantiate {
                component_index: 0,
                args: vec![],
            },
        ]),
    ];
    let graph = build_graph(&records);
    assert!(graph.get_node(0).is_none());
    assert!(graph.get_node(1).is_some());
}

#[test]
fn test_chain_terminates_on_cycle() {
    let mut graph = CompositionGraph::new();
    let mut a = ComponentNode::new("$a".to_string(), 0);
    a.add_import(InterfaceConnection {
        interface_name: "loop:pkg/iface@1.0.0".to_string(),
        source_instance: Some(2),
        is_host_import: false,
    });
    graph.add_node(1, a);
    let mut b = ComponentNode::new("$b".to_string(), 1);
    b.add_import(InterfaceConnection {
        interface_name: "loop:pkg/iface@1.0.0".to_string(),
        source_instance: Some(1),
        is_host_import: false,
    });
    graph.add_node(2, b);
    graph.add_export("loop:pkg/iface@1.0.0".to_string(), 1);

    let chain = get_chain_for(&graph, "loop:pkg/iface");
    // the visited set truncates the malformed cycle
    assert_eq!(chain, vec![1, 2]);
    assert!(chain.len() <= graph.nodes.len() + 1);
}

#[test]
fn test_names_table_binding() {
    let records = vec![
        SectionRecord::Names(vec![NameBinding {
            index: 0,
            name: "$srv".to_string(),
        }]),
        SectionRecord::Instances(vec![
            InstanceDecl::Instantiate {
                component_index: 0,
                args: vec![],
            },
            InstanceDecl::Instantiate {
                component_index: 1,
                args: vec![],
            },
        ]),
    ];
    let graph = build_graph(&records);
    let named = graph.get_node(0).expect("named node");
    assert_eq!(named.name, "$srv");
    assert_eq!(named.display_label(), "srv");
    let unnamed = graph.get_node(1).expect("unnamed node");
    assert_eq!(unnamed.name, "instance_1");
}

#[test]
fn test_synthetic_nodes_excluded_from_real() {
    let mut graph = CompositionGraph::new();
    graph.add_node(1, ComponentNode::new("$real".to_string(), 0));
    graph.add_node(2, ComponentNode::new("$bundle".to_string(), u32::MAX));
    let real = graph.real_nodes();
    assert_eq!(real.len(), 1);
    assert_eq!(real[0].name, "$real");
}

#[test]
fn test_is_connection_for_matches_substring() {
    let conn = InterfaceConnection::from_instance("wasi:http/handler@0.3.0".to_string(), 0);
    assert!(is_connection_for(&conn, "wasi:http/handler"));
    assert!(is_connection_for(&conn, "handler"));
    assert!(!is_connection_for(&conn, "wasi:io/streams"));
}

#[test]
fn test_last_export_writer_wins() {
    let mut graph = CompositionGraph::new();
    graph.add_node(1, ComponentNode::new("$a".to_string(), 0));
    graph.add_node(2, ComponentNode::new("$b".to_string(), 1));
    graph.add_export("test:demo/X@1.0.0".to_string(), 1);
    graph.add_export("test:demo/X@1.0.0".to_string(), 2);
    assert_eq!(graph.component_exports.len(), 1);
    assert_eq!(graph.component_exports[0].1, 2);
}
