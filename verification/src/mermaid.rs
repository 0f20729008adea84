//! The graph-markup renderer: pure functions from the composition graph to
//! a text diagram, at three detail levels and two directions.

use vstd::prelude::*;

use crate::ascii::{host_list_ok, spec_label};
use crate::model::{
    ref_nodes_view, sanitize_for_mermaid, seqs_contain, short_interface_name,
    spec_is_host_interface, spec_node_at, spec_real_nodes, spec_sanitized, spec_short_name,
    views_of, CompositionGraph, GraphView, NodeView, SYNTHETIC_COMPONENT,
};
use crate::output::{DetailLevel, Direction};
use crate::text::{spec_dec, u32_dec_string};
use crate::{get_chain_for, spec_chain};

verus! {

/// The direction word of the diagram header.
pub open spec fn spec_dir(d: Direction) -> Seq<char> {
    match d {
        Direction::LeftToRight => "LR"@,
        Direction::TopDown => "TD"@,
    }
}

/// The node declarations of the handler-chain subgraph: one per chain
/// element that is a tracked node.
pub open spec fn spec_mm_chain_nodes(g: GraphView, chain: Seq<u32>, k: int) -> Seq<char>
    decreases k,
{
    if k <= 0 {
        Seq::empty()
    } else {
        spec_mm_chain_nodes(g, chain, k - 1) + (match spec_node_at(g.nodes, chain[k - 1]) {
            Some(n) => "        "@ + spec_sanitized(n.name) + "[\""@ + spec_label(n) + "\"]\n"@,
            None => Seq::empty(),
        })
    }
}

/// The edge pointing from the export marker to the chain's first node.
pub open spec fn spec_mm_export_edge(g: GraphView, chain: Seq<u32>) -> Seq<char> {
    if chain.len() > 0 {
        match spec_node_at(g.nodes, chain[0]) {
            Some(n) => "    export([\"Export: handler\"]) --> "@ + spec_sanitized(n.name)
                + "\n"@,
            None => Seq::empty(),
        }
    } else {
        Seq::empty()
    }
}

/// The forwarding edges of the first `k` chain elements, one per adjacent
/// pair of tracked nodes.
pub open spec fn spec_mm_chain_edges(g: GraphView, chain: Seq<u32>, k: int) -> Seq<char>
    decreases k,
{
    if k <= 1 {
        Seq::empty()
    } else {
        spec_mm_chain_edges(g, chain, k - 1) + (match (
            spec_node_at(g.nodes, chain[k - 2]),
            spec_node_at(g.nodes, chain[k - 1]),
        ) {
            (Some(a), Some(b)) => "    "@ + spec_sanitized(a.name) + " -->|\"handler\"| "@
                + spec_sanitized(b.name) + "\n"@,
            _ => Seq::empty(),
        })
    }
}

/// The handler-chain diagram: the header, the chain subgraph, the export
/// entry edge and the forwarding edges, or a placeholder node when there is
/// no handler chain.
pub open spec fn spec_mm_handler_chain(g: GraphView, d: Direction) -> Seq<char> {
    let chain = spec_chain(g, "wasi:http/handler"@);
    let head = "graph "@ + spec_dir(d) + "\n"@;
    if chain.len() == 0 {
        head + "    empty[\"No HTTP handler chain found\"]\n"@
    } else {
        head + "    subgraph composition[\"Handler Chain\"]\n"@ + spec_mm_chain_nodes(
            g,
            chain,
            chain.len() as int,
        ) + "    end\n\n"@ + spec_mm_export_edge(g, chain) + spec_mm_chain_edges(
            g,
            chain,
            chain.len() as int,
        )
    }
}

/// Generate a diagram showing only the HTTP handler chain, in request-flow
/// order.
#[verifier::rlimit(80)]
fn generate_handler_chain(graph: &CompositionGraph, direction: Direction) -> (r: String)
    ensures
        r@ == spec_mm_handler_chain(graph@, direction),
{
    let ghost g = graph@;
    let mut out = String::new();
    out.append("graph ");
    out.append(direction.to_mermaid());
    out.append("\n");
    proof {
        assert(out@ =~= "graph "@ + spec_dir(direction) + "\n"@);
    }
    let chain = get_chain_for(graph, "wasi:http/handler");
    if chain.len() == 0 {
        out.append("    empty[\"No HTTP handler chain found\"]\n");
        proof {
            assert(out@ =~= spec_mm_handler_chain(g, direction));
        }
        return out;
    }
    out.append("    subgraph composition[\"Handler Chain\"]\n");
    let ghost head1 = out@;
    let n = chain.len();
    let mut k: usize = 0;
    while k < n
        invariant
            g == graph@,
            n == chain@.len(),
            k <= n,
            out@ == head1 + spec_mm_chain_nodes(g, chain@, k as int),
        decreases n - k,
    {
        match graph.get_node(chain[k]) {
            Some(node) => {
                let s = sanitize_for_mermaid(node.name.as_str());
                out.append("        ");
                out.append(s.as_str());
                out.append("[\"");
                out.append(node.display_label());
                out.append("\"]\n");
                proof {
                    assert(out@ =~= head1 + spec_mm_chain_nodes(g, chain@, k as int + 1));
                }
            },
            None => {
                proof {
                    crate::model::lemma_node_at_iff_contains(g, chain@[k as int]);
                    assert(out@ =~= head1 + spec_mm_chain_nodes(g, chain@, k as int + 1));
                }
            },
        }
        k = k + 1;
    }
    out.append("    end\n\n");
    match graph.get_node(chain[0]) {
        Some(first) => {
            let s = sanitize_for_mermaid(first.name.as_str());
            out.append("    export([\"Export: handler\"]) --> ");
            out.append(s.as_str());
            out.append("\n");
            proof {
                assert(out@ =~= head1 + spec_mm_chain_nodes(g, chain@, n as int) + "    end\n\n"@
                    + spec_mm_export_edge(g, chain@));
            }
        },
        None => {
            proof {
                crate::model::lemma_node_at_iff_contains(g, chain@[0]);
                assert(out@ =~= head1 + spec_mm_chain_nodes(g, chain@, n as int) + "    end\n\n"@
                    + spec_mm_export_edge(g, chain@));
            }
        },
    }
    let ghost head2 = out@;
    let mut w: usize = 1;
    while w < n
        invariant
            g == graph@,
            n == chain@.len(),
            1 <= w <= n,
            out@ == head2 + spec_mm_chain_edges(g, chain@, w as int),
        decreases n - w,
    {
        let from = graph.get_node(chain[w - 1]);
        let to = graph.get_node(chain[w]);
        match (from, to) {
            (Some(a), Some(b)) => {
                let sa = sanitize_for_mermaid(a.name.as_str());
                let sb = sanitize_for_mermaid(b.name.as_str());
                out.append("    ");
                out.append(sa.as_str());
                out.append(" -->|\"handler\"| ");
                out.append(sb.as_str());
                out.append("\n");
                proof {
                    assert(out@ =~= head2 + spec_mm_chain_edges(g, chain@, w as int + 1));
                }
            },
            _ => {
                proof {
                    crate::model::lemma_node_at_iff_contains(g, chain@[w as int - 1]);
                    crate::model::lemma_node_at_iff_contains(g, chain@[w as int]);
                    assert(out@ =~= head2 + spec_mm_chain_edges(g, chain@, w as int + 1));
                }
            },
        }
        w = w + 1;
    }
    proof {
        assert(out@ =~= spec_mm_handler_chain(g, direction));
    }
    out
}

/// The host-import declarations, one per host interface.
pub open spec fn spec_mm_host_nodes(hosts: Seq<Seq<char>>, k: int) -> Seq<char>
    decreases k,
{
    if k <= 0 {
        Seq::empty()
    } else {
        spec_mm_host_nodes(hosts, k - 1) + "        "@ + spec_sanitized(hosts[k - 1]) + "{\""@
            + spec_short_name(hosts[k - 1]) + "\"}\n"@
    }
}

/// The instance declarations, one per real node.
pub open spec fn spec_mm_inst_nodes(rn: Seq<NodeView>, k: int) -> Seq<char>
    decreases k,
{
    if k <= 0 {
        Seq::empty()
    } else {
        spec_mm_inst_nodes(rn, k - 1) + "        "@ + spec_sanitized(rn[k - 1].name) + "[\""@
            + spec_label(rn[k - 1]) + "\"]\n"@
    }
}

/// The connection edges of one real node's first `j` imports: a dashed edge
/// from a host interface, a solid edge from a tracked real source node.
pub open spec fn spec_mm_conns_of_node(g: GraphView, n: NodeView, j: int) -> Seq<char>
    decreases j,
{
    if j <= 0 {
        Seq::empty()
    } else {
        let prev = spec_mm_conns_of_node(g, n, j - 1);
        let c = n.imports[j - 1];
        if c.is_host {
            prev + "    "@ + spec_sanitized(c.interface) + " -.->|\""@ + spec_short_name(
                c.interface,
            ) + "\"| "@ + spec_sanitized(n.name) + "\n"@
        } else {
            match c.source {
                Some(s) => match spec_node_at(g.nodes, s) {
                    Some(sn) => if sn.component_index != SYNTHETIC_COMPONENT {
                        prev + "    "@ + spec_sanitized(sn.name) + " -->|\""@ + spec_short_name(
                            c.interface,
                        ) + "\"| "@ + spec_sanitized(n.name) + "\n"@
                    } else {
                        prev
                    },
                    None => prev,
                },
                None => prev,
            }
        }
    }
}

/// The connection edges of the first `i` real nodes.
pub open spec fn spec_mm_conn_edges(g: GraphView, rn: Seq<NodeView>, i: int) -> Seq<char>
    decreases i,
{
    if i <= 0 {
        Seq::empty()
    } else {
        spec_mm_conn_edges(g, rn, i - 1) + spec_mm_conns_of_node(
            g,
            rn[i - 1],
            rn[i - 1].imports.len() as int,
        )
    }
}

/// The export edges of the first `k` exports whose target is a tracked real
/// node.
pub open spec fn spec_mm_export_edges(g: GraphView, k: int) -> Seq<char>
    decreases k,
{
    if k <= 0 {
        Seq::empty()
    } else {
        let prev = spec_mm_export_edges(g, k - 1);
        match spec_node_at(g.nodes, g.exports[k - 1].1) {
            Some(n) => if n.component_index != SYNTHETIC_COMPONENT {
                prev + "    "@ + spec_sanitized(n.name) + " --> export_"@ + spec_sanitized(
                    g.exports[k - 1].0,
                ) + "([\"Export: "@ + spec_short_name(g.exports[k - 1].0) + "\"])\n"@
            } else {
                prev
            },
            None => prev,
        }
    }
}

/// The all-interfaces diagram for a given host list.
pub open spec fn spec_mm_all_ifaces(g: GraphView, d: Direction, hosts: Seq<Seq<char>>) -> Seq<
    char,
> {
    let rn = spec_real_nodes(g.nodes);
    "graph "@ + spec_dir(d) + "\n"@ + (if hosts.len() > 0 {
        "    subgraph host[\"Host Imports\"]\n"@ + spec_mm_host_nodes(hosts, hosts.len() as int)
            + "    end\n\n"@
    } else {
        Seq::empty()
    }) + "    subgraph composition[\"Component Instances\"]\n"@ + spec_mm_inst_nodes(
        rn,
        rn.len() as int,
    ) + "    end\n\n"@ + spec_mm_conn_edges(g, rn, rn.len() as int) + "\n"@
        + spec_mm_export_edges(g, g.exports.len() as int)
}

/// Generate a diagram showing all interface connections. The host list is
/// the one `host_interfaces` computes.
#[verifier::rlimit(80)]
fn generate_all_interfaces(graph: &CompositionGraph, direction: Direction) -> (r: String)
    ensures
        spec_real_nodes(graph@.nodes).len() == 0 ==> r@ == "graph "@ + spec_dir(direction)
            + "\n"@ + "    empty[\"No component instances found\"]\n"@,
        spec_real_nodes(graph@.nodes).len() > 0 ==> exists|hosts: Seq<Seq<char>>|
            #[trigger] host_list_ok(graph@, hosts) && r@ == spec_mm_all_ifaces(
                graph@,
                direction,
                hosts,
            ),
{
    let ghost g = graph@;
    let mut out = String::new();
    out.append("graph ");
    out.append(direction.to_mermaid());
    out.append("\n");
    proof {
        assert(out@ =~= "graph "@ + spec_dir(direction) + "\n"@);
    }
    let component_nodes = graph.real_nodes();
    let ghost rn = spec_real_nodes(g.nodes);
    let nr = component_nodes.len();
    proof {
        assert(ref_nodes_view(component_nodes@).len() == component_nodes@.len());
    }
    if nr == 0 {
        out.append("    empty[\"No component instances found\"]\n");
        proof {
            assert(out@ =~= "graph "@ + spec_dir(direction) + "\n"@
                + "    empty[\"No component instances found\"]\n"@);
        }
        return out;
    }
    let host_interfaces = graph.host_interfaces();
    let ghost hosts = views_of(host_interfaces@);
    proof {
        assert(host_list_ok(g, hosts)) by {
            assert forall|x: Seq<char>| #[trigger]
                seqs_contain(hosts, x) == spec_is_host_interface(g, x) by {
                assert(hosts.len() == host_interfaces@.len());
                if seqs_contain(hosts, x) {
                    let t = choose|t: int| 0 <= t < hosts.len() && hosts[t] == x;
                    assert(host_interfaces@[t]@ == x);
                    assert(crate::model::names_contain(host_interfaces@, x));
                }
                if crate::model::names_contain(host_interfaces@, x) {
                    let t = choose|t: int|
                        0 <= t < host_interfaces@.len() && host_interfaces@[t]@ == x;
                    assert(hosts[t] == x);
                    assert(seqs_contain(hosts, x));
                }
            }
        }
    }
    let nh = host_interfaces.len();
    if nh > 0 {
        out.append("    subgraph host[\"Host Imports\"]\n");
        let ghost headh = out@;
        let mut h: usize = 0;
        while h < nh
            invariant
                nh == host_interfaces@.len(),
                hosts == views_of(host_interfaces@),
                h <= nh,
                out@ == headh + spec_mm_host_nodes(hosts, h as int),
            decreases nh - h,
        {
            proof {
                assert(hosts[h as int] == host_interfaces@[h as int]@);
            }
            let iface = &host_interfaces[h];
            let id = sanitize_for_mermaid(iface.as_str());
            let short = short_interface_name(iface.as_str());
            out.append("        ");
            out.append(id.as_str());
            out.append("{\"");
            out.append(short.as_str());
            out.append("\"}\n");
            h = h + 1;
            proof {
                assert(out@ =~= headh + spec_mm_host_nodes(hosts, h as int));
            }
        }
        out.append("    end\n\n");
    }
    proof {
        assert(out@ =~= "graph "@ + spec_dir(direction) + "\n"@ + (if hosts.len() > 0 {
            "    subgraph host[\"Host Imports\"]\n"@ + spec_mm_host_nodes(
                hosts,
                hosts.len() as int,
            ) + "    end\n\n"@
        } else {
            Seq::<char>::empty()
        }));
    }
    out.append("    subgraph composition[\"Component Instances\"]\n");
    let ghost headi = out@;
    let mut t: usize = 0;
    while t < nr
        invariant
            g == graph@,
            rn == spec_real_nodes(g.nodes),
            nr == component_nodes@.len(),
            ref_nodes_view(component_nodes@) == rn,
            t <= nr,
            out@ == headi + spec_mm_inst_nodes(rn, t as int),
        decreases nr - t,
    {
        let node = component_nodes[t];
        proof {
            assert(rn[t as int] == component_nodes@[t as int]@);
        }
        let id = sanitize_for_mermaid(node.name.as_str());
        out.append("        ");
        out.append(id.as_str());
        out.append("[\"");
        out.append(node.display_label());
        out.append("\"]\n");
        t = t + 1;
        proof {
            assert(out@ =~= headi + spec_mm_inst_nodes(rn, t as int));
        }
    }
    out.append("    end\n\n");
    let ghost headc = out@;
    let mut t2: usize = 0;
    while t2 < nr
        invariant
            g == graph@,
            rn == spec_real_nodes(g.nodes),
            nr == component_nodes@.len(),
            ref_nodes_view(component_nodes@) == rn,
            t2 <= nr,
            out@ == headc + spec_mm_conn_edges(g, rn, t2 as int),
        decreases nr - t2,
    {
        let node = component_nodes[t2];
        proof {
            assert(rn[t2 as int] == component_nodes@[t2 as int]@);
        }
        let m = node.imports.len();
        let mut j: usize = 0;
        while j < m
            invariant
                g == graph@,
                rn == spec_real_nodes(g.nodes),
                nr == component_nodes@.len(),
                rn.len() == nr,
                t2 < nr,
                node == component_nodes@[t2 as int],
                node@ == rn[t2 as int],
                m == node.imports@.len(),
                j <= m,
                out@ == headc + spec_mm_conn_edges(g, rn, t2 as int) + spec_mm_conns_of_node(
                    g,
                    rn[t2 as int],
                    j as int,
                ),
            decreases m - j,
        {
            let conn = &node.imports[j];
            proof {
                assert(rn[t2 as int].imports[j as int] == conn@);
            }
            if conn.is_host_import {
                let host_id = sanitize_for_mermaid(conn.interface_name.as_str());
                let short = conn.short_label();
                out.append("    ");
                out.append(host_id.as_str());
                out.append(" -.->|\"");
                out.append(short.as_str());
                out.append("\"| ");
                let nid = sanitize_for_mermaid(node.name.as_str());
                out.append(nid.as_str());
                out.append("\n");
                proof {
                    assert(out@ =~= headc + spec_mm_conn_edges(g, rn, t2 as int)
                        + spec_mm_conns_of_node(g, rn[t2 as int], j as int + 1));
                }
            } else {
                match conn.source_instance {
                    Some(src) => {
                        match graph.get_node(src) {
                            Some(sn) => {
                                if sn.component_index != SYNTHETIC_COMPONENT {
                                    let sid = sanitize_for_mermaid(sn.name.as_str());
                                    let short = conn.short_label();
                                    out.append("    ");
                                    out.append(sid.as_str());
                                    out.append(" -->|\"");
                                    out.append(short.as_str());
                                    out.append("\"| ");
                                    let nid = sanitize_for_mermaid(node.name.as_str());
                                    out.append(nid.as_str());
                                    out.append("\n");
                                    proof {
                                        assert(out@ =~= headc + spec_mm_conn_edges(
                                            g,
                                            rn,
                                            t2 as int,
                                        ) + spec_mm_conns_of_node(
                                            g,
                                            rn[t2 as int],
                                            j as int + 1,
                                        ));
                                    }
                                } else {
                                    proof {
                                        assert(out@ =~= headc + spec_mm_conn_edges(
                                            g,
                                            rn,
                                            t2 as int,
                                        ) + spec_mm_conns_of_node(
                                            g,
                                            rn[t2 as int],
                                            j as int + 1,
                                        ));
                                    }
                                }
                            },
                            None => {
                                proof {
                                    crate::model::lemma_node_at_iff_contains(g, src);
                                    assert(out@ =~= headc + spec_mm_conn_edges(g, rn, t2 as int)
                                        + spec_mm_conns_of_node(
                                        g,
                                        rn[t2 as int],
                                        j as int + 1,
                                    ));
                                }
                            },
                        }
                    },
                    None => {
                        proof {
                            assert(out@ =~= headc + spec_mm_conn_edges(g, rn, t2 as int)
                                + spec_mm_conns_of_node(g, rn[t2 as int], j as int + 1));
                        }
                    },
                }
            }
            j = j + 1;
        }
        t2 = t2 + 1;
        proof {
            assert(out@ =~= headc + spec_mm_conn_edges(g, rn, t2 as int));
        }
    }
    out.append("\n");
    let ghost heade = out@;
    let ne = graph.component_exports.len();
    let mut k: usize = 0;
    while k < ne
        invariant
            g == graph@,
            rn == spec_real_nodes(g.nodes),
            ne == graph.component_exports@.len(),
            k <= ne,
            out@ == heade + spec_mm_export_edges(g, k as int),
        decreases ne - k,
    {
        let e = &graph.component_exports[k];
        proof {
            assert(g.exports[k as int] == (e.0@, e.1));
        }
        match graph.get_node(e.1) {
            Some(node) => {
                if node.component_index != SYNTHETIC_COMPONENT {
                    let nid = sanitize_for_mermaid(node.name.as_str());
                    let eid = sanitize_for_mermaid(e.0.as_str());
                    let short = short_interface_name(e.0.as_str());
                    out.append("    ");
                    out.append(nid.as_str());
                    out.append(" --> export_");
                    out.append(eid.as_str());
                    out.append("([\"Export: ");
                    out.append(short.as_str());
                    out.append("\"])\n");
                    proof {
                        assert(out@ =~= heade + spec_mm_export_edges(g, k as int + 1));
                    }
                } else {
                    proof {
                        assert(out@ =~= heade + spec_mm_export_edges(g, k as int + 1));
                    }
                }
            },
            None => {
                proof {
                    crate::model::lemma_node_at_iff_contains(g, e.1);
                    assert(out@ =~= heade + spec_mm_export_edges(g, k as int + 1));
                }
            },
        }
        k = k + 1;
    }
    proof {
        assert(out@ =~= spec_mm_all_ifaces(g, direction, hosts));
        assert(host_list_ok(g, hosts) && out@ == spec_mm_all_ifaces(g, direction, hosts));
    }
    out
}

/// The all-instances declarations of the full diagram, one per node, marking
/// synthetic bundles and naming each real node's definition index.
pub open spec fn spec_mm_full_nodes(nodes: Seq<(u32, NodeView)>, k: int) -> Seq<char>
    decreases k,
{
    if k <= 0 {
        Seq::empty()
    } else {
        let n = nodes[k - 1].1;
        spec_mm_full_nodes(nodes, k - 1) + "        "@ + spec_sanitized(n.name) + "[\""@ + (
        if n.component_index == SYNTHETIC_COMPONENT {
            spec_label(n) + " (synthetic)"@
        } else {
            spec_label(n) + " [comp:"@ + spec_dec(n.component_index as int) + "]"@
        }) + "\"]\n"@
    }
}

/// The edges of one node's first `j` imports: every import with a recorded
/// source that is a tracked node, labelled with the full interface name.
pub open spec fn spec_mm_full_conns_of_node(g: GraphView, n: NodeView, j: int) -> Seq<char>
    decreases j,
{
    if j <= 0 {
        Seq::empty()
    } else {
        let prev = spec_mm_full_conns_of_node(g, n, j - 1);
        let c = n.imports[j - 1];
        match c.source {
            Some(s) => match spec_node_at(g.nodes, s) {
                Some(sn) => prev + "    "@ + spec_sanitized(sn.name) + " -->|\""@ + c.interface
                    + "\"| "@ + spec_sanitized(n.name) + "\n"@,
                None => prev,
            },
            None => prev,
        }
    }
}

/// The edges of the first `i` nodes of the full diagram.
pub open spec fn spec_mm_full_edges(g: GraphView, i: int) -> Seq<char>
    decreases i,
{
    if i <= 0 {
        Seq::empty()
    } else {
        spec_mm_full_edges(g, i - 1) + spec_mm_full_conns_of_node(
            g,
            g.nodes[i - 1].1,
            g.nodes[i - 1].1.imports.len() as int,
        )
    }
}

/// The export edges of the full diagram, labelled with full export names.
pub open spec fn spec_mm_full_exports(g: GraphView, k: int) -> Seq<char>
    decreases k,
{
    if k <= 0 {
        Seq::empty()
    } else {
        let prev = spec_mm_full_exports(g, k - 1);
        match spec_node_at(g.nodes, g.exports[k - 1].1) {
            Some(n) => prev + "    "@ + spec_sanitized(n.name) + " --> export_"@ + spec_sanitized(
                g.exports[k - 1].0,
            ) + "([\"Export: "@ + g.exports[k - 1].0 + "\"])\n"@,
            None => prev,
        }
    }
}

/// The full diagram: all instances (synthetic ones marked), all resolvable
/// connections with full interface names, and all resolvable exports.
pub open spec fn spec_mm_full(g: GraphView, d: Direction) -> Seq<char> {
    "graph "@ + spec_dir(d) + "\n"@ + "    subgraph all[\"All Instances\"]\n"@
        + spec_mm_full_nodes(g.nodes, g.nodes.len() as int) + "    end\n\n"@ + spec_mm_full_edges(
        g,
        g.nodes.len() as int,
    ) + "\n"@ + spec_mm_full_exports(g, g.exports.len() as int)
}

/// Generate a full diagram with all details.
#[verifier::rlimit(80)]
fn generate_full(graph: &CompositionGraph, direction: Direction) -> (r: String)
    ensures
        r@ == spec_mm_full(graph@, direction),
{
    let ghost g = graph@;
    let mut out = String::new();
    out.append("graph ");
    out.append(direction.to_mermaid());
    out.append("\n");
    out.append("    subgraph all[\"All Instances\"]\n");
    let ghost head1 = out@;
    proof {
        assert(head1 =~= "graph "@ + spec_dir(direction) + "\n"@
            + "    subgraph all[\"All Instances\"]\n"@);
    }
    let n = graph.nodes.len();
    let mut i: usize = 0;
    while i < n
        invariant
            g == graph@,
            n == graph.nodes@.len(),
            i <= n,
            out@ == head1 + spec_mm_full_nodes(g.nodes, i as int),
        decreases n - i,
    {
        let node = &graph.nodes[i].1;
        proof {
            assert(g.nodes[i as int].1 == node@);
        }
        let id = sanitize_for_mermaid(node.name.as_str());
        out.append("        ");
        out.append(id.as_str());
        out.append("[\"");
        out.append(node.display_label());
        if node.component_index == SYNTHETIC_COMPONENT {
            out.append(" (synthetic)");
        } else {
            out.append(" [comp:");
            let d2 = u32_dec_string(node.component_index);
            out.append(d2.as_str());
            out.append("]");
        }
        out.append("\"]\n");
        i = i + 1;
        proof {
            assert(out@ =~= head1 + spec_mm_full_nodes(g.nodes, i as int));
        }
    }
    out.append("    end\n\n");
    let ghost head2 = out@;
    let mut i2: usize = 0;
    while i2 < n
        invariant
            g == graph@,
            n == graph.nodes@.len(),
            i2 <= n,
            out@ == head2 + spec_mm_full_edges(g, i2 as int),
        decreases n - i2,
    {
        let node = &graph.nodes[i2].1;
        proof {
            assert(g.nodes[i2 as int].1 == node@);
        }
        let m = node.imports.len();
        let mut j: usize = 0;
        while j < m
            invariant
                g == graph@,
                n == graph.nodes@.len(),
                i2 < n,
                node == &graph.nodes@[i2 as int].1,
                node@ == g.nodes[i2 as int].1,
                m == node.imports@.len(),
                j <= m,
                out@ == head2 + spec_mm_full_edges(g, i2 as int) + spec_mm_full_conns_of_node(
                    g,
                    g.nodes[i2 as int].1,
                    j as int,
                ),
            decreases m - j,
        {
            let conn = &node.imports[j];
            proof {
                assert(g.nodes[i2 as int].1.imports[j as int] == conn@);
            }
            match conn.source_instance {
                Some(src) => {
                    match graph.get_node(src) {
                        Some(sn) => {
                            let sid = sanitize_for_mermaid(sn.name.as_str());
                            out.append("    ");
                            out.append(sid.as_str());
                            out.append(" -->|\"");
                            out.append(conn.interface_name.as_str());
                            out.append("\"| ");
                            let nid = sanitize_for_mermaid(node.name.as_str());
                            out.append(nid.as_str());
                            out.append("\n");
                            proof {
                                assert(out@ =~= head2 + spec_mm_full_edges(g, i2 as int)
                                    + spec_mm_full_conns_of_node(
                                    g,
                                    g.nodes[i2 as int].1,
                                    j as int + 1,
                                ));
                            }
                        },
                        None => {
                            proof {
                                crate::model::lemma_node_at_iff_contains(g, src);
                                assert(out@ =~= head2 + spec_mm_full_edges(g, i2 as int)
                                    + spec_mm_full_conns_of_node(
                                    g,
                                    g.nodes[i2 as int].1,
                                    j as int + 1,
                                ));
                            }
                        },
                    }
                },
                None => {
                    proof {
                        assert(out@ =~= head2 + spec_mm_full_edges(g, i2 as int)
                            + spec_mm_full_conns_of_node(
                            g,
                            g.nodes[i2 as int].1,
                            j as int + 1,
                        ));
                    }
                },
            }
            j = j + 1;
        }
        i2 = i2 + 1;
        proof {
            assert(out@ =~= head2 + spec_mm_full_edges(g, i2 as int));
        }
    }
    out.append("\n");
    let ghost head3 = out@;
    let ne = graph.component_exports.len();
    let mut k: usize = 0;
    while k < ne
        invariant
            g == graph@,
            ne == graph.component_exports@.len(),
            k <= ne,
            out@ == head3 + spec_mm_full_exports(g, k as int),
        decreases ne - k,
    {
        let e = &graph.component_exports[k];
        proof {
            assert(g.exports[k as int] == (e.0@, e.1));
        }
        match graph.get_node(e.1) {
            Some(node) => {
                let nid = sanitize_for_mermaid(node.name.as_str());
                let eid = sanitize_for_mermaid(e.0.as_str());
                out.append("    ");
                out.append(nid.as_str());
                out.append(" --> export_");
                out.append(eid.as_str());
                out.append("([\"Export: ");
                out.append(e.0.as_str());
                out.append("\"])\n");
                proof {
                    assert(out@ =~= head3 + spec_mm_full_exports(g, k as int + 1));
                }
            },
            None => {
                proof {
                    crate::model::lemma_node_at_iff_contains(g, e.1);
                    assert(out@ =~= head3 + spec_mm_full_exports(g, k as int + 1));
                }
            },
        }
        k = k + 1;
    }
    proof {
        assert(out@ =~= spec_mm_full(g, direction));
    }
    out
}

/// Generate a diagram from the composition graph, at the requested detail
/// level and direction.
pub fn generate_mermaid(graph: &CompositionGraph, detail: DetailLevel, direction: Direction) -> (r:
    String)
    ensures
        detail is HandlerChain ==> r@ == spec_mm_handler_chain(graph@, direction),
        detail is Full ==> r@ == spec_mm_full(graph@, direction),
        detail is AllInterfaces && spec_real_nodes(graph@.nodes).len() == 0 ==> r@ == "graph "@
            + spec_dir(direction) + "\n"@ + "    empty[\"No component instances found\"]\n"@,
        detail is AllInterfaces && spec_real_nodes(graph@.nodes).len() > 0 ==> exists|
            hosts: Seq<Seq<char>>,
        | #[trigger] host_list_ok(graph@, hosts) && r@ == spec_mm_all_ifaces(
            graph@,
            direction,
            hosts,
        ),
{
    match detail {
        DetailLevel::HandlerChain => generate_handler_chain(graph, direction),
        DetailLevel::AllInterfaces => generate_all_interfaces(graph, direction),
        DetailLevel::Full => generate_full(graph, direction),
    }
}

} // verus!
