//! Reconstruction of the wiring graph of a composed WebAssembly component:
//! how its sub-component instances are instantiated, which interfaces each
//! one consumes and from where, and what the composition exports.
//!
//! The graph is built once from a linear scan over decoded binary sections,
//! queried read-only afterwards, and can be mirrored into a plain JSON model.

pub mod alias;
pub mod builder;
pub mod ascii;
pub mod decode;
pub mod jsonmodel;
pub mod mermaid;
pub mod model;
pub mod output;
pub mod text;

use vstd::prelude::*;

use crate::model::{
    spec_node_at, CompositionGraph, ConnView, GraphView, InterfaceConnection, NodeView,
};
use crate::text::spec_contains;

verus! {

/// Check if this is the connection for a specific interface: the pattern
/// occurs somewhere in the connection's interface name.
pub fn is_connection_for(conn: &InterfaceConnection, interface_name: &str) -> (r: bool)
    ensures
        r == spec_contains(conn@.interface, interface_name@),
{
    crate::text::str_contains(conn.interface_name.as_str(), interface_name)
}

/// The first connection in wiring order that matches the pattern and is not
/// host-classified, scanning from position `k`.
pub open spec fn spec_match_from(imports: Seq<ConnView>, pat: Seq<char>, k: int) -> Option<
    ConnView,
>
    decreases imports.len() - k,
{
    if k < 0 || k >= imports.len() {
        None
    } else if spec_contains(imports[k].interface, pat) && !imports[k].is_host {
        Some(imports[k])
    } else {
        spec_match_from(imports, pat, k + 1)
    }
}

/// The first matching non-host connection of a node's import list.
pub open spec fn spec_first_match(imports: Seq<ConnView>, pat: Seq<char>) -> Option<ConnView> {
    spec_match_from(imports, pat, 0)
}

/// The target of the first export whose name matches the pattern, scanning
/// from position `k`.
pub open spec fn spec_export_match_from(
    exports: Seq<(Seq<char>, u32)>,
    pat: Seq<char>,
    k: int,
) -> Option<u32>
    decreases exports.len() - k,
{
    if k < 0 || k >= exports.len() {
        None
    } else if spec_contains(exports[k].0, pat) {
        Some(exports[k].1)
    } else {
        spec_export_match_from(exports, pat, k + 1)
    }
}

/// The walk of the forwarding chain from instance `cur`: the current instance
/// is appended unless it was already visited, and the walk continues at the
/// source of the first matching non-host connection of the current node, as
/// long as one exists.
pub open spec fn spec_chain_from(
    g: GraphView,
    pat: Seq<char>,
    cur: u32,
    visited: Seq<u32>,
    fuel: nat,
) -> Seq<u32>
    decreases fuel,
{
    if fuel == 0 || visited.contains(cur) {
        Seq::empty()
    } else {
        let rest = match spec_node_at(g.nodes, cur) {
            Some(n) => match spec_first_match(n.imports, pat) {
                Some(c) => match c.source {
                    Some(s) => spec_chain_from(g, pat, s, visited.push(cur), (fuel - 1) as nat),
                    None => Seq::empty(),
                },
                None => Seq::empty(),
            },
            None => Seq::empty(),
        };
        seq![cur] + rest
    }
}

/// The forwarding chain for a pattern: start at the first matching export's
/// target and walk inward; empty when no export matches.
pub open spec fn spec_chain(g: GraphView, pat: Seq<char>) -> Seq<u32> {
    match spec_export_match_from(g.exports, pat, 0) {
        Some(start) => spec_chain_from(g, pat, start, Seq::empty(), (g.nodes.len() + 1) as nat),
        None => Seq::empty(),
    }
}

/// A sequence of pairwise distinct values that are all node indices is no
/// longer than the node list.
proof fn lemma_distinct_keys_bound(g: GraphView, xs: Seq<u32>)
    requires
        xs.no_duplicates(),
        forall|t: int| 0 <= t < xs.len() ==> g.contains_index(#[trigger] xs[t]),
    ensures
        xs.len() <= g.nodes.len(),
{
    let keys = g.nodes.map_values(|p: (u32, NodeView)| p.0);
    assert(keys.len() == g.nodes.len());
    xs.unique_seq_to_set();
    assert forall|x: u32| xs.to_set().contains(x) implies keys.to_set().contains(x) by {
        let t = choose|t: int| 0 <= t < xs.len() && xs[t] == x;
        assert(g.contains_index(xs[t]));
        let i = choose|i: int| 0 <= i < g.nodes.len() && g.nodes[i].0 == x;
        assert(keys[i] == x);
        assert(keys.contains(x));
    }
    vstd::set_lib::lemma_len_subset(xs.to_set(), keys.to_set());
    keys.lemma_cardinality_of_set();
}

fn vec_contains_u32(v: &Vec<u32>, x: u32) -> (r: bool)
    ensures
        r == v@.contains(x),
{
    let n = v.len();
    let mut i: usize = 0;
    while i < n
        invariant
            n == v@.len(),
            i <= n,
            forall|k: int| 0 <= k < i ==> v@[k] != x,
        decreases n - i,
    {
        if v[i] == x {
            return true;
        }
        i = i + 1;
    }
    false
}

/// The first matching non-host connection's recorded source, if such a
/// connection exists.
fn first_match_source(node: &crate::model::ComponentNode, interface_name: &str) -> (r: Option<
    Option<u32>,
>)
    ensures
        match r {
            Some(srcopt) => spec_first_match(node@.imports, interface_name@) matches Some(c)
                && c.source == srcopt,
            None => spec_first_match(node@.imports, interface_name@) is None,
        },
{
    let m = node.imports.len();
    let mut k: usize = 0;
    while k < m
        invariant
            m == node.imports@.len(),
            k <= m,
            spec_match_from(node@.imports, interface_name@, 0) == spec_match_from(
                node@.imports,
                interface_name@,
                k as int,
            ),
        decreases m - k,
    {
        let conn = &node.imports[k];
        let matches = is_connection_for(conn, interface_name);
        proof {
            assert(node@.imports == crate::model::conns_view(node.imports@));
            assert(node@.imports.len() == node.imports@.len());
            assert(node@.imports[k as int] == node.imports@[k as int]@);
            assert(node@.imports[k as int] == conn@);
        }
        if matches && !conn.is_host_import {
            return Some(conn.source_instance);
        }
        k = k + 1;
    }
    None
}

/// Get the chain in request-flow order (outermost first, innermost last):
/// start from the first export whose name contains the pattern and follow, at
/// each node, the first matching non-host connection to its source. The walk
/// stops when no such connection exists, when the next instance was already
/// visited, or when no node exists for the next index; it never fails, and
/// the chain is never longer than the number of nodes plus one.
pub fn get_chain_for(graph: &CompositionGraph, interface_name: &str) -> (chain: Vec<u32>)
    ensures
        chain@ == spec_chain(graph@, interface_name@),
        chain@.len() <= graph@.nodes.len() + 1,
        chain@.no_duplicates(),
{
    let ghost g = graph@;
    let ghost pat = interface_name@;
    let mut chain: Vec<u32> = Vec::new();
    let ne = graph.component_exports.len();
    let mut k: usize = 0;
    let mut start_opt: Option<u32> = None;
    loop
        invariant_except_break
            start_opt is None,
        invariant
            g == graph@,
            pat == interface_name@,
            ne == graph.component_exports@.len(),
            k <= ne,
            spec_export_match_from(g.exports, pat, 0) == spec_export_match_from(
                g.exports,
                pat,
                k as int,
            ),
        ensures
            g == graph@,
            pat == interface_name@,
            spec_export_match_from(g.exports, pat, 0) == start_opt,
        decreases ne - k,
    {
        if k >= ne {
            break;
        }
        let entry = &graph.component_exports[k];
        let m = crate::text::str_contains(entry.0.as_str(), interface_name);
        proof {
            assert(g.exports[k as int] == (entry.0@, entry.1));
        }
        if m {
            start_opt = Some(entry.1);
            break;
        }
        k = k + 1;
    }
    let start: u32 = match start_opt {
        None => {
            return chain;
        },
        Some(s) => s,
    };
    let mut cur: u32 = start;
    proof {
        assert(Seq::<u32>::empty() + spec_chain_from(g, pat, start, Seq::empty(), (g.nodes.len()
            + 1) as nat) =~= spec_chain_from(g, pat, start, Seq::empty(), (g.nodes.len()
            + 1) as nat));
        assert(chain@ =~= Seq::<u32>::empty());
    }
    loop
        invariant_except_break
            chain@.no_duplicates(),
            forall|t: int| 0 <= t < chain@.len() ==> g.contains_index(#[trigger] chain@[t]),
            chain@.len() <= g.nodes.len(),
            spec_chain(g, pat) == chain@ + spec_chain_from(
                g,
                pat,
                cur,
                chain@,
                (g.nodes.len() + 1 - chain@.len()) as nat,
            ),
        invariant
            g == graph@,
            pat == interface_name@,
        ensures
            chain@ == spec_chain(g, pat),
            chain@.len() <= g.nodes.len() + 1,
            chain@.no_duplicates(),
        decreases g.nodes.len() - chain@.len(),
    {
        let ghost fuel = (g.nodes.len() + 1 - chain@.len()) as nat;
        proof {
            assert(fuel >= 1);
        }
        let seen = vec_contains_u32(&chain, cur);
        if seen {
            proof {
                assert(spec_chain_from(g, pat, cur, chain@, fuel) =~= Seq::<u32>::empty());
                assert(chain@ + Seq::<u32>::empty() =~= chain@);
            }
            break;
        }
        let ghost chain0 = chain@;
        chain.push(cur);
        proof {
            assert(chain@ =~= chain0.push(cur));
            assert forall|i: int, j: int| 0 <= i < j < chain@.len() implies chain@[i]
                != chain@[j] by {
                if j == chain@.len() - 1 {
                    assert(!chain0.contains(cur));
                    assert(chain0[i] != cur);
                }
            }
            assert(chain@.no_duplicates());
        }
        match graph.get_node(cur) {
            None => {
                proof {
                    crate::model::lemma_node_at_iff_contains(g, cur);
                    assert(spec_chain_from(g, pat, cur, chain0, fuel) =~= seq![cur]);
                    assert(chain0 + seq![cur] =~= chain@);
                }
                break;
            },
            Some(node) => {
                proof {
                    crate::model::lemma_node_at_iff_contains(g, cur);
                    assert(g.contains_index(cur));
                    assert(spec_node_at(g.nodes, cur) == Some(node@));
                }
                match first_match_source(node, interface_name) {
                    None => {
                        proof {
                            assert(spec_first_match(node@.imports, pat) is None);
                            assert(spec_chain_from(g, pat, cur, chain0, fuel) =~= seq![cur]);
                            assert(chain0 + seq![cur] =~= chain@);
                        }
                        break;
                    },
                    Some(srcopt) => match srcopt {
                        None => {
                            proof {
                                assert(spec_chain_from(g, pat, cur, chain0, fuel) =~= seq![cur]);
                                assert(chain0 + seq![cur] =~= chain@);
                            }
                            break;
                        },
                        Some(s) => {
                            proof {
                                assert(spec_chain_from(g, pat, cur, chain0, fuel) =~= seq![cur]
                                    + spec_chain_from(
                                    g,
                                    pat,
                                    s,
                                    chain0.push(cur),
                                    (fuel - 1) as nat,
                                ));
                                assert(chain0 + (seq![cur] + spec_chain_from(
                                    g,
                                    pat,
                                    s,
                                    chain@,
                                    (fuel - 1) as nat,
                                )) =~= chain@ + spec_chain_from(
                                    g,
                                    pat,
                                    s,
                                    chain@,
                                    (fuel - 1) as nat,
                                ));
                                lemma_distinct_keys_bound(g, chain@);
                            }
                            cur = s;
                        },
                    },
                }
            },
        }
    }
    chain
}

impl CompositionGraph {
    /// The HTTP handler chain in data-flow order: the walk of `get_chain_for`
    /// on the HTTP handler interface, innermost forwarder first.
    pub fn get_handler_chain(&self) -> (chain: Vec<u32>)
        ensures
            chain@ == spec_chain(self@, "wasi:http/handler"@).reverse(),
            chain@.len() <= self@.nodes.len() + 1,
    {
        let forward = get_chain_for(self, "wasi:http/handler");
        let n = forward.len();
        let mut chain: Vec<u32> = Vec::new();
        let mut i: usize = n;
        while i > 0
            invariant
                n == forward@.len(),
                i <= n,
                chain@.len() == n - i,
                forall|t: int| 0 <= t < chain@.len() ==> chain@[t] == forward@[n - 1 - t],
            decreases i,
        {
            i = i - 1;
            chain.push(forward[i]);
        }
        proof {
            assert(chain@ =~= forward@.reverse());
        }
        chain
    }
}

} // verus!
