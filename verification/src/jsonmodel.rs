//! The plain JSON-shaped mirror of the composition graph: the versioned
//! interchange model written by the JSON renderer and accepted as an
//! alternative graph source, and the conversions in both directions.

use vstd::prelude::*;

use crate::model::{
    exports_unique, nodes_sorted, spec_export_upsert, spec_node_insert, spec_short_name,
    ComponentNode, CompositionGraph, ConnView, GraphView, NodeView,
};
use crate::text::{push_char, spec_drop_leading};

verus! {

/// Abstract value of a `JsonInterfaceConnection`.
pub ghost struct JsonConnView {
    pub interface: Seq<char>,
    pub short: Seq<char>,
    pub source: Option<u32>,
    pub is_host: bool,
}

/// One connection as carried by the interchange document.
pub struct JsonInterfaceConnection {
    pub interface: String,
    pub short: String,
    pub source_instance: Option<u32>,
    pub is_host_import: bool,
}

impl View for JsonInterfaceConnection {
    type V = JsonConnView;

    open spec fn view(&self) -> JsonConnView {
        JsonConnView {
            interface: self.interface@,
            short: self.short@,
            source: self.source_instance,
            is_host: self.is_host_import,
        }
    }
}

/// Abstract value of a `JsonNode`.
pub ghost struct JsonNodeView {
    pub id: u32,
    pub name: Seq<char>,
    pub component_index: u32,
    pub imports: Seq<JsonConnView>,
}

/// One node as carried by the interchange document.
pub struct JsonNode {
    pub id: u32,
    pub name: String,
    pub component_index: u32,
    pub imports: Vec<JsonInterfaceConnection>,
}

/// The views of a list of document connections.
pub open spec fn json_conns_view(s: Seq<JsonInterfaceConnection>) -> Seq<JsonConnView> {
    s.map_values(|c: JsonInterfaceConnection| c@)
}

impl View for JsonNode {
    type V = JsonNodeView;

    open spec fn view(&self) -> JsonNodeView {
        JsonNodeView {
            id: self.id,
            name: self.name@,
            component_index: self.component_index,
            imports: json_conns_view(self.imports@),
        }
    }
}

/// One export as carried by the interchange document.
pub struct JsonExport {
    pub interface: String,
    pub source_instance: u32,
}

impl View for JsonExport {
    type V = (Seq<char>, u32);

    open spec fn view(&self) -> (Seq<char>, u32) {
        (self.interface@, self.source_instance)
    }
}

/// Abstract value of a `JsonCompositionGraph`.
pub ghost struct JsonGraphView {
    pub version: u32,
    pub nodes: Seq<JsonNodeView>,
    pub exports: Seq<(Seq<char>, u32)>,
}

/// The whole interchange document: a format version, the nodes in index
/// order, and the export mappings.
pub struct JsonCompositionGraph {
    pub version: u32,
    pub nodes: Vec<JsonNode>,
    pub exports: Vec<JsonExport>,
}

/// The views of a list of document nodes.
pub open spec fn json_nodes_view(s: Seq<JsonNode>) -> Seq<JsonNodeView> {
    s.map_values(|n: JsonNode| n@)
}

/// The views of a list of document exports.
pub open spec fn json_exports_view(s: Seq<JsonExport>) -> Seq<(Seq<char>, u32)> {
    s.map_values(|e: JsonExport| e@)
}

impl View for JsonCompositionGraph {
    type V = JsonGraphView;

    open spec fn view(&self) -> JsonGraphView {
        JsonGraphView {
            version: self.version,
            nodes: json_nodes_view(self.nodes@),
            exports: json_exports_view(self.exports@),
        }
    }
}

/// The document form of one connection: the full interface name, its
/// derived short label, and the source data unchanged.
pub open spec fn json_conn_of(c: ConnView) -> JsonConnView {
    JsonConnView {
        interface: c.interface,
        short: spec_short_name(c.interface),
        source: c.source,
        is_host: c.is_host,
    }
}

/// The document form of one node's connections.
pub open spec fn json_conns_of(s: Seq<ConnView>) -> Seq<JsonConnView> {
    s.map_values(|c: ConnView| json_conn_of(c))
}

/// The document form of one node entry: the display label (leading `$`
/// markers dropped) and the data unchanged.
pub open spec fn json_node_of(p: (u32, NodeView)) -> JsonNodeView {
    JsonNodeView {
        id: p.0,
        name: spec_drop_leading(p.1.name, '$'),
        component_index: p.1.component_index,
        imports: json_conns_of(p.1.imports),
    }
}

/// The document form of the node list.
pub open spec fn json_nodes_of(s: Seq<(u32, NodeView)>) -> Seq<JsonNodeView> {
    s.map_values(|p: (u32, NodeView)| json_node_of(p))
}

/// The document form of a whole graph, at format version 1.
pub open spec fn spec_to_json(g: GraphView) -> JsonGraphView {
    JsonGraphView { version: 1, nodes: json_nodes_of(g.nodes), exports: g.exports }
}

/// The graph form of one document connection; the derived short label is
/// dropped.
pub open spec fn conn_of_json(c: JsonConnView) -> ConnView {
    ConnView { interface: c.interface, source: c.source, is_host: c.is_host }
}

/// The graph form of one document node: the `$` name marker is restored.
pub open spec fn node_of_json(n: JsonNodeView) -> NodeView {
    NodeView {
        name: seq!['$'] + n.name,
        component_index: n.component_index,
        imports: n.imports.map_values(|c: JsonConnView| conn_of_json(c)),
    }
}

/// The node map after registering the first `k` document nodes, in document
/// order, keyed by their ids.
pub open spec fn spec_from_json_nodes(s: Seq<JsonNodeView>, k: int) -> Seq<(u32, NodeView)>
    decreases k,
{
    if k <= 0 {
        Seq::empty()
    } else {
        spec_node_insert(spec_from_json_nodes(s, k - 1), s[k - 1].id, node_of_json(s[k - 1]))
    }
}

/// The export map after registering the first `k` document exports.
pub open spec fn spec_from_json_exports(s: Seq<(Seq<char>, u32)>, k: int) -> Seq<(Seq<char>, u32)>
    decreases k,
{
    if k <= 0 {
        Seq::empty()
    } else {
        spec_export_upsert(spec_from_json_exports(s, k - 1), s[k - 1].0, s[k - 1].1)
    }
}

/// The graph built from an interchange document.
pub open spec fn spec_from_json(m: JsonGraphView) -> GraphView {
    GraphView {
        nodes: spec_from_json_nodes(m.nodes, m.nodes.len() as int),
        exports: spec_from_json_exports(m.exports, m.exports.len() as int),
    }
}

impl CompositionGraph {
    /// The interchange document of this graph: nodes in index order with
    /// display labels and derived short interface labels, exports unchanged,
    /// at format version 1.
    pub fn to_json_model(&self) -> (r: JsonCompositionGraph)
        ensures
            r@ == spec_to_json(self@),
    {
        let n = self.nodes.len();
        let mut nodes: Vec<JsonNode> = Vec::new();
        let mut i: usize = 0;
        while i < n
            invariant
                n == self.nodes@.len(),
                i <= n,
                json_nodes_view(nodes@) == json_nodes_of(self@.nodes.take(i as int)),
            decreases n - i,
        {
            let node = &self.nodes[i].1;
            let m = node.imports.len();
            let mut imports: Vec<JsonInterfaceConnection> = Vec::new();
            let mut j: usize = 0;
            while j < m
                invariant
                    n == self.nodes@.len(),
                    i < n,
                    node == &self.nodes@[i as int].1,
                    m == node.imports@.len(),
                    j <= m,
                    json_conns_view(imports@) == json_conns_of(
                        self@.nodes[i as int].1.imports.take(j as int),
                    ),
                decreases m - j,
            {
                let conn = &node.imports[j];
                proof {
                    assert(self@.nodes[i as int].1.imports[j as int] == conn@);
                    assert(json_conns_view(imports@).len() == imports@.len());
                    assert(json_conns_of(self@.nodes[i as int].1.imports.take(j as int)).len()
                        == j as int);
                }
                let short = conn.short_label();
                imports.push(
                    JsonInterfaceConnection {
                        interface: conn.interface_name.clone(),
                        short,
                        source_instance: conn.source_instance,
                        is_host_import: conn.is_host_import,
                    },
                );
                j = j + 1;
                proof {
                    let src = self@.nodes[i as int].1.imports;
                    assert(src.take(j as int).drop_last() =~= src.take(j as int - 1));
                    assert(imports@.last()@ == json_conn_of(src[j as int - 1]));
                    assert forall|x: int| 0 <= x < j implies json_conns_view(imports@)[x]
                        == json_conns_of(src.take(j as int))[x] by {
                        assert(json_conns_view(imports@)[x] == imports@[x]@);
                        assert(json_conns_of(src.take(j as int))[x] == json_conn_of(
                            src.take(j as int)[x],
                        ));
                        if x < j - 1 {
                            assert(imports@[x]@ == json_conns_view(imports@.drop_last())[x]);
                            assert(json_conns_of(src.take(j as int - 1))[x] == json_conn_of(
                                src[x],
                            ));
                        }
                    }
                    assert(json_conns_view(imports@) =~= json_conns_of(src.take(j as int)));
                }
            }
            proof {
                assert(self@.nodes[i as int].1.imports.take(m as int) =~= self@.nodes[
                i as int].1.imports);
            }
            let id = self.nodes[i].0;
            let component_index = node.component_index;
            let mut name = String::new();
            name.append(node.display_label());
            proof {
                assert(json_nodes_view(nodes@).len() == nodes@.len());
                assert(json_nodes_of(self@.nodes.take(i as int)).len() == i as int);
            }
            nodes.push(JsonNode { id, name, component_index, imports });
            i = i + 1;
            proof {
                assert(self@.nodes.take(i as int).drop_last() =~= self@.nodes.take(i as int - 1));
                assert(self@.nodes[i as int - 1] == (id, node@));
                assert(nodes@.last()@ == json_node_of(self@.nodes[i as int - 1]));
                assert(json_nodes_view(nodes@).len() == nodes@.len());
                assert(json_nodes_of(self@.nodes.take(i as int)).len() == i as int);
                assert forall|x: int| 0 <= x < i implies json_nodes_view(nodes@)[x]
                    == json_nodes_of(self@.nodes.take(i as int))[x] by {
                    assert(json_nodes_view(nodes@)[x] == nodes@[x]@);
                    assert(json_nodes_of(self@.nodes.take(i as int))[x] == json_node_of(
                        self@.nodes.take(i as int)[x],
                    ));
                    if x < i - 1 {
                        assert(nodes@[x]@ == json_nodes_view(nodes@.drop_last())[x]);
                        assert(json_nodes_of(self@.nodes.take(i as int - 1))[x] == json_node_of(
                            self@.nodes[x],
                        ));
                    }
                }
                assert(json_nodes_view(nodes@) =~= json_nodes_of(self@.nodes.take(i as int)));
            }
        }
        proof {
            assert(self@.nodes.take(n as int) =~= self@.nodes);
        }
        let ne = self.component_exports.len();
        let mut exports: Vec<JsonExport> = Vec::new();
        let mut k: usize = 0;
        while k < ne
            invariant
                ne == self.component_exports@.len(),
                k <= ne,
                json_exports_view(exports@) == self@.exports.take(k as int),
            decreases ne - k,
        {
            let e = &self.component_exports[k];
            proof {
                assert(json_exports_view(exports@).len() == exports@.len());
                assert(self@.exports.take(k as int).len() == k as int);
            }
            exports.push(
                JsonExport { interface: e.0.clone(), source_instance: e.1 },
            );
            k = k + 1;
            proof {
                assert(self@.exports[k as int - 1] == (e.0@, e.1));
                assert(json_exports_view(exports@) =~= self@.exports.take(k as int));
            }
        }
        proof {
            assert(self@.exports.take(ne as int) =~= self@.exports);
        }
        JsonCompositionGraph { version: 1, nodes, exports }
    }
}

/// Build a graph from an interchange document: nodes are registered under
/// their document ids (with the `$` name marker restored), exports in
/// document order with the last writer winning on a name collision. The
/// derived short labels are dropped; `validate` tells whether the document's
/// references are intact.
pub fn from_json_model(model: &JsonCompositionGraph) -> (g: CompositionGraph)
    ensures
        g.wf(),
        g@ == spec_from_json(model@),
{
    let mut graph = CompositionGraph::new();
    let n = model.nodes.len();
    let mut i: usize = 0;
    while i < n
        invariant
            graph.wf(),
            n == model.nodes@.len(),
            i <= n,
            graph@.nodes == spec_from_json_nodes(json_nodes_view(model.nodes@), i as int),
            graph@.exports == Seq::<(Seq<char>, u32)>::empty(),
        decreases n - i,
    {
        let jn = &model.nodes[i];
        proof {
            assert(json_nodes_view(model.nodes@)[i as int] == jn@);
        }
        let mut name = String::new();
        push_char(&mut name, '$');
        name.append(jn.name.as_str());
        proof {
            assert(name@ =~= seq!['$'] + jn.name@);
        }
        let mut node = ComponentNode::new(name, jn.component_index);
        let m = jn.imports.len();
        let mut j: usize = 0;
        while j < m
            invariant
                m == jn.imports@.len(),
                j <= m,
                node@.imports == json_conns_view(jn.imports@).take(j as int).map_values(
                    |c: JsonConnView| conn_of_json(c),
                ),
                node@.name == seq!['$'] + jn@.name,
                node@.component_index == jn@.component_index,
            decreases m - j,
        {
            let conn = &jn.imports[j];
            proof {
                assert(json_conns_view(jn.imports@)[j as int] == conn@);
                assert(node@.imports.len() == j as int);
            }
            node.add_import(
                crate::model::InterfaceConnection {
                    interface_name: conn.interface.clone(),
                    source_instance: conn.source_instance,
                    is_host_import: conn.is_host_import,
                },
            );
            j = j + 1;
            proof {
                let jv = json_conns_view(jn.imports@);
                let mapped = jv.take(j as int).map_values(|c: JsonConnView| conn_of_json(c));
                assert(mapped.len() == j as int);
                assert(node@.imports.len() == j as int);
                assert forall|x: int| 0 <= x < j implies node@.imports[x] == mapped[x] by {
                    assert(mapped[x] == conn_of_json(jv.take(j as int)[x]));
                    if x < j - 1 {
                        assert(node@.imports[x] == jv.take(j as int - 1).map_values(
                            |c: JsonConnView| conn_of_json(c),
                        )[x]);
                        assert(jv.take(j as int - 1).map_values(
                            |c: JsonConnView| conn_of_json(c),
                        )[x] == conn_of_json(jv[x]));
                    }
                }
                assert(node@.imports =~= mapped);
            }
        }
        proof {
            let jv = json_conns_view(jn.imports@);
            assert(jv.take(m as int) =~= jv);
            assert(node@ == node_of_json(jn@));
        }
        graph.add_node(jn.id, node);
        i = i + 1;
        proof {
            assert(graph@.nodes =~= spec_from_json_nodes(
                json_nodes_view(model.nodes@),
                i as int,
            ));
        }
    }
    proof {
        assert(json_nodes_view(model.nodes@).len() == n as int);
    }
    let ne = model.exports.len();
    let mut k: usize = 0;
    while k < ne
        invariant
            graph.wf(),
            ne == model.exports@.len(),
            k <= ne,
            graph@.nodes == spec_from_json_nodes(
                json_nodes_view(model.nodes@),
                model.nodes@.len() as int,
            ),
            graph@.exports == spec_from_json_exports(
                json_exports_view(model.exports@),
                k as int,
            ),
        decreases ne - k,
    {
        let e = &model.exports[k];
        proof {
            assert(json_exports_view(model.exports@)[k as int] == e@);
        }
        graph.add_export(e.interface.clone(), e.source_instance);
        k = k + 1;
        proof {
            assert(graph@.exports =~= spec_from_json_exports(
                json_exports_view(model.exports@),
                k as int,
            ));
        }
    }
    proof {
        assert(json_exports_view(model.exports@).len() == ne as int);
        assert(graph@ =~= spec_from_json(model@));
    }
    graph
}

/// Inserting under an index above every present index appends.
proof fn lemma_insert_append(s: Seq<(u32, NodeView)>, idx: u32, n: NodeView)
    requires
        forall|k: int| 0 <= k < s.len() ==> s[k].0 < idx,
    ensures
        spec_node_insert(s, idx, n) == s.push((idx, n)),
    decreases s.len(),
{
    if s.len() == 0 {
        assert(spec_node_insert(s, idx, n) =~= s.push((idx, n)));
    } else {
        lemma_insert_append(s.drop_first(), idx, n);
        assert(seq![s[0]] + s.drop_first().push((idx, n)) =~= s.push((idx, n)));
    }
}

/// Upserting a name absent from the map appends.
proof fn lemma_upsert_append(s: Seq<(Seq<char>, u32)>, name: Seq<char>, v: u32)
    requires
        forall|k: int| 0 <= k < s.len() ==> s[k].0 != name,
    ensures
        spec_export_upsert(s, name, v) == s.push((name, v)),
    decreases s.len(),
{
    if s.len() == 0 {
        assert(spec_export_upsert(s, name, v) =~= s.push((name, v)));
    } else {
        lemma_upsert_append(s.drop_first(), name, v);
        assert(seq![s[0]] + s.drop_first().push((name, v)) =~= s.push((name, v)));
    }
}

proof fn lemma_round_trip_nodes(nodes: Seq<(u32, NodeView)>, k: int)
    requires
        nodes_sorted(nodes),
        0 <= k <= nodes.len(),
    ensures
        ({
            let r = spec_from_json_nodes(json_nodes_of(nodes), k);
            &&& r.len() == k
            &&& forall|i: int|
                0 <= i < k ==> (#[trigger] r[i]).0 == nodes[i].0 && r[i].1.component_index
                    == nodes[i].1.component_index && r[i].1.imports == nodes[i].1.imports
                    && r[i].1.name == seq!['$'] + spec_drop_leading(nodes[i].1.name, '$')
        }),
    decreases k,
{
    if k > 0 {
        lemma_round_trip_nodes(nodes, k - 1);
        let jn = json_nodes_of(nodes);
        let prev = spec_from_json_nodes(jn, k - 1);
        assert(jn[k - 1] == json_node_of(nodes[k - 1]));
        assert forall|t: int| 0 <= t < prev.len() implies prev[t].0 < jn[k - 1].id by {
            assert(prev[t].0 == nodes[t].0);
        }
        lemma_insert_append(prev, jn[k - 1].id, node_of_json(jn[k - 1]));
        let back = node_of_json(jn[k - 1]);
        assert(back.imports =~= nodes[k - 1].1.imports) by {
            let c0 = nodes[k - 1].1.imports;
            assert(json_conns_of(c0).len() == c0.len());
            assert forall|x: int| 0 <= x < c0.len() implies back.imports[x] == c0[x] by {
                assert(json_conns_of(c0)[x] == json_conn_of(c0[x]));
                assert(back.imports[x] == conn_of_json(json_conns_of(c0)[x]));
            }
        }
    }
}

proof fn lemma_round_trip_exports(exports: Seq<(Seq<char>, u32)>, k: int)
    requires
        exports_unique(exports),
        0 <= k <= exports.len(),
    ensures
        spec_from_json_exports(exports, k) == exports.take(k),
    decreases k,
{
    if k == 0 {
        assert(spec_from_json_exports(exports, 0) =~= exports.take(0));
    } else {
        lemma_round_trip_exports(exports, k - 1);
        assert forall|t: int| 0 <= t < k - 1 implies (#[trigger] exports.take(k - 1)[t]).0
            != exports[k - 1].0 by {
            assert(exports.take(k - 1)[t] == exports[t]);
        }
        lemma_upsert_append(exports.take(k - 1), exports[k - 1].0, exports[k - 1].1);
        assert(exports.take(k - 1).push((exports[k - 1].0, exports[k - 1].1)) =~= exports.take(
            k,
        ));
    }
}

/// JSON round trip: building a graph back from a well-formed graph's
/// interchange document reproduces the node set (same indices in the same
/// order, same component index, identical import lists in order) and the
/// export map exactly; a node's stored name comes back as `$` followed by
/// its display label.
pub proof fn lemma_json_round_trip(g: GraphView)
    requires
        g.wf(),
    ensures
        ({
            let g2 = spec_from_json(spec_to_json(g));
            &&& g2.nodes.len() == g.nodes.len()
            &&& forall|i: int|
                0 <= i < g.nodes.len() ==> (#[trigger] g2.nodes[i]).0 == g.nodes[i].0
                    && g2.nodes[i].1.component_index == g.nodes[i].1.component_index
                    && g2.nodes[i].1.imports == g.nodes[i].1.imports && g2.nodes[i].1.name
                    == seq!['$'] + spec_drop_leading(g.nodes[i].1.name, '$')
            &&& g2.exports == g.exports
        }),
{
    let m = spec_to_json(g);
    assert(m.nodes.len() == g.nodes.len());
    lemma_round_trip_nodes(g.nodes, g.nodes.len() as int);
    lemma_round_trip_exports(g.exports, g.exports.len() as int);
    assert(g.exports.take(g.exports.len() as int) =~= g.exports);
}

} // verus!
