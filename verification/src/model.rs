//! The composition graph: one node per real instantiated sub-component, one
//! connection per interface a node consumes, and the map of top-level exports.

use vstd::prelude::*;

use crate::text::{
    chars_vec, count_leading, spec_contains, spec_drop_leading, str_contains, string_from_chars,
};

verus! {

/// Marks a node that exists only to bundle exports for wiring purposes and
/// does not correspond to a real instantiation.
pub const SYNTHETIC_COMPONENT: u32 = u32::MAX;

/// Abstract value of an `InterfaceConnection`.
pub ghost struct ConnView {
    pub interface: Seq<char>,
    pub source: Option<u32>,
    pub is_host: bool,
}

/// One wiring edge consumed by a node: a fully qualified interface name, the
/// instance supplying it (if any is recorded), and whether the supplier is
/// the host environment rather than a tracked instance.
#[derive(Debug, Clone)]
pub struct InterfaceConnection {
    pub interface_name: String,
    pub source_instance: Option<u32>,
    pub is_host_import: bool,
}

impl View for InterfaceConnection {
    type V = ConnView;

    open spec fn view(&self) -> ConnView {
        ConnView {
            interface: self.interface_name@,
            source: self.source_instance,
            is_host: self.is_host_import,
        }
    }
}

/// Abstract value of a `ComponentNode`.
pub ghost struct NodeView {
    pub name: Seq<char>,
    pub component_index: u32,
    pub imports: Seq<ConnView>,
}

/// One real or synthetic composition-time instance: a display name, the index
/// of the composed definition it instantiates (or `SYNTHETIC_COMPONENT`), and
/// its interface connections in wiring order.
#[derive(Debug, Clone)]
pub struct ComponentNode {
    pub name: String,
    pub component_index: u32,
    pub imports: Vec<InterfaceConnection>,
}

/// The views of a list of connections.
pub open spec fn conns_view(s: Seq<InterfaceConnection>) -> Seq<ConnView> {
    s.map_values(|c: InterfaceConnection| c@)
}

impl View for ComponentNode {
    type V = NodeView;

    open spec fn view(&self) -> NodeView {
        NodeView {
            name: self.name@,
            component_index: self.component_index,
            imports: conns_view(self.imports@),
        }
    }
}

impl InterfaceConnection {
    /// A connection supplied by a tracked instance; host classification is
    /// left for the post-build pass.
    pub fn from_instance(interface_name: String, source_instance: u32) -> (r: Self)
        ensures
            r@ == (ConnView {
                interface: interface_name@,
                source: Some(source_instance),
                is_host: false,
            }),
    {
        Self { interface_name, source_instance: Some(source_instance), is_host_import: false }
    }

    /// The interface's short label: the part after the last `/`, cut before
    /// any `@` version suffix.
    pub fn short_label(&self) -> (r: String)
        ensures
            r@ == spec_short_name(self@.interface),
    {
        short_interface_name(self.interface_name.as_str())
    }

    /// Whether this connection carries the HTTP handler interface.
    pub fn is_http_handler(&self) -> (r: bool)
        ensures
            r == spec_contains(self@.interface, "wasi:http/handler"@),
    {
        str_contains(self.interface_name.as_str(), "wasi:http/handler")
    }
}

impl ComponentNode {
    /// A node with no connections yet.
    pub fn new(name: String, component_index: u32) -> (r: Self)
        ensures
            r@ == (NodeView { name: name@, component_index, imports: Seq::empty() }),
    {
        let r = Self { name, component_index, imports: Vec::new() };
        proof {
            assert(r@.imports =~= Seq::<ConnView>::empty());
        }
        r
    }

    /// Appends one connection; insertion order is wiring order.
    pub fn add_import(&mut self, connection: InterfaceConnection)
        ensures
            final(self)@ == (NodeView { imports: old(self)@.imports.push(connection@), ..old(self)@ }),
    {
        let ghost c = connection@;
        self.imports.push(connection);
        proof {
            assert(self@.imports =~= old(self)@.imports.push(c));
        }
    }

    /// The display label: the name with its leading `$` markers removed.
    pub fn display_label<'a>(&'a self) -> (r: &'a str)
        ensures
            r@ == spec_drop_leading(self@.name, '$'),
    {
        let v = chars_vec(self.name.as_str());
        let k = count_leading(&v, '$');
        let r = self.name.as_str().substring_char(k, v.len());
        proof {
            assert(r@ =~= v@.skip(k as int));
        }
        r
    }
}

/// Abstract value of a `CompositionGraph`.
pub ghost struct GraphView {
    pub nodes: Seq<(u32, NodeView)>,
    pub exports: Seq<(Seq<char>, u32)>,
}

/// Node entries are strictly ordered by instance index, so indices are
/// pairwise distinct.
pub open spec fn nodes_sorted(nodes: Seq<(u32, NodeView)>) -> bool {
    forall|i: int, j: int| 0 <= i < j < nodes.len() ==> nodes[i].0 < nodes[j].0
}

/// Export entries carry pairwise distinct interface names.
pub open spec fn exports_unique(exports: Seq<(Seq<char>, u32)>) -> bool {
    forall|i: int, j: int| 0 <= i < j < exports.len() ==> exports[i].0 != exports[j].0
}

/// Some entry of a node list carries the given index.
pub open spec fn has_index(s: Seq<(u32, NodeView)>, x: u32) -> bool {
    exists|i: int| 0 <= i < s.len() && s[i].0 == x
}

/// The first node entry with the given index, if any.
pub open spec fn spec_node_at(nodes: Seq<(u32, NodeView)>, idx: u32) -> Option<NodeView>
    decreases nodes.len(),
{
    if nodes.len() == 0 {
        None
    } else if nodes[0].0 == idx {
        Some(nodes[0].1)
    } else {
        spec_node_at(nodes.drop_first(), idx)
    }
}

/// Insertion into the index-ordered node list; an existing entry with the
/// same index is replaced.
pub open spec fn spec_node_insert(s: Seq<(u32, NodeView)>, idx: u32, n: NodeView) -> Seq<
    (u32, NodeView),
>
    decreases s.len(),
{
    if s.len() == 0 {
        seq![(idx, n)]
    } else if idx < s[0].0 {
        seq![(idx, n)] + s
    } else if idx == s[0].0 {
        seq![(idx, n)] + s.drop_first()
    } else {
        seq![s[0]] + spec_node_insert(s.drop_first(), idx, n)
    }
}

/// Last-writer-wins registration of an export: an existing entry with the
/// same name keeps its position but takes the new value; otherwise the entry
/// is appended.
pub open spec fn spec_export_upsert(s: Seq<(Seq<char>, u32)>, name: Seq<char>, v: u32) -> Seq<
    (Seq<char>, u32),
>
    decreases s.len(),
{
    if s.len() == 0 {
        seq![(name, v)]
    } else if s[0].0 == name {
        seq![(name, v)] + s.drop_first()
    } else {
        seq![s[0]] + spec_export_upsert(s.drop_first(), name, v)
    }
}

/// Inserting a node adds exactly its index to the keys of the node list.
pub proof fn lemma_node_insert_keys(s: Seq<(u32, NodeView)>, idx: u32, n: NodeView)
    ensures
        forall|x: u32| #[trigger]
            has_index(spec_node_insert(s, idx, n), x) == (has_index(s, x) || x == idx),
    decreases s.len(),
{
    let r = spec_node_insert(s, idx, n);
    if s.len() == 0 {
        assert forall|x: u32| has_index(r, x) == (has_index(s, x) || x == idx) by {
            if has_index(r, x) {
                let i = choose|i: int| 0 <= i < r.len() && r[i].0 == x;
                assert(x == idx);
            }
            if x == idx {
                assert(r[0].0 == x);
            }
        }
    } else if idx < s[0].0 {
        assert forall|x: u32| has_index(r, x) == (has_index(s, x) || x == idx) by {
            if has_index(r, x) {
                let i = choose|i: int| 0 <= i < r.len() && r[i].0 == x;
                if i > 0 {
                    assert(s[i - 1].0 == x);
                }
            }
            if has_index(s, x) {
                let i = choose|i: int| 0 <= i < s.len() && s[i].0 == x;
                assert(r[i + 1].0 == x);
            }
            if x == idx {
                assert(r[0].0 == x);
            }
        }
    } else if idx == s[0].0 {
        assert forall|x: u32| has_index(r, x) == (has_index(s, x) || x == idx) by {
            if has_index(r, x) {
                let i = choose|i: int| 0 <= i < r.len() && r[i].0 == x;
                if i > 0 {
                    assert(s[i].0 == x);
                } else {
                    assert(x == idx);
                }
            }
            if has_index(s, x) {
                let i = choose|i: int| 0 <= i < s.len() && s[i].0 == x;
                if i > 0 {
                    assert(r[i].0 == x);
                } else {
                    assert(r[0].0 == x);
                }
            }
            if x == idx {
                assert(r[0].0 == x);
            }
        }
    } else {
        lemma_node_insert_keys(s.drop_first(), idx, n);
        let rr = spec_node_insert(s.drop_first(), idx, n);
        assert(r =~= seq![s[0]] + rr);
        assert forall|x: u32| has_index(r, x) == (has_index(s, x) || x == idx) by {
            if has_index(r, x) {
                let i = choose|i: int| 0 <= i < r.len() && r[i].0 == x;
                if i == 0 {
                    assert(s[0].0 == x);
                } else {
                    assert(rr[i - 1].0 == x);
                    assert(has_index(rr, x));
                    if has_index(s.drop_first(), x) {
                        let t = choose|t: int| 0 <= t < s.drop_first().len() && s.drop_first()[t].0
                            == x;
                        assert(s[t + 1].0 == x);
                    }
                }
            }
            if has_index(s, x) {
                let i = choose|i: int| 0 <= i < s.len() && s[i].0 == x;
                if i == 0 {
                    assert(r[0].0 == x);
                } else {
                    assert(s.drop_first()[i - 1].0 == x);
                    assert(has_index(s.drop_first(), x));
                    assert(has_index(rr, x) == (has_index(s.drop_first(), x) || x == idx));
                    let t = choose|t: int| 0 <= t < rr.len() && rr[t].0 == x;
                    assert(r[t + 1].0 == x);
                }
            }
            if x == idx {
                assert(has_index(spec_node_insert(s.drop_first(), idx, n), x) == (has_index(
                    s.drop_first(),
                    x,
                ) || x == idx));
                let t = choose|t: int| 0 <= t < rr.len() && rr[t].0 == x;
                assert(r[t + 1].0 == x);
            }
        }
    }
}

impl GraphView {
    /// Both orderings hold: indices strictly increasing, export names unique.
    pub open spec fn wf(self) -> bool {
        nodes_sorted(self.nodes) && exports_unique(self.exports)
    }

    /// Some node entry carries the given instance index.
    pub open spec fn contains_index(self, idx: u32) -> bool {
        exists|i: int| 0 <= i < self.nodes.len() && self.nodes[i].0 == idx
    }

    /// The node registered under the given instance index.
    pub open spec fn node_at(self, idx: u32) -> Option<NodeView> {
        spec_node_at(self.nodes, idx)
    }
}

/// The complete parsed composition structure: instances keyed by index, in
/// index order, and the exported interfaces with their source instance.
#[derive(Debug)]
pub struct CompositionGraph {
    pub nodes: Vec<(u32, ComponentNode)>,
    pub component_exports: Vec<(String, u32)>,
}

/// The views of a list of node entries.
pub open spec fn pairs_view(s: Seq<(u32, ComponentNode)>) -> Seq<(u32, NodeView)> {
    s.map_values(|p: (u32, ComponentNode)| (p.0, p.1@))
}

/// The views of a list of export entries.
pub open spec fn exports_view(s: Seq<(String, u32)>) -> Seq<(Seq<char>, u32)> {
    s.map_values(|p: (String, u32)| (p.0@, p.1))
}

impl View for CompositionGraph {
    type V = GraphView;

    open spec fn view(&self) -> GraphView {
        GraphView { nodes: pairs_view(self.nodes@), exports: exports_view(self.component_exports@) }
    }
}

proof fn lemma_node_at_found(s: Seq<(u32, NodeView)>, idx: u32, i: int)
    requires
        0 <= i < s.len(),
        s[i].0 == idx,
        forall|k: int| 0 <= k < i ==> s[k].0 != idx,
    ensures
        spec_node_at(s, idx) == Some(s[i].1),
    decreases i,
{
    if i > 0 {
        lemma_node_at_found(s.drop_first(), idx, i - 1);
    }
}

proof fn lemma_node_at_absent(s: Seq<(u32, NodeView)>, idx: u32)
    requires
        forall|k: int| 0 <= k < s.len() ==> s[k].0 != idx,
    ensures
        spec_node_at(s, idx) is None,
    decreases s.len(),
{
    if s.len() > 0 {
        lemma_node_at_absent(s.drop_first(), idx);
    }
}

/// A node is found under an index exactly when some entry carries it.
pub proof fn lemma_node_at_iff_contains(g: GraphView, idx: u32)
    ensures
        g.node_at(idx) is Some <==> g.contains_index(idx),
{
    if g.contains_index(idx) {
        let i = choose|i: int| 0 <= i < g.nodes.len() && g.nodes[i].0 == idx;
        lemma_node_at_contains(g.nodes, idx, i);
    } else {
        lemma_node_at_absent(g.nodes, idx);
    }
}

proof fn lemma_node_at_contains(s: Seq<(u32, NodeView)>, idx: u32, i: int)
    requires
        0 <= i < s.len(),
        s[i].0 == idx,
    ensures
        spec_node_at(s, idx) is Some,
    decreases i,
{
    if s[0].0 != idx {
        lemma_node_at_contains(s.drop_first(), idx, i - 1);
    }
}

/// The shape of an insertion at the position `p` where the scan stops.
proof fn lemma_node_insert_at(s: Seq<(u32, NodeView)>, idx: u32, n: NodeView, p: int)
    requires
        0 <= p <= s.len(),
        forall|k: int| 0 <= k < p ==> s[k].0 < idx,
        p < s.len() ==> s[p].0 >= idx,
    ensures
        p < s.len() && s[p].0 == idx ==> spec_node_insert(s, idx, n) == s.subrange(0, p)
            + seq![(idx, n)] + s.skip(p + 1),
        !(p < s.len() && s[p].0 == idx) ==> spec_node_insert(s, idx, n) == s.subrange(0, p)
            + seq![(idx, n)] + s.skip(p),
    decreases p,
{
    if p == 0 {
        if s.len() == 0 {
            assert(spec_node_insert(s, idx, n) =~= s.subrange(0, 0) + seq![(idx, n)] + s.skip(0));
        } else if s[0].0 == idx {
            assert(spec_node_insert(s, idx, n) =~= s.subrange(0, 0) + seq![(idx, n)] + s.skip(1));
        } else {
            assert(idx < s[0].0);
            assert(spec_node_insert(s, idx, n) =~= s.subrange(0, 0) + seq![(idx, n)] + s.skip(0));
        }
    } else {
        assert(s[0].0 < idx);
        lemma_node_insert_at(s.drop_first(), idx, n, p - 1);
        if p < s.len() && s[p].0 == idx {
            assert(s.drop_first()[p - 1].0 == idx);
            assert(seq![s[0]] + (s.drop_first().subrange(0, p - 1) + seq![(idx, n)]
                + s.drop_first().skip(p)) =~= s.subrange(0, p) + seq![(idx, n)] + s.skip(p + 1));
        } else {
            assert(seq![s[0]] + (s.drop_first().subrange(0, p - 1) + seq![(idx, n)]
                + s.drop_first().skip(p - 1)) =~= s.subrange(0, p) + seq![(idx, n)] + s.skip(p));
        }
    }
}

/// The shape of an export upsert at the position `p` where the scan stops.
proof fn lemma_export_upsert_at(s: Seq<(Seq<char>, u32)>, name: Seq<char>, v: u32, p: int)
    requires
        0 <= p <= s.len(),
        forall|k: int| 0 <= k < p ==> s[k].0 != name,
        p < s.len() ==> s[p].0 == name,
    ensures
        p < s.len() ==> spec_export_upsert(s, name, v) == s.update(p, (name, v)),
        p == s.len() ==> spec_export_upsert(s, name, v) == s.push((name, v)),
    decreases p,
{
    if p == 0 {
        if s.len() == 0 {
            assert(spec_export_upsert(s, name, v) =~= s.push((name, v)));
        } else {
            assert(spec_export_upsert(s, name, v) =~= s.update(0, (name, v)));
        }
    } else {
        lemma_export_upsert_at(s.drop_first(), name, v, p - 1);
        if p < s.len() {
            assert(seq![s[0]] + s.drop_first().update(p - 1, (name, v)) =~= s.update(
                p,
                (name, v),
            ));
        } else {
            assert(seq![s[0]] + s.drop_first().push((name, v)) =~= s.push((name, v)));
        }
    }
}

impl Default for CompositionGraph {
    /// The default graph is empty.
    fn default() -> (r: Self)
        ensures
            r@.nodes == Seq::<(u32, NodeView)>::empty(),
            r@.exports == Seq::<(Seq<char>, u32)>::empty(),
            r.wf(),
    {
        CompositionGraph::new()
    }
}

impl CompositionGraph {
    /// Executable form of the well-formedness predicate.
    pub open spec fn wf(self) -> bool {
        self@.wf()
    }

    /// An empty graph.
    pub fn new() -> (r: Self)
        ensures
            r@.nodes == Seq::<(u32, NodeView)>::empty(),
            r@.exports == Seq::<(Seq<char>, u32)>::empty(),
            r.wf(),
    {
        let r = Self { nodes: Vec::new(), component_exports: Vec::new() };
        proof {
            assert(r@.nodes =~= Seq::<(u32, NodeView)>::empty());
            assert(r@.exports =~= Seq::<(Seq<char>, u32)>::empty());
        }
        r
    }

    /// Registers a node under an instance index, keeping entries ordered by
    /// index; a previous node under the same index is replaced.
    pub fn add_node(&mut self, instance_index: u32, node: ComponentNode)
        requires
            old(self).wf(),
        ensures
            final(self).wf(),
            final(self)@.nodes == spec_node_insert(old(self)@.nodes, instance_index, node@),
            final(self)@.exports == old(self)@.exports,
            final(self)@.contains_index(instance_index),
            forall|x: u32| #[trigger]
                final(self)@.contains_index(x) == (old(self)@.contains_index(x) || x
                    == instance_index),
    {
        let ghost s0 = self@.nodes;
        let n = self.nodes.len();
        let mut p: usize = 0;
        while p < n && self.nodes[p].0 < instance_index
            invariant
                n == self.nodes@.len(),
                p <= n,
                forall|k: int| 0 <= k < p ==> s0[k].0 < instance_index,
                self@.nodes == s0,
            decreases n - p,
        {
            p = p + 1;
        }
        proof {
            lemma_node_insert_at(s0, instance_index, node@, p as int);
        }
        if p < n && self.nodes[p].0 == instance_index {
            self.nodes.remove(p);
            self.nodes.insert(p, (instance_index, node));
            proof {
                assert(self@.nodes =~= s0.subrange(0, p as int) + seq![(instance_index, node@)]
                    + s0.skip(p as int + 1));
            }
        } else {
            self.nodes.insert(p, (instance_index, node));
            proof {
                assert(self@.nodes =~= s0.subrange(0, p as int) + seq![(instance_index, node@)]
                    + s0.skip(p as int));
            }
        }
        proof {
            let s1 = self@.nodes;
            assert forall|i: int, j: int| 0 <= i < j < s1.len() implies s1[i].0 < s1[j].0 by {
                assert(nodes_sorted(s0));
            }
            assert(s1[p as int].0 == instance_index);
            assert(self@.contains_index(instance_index));
            assert forall|x: u32| #[trigger]
                self@.contains_index(x) == (GraphView { nodes: s0, exports: self@.exports }
                    .contains_index(x) || x == instance_index) by {
                if self@.contains_index(x) {
                    let i = choose|i: int| 0 <= i < s1.len() && s1[i].0 == x;
                    if i != p {
                        if i < p {
                            assert(s0[i].0 == x);
                        } else {
                            if p < s0.len() && s0[p as int].0 == instance_index {
                                assert(s0[i].0 == x);
                            } else {
                                assert(s0[i - 1].0 == x);
                            }
                        }
                    }
                }
                if (GraphView { nodes: s0, exports: self@.exports }.contains_index(x)) {
                    let i = choose|i: int| 0 <= i < s0.len() && s0[i].0 == x;
                    if x != instance_index {
                        if i < p {
                            assert(s1[i].0 == x);
                        } else {
                            if p < s0.len() && s0[p as int].0 == instance_index {
                                assert(i != p);
                                assert(s1[i].0 == x);
                            } else {
                                assert(s1[i + 1].0 == x);
                            }
                        }
                    }
                }
            }
        }
    }

    /// The node registered under an instance index, if any.
    pub fn get_node<'a>(&'a self, instance_index: u32) -> (r: Option<&'a ComponentNode>)
        ensures
            match r {
                Some(n) => self@.node_at(instance_index) == Some(n@) && self@.contains_index(
                    instance_index,
                ),
                None => !self@.contains_index(instance_index),
            },
    {
        let n = self.nodes.len();
        let mut i: usize = 0;
        while i < n
            invariant
                n == self.nodes@.len(),
                i <= n,
                forall|k: int| 0 <= k < i ==> self@.nodes[k].0 != instance_index,
            decreases n - i,
        {
            if self.nodes[i].0 == instance_index {
                proof {
                    lemma_node_at_found(self@.nodes, instance_index, i as int);
                }
                return Some(&self.nodes[i].1);
            }
            i = i + 1;
        }
        proof {
            lemma_node_at_absent(self@.nodes, instance_index);
        }
        None
    }

    /// Registers an export mapping; the last writer wins on a name collision.
    pub fn add_export(&mut self, interface_name: String, source_instance: u32)
        requires
            old(self).wf(),
        ensures
            final(self).wf(),
            final(self)@.exports == spec_export_upsert(
                old(self)@.exports,
                interface_name@,
                source_instance,
            ),
            final(self)@.nodes == old(self)@.nodes,
    {
        let ghost s0 = self@.exports;
        let n = self.component_exports.len();
        let mut p: usize = 0;
        let mut found = false;
        loop
            invariant
                old(self)@ == self@,
                s0 == self@.exports,
                n == self.component_exports@.len(),
                p <= n,
                forall|k: int| 0 <= k < p ==> s0[k].0 != interface_name@,
                found ==> p < n && s0[p as int].0 == interface_name@,
            ensures
                old(self)@ == self@,
                s0 == self@.exports,
                p <= n,
                forall|k: int| 0 <= k < p ==> s0[k].0 != interface_name@,
                found ==> p < n && s0[p as int].0 == interface_name@,
                !found ==> p == n,
            decreases n - p,
        {
            if p >= n {
                break;
            }
            let eq = crate::text::str_eq(
                self.component_exports[p].0.as_str(),
                interface_name.as_str(),
            );
            proof {
                assert(s0[p as int].0 == self.component_exports@[p as int].0@);
            }
            if eq {
                found = true;
                break;
            }
            p = p + 1;
        }
        proof {
            if found {
                lemma_export_upsert_at(s0, interface_name@, source_instance, p as int);
            } else {
                assert(p == n);
                lemma_export_upsert_at(s0, interface_name@, source_instance, p as int);
            }
        }
        if found {
            self.component_exports.remove(p);
            self.component_exports.insert(p, (interface_name, source_instance));
            proof {
                assert(self@.exports =~= s0.update(p as int, (interface_name@, source_instance)));
                assert(exports_unique(self@.exports)) by {
                    assert(forall|k: int|
                        0 <= k < s0.len() && k != p ==> self@.exports[k].0 == s0[k].0);
                    assert(s0[p as int].0 == interface_name@);
                }
            }
        } else {
            self.component_exports.push((interface_name, source_instance));
            proof {
                assert(self@.exports =~= s0.push((interface_name@, source_instance)));
                assert(exports_unique(self@.exports)) by {
                    assert(forall|k: int| 0 <= k < s0.len() ==> self@.exports[k].0 == s0[k].0);
                }
            }
        }
    }
}

/// The views of a list of borrowed nodes.
pub open spec fn ref_nodes_view(s: Seq<&ComponentNode>) -> Seq<NodeView> {
    s.map_values(|n: &ComponentNode| n@)
}

/// The list of character sequences contains `x`.
pub open spec fn seqs_contain(s: Seq<Seq<char>>, x: Seq<char>) -> bool {
    exists|t: int| 0 <= t < s.len() && s[t] == x
}

/// The real (non-synthetic) nodes of an index-ordered node list, in order.
pub open spec fn spec_real_nodes(s: Seq<(u32, NodeView)>) -> Seq<NodeView>
    decreases s.len(),
{
    if s.len() == 0 {
        Seq::empty()
    } else {
        let init = spec_real_nodes(s.drop_last());
        if s.last().1.component_index != SYNTHETIC_COMPONENT {
            init.push(s.last().1)
        } else {
            init
        }
    }
}

/// Some real node has a host-classified import of this interface.
pub open spec fn spec_is_host_interface(g: GraphView, name: Seq<char>) -> bool {
    exists|i: int, j: int|
        0 <= i < g.nodes.len() && g.nodes[i].1.component_index != SYNTHETIC_COMPONENT && 0 <= j
            < g.nodes[i].1.imports.len() && g.nodes[i].1.imports[j].is_host
            && g.nodes[i].1.imports[j].interface == name
}

/// The bounded form of `spec_is_host_interface`: only connections strictly
/// before position `(i, j)` in the scan order are considered.
pub open spec fn host_iface_upto(g: GraphView, name: Seq<char>, i: int, j: int) -> bool {
    exists|a: int, b: int|
        0 <= a < g.nodes.len() && (a < i || (a == i && b < j)) && g.nodes[a].1.component_index
            != SYNTHETIC_COMPONENT && 0 <= b < g.nodes[a].1.imports.len()
            && g.nodes[a].1.imports[b].is_host && g.nodes[a].1.imports[b].interface == name
}

/// The character-sequence views of a list of strings.
pub open spec fn views_of(s: Seq<String>) -> Seq<Seq<char>> {
    s.map_values(|x: String| x@)
}

/// The list of names contains `x`.
pub open spec fn names_contain(s: Seq<String>, x: Seq<char>) -> bool {
    exists|t: int| 0 <= t < s.len() && s[t]@ == x
}

/// String views pairwise strictly ascending.
pub open spec fn strings_sorted(s: Seq<Seq<char>>) -> bool {
    forall|i: int, j: int|
        0 <= i < j < s.len() ==> crate::text::spec_str_lt(s[i], s[j])
}

/// Inserts a name into an ascending list of unique names, keeping order and
/// dropping the insertion when the name is already present.
fn insert_name_sorted(v: &mut Vec<String>, name: String)
    requires
        strings_sorted(views_of(old(v)@)),
    ensures
        strings_sorted(views_of(final(v)@)),
        forall|x: Seq<char>| #[trigger]
            names_contain(final(v)@, x) == (names_contain(old(v)@, x) || x == name@),
{
    let ghost s0 = views_of(v@);
    let name_chars = chars_vec(name.as_str());
    let n = v.len();
    let mut p: usize = 0;
    let mut found = false;
    loop
        invariant_except_break
            !found,
        invariant
            v@ == old(v)@,
            s0 == views_of(v@),
            name_chars@ == name@,
            n == v@.len(),
            p <= n,
            strings_sorted(s0),
            forall|k: int| 0 <= k < p ==> crate::text::spec_str_lt(s0[k], name@),
        ensures
            v@ == old(v)@,
            p <= n,
            forall|k: int| 0 <= k < p ==> crate::text::spec_str_lt(s0[k], name@),
            found ==> p < n && s0[p as int] == name@,
            !found ==> p == n || !crate::text::spec_str_lt(s0[p as int], name@),
            !found ==> forall|k: int| 0 <= k < n ==> s0[k] != name@,
        decreases n - p,
    {
        if p >= n {
            proof {
                assert forall|k: int| 0 <= k < n implies s0[k] != name@ by {
                    crate::text::lemma_str_lt_irreflexive(name@);
                }
            }
            break;
        }
        let entry_chars = chars_vec(v[p].as_str());
        proof {
            assert(s0[p as int] == v@[p as int]@);
        }
        let lt = crate::text::seq_lt(&entry_chars, &name_chars);
        if !lt {
            let eq = crate::text::str_eq(v[p].as_str(), name.as_str());
            if eq {
                proof {
                    assert(s0[p as int] == v@[p as int]@);
                    assert(s0[p as int] == name@);
                }
                found = true;
            } else {
                proof {
                    assert(s0[p as int] != name@);
                    assert forall|k: int| 0 <= k < n implies s0[k] != name@ by {
                        crate::text::lemma_str_lt_irreflexive(name@);
                        if k > p && s0[k] == name@ {
                            assert(strings_sorted(s0));
                            assert(crate::text::spec_str_lt(s0[p as int], s0[k]));
                        }
                    }
                }
            }
            break;
        }
        p = p + 1;
    }
    if found {
        proof {
            assert forall|x: Seq<char>| #[trigger]
                names_contain(v@, x) == (names_contain(old(v)@, x) || x == name@) by {
                if x == name@ {
                    assert(v@[p as int]@ == x);
                    assert(names_contain(v@, x));
                }
            }
        }
        return ;
    }
    v.insert(p, name);
    proof {
        let s1 = views_of(v@);
        assert(s1.len() == s0.len() + 1);
        assert(s1 =~= s0.subrange(0, p as int) + seq![name@] + s0.skip(p as int));
        assert forall|i: int, j: int| 0 <= i < j < s1.len() implies crate::text::spec_str_lt(
            s1[i],
            s1[j],
        ) by {
            if j < p {
            } else if i < p && j == p {
                assert(s1[j] == name@);
                assert(s1[i] == s0[i]);
            } else if i < p && j > p {
                assert(s1[j] == s0[j - 1]);
            } else if i == p {
                assert(s1[i] == name@);
                assert(s1[j] == s0[j - 1]);
                assert(!crate::text::spec_str_lt(s0[p as int], name@));
                assert(s0[p as int] != name@);
                crate::text::lemma_str_lt_connected_or(s0[p as int], name@);
                if j - 1 > p {
                    crate::text::lemma_str_lt_transitive(name@, s0[p as int], s0[j - 1]);
                }
            } else {
                assert(s1[i] == s0[i - 1]);
                assert(s1[j] == s0[j - 1]);
            }
        }
        assert forall|x: Seq<char>| #[trigger]
            names_contain(v@, x) == (names_contain(old(v)@, x) || x == name@) by {
            if names_contain(v@, x) {
                let t = choose|t: int| 0 <= t < v@.len() && v@[t]@ == x;
                if t < p {
                    assert(old(v)@[t]@ == x);
                } else if t == p {
                } else {
                    assert(old(v)@[t - 1]@ == x);
                }
            }
            if names_contain(old(v)@, x) {
                let t = choose|t: int| 0 <= t < old(v)@.len() && old(v)@[t]@ == x;
                if t < p {
                    assert(v@[t]@ == x);
                    assert(names_contain(v@, x));
                } else {
                    assert(v@[t + 1]@ == x);
                    assert(names_contain(v@, x));
                }
            }
            if x == name@ {
                assert(v@[p as int]@ == x);
                assert(names_contain(v@, x));
            }
        }
    }
}

impl CompositionGraph {
    /// The real (non-synthetic) component nodes, preserving index order.
    pub fn real_nodes<'a>(&'a self) -> (r: Vec<&'a ComponentNode>)
        ensures
            ref_nodes_view(r@) == spec_real_nodes(self@.nodes),
    {
        let n = self.nodes.len();
        let mut r: Vec<&ComponentNode> = Vec::new();
        let mut i: usize = 0;
        while i < n
            invariant
                n == self.nodes@.len(),
                i <= n,
                ref_nodes_view(r@) == spec_real_nodes(self@.nodes.subrange(0, i as int)),
            decreases n - i,
        {
            let ghost prefix = self@.nodes.subrange(0, i as int + 1);
            proof {
                assert(prefix.drop_last() =~= self@.nodes.subrange(0, i as int));
                assert(prefix.last() == self@.nodes[i as int]);
            }
            if self.nodes[i].1.component_index != SYNTHETIC_COMPONENT {
                r.push(&self.nodes[i].1);
                proof {
                    assert(ref_nodes_view(r@) =~= spec_real_nodes(prefix));
                }
            } else {
                proof {
                    assert(ref_nodes_view(r@) =~= spec_real_nodes(prefix));
                }
            }
            i = i + 1;
        }
        proof {
            assert(self@.nodes.subrange(0, n as int) =~= self@.nodes);
        }
        r
    }

    /// The deduplicated, lexicographically sorted interface names appearing
    /// on any real node's host-classified imports.
    pub fn host_interfaces(&self) -> (r: Vec<String>)
        ensures
            strings_sorted(views_of(r@)),
            forall|i: int, j: int|
                0 <= i < j < r@.len() ==> r@[i]@ != r@[j]@,
            forall|x: Seq<char>| #[trigger]
                names_contain(r@, x) == spec_is_host_interface(self@, x),
    {
        let n = self.nodes.len();
        let mut acc: Vec<String> = Vec::new();
        let mut i: usize = 0;
        while i < n
            invariant
                n == self.nodes@.len(),
                i <= n,
                strings_sorted(views_of(acc@)),
                forall|x: Seq<char>| #[trigger]
                    names_contain(acc@, x) == host_iface_upto(self@, x, i as int, 0),
            decreases n - i,
        {
            let node = &self.nodes[i].1;
            if node.component_index != SYNTHETIC_COMPONENT {
                let m = node.imports.len();
                let mut j: usize = 0;
                while j < m
                    invariant
                        n == self.nodes@.len(),
                        i < n,
                        node == &self.nodes@[i as int].1,
                        node@.component_index != SYNTHETIC_COMPONENT,
                        m == node.imports@.len(),
                        j <= m,
                        strings_sorted(views_of(acc@)),
                        forall|x: Seq<char>| #[trigger]
                            names_contain(acc@, x) == host_iface_upto(self@, x, i as int, j as int),
                    decreases m - j,
                {
                    let conn = &node.imports[j];
                    if conn.is_host_import {
                        insert_name_sorted(&mut acc, conn.interface_name.clone());
                        proof {
                            assert(self@.nodes[i as int].1.imports[j as int].interface
                                == conn.interface_name@);
                            assert forall|x: Seq<char>| #[trigger]
                                names_contain(acc@, x) == host_iface_upto(
                                    self@,
                                    x,
                                    i as int,
                                    j as int + 1,
                                ) by {
                                if host_iface_upto(self@, x, i as int, j as int + 1) {
                                    let (a, b) = choose|a: int, b: int|
                                        0 <= a < self@.nodes.len() && (a < i as int || (a
                                            == i as int && b < j as int + 1))
                                            && self@.nodes[a].1.component_index
                                            != SYNTHETIC_COMPONENT && 0 <= b
                                            < self@.nodes[a].1.imports.len()
                                            && self@.nodes[a].1.imports[b].is_host
                                            && self@.nodes[a].1.imports[b].interface == x;
                                    if a < i as int || (a == i as int && b < j as int) {
                                        assert(host_iface_upto(self@, x, i as int, j as int));
                                    } else {
                                        assert(x == conn.interface_name@);
                                    }
                                }
                            }
                        }
                    } else {
                        proof {
                            assert forall|x: Seq<char>|
                                host_iface_upto(self@, x, i as int, j as int + 1)
                                    == host_iface_upto(self@, x, i as int, j as int) by {
                                if host_iface_upto(self@, x, i as int, j as int + 1) {
                                    let (a, b) = choose|a: int, b: int|
                                        0 <= a < self@.nodes.len() && (a < i as int || (a
                                            == i as int && b < j as int + 1))
                                            && self@.nodes[a].1.component_index
                                            != SYNTHETIC_COMPONENT && 0 <= b
                                            < self@.nodes[a].1.imports.len()
                                            && self@.nodes[a].1.imports[b].is_host
                                            && self@.nodes[a].1.imports[b].interface == x;
                                    if a == i as int && b == j as int {
                                        assert(!self@.nodes[a].1.imports[b].is_host);
                                    }
                                }
                            }
                        }
                    }
                    j = j + 1;
                }
                proof {
                    assert forall|x: Seq<char>|
                        host_iface_upto(self@, x, i as int, m as int) == host_iface_upto(
                            self@,
                            x,
                            i as int + 1,
                            0,
                        ) by {
                        if host_iface_upto(self@, x, i as int + 1, 0) {
                            let (a, b) = choose|a: int, b: int|
                                0 <= a < self@.nodes.len() && (a < i as int + 1 || (a == i as int
                                    + 1 && b < 0)) && self@.nodes[a].1.component_index
                                    != SYNTHETIC_COMPONENT && 0 <= b
                                    < self@.nodes[a].1.imports.len()
                                    && self@.nodes[a].1.imports[b].is_host
                                    && self@.nodes[a].1.imports[b].interface == x;
                            assert(a < i as int || (a == i as int && b < m as int));
                        }
                    }
                }
            } else {
                proof {
                    assert forall|x: Seq<char>|
                        host_iface_upto(self@, x, i as int, 0) == host_iface_upto(
                            self@,
                            x,
                            i as int + 1,
                            0,
                        ) by {
                        if host_iface_upto(self@, x, i as int + 1, 0) {
                            let (a, b) = choose|a: int, b: int|
                                0 <= a < self@.nodes.len() && (a < i as int + 1 || (a == i as int
                                    + 1 && b < 0)) && self@.nodes[a].1.component_index
                                    != SYNTHETIC_COMPONENT && 0 <= b
                                    < self@.nodes[a].1.imports.len()
                                    && self@.nodes[a].1.imports[b].is_host
                                    && self@.nodes[a].1.imports[b].interface == x;
                            assert(a != i as int);
                        }
                    }
                }
            }
            i = i + 1;
        }
        proof {
            assert forall|x: Seq<char>|
                host_iface_upto(self@, x, n as int, 0) == spec_is_host_interface(self@, x) by {}
            assert forall|i: int, j: int| 0 <= i < j < acc@.len() implies acc@[i]@ != acc@[j]@ by {
                let m = views_of(acc@);
                assert(crate::text::spec_str_lt(m[i], m[j]));
                crate::text::lemma_str_lt_irreflexive(m[i]);
            }
        }
        acc
    }
}

/// A dangling reference found by `validate`: either an export or a non-host
/// import references an instance index that no node carries.
#[derive(Debug)]
pub enum ValidationError {
    DanglingExport { interface: String, index: u32 },
    DanglingImport { instance: u32, interface: String, index: u32 },
}

/// A connection that must reference a tracked node but does not: it is not
/// host-classified and its recorded source index is absent from the node map.
pub open spec fn spec_bad_conn(g: GraphView, c: ConnView) -> bool {
    !c.is_host && match c.source {
        Some(s) => !g.contains_index(s),
        None => false,
    }
}

/// The position of the first export entry whose target index is absent from
/// the node map, scanning from position `k`.
pub open spec fn spec_bad_export_from(g: GraphView, k: int) -> Option<int>
    decreases g.exports.len() - k,
{
    if k < 0 || k >= g.exports.len() {
        None
    } else if !g.contains_index(g.exports[k].1) {
        Some(k)
    } else {
        spec_bad_export_from(g, k + 1)
    }
}

/// The first `(node, import)` position holding a dangling import, scanning
/// from position `(i, j)` in node order, then import order.
pub open spec fn spec_bad_import_from(g: GraphView, i: int, j: int) -> Option<(int, int)>
    decreases g.nodes.len() - i, (if 0 <= i < g.nodes.len() {
        g.nodes[i].1.imports.len() + 1 - j
    } else {
        0
    }),
{
    if i < 0 || j < 0 || i >= g.nodes.len() {
        None
    } else if j >= g.nodes[i].1.imports.len() {
        spec_bad_import_from(g, i + 1, 0)
    } else if spec_bad_conn(g, g.nodes[i].1.imports[j]) {
        Some((i, j))
    } else {
        spec_bad_import_from(g, i, j + 1)
    }
}

/// Every export and every non-host import references a tracked node.
pub open spec fn spec_graph_valid(g: GraphView) -> bool {
    (forall|k: int| 0 <= k < g.exports.len() ==> g.contains_index(#[trigger] g.exports[k].1))
        && (forall|i: int, j: int|
        0 <= i < g.nodes.len() && 0 <= j < g.nodes[i].1.imports.len() ==> !spec_bad_conn(
            g,
            #[trigger] g.nodes[i].1.imports[j],
        ))
}

/// Reclassification of one connection against the complete node map: the
/// connection is host-supplied exactly when no tracked node is its source.
pub open spec fn spec_classify_conn(g: GraphView, c: ConnView) -> ConnView {
    ConnView {
        is_host: match c.source {
            Some(s) => !g.contains_index(s),
            None => true,
        },
        ..c
    }
}

/// All of a node's imports reclassified against the complete node map.
pub open spec fn classify_imports(g: GraphView, s: Seq<ConnView>) -> Seq<ConnView> {
    s.map_values(|c: ConnView| spec_classify_conn(g, c))
}

/// The whole-graph host-classification pass, a pure function of the graph.
pub open spec fn spec_classify(g: GraphView) -> GraphView {
    GraphView {
        nodes: g.nodes.map_values(
            |p: (u32, NodeView)|
                (p.0, NodeView { imports: classify_imports(g, p.1.imports), ..p.1 }),
        ),
        exports: g.exports,
    }
}

impl CompositionGraph {
    /// Whether some node carries the given instance index.
    pub fn contains_index(&self, idx: u32) -> (r: bool)
        ensures
            r == self@.contains_index(idx),
    {
        let n = self.nodes.len();
        let mut i: usize = 0;
        while i < n
            invariant
                n == self.nodes@.len(),
                i <= n,
                forall|k: int| 0 <= k < i ==> self@.nodes[k].0 != idx,
            decreases n - i,
        {
            if self.nodes[i].0 == idx {
                proof {
                    assert(self@.nodes[i as int].0 == idx);
                }
                return true;
            }
            i = i + 1;
        }
        false
    }

    /// Checks the two reference invariants and reports the first violation
    /// found: exports in registration order first, then node imports in node
    /// order. A connection with no recorded source references nothing and is
    /// never a violation. The graph is not changed.
    pub fn validate(&self) -> (r: Result<(), ValidationError>)
        ensures
            r is Ok <==> spec_graph_valid(self@),
            match r {
                Ok(()) => spec_bad_export_from(self@, 0) is None && spec_bad_import_from(
                    self@,
                    0,
                    0,
                ) is None,
                Err(e) => match e {
                    ValidationError::DanglingExport { interface, index } => {
                        &&& spec_bad_export_from(self@, 0) is Some
                        &&& {
                            let k = spec_bad_export_from(self@, 0)->Some_0;
                            interface@ == self@.exports[k].0 && index == self@.exports[k].1
                                && !self@.contains_index(index)
                        }
                    },
                    ValidationError::DanglingImport { instance, interface, index } => {
                        &&& spec_bad_export_from(self@, 0) is None
                        &&& spec_bad_import_from(self@, 0, 0) is Some
                        &&& {
                            let (i, j) = spec_bad_import_from(self@, 0, 0)->Some_0;
                            instance == self@.nodes[i].0 && interface@
                                == self@.nodes[i].1.imports[j].interface && Some(index)
                                == self@.nodes[i].1.imports[j].source && !self@.contains_index(
                                index,
                            )
                        }
                    },
                },
            },
    {
        let ne = self.component_exports.len();
        let mut k: usize = 0;
        while k < ne
            invariant
                ne == self.component_exports@.len(),
                k <= ne,
                spec_bad_export_from(self@, 0) == spec_bad_export_from(self@, k as int),
                forall|t: int| 0 <= t < k ==> self@.contains_index(#[trigger] self@.exports[t].1),
            decreases ne - k,
        {
            let target = self.component_exports[k].1;
            if !self.contains_index(target) {
                let interface = self.component_exports[k].0.clone();
                proof {
                    assert(self@.exports[k as int] == (
                        self.component_exports@[k as int].0@,
                        self.component_exports@[k as int].1,
                    ));
                    assert(spec_bad_export_from(self@, k as int) == Some(k as int));
                }
                return Err(ValidationError::DanglingExport { interface, index: target });
            }
            k = k + 1;
        }
        proof {
            assert(spec_bad_export_from(self@, ne as int) is None);
        }
        let nn = self.nodes.len();
        let mut i: usize = 0;
        while i < nn
            invariant
                nn == self.nodes@.len(),
                i <= nn,
                spec_bad_export_from(self@, 0) is None,
                forall|t: int|
                    0 <= t < self@.exports.len() ==> self@.contains_index(
                        #[trigger] self@.exports[t].1,
                    ),
                spec_bad_import_from(self@, 0, 0) == spec_bad_import_from(self@, i as int, 0),
                forall|a: int, b: int|
                    0 <= a < i && 0 <= b < self@.nodes[a].1.imports.len() ==> !spec_bad_conn(
                        self@,
                        #[trigger] self@.nodes[a].1.imports[b],
                    ),
            decreases nn - i,
        {
            let node = &self.nodes[i].1;
            let m = node.imports.len();
            let mut j: usize = 0;
            while j < m
                invariant
                    nn == self.nodes@.len(),
                    i < nn,
                    node == &self.nodes@[i as int].1,
                    m == node.imports@.len(),
                    j <= m,
                    spec_bad_export_from(self@, 0) is None,
                    spec_bad_import_from(self@, 0, 0) == spec_bad_import_from(
                        self@,
                        i as int,
                        j as int,
                    ),
                    forall|b: int|
                        0 <= b < j ==> !spec_bad_conn(
                            self@,
                            #[trigger] self@.nodes[i as int].1.imports[b],
                        ),
                decreases m - j,
            {
                let conn = &node.imports[j];
                if !conn.is_host_import {
                    match conn.source_instance {
                        Some(s) => {
                            if !self.contains_index(s) {
                                proof {
                                    assert(self@.nodes[i as int].1.imports[j as int]
                                        == conn@);
                                    assert(spec_bad_conn(
                                        self@,
                                        self@.nodes[i as int].1.imports[j as int],
                                    ));
                                    assert(spec_bad_import_from(self@, i as int, j as int)
                                        == Some((i as int, j as int)));
                                    assert(self@.nodes[i as int].0 == self.nodes@[i as int].0);
                                }
                                let interface = conn.interface_name.clone();
                                return Err(ValidationError::DanglingImport {
                                    instance: self.nodes[i].0,
                                    interface,
                                    index: s,
                                });
                            }
                        },
                        None => {},
                    }
                }
                proof {
                    assert(!spec_bad_conn(self@, self@.nodes[i as int].1.imports[j as int]));
                }
                j = j + 1;
            }
            i = i + 1;
        }
        proof {
            assert(spec_bad_import_from(self@, nn as int, 0) is None);
            assert(spec_graph_valid(self@));
        }
        Ok(())
    }

    /// The post-build classification pass: after the node map is complete,
    /// every connection is marked host-supplied exactly when its recorded
    /// source is absent from the map (a connection with no recorded source is
    /// host-indeterminate and also marked host-supplied). Must run only once
    /// all nodes are known.
    pub fn classify_host_imports(&mut self)
        requires
            old(self).wf(),
        ensures
            final(self).wf(),
            final(self)@ == spec_classify(old(self)@),
            forall|i: int, j: int|
                0 <= i < final(self)@.nodes.len() && 0 <= j
                    < final(self)@.nodes[i].1.imports.len() ==> ((#[trigger] final(self)@.nodes[i].1.imports[j]).is_host
                    == match final(self)@.nodes[i].1.imports[j].source {
                    Some(s) => !old(self)@.contains_index(s),
                    None => true,
                }),
    {
        let ghost g0 = self@;
        let n = self.nodes.len();
        let mut new_nodes: Vec<(u32, ComponentNode)> = Vec::new();
        let mut i: usize = 0;
        while i < n
            invariant
                g0 == old(self)@,
                self@ == g0,
                n == self.nodes@.len(),
                i <= n,
                pairs_view(new_nodes@) == spec_classify(g0).nodes.subrange(0, i as int),
            decreases n - i,
        {
            let idx = self.nodes[i].0;
            let node = &self.nodes[i].1;
            let m = node.imports.len();
            let mut imports: Vec<InterfaceConnection> = Vec::new();
            let mut j: usize = 0;
            while j < m
                invariant
                    g0 == old(self)@,
                    self@ == g0,
                    n == self.nodes@.len(),
                    i < n,
                    node == &self.nodes@[i as int].1,
                    m == node.imports@.len(),
                    j <= m,
                    conns_view(imports@) == classify_imports(
                        g0,
                        g0.nodes[i as int].1.imports.subrange(0, j as int),
                    ),
                decreases m - j,
            {
                let conn = &node.imports[j];
                let host = match conn.source_instance {
                    Some(s) => !self.contains_index(s),
                    None => true,
                };
                let interface_name = conn.interface_name.clone();
                proof {
                    let src0 = g0.nodes[i as int].1.imports;
                    assert(conns_view(imports@).len() == imports@.len());
                    assert(classify_imports(g0, src0.subrange(0, j as int)).len() == j as int);
                    assert(imports@.len() == j as int);
                }
                imports.push(
                    InterfaceConnection {
                        interface_name,
                        source_instance: conn.source_instance,
                        is_host_import: host,
                    },
                );
                j = j + 1;
                proof {
                    let src = g0.nodes[i as int].1.imports;
                    assert(g0.nodes[i as int] == pairs_view(self.nodes@)[i as int]);
                    assert(g0.nodes[i as int].1 == self.nodes@[i as int].1@);
                    assert(src == conns_view(self.nodes@[i as int].1.imports@));
                    assert(src[j as int - 1] == self.nodes@[i as int].1.imports@[j as int - 1]@);
                    assert(conn@ == src[j as int - 1]);
                    assert(imports@.last()@ == spec_classify_conn(g0, src[j as int - 1]));
                    assert(imports@.len() == j);
                    assert(conns_view(imports@).len() == j);
                    assert(classify_imports(g0, src.subrange(0, j as int)).len() == j);
                    let prev = imports@.drop_last();
                    assert(conns_view(prev) == classify_imports(
                        g0,
                        src.subrange(0, j as int - 1),
                    ));
                    assert forall|t: int| 0 <= t < j implies conns_view(imports@)[t]
                        == classify_imports(g0, src.subrange(0, j as int))[t] by {
                        assert(conns_view(imports@)[t] == imports@[t]@);
                        assert(classify_imports(g0, src.subrange(0, j as int))[t]
                            == spec_classify_conn(g0, src.subrange(0, j as int)[t]));
                        if t < j - 1 {
                            assert(imports@[t] == prev[t]);
                            assert(conns_view(prev)[t] == prev[t]@);
                            assert(classify_imports(g0, src.subrange(0, j as int - 1))[t]
                                == spec_classify_conn(g0, src[t]));
                        } else {
                            assert(imports@[t] == imports@.last());
                        }
                    }
                    assert(conns_view(imports@) =~= classify_imports(
                        g0,
                        src.subrange(0, j as int),
                    ));
                }
            }
            proof {
                assert(g0.nodes[i as int].1.imports.subrange(0, m as int) =~= g0.nodes[
                i as int].1.imports);
            }
            let name = node.name.clone();
            let component_index = node.component_index;
            new_nodes.push((idx, ComponentNode { name, component_index, imports }));
            i = i + 1;
            proof {
                assert(spec_classify(g0).nodes.subrange(0, i as int).drop_last()
                    =~= spec_classify(g0).nodes.subrange(0, i as int - 1));
                assert(spec_classify(g0).nodes[i as int - 1] == (
                    g0.nodes[i as int - 1].0,
                    NodeView {
                        imports: classify_imports(g0, g0.nodes[i as int - 1].1.imports),
                        ..g0.nodes[i as int - 1].1
                    },
                ));
                assert(pairs_view(new_nodes@) =~= spec_classify(g0).nodes.subrange(0, i as int));
            }
        }
        self.nodes = new_nodes;
        proof {
            assert(spec_classify(g0).nodes.subrange(0, n as int) =~= spec_classify(g0).nodes);
            assert(self@ =~= spec_classify(g0));
            assert(nodes_sorted(self@.nodes)) by {
                assert(forall|t: int|
                    0 <= t < self@.nodes.len() ==> #[trigger] self@.nodes[t].0 == g0.nodes[t].0);
            }
        }
    }
}

/// The position of the last occurrence of `c` in `s`, if any.
pub open spec fn spec_rfind(s: Seq<char>, c: char) -> Option<int>
    decreases s.len(),
{
    if s.len() == 0 {
        None
    } else if s[s.len() - 1] == c {
        Some(s.len() - 1)
    } else {
        spec_rfind(s.drop_last(), c)
    }
}

/// The position of the first occurrence of `c` in `s`, if any.
pub open spec fn spec_find(s: Seq<char>, c: char) -> Option<int>
    decreases s.len(),
{
    if s.len() == 0 {
        None
    } else if s[0] == c {
        Some(0)
    } else {
        match spec_find(s.drop_first(), c) {
            Some(i) => Some(i + 1),
            None => None,
        }
    }
}

proof fn lemma_rfind_none(s: Seq<char>, c: char)
    requires
        forall|k: int| 0 <= k < s.len() ==> s[k] != c,
    ensures
        spec_rfind(s, c) is None,
    decreases s.len(),
{
    if s.len() > 0 {
        lemma_rfind_none(s.drop_last(), c);
    }
}

proof fn lemma_rfind_some(s: Seq<char>, c: char, i: int)
    requires
        0 <= i < s.len(),
        s[i] == c,
        forall|k: int| i < k < s.len() ==> s[k] != c,
    ensures
        spec_rfind(s, c) == Some(i),
    decreases s.len(),
{
    if i == s.len() - 1 {
    } else {
        lemma_rfind_some(s.drop_last(), c, i);
    }
}

proof fn lemma_find_none(s: Seq<char>, c: char)
    requires
        forall|k: int| 0 <= k < s.len() ==> s[k] != c,
    ensures
        spec_find(s, c) is None,
    decreases s.len(),
{
    if s.len() > 0 {
        lemma_find_none(s.drop_first(), c);
    }
}

proof fn lemma_find_some(s: Seq<char>, c: char, i: int)
    requires
        0 <= i < s.len(),
        s[i] == c,
        forall|k: int| 0 <= k < i ==> s[k] != c,
    ensures
        spec_find(s, c) == Some(i),
    decreases s.len(),
{
    if i == 0 {
    } else {
        lemma_find_some(s.drop_first(), c, i - 1);
    }
}

/// The short form of a fully qualified interface name: the segment after the
/// last `/`, cut before the first following `@`; the whole name when it has
/// no `/`.
pub open spec fn spec_short_name(s: Seq<char>) -> Seq<char> {
    match spec_rfind(s, '/') {
        Some(p) => {
            let after = s.subrange(p + 1, s.len() as int);
            match spec_find(after, '@') {
                Some(a) => after.subrange(0, a),
                None => after,
            }
        },
        None => s,
    }
}

/// Extract a short interface name from a full interface path.
pub fn short_interface_name(full_name: &str) -> (r: String)
    ensures
        r@ == spec_short_name(full_name@),
{
    let v = chars_vec(full_name);
    let n = v.len();
    let mut slash: Option<usize> = None;
    let mut i: usize = 0;
    while i < n
        invariant
            n == v@.len(),
            v@ == full_name@,
            i <= n,
            match slash {
                None => forall|k: int| 0 <= k < i ==> v@[k] != '/',
                Some(p) => p < i && v@[p as int] == '/' && forall|k: int|
                    p < k < i ==> v@[k] != '/',
            },
        decreases n - i,
    {
        if v[i] == '/' {
            slash = Some(i);
        }
        i = i + 1;
    }
    match slash {
        None => {
            proof {
                lemma_rfind_none(full_name@, '/');
            }
            let mut r = String::new();
            r.append(full_name);
            r
        },
        Some(p) => {
            proof {
                lemma_rfind_some(full_name@, '/', p as int);
            }
            let ghost after = full_name@.subrange(p + 1, n as int);
            let mut at: Option<usize> = None;
            let mut j: usize = p + 1;
            while j < n
                invariant
                    n == v@.len(),
                    v@ == full_name@,
                    p < n,
                    p + 1 <= j <= n,
                    after == full_name@.subrange(p + 1, n as int),
                    match at {
                        None => forall|k: int| p + 1 <= k < j ==> v@[k] != '@',
                        Some(q) => p + 1 <= q < j && v@[q as int] == '@' && at == Some(q)
                            && forall|k: int| p + 1 <= k < q ==> v@[k] != '@',
                    },
                decreases n - j,
            {
                if v[j] == '@' {
                    if at.is_none() {
                        at = Some(j);
                    }
                } else {
                }
                j = j + 1;
            }
            match at {
                Some(q) => {
                    proof {
                        assert(forall|k: int|
                            0 <= k < after.len() ==> after[k] == full_name@[p + 1 + k]);
                        lemma_find_some(after, '@', q - (p + 1));
                    }
                    let piece = full_name.substring_char(p + 1, q);
                    proof {
                        assert(piece@ =~= after.subrange(0, q - (p + 1)));
                    }
                    let mut r = String::new();
                    r.append(piece);
                    r
                },
                None => {
                    proof {
                        assert(forall|k: int|
                            0 <= k < after.len() ==> after[k] == full_name@[p + 1 + k]);
                        lemma_find_none(after, '@');
                    }
                    let piece = full_name.substring_char(p + 1, n);
                    proof {
                        assert(piece@ =~= after);
                    }
                    let mut r = String::new();
                    r.append(piece);
                    r
                },
            }
        },
    }
}

/// Whether a character counts as alphanumeric for diagram identifiers.
pub uninterp spec fn spec_alphanumeric(c: char) -> bool;

/// Relies on `char::is_alphanumeric`: the result depends on the character
/// alone (a fixed Unicode property).
#[verifier::external_body]
fn char_is_alphanumeric(c: char) -> (r: bool)
    ensures
        r == spec_alphanumeric(c),
{
    c.is_alphanumeric()
}

/// An alphanumeric character or `_` is kept; anything else becomes `_`.
pub open spec fn spec_keep_char(c: char) -> char {
    if spec_alphanumeric(c) || c == '_' {
        c
    } else {
        '_'
    }
}

/// A string made safe for use as a diagram node identifier: every character
/// outside `[alphanumeric, _]` is replaced by `_`, then leading `_` are
/// dropped.
pub open spec fn spec_sanitized(s: Seq<char>) -> Seq<char> {
    spec_drop_leading(s.map_values(|c: char| spec_keep_char(c)), '_')
}

/// Sanitize a string for use as a diagram node identifier.
pub fn sanitize_for_mermaid(s: &str) -> (r: String)
    ensures
        r@ == spec_sanitized(s@),
{
    let v = chars_vec(s);
    let n = v.len();
    let mut mapped: Vec<char> = Vec::new();
    let mut i: usize = 0;
    while i < n
        invariant
            n == v@.len(),
            v@ == s@,
            i <= n,
            mapped@ == s@.subrange(0, i as int).map_values(|c: char| spec_keep_char(c)),
        decreases n - i,
    {
        let c = v[i];
        if char_is_alphanumeric(c) || c == '_' {
            mapped.push(c);
        } else {
            mapped.push('_');
        }
        i = i + 1;
        proof {
            assert(mapped@ =~= s@.subrange(0, i as int).map_values(|c: char| spec_keep_char(c)));
        }
    }
    proof {
        assert(s@.subrange(0, n as int) =~= s@);
    }
    let k = count_leading(&mapped, '_');
    let mut out: Vec<char> = Vec::new();
    let mut j: usize = k;
    while j < mapped.len()
        invariant
            k <= j <= mapped@.len(),
            out@ == mapped@.subrange(k as int, j as int),
        decreases mapped@.len() - j,
    {
        out.push(mapped[j]);
        j = j + 1;
        proof {
            assert(out@ =~= mapped@.subrange(k as int, j as int));
        }
    }
    proof {
        assert(out@ =~= mapped@.skip(k as int));
    }
    string_from_chars(&out)
}

} // verus!
